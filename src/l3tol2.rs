//! From order-log records to price-level events.
//!
//! Records outside the matching system are dropped, the rest grouped into
//! transactions, transactions of immediate-or-kill and fill-or-kill orders
//! that did not trade are dropped, and each remaining transaction is
//! converted into canonical actions and applied to a book. A transaction
//! that opens a new session clears the book instead.

use vstd::prelude::*;

use crate::moex2conv::{lemma_take_last, moex_to_l3, spec_moex_to_l3};
use crate::orderbook::{
    book_add, book_cancel, book_trade, fiok_with_trades, spec_fiok_with_trades, spec_non_system_record,
    system_record, BookModel, LevelModel, OrderBook, Partition,
};
use crate::types::{has16, L2Message, L3Message, OLFlags, OrderLog};
use crate::{ErrorKind, QshError};

verus! {

/// What one canonical action does to a book.
pub open spec fn apply_msg(b: BookModel, m: L3Message) -> Result<(BookModel, L2Message), ErrorKind> {
    match m {
        L3Message::Add(r) => book_add(b, r),
        L3Message::Cancel(r) => book_cancel(b, r),
        L3Message::Trade(r) => book_trade(b, r),
    }
}

/// Applies the actions in turn: the book after the last one that succeeded,
/// their events, and the error that stopped the run, if any.
pub open spec fn apply_all(b: BookModel, ms: Seq<L3Message>) -> (BookModel, Seq<L2Message>, Option<ErrorKind>)
    decreases ms.len(),
{
    if ms.len() == 0 {
        (b, Seq::empty(), None)
    } else {
        let (b1, ev, e) = apply_all(b, ms.drop_last());
        if e is Some {
            (b1, ev, e)
        } else {
            match apply_msg(b1, ms.last()) {
                Err(k) => (b1, ev, Some(k)),
                Ok((b2, m)) => (b2, ev.push(m), None),
            }
        }
    }
}

/// A transaction translated and applied to a book: the new book and the
/// events, or the error.
pub open spec fn spec_process(b: BookModel, tx: Seq<OrderLog>) -> (BookModel, Result<Seq<L2Message>, ErrorKind>) {
    match spec_moex_to_l3(tx) {
        Err(k) => (b, Err(k)),
        Ok(ms) => {
            let (b2, ev, e) = apply_all(b, ms);
            (b2, match e {
                Some(k) => Err(k),
                None => Ok(ev),
            })
        },
    }
}

pub open spec fn cleared(b: BookModel) -> BookModel {
    BookModel { bids: Seq::empty(), asks: Seq::empty(), timestamp: b.timestamp }
}

/// One transaction: when its first record opens a new session the book is
/// cleared and the only event is `Clear`; otherwise it is processed.
pub open spec fn spec_step(b: BookModel, tx: Seq<OrderLog>) -> (BookModel, Result<Seq<L2Message>, ErrorKind>) {
    if has16(tx[0].order_flags, OLFlags::NEW_SESSION) {
        (cleared(b), Ok(seq![L2Message::Clear]))
    } else {
        spec_process(b, tx)
    }
}

/// The book, the records of the transaction still open, and whether a
/// transaction has failed.
pub type ConvState = (BookModel, Seq<OrderLog>, bool);

/// One record fed to the pipeline, and the outcome of the transaction that
/// it closes, if one is closed and kept. After a failed transaction nothing
/// more is taken.
pub open spec fn spec_feed(st: ConvState, rec: OrderLog) -> (ConvState, Option<Result<Seq<L2Message>, ErrorKind>>) {
    if st.2 || spec_non_system_record(rec) {
        (st, None)
    } else if !has16(rec.order_flags, OLFlags::TX_END) {
        ((st.0, st.1.push(rec), false), None)
    } else {
        let tx = st.1.push(rec);
        if !spec_fiok_with_trades(tx) {
            ((st.0, Seq::empty(), false), None)
        } else {
            let (b2, out) = spec_step(st.0, tx);
            ((b2, Seq::empty(), out is Err), Some(out))
        }
    }
}

/// The records fed in turn: the final state and the outcomes.
pub open spec fn spec_feed_all(st: ConvState, recs: Seq<OrderLog>) -> (ConvState, Seq<Result<Seq<L2Message>, ErrorKind>>)
    decreases recs.len(),
{
    if recs.len() == 0 {
        (st, Seq::empty())
    } else {
        let (st1, outs) = spec_feed_all(st, recs.drop_last());
        let (st2, o) = spec_feed(st1, recs.last());
        (st2, match o {
            Some(x) => outs.push(x),
            None => outs,
        })
    }
}

pub open spec fn result_view(r: Result<Vec<L2Message>, QshError>) -> Result<Seq<L2Message>, ErrorKind> {
    match r {
        Ok(v) => Ok(v@),
        Err(e) => Err(e.kind()),
    }
}

/// A transaction whose first record opens a new session leaves both sides
/// of the book empty, whatever they held, and gives `Clear` alone.
pub proof fn lemma_new_session_clears(b: BookModel, tx: Seq<OrderLog>)
    requires
        tx.len() > 0,
        has16(tx[0].order_flags, OLFlags::NEW_SESSION),
    ensures
        spec_step(b, tx).0.bids.len() == 0,
        spec_step(b, tx).0.asks.len() == 0,
        spec_step(b, tx).1 == Ok::<Seq<L2Message>, ErrorKind>(seq![L2Message::Clear]),
{
}

proof fn lemma_apply_err(b: BookModel, p: Seq<L3Message>, i: int)
    requires
        0 <= i <= p.len(),
        apply_all(b, p.take(i)).2 is Some,
    ensures
        apply_all(b, p) == apply_all(b, p.take(i)),
    decreases p.len() - i,
{
    if i < p.len() {
        lemma_take_last(p, i);
        lemma_apply_err(b, p, i + 1);
    } else {
        assert(p.take(i) =~= p);
    }
}

/// The pipeline from order-log records to price-level events.
pub struct L3L2Converter {
    book: OrderBook,
    partition: Partition,
    depth: usize,
    failed: bool,
}

impl L3L2Converter {
    /// The book that the pipeline maintains.
    pub closed spec fn book_view(&self) -> BookModel {
        self.book@
    }

    /// The records of the transaction still open.
    pub closed spec fn pending(&self) -> Seq<OrderLog> {
        self.partition@
    }

    /// Whether a transaction has failed, which ends the run.
    pub closed spec fn has_failed(&self) -> bool {
        self.failed
    }

    pub closed spec fn spec_depth(&self) -> usize {
        self.depth
    }

    pub closed spec fn wf(&self) -> bool {
        self.book.wf()
    }

    /// An empty book and no open transaction. `depth` is kept for callers
    /// that want snapshots of that many levels.
    pub fn new(depth: usize) -> (c: L3L2Converter)
        ensures
            c.wf(),
            c.spec_depth() == depth,
            c.book_view().bids.len() == 0,
            c.book_view().asks.len() == 0,
            c.book_view().timestamp == 0,
            c.pending().len() == 0,
            !c.has_failed(),
    {
        L3L2Converter { book: OrderBook::new(), partition: Partition::new(), depth, failed: false }
    }

    /// The snapshot depth given at construction.
    pub fn depth(&self) -> (d: usize)
        ensures
            d == self.spec_depth(),
    {
        self.depth
    }

    /// The book that the pipeline maintains.
    pub fn book(&self) -> (b: &OrderBook)
        ensures
            b@ == self.book_view(),
            b.wf() == self.wf(),
    {
        &self.book
    }

    /// Converts a transaction into canonical actions and applies them in
    /// turn; the events of all of them, or the first error. After an error
    /// the book stays as the last successful action left it.
    pub fn process(&mut self, tx: Vec<OrderLog>) -> (r: Result<Vec<L2Message>, QshError>)
        requires
            old(self).wf(),
        ensures
            final(self).wf(),
            final(self).pending() == old(self).pending(),
            final(self).has_failed() == old(self).has_failed(),
            final(self).book_view() == spec_process(old(self).book_view(), tx@).0,
            result_view(r) == spec_process(old(self).book_view(), tx@).1,
    {
        let ghost b0 = self.book@;
        let ms = match moex_to_l3(tx) {
            Ok(ms) => ms,
            Err(e) => return Err(e),
        };
        let mut events: Vec<L2Message> = Vec::new();
        let mut i: usize = 0;
        proof {
            assert(ms@.take(0) =~= Seq::<L3Message>::empty());
            assert(events@ =~= Seq::<L2Message>::empty());
        }
        while i < ms.len()
            invariant
                i <= ms@.len(),
                self.book.wf(),
                b0 == old(self).book@,
                self.partition@ == old(self).partition@,
                self.failed == old(self).failed,
                spec_process(b0, tx@) == ({
                    let (b2, ev, e) = apply_all(b0, ms@);
                    (b2, match e {
                        Some(k) => Err(k),
                        None => Ok(ev),
                    })
                }),
                apply_all(b0, ms@.take(i as int)) == (self.book@, events@, None::<ErrorKind>),
            decreases ms@.len() - i,
        {
            proof {
                lemma_take_last(ms@, i as int);
            }
            let ghost bi = self.book@;
            let ghost ei = events@;
            let r = match ms[i] {
                L3Message::Add(rec) => self.book.add(rec, &mut events),
                L3Message::Cancel(rec) => self.book.cancel(rec, &mut events),
                L3Message::Trade(rec) => self.book.trade(rec, &mut events),
            };
            match r {
                Err(e) => {
                    proof {
                        let k = apply_msg(bi, ms@[i as int])->Err_0;
                        assert(apply_msg(bi, ms@[i as int]) is Err);
                        assert(e.kind() == k);
                        assert(self.book@ == bi && events@ == ei);
                        assert(apply_all(b0, ms@.take(i + 1)) == (bi, ei, Some(k)));
                        lemma_apply_err(b0, ms@, i + 1);
                    }
                    return Err(e);
                },
                Ok(()) => {},
            }
            i = i + 1;
        }
        proof {
            assert(ms@.take(ms@.len() as int) =~= ms@);
        }
        Ok(events)
    }

    /// Handles one transaction: a transaction whose first record opens a new
    /// session clears the book and gives `Clear`; any other is processed.
    pub fn next(&mut self, tx: Vec<OrderLog>) -> (r: Result<Vec<L2Message>, QshError>)
        requires
            old(self).wf(),
            tx@.len() > 0,
        ensures
            final(self).wf(),
            final(self).pending() == old(self).pending(),
            final(self).has_failed() == old(self).has_failed(),
            final(self).book_view() == spec_step(old(self).book_view(), tx@).0,
            result_view(r) == spec_step(old(self).book_view(), tx@).1,
            has16(tx@[0].order_flags, OLFlags::NEW_SESSION) ==> final(self).book_view().bids.len() == 0
                && final(self).book_view().asks.len() == 0 && (r matches Ok(v) && v@ == seq![L2Message::Clear]),
    {
        if tx[0].order_flags & OLFlags::NEW_SESSION != 0 {
            self.book.clear();
            let v = vec![L2Message::Clear];
            proof {
                assert(v@ =~= seq![L2Message::Clear]);
                assert(self.book@.bids =~= Seq::<LevelModel>::empty());
                assert(self.book@.asks =~= Seq::<LevelModel>::empty());
            }
            Ok(v)
        } else {
            self.process(tx)
        }
    }

    /// Feeds one record. Gives the outcome of the transaction that the
    /// record closes, unless the record or the transaction is dropped. Once
    /// a transaction has failed, every later record gives `None`.
    pub fn push(&mut self, rec: OrderLog) -> (r: Option<Result<Vec<L2Message>, QshError>>)
        requires
            old(self).wf(),
        ensures
            final(self).wf(),
            (final(self).book_view(), final(self).pending(), final(self).has_failed()) == spec_feed(
                (old(self).book_view(), old(self).pending(), old(self).has_failed()),
                rec,
            ).0,
            match spec_feed((old(self).book_view(), old(self).pending(), old(self).has_failed()), rec).1 {
                None => r is None,
                Some(o) => r matches Some(x) && result_view(x) == o,
            },
            old(self).has_failed() ==> r is None,
            final(self).has_failed() == (old(self).has_failed() || r matches Some(Err(_))),
    {
        if self.failed || !system_record(&rec) {
            return None;
        }
        match self.partition.push(rec) {
            None => None,
            Some(tx) => {
                if fiok_with_trades(&tx) {
                    let out = self.next(tx);
                    if out.is_err() {
                        self.failed = true;
                    }
                    Some(out)
                } else {
                    None
                }
            },
        }
    }
}

/// Runs the whole pipeline over `input`: the outcome of each transaction
/// that is closed and kept, in order, up to and including the first error.
/// A trailing transaction without its closing record gives nothing.
pub fn convert(input: Vec<OrderLog>, depth: usize) -> (r: Vec<Result<Vec<L2Message>, QshError>>)
    ensures
        r@.map_values(|x: Result<Vec<L2Message>, QshError>| result_view(x)) == spec_feed_all(
            (BookModel { bids: Seq::empty(), asks: Seq::empty(), timestamp: 0 }, Seq::empty(), false),
            input@,
        ).1,
        forall|j: int| 0 <= j < r@.len() - 1 ==> (#[trigger] r@[j]) is Ok,
{
    let mut c = L3L2Converter::new(depth);
    let ghost st0 = (c.book_view(), c.pending(), c.has_failed());
    proof {
        assert(st0.0.bids =~= Seq::<LevelModel>::empty());
        assert(st0.0.asks =~= Seq::<LevelModel>::empty());
        assert(st0.1 =~= Seq::<OrderLog>::empty());
        assert(input@.take(0) =~= Seq::<OrderLog>::empty());
    }
    let mut out: Vec<Result<Vec<L2Message>, QshError>> = Vec::new();
    let mut i: usize = 0;
    while i < input.len()
        invariant
            i <= input@.len(),
            c.wf(),
            st0 == (BookModel { bids: Seq::empty(), asks: Seq::empty(), timestamp: 0 }, Seq::<OrderLog>::empty(), false),
            spec_feed_all(st0, input@.take(i as int)) == ((c.book_view(), c.pending(), c.has_failed()), out@.map_values(
                |x: Result<Vec<L2Message>, QshError>| result_view(x),
            )),
            c.has_failed() == (out@.len() > 0 && out@.last() is Err),
            forall|j: int| 0 <= j < out@.len() - 1 ==> (#[trigger] out@[j]) is Ok,
        decreases input@.len() - i,
    {
        proof {
            lemma_take_last(input@, i as int);
        }
        let ghost before = out@;
        match c.push(input[i]) {
            Some(x) => {
                out.push(x);
                proof {
                    assert(out@.map_values(|x: Result<Vec<L2Message>, QshError>| result_view(x)) =~= before.map_values(
                        |x: Result<Vec<L2Message>, QshError>| result_view(x),
                    ).push(result_view(x)));
                    assert forall|j: int| 0 <= j < out@.len() - 1 implies (#[trigger] out@[j]) is Ok by {
                        assert(out@[j] == before[j]);
                    }
                }
            },
            None => {},
        }
        i = i + 1;
    }
    proof {
        assert(input@.take(input@.len() as int) =~= input@);
    }
    out
}

} // verus!

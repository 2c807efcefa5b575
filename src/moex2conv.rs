//! Conversion of MOEX order-log transactions into canonical order-level
//! actions.
//!
//! MOEX reports an aggressing order as an add followed by fills that name
//! the resting orders it hit, and the aggressor's own fills. Within one
//! transaction the records are cut into chunks: plain orders, and runs of
//! aggressor adds with their fills. Each chunk then becomes `Add`, `Cancel`
//! and `Trade` messages that a book can apply directly.

use vstd::prelude::*;

use crate::orderbook::{copy_orders, fits_i64, order_pos, OrderBook};
use crate::types::{msg_type_of, order_type_of, L3Message, OLMsgType, OrderLog, OrderType};
use crate::{error_of, ErrorKind, QshError};

verus! {

/// A piece of a transaction.
#[derive(Debug, Clone)]
pub enum Chunk {
    /// A plain order record: a resting add or a cancellation.
    Order(OrderLog),
    /// Aggressor adds, and the fills that they caused.
    Trades(Vec<OrderLog>, Vec<OrderLog>),
}

/// A chunk as mathematical values.
pub enum ChunkModel {
    Order(OrderLog),
    Trades(Seq<OrderLog>, Seq<OrderLog>),
}

impl View for Chunk {
    type V = ChunkModel;

    open spec fn view(&self) -> ChunkModel {
        match self {
            Chunk::Order(r) => ChunkModel::Order(*r),
            Chunk::Trades(s, t) => ChunkModel::Trades(s@, t@),
        }
    }
}

pub open spec fn chunks_view(v: Seq<Chunk>) -> Seq<ChunkModel> {
    v.map_values(|c: Chunk| c@)
}

// ---------------------------------------------------------------- chunks

pub open spec fn is_fill(r: OrderLog) -> bool {
    msg_type_of(r) == OLMsgType::Fill
}

/// Some record of the transaction is a fill.
pub open spec fn has_fill(tx: Seq<OrderLog>) -> bool {
    exists|j: int| 0 <= j < tx.len() && is_fill(#[trigger] tx[j])
}

/// Some fill of the transaction names the order `id`.
pub open spec fn fill_id(tx: Seq<OrderLog>, id: i64) -> bool {
    exists|j: int| 0 <= j < tx.len() && is_fill(#[trigger] tx[j]) && tx[j].order_id == id
}

/// In a transaction without fills, a record is kept unless it is a removal
/// or an immediate-or-kill or fill-or-kill order.
pub open spec fn keep_plain(r: OrderLog) -> bool {
    msg_type_of(r) != OLMsgType::Remove && order_type_of(r.order_flags) != OrderType::IOK
        && order_type_of(r.order_flags) != OrderType::FOK
}

pub open spec fn plain_chunks(tx: Seq<OrderLog>) -> Seq<ChunkModel>
    decreases tx.len(),
{
    if tx.len() == 0 {
        Seq::empty()
    } else if keep_plain(tx.last()) {
        plain_chunks(tx.drop_last()).push(ChunkModel::Order(tx.last()))
    } else {
        plain_chunks(tx.drop_last())
    }
}

/// The chunks so far, with the aggressor adds and fills not yet closed.
pub type ChunkState = (Seq<ChunkModel>, Seq<OrderLog>, Seq<OrderLog>);

/// Closes the open run of aggressor adds and fills, if it holds any.
pub open spec fn flush(st: ChunkState) -> Seq<ChunkModel> {
    if st.1.len() + st.2.len() > 0 {
        st.0.push(ChunkModel::Trades(st.1, st.2))
    } else {
        st.0
    }
}

/// One record of a transaction with fills: an add that some fill names
/// joins the aggressors, a fill joins the fills, a removal of an
/// immediate-or-kill order is dropped, and anything else closes the open
/// run and stands as a chunk of its own if it is a limit order.
pub open spec fn chunk_step(tx: Seq<OrderLog>, st: ChunkState, r: OrderLog) -> Result<ChunkState, ErrorKind> {
    let m = msg_type_of(r);
    let t = order_type_of(r.order_flags);
    if m == OLMsgType::Add && fill_id(tx, r.order_id) {
        Ok((st.0, st.1.push(r), st.2))
    } else if m == OLMsgType::Fill {
        Ok((st.0, st.1, st.2.push(r)))
    } else if m == OLMsgType::Remove {
        if t == OrderType::IOK {
            Ok(st)
        } else {
            Err(ErrorKind::Validation)
        }
    } else {
        let cs = flush(st);
        Ok((if t == OrderType::Limit { cs.push(ChunkModel::Order(r)) } else { cs }, Seq::empty(), Seq::empty()))
    }
}

/// `chunk_step` over the records of `p`, a prefix of `tx`.
pub open spec fn chunk_fold(tx: Seq<OrderLog>, p: Seq<OrderLog>) -> Result<ChunkState, ErrorKind>
    decreases p.len(),
{
    if p.len() == 0 {
        Ok((Seq::empty(), Seq::empty(), Seq::empty()))
    } else {
        match chunk_fold(tx, p.drop_last()) {
            Err(k) => Err(k),
            Ok(st) => chunk_step(tx, st, p.last()),
        }
    }
}

/// The chunks of a transaction.
pub open spec fn spec_chunks(tx: Seq<OrderLog>) -> Result<Seq<ChunkModel>, ErrorKind> {
    if !has_fill(tx) {
        Ok(plain_chunks(tx))
    } else {
        match chunk_fold(tx, tx) {
            Err(k) => Err(k),
            Ok(st) => Ok(flush(st)),
        }
    }
}

// ---------------------------------------------------------------- L3

/// `s` with `x` placed after the last element whose id is not above its
/// own, counting from the end: one step of a stable insertion sort.
pub open spec fn insert_by_id(s: Seq<OrderLog>, x: OrderLog) -> Seq<OrderLog>
    decreases s.len(),
{
    if s.len() == 0 {
        seq![x]
    } else if s.last().order_id <= x.order_id {
        s.push(x)
    } else {
        insert_by_id(s.drop_last(), x).push(s.last())
    }
}

/// The orders sorted by id; orders with equal ids keep their order.
pub open spec fn sort_by_id(s: Seq<OrderLog>) -> Seq<OrderLog>
    decreases s.len(),
{
    if s.len() == 0 {
        Seq::empty()
    } else {
        insert_by_id(sort_by_id(s.drop_last()), s.last())
    }
}

/// One fill against the aggressors: a fill of an aggressor takes its amount
/// from that aggressor's amount and rest, which must cover it; a fill of
/// another order is a trade against the book. With `check`, anything but a
/// fill is refused.
pub open spec fn fill_step(srcs: Seq<OrderLog>, acts: Seq<L3Message>, r: OrderLog, check: bool) -> Result<(Seq<OrderLog>, Seq<L3Message>), ErrorKind> {
    if check && !is_fill(r) {
        Err(ErrorKind::Validation)
    } else {
        let k = order_pos(srcs, r.order_id);
        if k < srcs.len() {
            let a = srcs[k];
            if a.amount < r.amount || a.amount_rest < r.amount {
                Err(ErrorKind::InvalidState)
            } else if !fits_i64(a.amount - r.amount) || !fits_i64(a.amount_rest - r.amount) {
                Err(ErrorKind::Overflow)
            } else {
                Ok((srcs.update(k, OrderLog {
                    amount: (a.amount - r.amount) as i64,
                    amount_rest: (a.amount_rest - r.amount) as i64,
                    ..a
                }), acts))
            }
        } else {
            Ok((srcs, acts.push(L3Message::Trade(r))))
        }
    }
}

pub open spec fn fill_fold(srcs: Seq<OrderLog>, tgt: Seq<OrderLog>, check: bool) -> Result<(Seq<OrderLog>, Seq<L3Message>), ErrorKind>
    decreases tgt.len(),
{
    if tgt.len() == 0 {
        Ok((srcs, Seq::empty()))
    } else {
        match fill_fold(srcs, tgt.drop_last(), check) {
            Err(k) => Err(k),
            Ok((s, a)) => fill_step(s, a, tgt.last(), check),
        }
    }
}

pub open spec fn rests_limit(r: OrderLog) -> bool {
    r.amount_rest > 0 && order_type_of(r.order_flags) == OrderType::Limit
}

/// The aggressors left with a rest that are limit orders, added with their
/// amount set to that rest.
pub open spec fn rest_adds(srcs: Seq<OrderLog>) -> Seq<L3Message>
    decreases srcs.len(),
{
    if srcs.len() == 0 {
        Seq::empty()
    } else if rests_limit(srcs.last()) {
        rest_adds(srcs.drop_last()).push(L3Message::Add(OrderLog { amount: srcs.last().amount_rest, ..srcs.last() }))
    } else {
        rest_adds(srcs.drop_last())
    }
}

/// The messages of a run of aggressors and fills. One aggressor: a negative
/// amount or rest is refused, its own fills shrink it, the others are trades, and a limit aggressor with a rest
/// is added. Several: the same against the aggressors sorted by id, and
/// each limit aggressor with a rest is added at that rest; aggressors filled
/// in full never reach the book.
pub open spec fn trades_to_l3(src: Seq<OrderLog>, tgt: Seq<OrderLog>) -> Result<Seq<L3Message>, ErrorKind> {
    if src.len() == 1 {
        if src[0].amount < 0 || src[0].amount_rest < 0 {
            Err(ErrorKind::InvalidState)
        } else {
        match fill_fold(src, tgt, false) {
            Err(k) => Err(k),
            Ok((s, a)) => Ok(if rests_limit(s[0]) { a.push(L3Message::Add(s[0])) } else { a }),
        }
        }
    } else {
        match fill_fold(sort_by_id(src), tgt, true) {
            Err(k) => Err(k),
            Ok((s, a)) => Ok(a + rest_adds(s)),
        }
    }
}

pub open spec fn spec_chunk_to_l3(c: ChunkModel) -> Result<Seq<L3Message>, ErrorKind> {
    match c {
        ChunkModel::Order(r) => if msg_type_of(r) == OLMsgType::Add {
            Ok(seq![L3Message::Add(r)])
        } else if msg_type_of(r) == OLMsgType::Cancel {
            Ok(seq![L3Message::Cancel(r)])
        } else {
            Err(ErrorKind::Validation)
        },
        ChunkModel::Trades(s, t) => trades_to_l3(s, t),
    }
}

/// The messages of all chunks in turn, or the first error.
pub open spec fn l3_of_chunks(cs: Seq<ChunkModel>) -> Result<Seq<L3Message>, ErrorKind>
    decreases cs.len(),
{
    if cs.len() == 0 {
        Ok(Seq::empty())
    } else {
        match l3_of_chunks(cs.drop_last()) {
            Err(k) => Err(k),
            Ok(a) => match spec_chunk_to_l3(cs.last()) {
                Err(k) => Err(k),
                Ok(b) => Ok(a + b),
            },
        }
    }
}

pub open spec fn spec_moex_to_l3(tx: Seq<OrderLog>) -> Result<Seq<L3Message>, ErrorKind> {
    match spec_chunks(tx) {
        Err(k) => Err(k),
        Ok(cs) => l3_of_chunks(cs),
    }
}

// ---------------------------------------------------------------- lemmas

proof fn lemma_insert_by_id(s: Seq<OrderLog>, x: OrderLog, j: int)
    requires
        0 <= j <= s.len(),
        forall|k: int| j <= k < s.len() ==> (#[trigger] s[k]).order_id > x.order_id,
        j > 0 ==> s[j - 1].order_id <= x.order_id,
    ensures
        insert_by_id(s, x) == s.insert(j, x),
    decreases s.len(),
{
    if s.len() == 0 {
        assert(s.insert(j, x) =~= seq![x]);
    } else if s.last().order_id <= x.order_id {
        assert(s.insert(j, x) =~= s.push(x));
    } else {
        let d = s.drop_last();
        assert forall|k: int| j <= k < d.len() implies (#[trigger] d[k]).order_id > x.order_id by {
            assert(d[k] == s[k]);
        }
        lemma_insert_by_id(d, x, j);
        assert(d.insert(j, x).push(s.last()) =~= s.insert(j, x));
    }
}

pub(crate) proof fn lemma_take_last<T>(s: Seq<T>, i: int)
    requires
        0 <= i < s.len(),
    ensures
        s.take(i + 1).drop_last() == s.take(i),
        s.take(i + 1).last() == s[i],
        s.take(i + 1).len() == i + 1,
{
    assert(s.take(i + 1).drop_last() =~= s.take(i));
}

proof fn lemma_chunk_fold_err(tx: Seq<OrderLog>, p: Seq<OrderLog>, i: int)
    requires
        0 <= i <= p.len(),
        chunk_fold(tx, p.take(i)) is Err,
    ensures
        chunk_fold(tx, p) == chunk_fold(tx, p.take(i)),
    decreases p.len() - i,
{
    if i < p.len() {
        lemma_take_last(p, i);
        lemma_chunk_fold_err(tx, p, i + 1);
    } else {
        assert(p.take(i) =~= p);
    }
}

proof fn lemma_fill_fold_err(srcs: Seq<OrderLog>, p: Seq<OrderLog>, check: bool, i: int)
    requires
        0 <= i <= p.len(),
        fill_fold(srcs, p.take(i), check) is Err,
    ensures
        fill_fold(srcs, p, check) == fill_fold(srcs, p.take(i), check),
    decreases p.len() - i,
{
    if i < p.len() {
        lemma_take_last(p, i);
        lemma_fill_fold_err(srcs, p, check, i + 1);
    } else {
        assert(p.take(i) =~= p);
    }
}

proof fn lemma_l3_err(p: Seq<ChunkModel>, i: int)
    requires
        0 <= i <= p.len(),
        l3_of_chunks(p.take(i)) is Err,
    ensures
        l3_of_chunks(p) == l3_of_chunks(p.take(i)),
    decreases p.len() - i,
{
    if i < p.len() {
        lemma_take_last(p, i);
        lemma_l3_err(p, i + 1);
    } else {
        assert(p.take(i) =~= p);
    }
}

// ---------------------------------------------------------------- laws

/// The total amount of the fills in `tgt` that name the order `id`.
pub open spec fn fills_of(tgt: Seq<OrderLog>, id: i64) -> int
    decreases tgt.len(),
{
    if tgt.len() == 0 {
        0
    } else {
        fills_of(tgt.drop_last(), id) + if tgt.last().order_id == id {
            tgt.last().amount as int
        } else {
            0
        }
    }
}

proof fn lemma_one_src_fold(a: OrderLog, tgt: Seq<OrderLog>)
    requires
        a.amount >= 0,
        a.amount_rest >= 0,
        fill_fold(seq![a], tgt, false) is Ok,
    ensures
        fill_fold(seq![a], tgt, false)->Ok_0.0.len() == 1,
        fill_fold(seq![a], tgt, false)->Ok_0.0[0].order_id == a.order_id,
        fill_fold(seq![a], tgt, false)->Ok_0.0[0].amount == a.amount - fills_of(tgt, a.order_id),
        fill_fold(seq![a], tgt, false)->Ok_0.0[0].amount_rest == a.amount_rest - fills_of(tgt, a.order_id),
        fill_fold(seq![a], tgt, false)->Ok_0.0[0].amount >= 0,
        fill_fold(seq![a], tgt, false)->Ok_0.0[0].amount_rest >= 0,
    decreases tgt.len(),
{
    if tgt.len() > 0 {
        lemma_one_src_fold(a, tgt.drop_last());
        let s = fill_fold(seq![a], tgt.drop_last(), false)->Ok_0.0;
        let r = tgt.last();
        assert(s.drop_first().len() == 0);
        assert(order_pos(s.drop_first(), r.order_id) == 0);
        assert(order_pos(s, r.order_id) == if s[0].order_id == r.order_id { 0int } else { 1int });
    }
}

/// When a chunk with a single aggressor converts without error, the fills
/// against that aggressor add up to no more than its initial amount, nor
/// than its initial rest.
pub proof fn lemma_one_src_fills_bounded(a: OrderLog, tgt: Seq<OrderLog>)
    requires
        trades_to_l3(seq![a], tgt) is Ok,
    ensures
        fills_of(tgt, a.order_id) <= a.amount,
        fills_of(tgt, a.order_id) <= a.amount_rest,
{
    assert(seq![a].len() == 1);
    lemma_one_src_fold(a, tgt);
}

// ---------------------------------------------------------------- exec

/// Whether some record of the transaction is a fill.
fn any_fill(tx: &Vec<OrderLog>) -> (r: bool)
    ensures
        r == has_fill(tx@),
{
    let mut i: usize = 0;
    while i < tx.len()
        invariant
            i <= tx@.len(),
            forall|j: int| 0 <= j < i ==> !is_fill(#[trigger] tx@[j]),
        decreases tx@.len() - i,
    {
        if OLMsgType::from_record(&tx[i]) == OLMsgType::Fill {
            return true;
        }
        i = i + 1;
    }
    false
}

/// Whether some fill of the transaction names the order `id`.
fn is_fill_id(tx: &Vec<OrderLog>, id: i64) -> (r: bool)
    ensures
        r == fill_id(tx@, id),
{
    let mut i: usize = 0;
    while i < tx.len()
        invariant
            i <= tx@.len(),
            forall|j: int| 0 <= j < i ==> !(is_fill(#[trigger] tx@[j]) && tx@[j].order_id == id),
        decreases tx@.len() - i,
    {
        if OLMsgType::from_record(&tx[i]) == OLMsgType::Fill && tx[i].order_id == id {
            return true;
        }
        i = i + 1;
    }
    false
}

/// Cuts a transaction into chunks. Without fills every record that is not
/// a removal nor an immediate-or-kill or fill-or-kill order is a chunk of
/// its own. With fills, runs of aggressor adds and fills become `Trades`
/// chunks, and limit orders between them `Order` chunks; a removal of
/// anything but an immediate-or-kill order there is a `Validation` error.
pub fn chunks(tx: Vec<OrderLog>) -> (r: Result<Vec<Chunk>, QshError>)
    ensures
        match spec_chunks(tx@) {
            Ok(cs) => r matches Ok(v) && chunks_view(v@) == cs,
            Err(k) => r matches Err(e) && e.kind() == k,
        },
{
    if !any_fill(&tx) {
        let mut out: Vec<Chunk> = Vec::new();
        let mut i: usize = 0;
        while i < tx.len()
            invariant
                i <= tx@.len(),
                chunks_view(out@) == plain_chunks(tx@.take(i as int)),
            decreases tx@.len() - i,
        {
            let rec = tx[i];
            proof {
                lemma_take_last(tx@, i as int);
            }
            let m = OLMsgType::from_record(&rec);
            let t = OrderType::from_flags(rec.order_flags);
            if m != OLMsgType::Remove && t != OrderType::IOK && t != OrderType::FOK {
                let ghost before = out@;
                out.push(Chunk::Order(rec));
                proof {
                    assert(chunks_view(out@) =~= chunks_view(before).push(ChunkModel::Order(rec)));
                }
            }
            i = i + 1;
        }
        proof {
            assert(tx@.take(tx@.len() as int) =~= tx@);
        }
        return Ok(out);
    }
    let mut cs: Vec<Chunk> = Vec::new();
    let mut src: Vec<OrderLog> = Vec::new();
    let mut tgt: Vec<OrderLog> = Vec::new();
    let mut i: usize = 0;
    proof {
        assert(chunk_fold(tx@, tx@.take(0)) == Ok::<ChunkState, ErrorKind>((Seq::empty(), Seq::empty(), Seq::empty())));
        assert(chunks_view(cs@) =~= Seq::<ChunkModel>::empty());
        assert(src@ =~= Seq::<OrderLog>::empty());
        assert(tgt@ =~= Seq::<OrderLog>::empty());
    }
    while i < tx.len()
        invariant
            i <= tx@.len(),
            has_fill(tx@),
            chunk_fold(tx@, tx@.take(i as int)) == Ok::<ChunkState, ErrorKind>((chunks_view(cs@), src@, tgt@)),
        decreases tx@.len() - i,
    {
        let rec = tx[i];
        proof {
            lemma_take_last(tx@, i as int);
        }
        let m = OLMsgType::from_record(&rec);
        let t = OrderType::from_flags(rec.order_flags);
        if m == OLMsgType::Add && is_fill_id(&tx, rec.order_id) {
            src.push(rec);
        } else if m == OLMsgType::Fill {
            tgt.push(rec);
        } else if m == OLMsgType::Remove {
            if t != OrderType::IOK {
                proof {
                    assert(chunk_fold(tx@, tx@.take(i + 1)) == chunk_step(tx@, (chunks_view(cs@), src@, tgt@), rec));
                    lemma_chunk_fold_err(tx@, tx@, i + 1);
                }
                return Err(error_of(ErrorKind::Validation, "removal of an order that is not immediate-or-kill among fills"));
            }
        } else {
            let ghost st = (chunks_view(cs@), src@, tgt@);
            if src.len() > 0 || tgt.len() > 0 {
                cs.push(Chunk::Trades(src, tgt));
                src = Vec::new();
                tgt = Vec::new();
            }
            proof {
                assert(chunks_view(cs@) =~= flush(st));
                assert(src@ =~= Seq::<OrderLog>::empty());
                assert(tgt@ =~= Seq::<OrderLog>::empty());
            }
            if t == OrderType::Limit {
                let ghost before = cs@;
                cs.push(Chunk::Order(rec));
                proof {
                    assert(chunks_view(cs@) =~= chunks_view(before).push(ChunkModel::Order(rec)));
                }
            }
        }
        i = i + 1;
    }
    proof {
        assert(tx@.take(tx@.len() as int) =~= tx@);
    }
    let ghost st = (chunks_view(cs@), src@, tgt@);
    if src.len() > 0 || tgt.len() > 0 {
        cs.push(Chunk::Trades(src, tgt));
    }
    proof {
        assert(chunks_view(cs@) =~= flush(st));
    }
    Ok(cs)
}

/// The orders sorted by id, a stable sort.
fn sort_by_order_id(v: &Vec<OrderLog>) -> (r: Vec<OrderLog>)
    ensures
        r@ == sort_by_id(v@),
{
    let mut out: Vec<OrderLog> = Vec::new();
    let mut i: usize = 0;
    proof {
        assert(v@.take(0) =~= Seq::<OrderLog>::empty());
    }
    while i < v.len()
        invariant
            i <= v@.len(),
            out@ == sort_by_id(v@.take(i as int)),
            out@.len() == i,
        decreases v@.len() - i,
    {
        let x = v[i];
        let mut j: usize = out.len();
        while j > 0 && out[j - 1].order_id > x.order_id
            invariant
                j <= out@.len(),
                forall|k: int| j <= k < out@.len() ==> (#[trigger] out@[k]).order_id > x.order_id,
            decreases j,
        {
            j = j - 1;
        }
        proof {
            lemma_insert_by_id(out@, x, j as int);
            lemma_take_last(v@, i as int);
        }
        out.insert(j, x);
        i = i + 1;
    }
    proof {
        assert(v@.take(v@.len() as int) =~= v@);
    }
    out
}

/// Applies the fills of `tgt` to the aggressors in `srcs`; gives the
/// trades against resting orders.
fn match_fills(srcs: &mut Vec<OrderLog>, tgt: &Vec<OrderLog>, check: bool) -> (r: Result<Vec<L3Message>, QshError>)
    ensures
        r is Ok ==> final(srcs)@.len() == old(srcs)@.len(),
        match fill_fold(old(srcs)@, tgt@, check) {
            Ok((s, a)) => r matches Ok(v) && v@ == a && final(srcs)@ == s,
            Err(k) => r matches Err(e) && e.kind() == k,
        },
{
    let ghost s0 = srcs@;
    let mut acts: Vec<L3Message> = Vec::new();
    let mut i: usize = 0;
    proof {
        assert(tgt@.take(0) =~= Seq::<OrderLog>::empty());
        assert(acts@ =~= Seq::<L3Message>::empty());
    }
    while i < tgt.len()
        invariant
            i <= tgt@.len(),
            srcs@.len() == s0.len(),
            s0 == old(srcs)@,
            fill_fold(s0, tgt@.take(i as int), check) == Ok::<(Seq<OrderLog>, Seq<L3Message>), ErrorKind>((srcs@, acts@)),
        decreases tgt@.len() - i,
    {
        let rec = tgt[i];
        proof {
            lemma_take_last(tgt@, i as int);
        }
        if check && OLMsgType::from_record(&rec) != OLMsgType::Fill {
            proof {
                lemma_fill_fold_err(s0, tgt@, check, i + 1);
            }
            return Err(error_of(ErrorKind::Validation, "a record among the fills is not a fill"));
        }
        let k = OrderBook::find_order(srcs, rec.order_id);
        if k < srcs.len() {
            let a = srcs[k];
            if a.amount < rec.amount || a.amount_rest < rec.amount {
                proof {
                    lemma_fill_fold_err(s0, tgt@, check, i + 1);
                }
                return Err(error_of(ErrorKind::InvalidState, "fill larger than its aggressor"));
            }
            let x = a.amount as i128 - rec.amount as i128;
            let y = a.amount_rest as i128 - rec.amount as i128;
            if x > i64::MAX as i128 || y > i64::MAX as i128 {
                proof {
                    lemma_fill_fold_err(s0, tgt@, check, i + 1);
                }
                return Err(error_of(ErrorKind::Overflow, "aggressor amount out of range"));
            }
            srcs.set(k, OrderLog { amount: x as i64, amount_rest: y as i64, ..a });
        } else {
            acts.push(L3Message::Trade(rec));
        }
        i = i + 1;
    }
    proof {
        assert(tgt@.take(tgt@.len() as int) =~= tgt@);
    }
    Ok(acts)
}

/// The messages of a run of aggressors and their fills.
fn trades_to_messages(src: &Vec<OrderLog>, tgt: &Vec<OrderLog>) -> (r: Result<Vec<L3Message>, QshError>)
    ensures
        match trades_to_l3(src@, tgt@) {
            Ok(m) => r matches Ok(v) && v@ == m,
            Err(k) => r matches Err(e) && e.kind() == k,
        },
{
    if src.len() == 1 {
        if src[0].amount < 0 || src[0].amount_rest < 0 {
            return Err(error_of(ErrorKind::InvalidState, "aggressor with a negative amount"));
        }
        let mut s = copy_orders(src);
        let mut acts = match match_fills(&mut s, tgt, false) {
            Ok(a) => a,
            Err(e) => return Err(e),
        };
        let a = s[0];
        if a.amount_rest > 0 && OrderType::from_flags(a.order_flags) == OrderType::Limit {
            acts.push(L3Message::Add(a));
        }
        Ok(acts)
    } else {
        let mut s = sort_by_order_id(src);
        let mut acts = match match_fills(&mut s, tgt, true) {
            Ok(a) => a,
            Err(e) => return Err(e),
        };
        let ghost a0 = acts@;
        let mut i: usize = 0;
        proof {
            assert(s@.take(0) =~= Seq::<OrderLog>::empty());
            assert(acts@ =~= a0 + rest_adds(s@.take(0)));
        }
        while i < s.len()
            invariant
                i <= s@.len(),
                acts@ == a0 + rest_adds(s@.take(i as int)),
            decreases s@.len() - i,
        {
            let a = s[i];
            proof {
                lemma_take_last(s@, i as int);
            }
            if a.amount_rest > 0 && OrderType::from_flags(a.order_flags) == OrderType::Limit {
                acts.push(L3Message::Add(OrderLog { amount: a.amount_rest, ..a }));
                proof {
                    assert(acts@ =~= a0 + rest_adds(s@.take(i + 1)));
                }
            }
            i = i + 1;
        }
        proof {
            assert(s@.take(s@.len() as int) =~= s@);
        }
        Ok(acts)
    }
}

/// The messages of one chunk: an add or a cancellation for a plain order
/// (anything else there is a `Validation` error), the resolved trades and
/// adds for a run of aggressors and fills.
pub fn chunk_to_l3(c: &Chunk) -> (r: Result<Vec<L3Message>, QshError>)
    ensures
        match spec_chunk_to_l3(c@) {
            Ok(m) => r matches Ok(v) && v@ == m,
            Err(k) => r matches Err(e) && e.kind() == k,
        },
{
    match c {
        Chunk::Order(rec) => {
            let m = OLMsgType::from_record(rec);
            if m == OLMsgType::Add {
                let v = vec![L3Message::Add(*rec)];
                assert(v@ =~= seq![L3Message::Add(*rec)]);
                Ok(v)
            } else if m == OLMsgType::Cancel {
                let v = vec![L3Message::Cancel(*rec)];
                assert(v@ =~= seq![L3Message::Cancel(*rec)]);
                Ok(v)
            } else {
                Err(error_of(ErrorKind::Validation, "a plain order is neither an add nor a cancellation"))
            }
        },
        Chunk::Trades(s, t) => trades_to_messages(s, t),
    }
}

/// The canonical messages of a transaction: those of its chunks in turn,
/// or the first error.
pub fn moex_to_l3(tx: Vec<OrderLog>) -> (r: Result<Vec<L3Message>, QshError>)
    ensures
        match spec_moex_to_l3(tx@) {
            Ok(m) => r matches Ok(v) && v@ == m,
            Err(k) => r matches Err(e) && e.kind() == k,
        },
{
    let cs = match chunks(tx) {
        Ok(cs) => cs,
        Err(e) => return Err(e),
    };
    let ghost cv = chunks_view(cs@);
    let mut out: Vec<L3Message> = Vec::new();
    let mut i: usize = 0;
    proof {
        assert(cv.take(0) =~= Seq::<ChunkModel>::empty());
        assert(out@ =~= Seq::<L3Message>::empty());
    }
    while i < cs.len()
        invariant
            i <= cs@.len(),
            cv == chunks_view(cs@),
            spec_moex_to_l3(tx@) == l3_of_chunks(cv),
            l3_of_chunks(cv.take(i as int)) == Ok::<Seq<L3Message>, ErrorKind>(out@),
        decreases cs@.len() - i,
    {
        proof {
            lemma_take_last(cv, i as int);
            assert(cv[i as int] == cs@[i as int]@);
        }
        let m = match chunk_to_l3(&cs[i]) {
            Ok(m) => m,
            Err(e) => {
                proof {
                    lemma_l3_err(cv, i + 1);
                }
                return Err(e);
            },
        };
        let ghost before = out@;
        let mut j: usize = 0;
        while j < m.len()
            invariant
                j <= m@.len(),
                out@ == before + m@.take(j as int),
            decreases m@.len() - j,
        {
            out.push(m[j]);
            j = j + 1;
            proof {
                assert(out@ =~= before + m@.take(j as int));
            }
        }
        proof {
            assert(m@.take(m@.len() as int) =~= m@);
        }
        i = i + 1;
    }
    proof {
        assert(cv.take(cv.len() as int) =~= cv);
    }
    Ok(out)
}

} // verus!

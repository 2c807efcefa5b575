//! Stateful decoders for the four record streams.
//!
//! Each record is delta-encoded against running state that the decoder
//! keeps; a decoder consumes one record per call and hands back a copy of
//! the decoded value. On failure its state stays as it was.

use vstd::prelude::*;
use std::collections::BTreeMap;
use vstd::std_specs::btree::increasing_seq;
use vstd::std_specs::cmp::OrdSpec;
use vstd::std_specs::iter::IteratorSpec;

use crate::orderbook::fits_i64;
use crate::read::{spec_fixed, spec_growing, spec_leb, spec_string, QshRead};
use crate::types::{
    has16, has8, msg_type_of, order_type_of, side_of, OLEntryFlags, OLFlags, OLMsgType, OrderLog, OrderType, Quotes, Side,
    blank_order_log, AuxInfo, AuxInfoFlags, Deal, DealFlags,
};
use crate::{error_of, ErrorKind, QshError};

verus! {

broadcast use vstd::std_specs::btree::group_btree_axioms, vstd::laws_cmp::group_laws_cmp;

/// A growing integer when `c` holds, otherwise zero and nothing read.
pub open spec fn opt_growing(c: bool, s: Seq<u8>) -> Result<(int, Seq<u8>), ErrorKind> {
    if c {
        spec_growing(s)
    } else {
        Ok((0, s))
    }
}

/// A signed LEB128 when `c` holds, otherwise zero and nothing read.
pub open spec fn opt_leb(c: bool, s: Seq<u8>) -> Result<(int, Seq<u8>), ErrorKind> {
    if c {
        spec_leb(s)
    } else {
        Ok((0, s))
    }
}

/// `a + d` when `c` holds and the sum fits in `i64`; `a` when `c` does not
/// hold; `None` on overflow.
pub open spec fn grow(c: bool, a: i64, d: int) -> Option<i64> {
    if !c {
        Some(a)
    } else if fits_i64(a + d) {
        Some((a + d) as i64)
    } else {
        None
    }
}

// ---------------------------------------------------------------- order log

/// Running state of the order-log decoder: the last record, and the running
/// order id, deal id, deal price and open interest.
#[derive(Debug, Clone, Copy)]
pub struct OrderLogReader {
    pub prev: OrderLog,
    pub order_id: i64,
    pub deal_id: i64,
    pub deal_price: i64,
    pub oi: i64,
}

/// The leading fields of an order-log record: frame time delta, entry and
/// order flags, then the time, order id, price and amount that the entry
/// flags announce. Gives the record so far (the other fields as in the
/// last record) and the new running order id.
pub open spec fn spec_ol_head(st: OrderLogReader, s: Seq<u8>) -> Result<(OrderLog, i64, Seq<u8>), ErrorKind> {
    match spec_growing(s) {
        Err(k) => Err(k),
        Ok((ftd, s1)) => match spec_fixed(s1, 1) {
            Err(k) => Err(k),
            Ok((ef, s2)) => match spec_fixed(s2, 2) {
                Err(k) => Err(k),
                Ok((of, s3)) => {
                    let ef = ef as u8;
                    let of = of as u16;
                    let add = has16(of, OLFlags::ADD);
                    let has_id = has8(ef, OLEntryFlags::ORDER_ID);
                    match opt_growing(has8(ef, OLEntryFlags::DATE_TIME), s3) {
                        Err(k) => Err(k),
                        Ok((dt, s4)) => match grow(has8(ef, OLEntryFlags::DATE_TIME), st.prev.timestamp, dt) {
                            None => Err(ErrorKind::Overflow),
                            Some(ts) => match (if has_id && add { spec_growing(s4) } else { opt_leb(has_id, s4) }) {
                                Err(k) => Err(k),
                                Ok((d, s5)) => match grow(has_id, st.order_id, d) {
                                    None => Err(ErrorKind::Overflow),
                                    Some(id) => match opt_leb(has8(ef, OLEntryFlags::PRICE), s5) {
                                        Err(k) => Err(k),
                                        Ok((dp, s6)) => match grow(has8(ef, OLEntryFlags::PRICE), st.prev.price, dp) {
                                            None => Err(ErrorKind::Overflow),
                                            Some(price) => match opt_leb(has8(ef, OLEntryFlags::AMOUNT), s6) {
                                                Err(k) => Err(k),
                                                Ok((am, s7)) => Ok((
                                                    OrderLog {
                                                        frame_time_delta: ftd as i64,
                                                        timestamp: ts,
                                                        order_id: id,
                                                        price,
                                                        amount: if has8(ef, OLEntryFlags::AMOUNT) { am as i64 } else { st.prev.amount },
                                                        order_flags: of,
                                                        entry_flags: ef,
                                                        ..st.prev
                                                    },
                                                    if has_id && add { id } else { st.order_id },
                                                    s7,
                                                )),
                                            },
                                        },
                                    },
                                },
                            },
                        },
                    }
                },
            },
        },
    }
}

/// The deal fields of a fill: rest, deal id, deal price and open interest,
/// as the entry flags announce them. Gives the rest (zero when absent) and
/// the new running deal id, deal price and open interest; nothing is read
/// for a record that is not a fill.
pub open spec fn spec_ol_deal(st: OrderLogReader, of: u16, ef: u8, s: Seq<u8>) -> Result<(i64, i64, i64, i64, Seq<u8>), ErrorKind> {
    let fill = has16(of, OLFlags::FILL);
    match opt_leb(fill && has8(ef, OLEntryFlags::AMOUNT_REST), s) {
        Err(k) => Err(k),
        Ok((ar, s1)) => match opt_growing(fill && has8(ef, OLEntryFlags::DEAL_ID), s1) {
            Err(k) => Err(k),
            Ok((dd, s2)) => match grow(fill && has8(ef, OLEntryFlags::DEAL_ID), st.deal_id, dd) {
                None => Err(ErrorKind::Overflow),
                Some(deal_id) => match opt_leb(fill && has8(ef, OLEntryFlags::DEAL_PRICE), s2) {
                    Err(k) => Err(k),
                    Ok((dp, s3)) => match grow(fill && has8(ef, OLEntryFlags::DEAL_PRICE), st.deal_price, dp) {
                        None => Err(ErrorKind::Overflow),
                        Some(deal_price) => match opt_leb(fill && has8(ef, OLEntryFlags::OI), s3) {
                            Err(k) => Err(k),
                            Ok((doi, s4)) => match grow(fill && has8(ef, OLEntryFlags::OI), st.oi, doi) {
                                None => Err(ErrorKind::Overflow),
                                Some(oi) => Ok((ar as i64, deal_id, deal_price, oi, s4)),
                            },
                        },
                    },
                },
            },
        },
    }
}

/// The record put together: a fill keeps the rest as decoded (zero when
/// absent) and carries the running deal fields; otherwise an add rests in
/// full, anything else has a zero rest; outside a fill the deal fields are
/// zero. The side, type and
/// event follow from the flags. A record that is both a buy and a sell, or
/// whose order type or event the flags do not name, is a `Parsing` error.
pub open spec fn spec_ol_finish(head: OrderLog, ar: i64, deal_id: i64, deal_price: i64, oi: i64) -> Result<OrderLog, ErrorKind> {
    let of = head.order_flags;
    let fill = has16(of, OLFlags::FILL);
    let buy = has16(of, OLFlags::BUY);
    let sell = has16(of, OLFlags::SELL);
    if buy && sell {
        Err(ErrorKind::Parsing)
    } else {
        let r = OrderLog {
            amount_rest: if fill { ar } else if has16(of, OLFlags::ADD) { head.amount } else { 0 },
            deal_id: if fill { deal_id } else { 0 },
            deal_price: if fill { deal_price } else { 0 },
            oi: if fill { oi } else { 0 },
            side: if buy { Side::Buy } else if sell { Side::Sell } else { Side::UNKNOWN },
            type_: order_type_of(of),
            ..head
        };
        if order_type_of(of) == OrderType::UNKNOWN || msg_type_of(r) == OLMsgType::UNKNOWN {
            Err(ErrorKind::Parsing)
        } else {
            Ok(OrderLog { event: msg_type_of(r), ..r })
        }
    }
}

/// One order-log record: the new decoder state, the record, and the bytes
/// after it.
pub open spec fn spec_parse_ol(st: OrderLogReader, s: Seq<u8>) -> Result<(OrderLogReader, OrderLog, Seq<u8>), ErrorKind> {
    match spec_ol_head(st, s) {
        Err(k) => Err(k),
        Ok((head, run_id, s1)) => match spec_ol_deal(st, head.order_flags, head.entry_flags, s1) {
            Err(k) => Err(k),
            Ok((ar, deal_id, deal_price, oi, s2)) => match spec_ol_finish(head, ar, deal_id, deal_price, oi) {
                Err(k) => Err(k),
                Ok(rec) => Ok((OrderLogReader { prev: rec, order_id: run_id, deal_id, deal_price, oi }, rec, s2)),
            },
        },
    }
}

/// `a + d` as the running value, or `Overflow`.
fn checked_grow(a: i64, d: i64) -> (r: Result<i64, QshError>)
    ensures
        match grow(true, a, d as int) {
            Some(v) => r == Ok::<i64, QshError>(v),
            None => r matches Err(e) && e.kind() == ErrorKind::Overflow,
        },
{
    match a.checked_add(d) {
        Some(v) => Ok(v),
        None => Err(error_of(ErrorKind::Overflow, "running field out of range")),
    }
}

impl OrderLogReader {
    /// A decoder with every running value zero.
    pub fn new() -> (r: OrderLogReader)
        ensures
            r.prev == blank_order_log(),
            r.order_id == 0,
            r.deal_id == 0,
            r.deal_price == 0,
            r.oi == 0,
    {
        OrderLogReader { prev: OrderLog::default(), order_id: 0, deal_id: 0, deal_price: 0, oi: 0 }
    }

    fn head(&self, p: &mut QshRead) -> (r: Result<(OrderLog, i64), QshError>)
        requires
            old(p).wf(),
        ensures
            final(p).wf(),
            match spec_ol_head(*self, old(p)@) {
                Ok((h, id, rest)) => r == Ok::<(OrderLog, i64), QshError>((h, id)) && final(p)@ == rest,
                Err(k) => r matches Err(e) && e.kind() == k,
            },
    {
        let ftd = match p.growing() {
            Ok(v) => v,
            Err(e) => return Err(e),
        };
        let ef = match p.byte() {
            Ok(v) => v,
            Err(e) => return Err(e),
        };
        let of = match p.u16() {
            Ok(v) => v,
            Err(e) => return Err(e),
        };
        let add = of & OLFlags::ADD != 0;
        let has_id = ef & OLEntryFlags::ORDER_ID != 0;
        let mut ts = self.prev.timestamp;
        if ef & OLEntryFlags::DATE_TIME != 0 {
            let d = match p.growing() {
                Ok(v) => v,
                Err(e) => return Err(e),
            };
            ts = match checked_grow(ts, d) {
                Ok(v) => v,
                Err(e) => return Err(e),
            };
        }
        let mut id = self.order_id;
        if has_id {
            let d = if add {
                match p.growing() {
                    Ok(v) => v,
                    Err(e) => return Err(e),
                }
            } else {
                match p.leb() {
                    Ok(v) => v,
                    Err(e) => return Err(e),
                }
            };
            id = match checked_grow(id, d) {
                Ok(v) => v,
                Err(e) => return Err(e),
            };
        }
        let mut price = self.prev.price;
        if ef & OLEntryFlags::PRICE != 0 {
            let d = match p.leb() {
                Ok(v) => v,
                Err(e) => return Err(e),
            };
            price = match checked_grow(price, d) {
                Ok(v) => v,
                Err(e) => return Err(e),
            };
        }
        let mut amount = self.prev.amount;
        if ef & OLEntryFlags::AMOUNT != 0 {
            amount = match p.leb() {
                Ok(v) => v,
                Err(e) => return Err(e),
            };
        }
        let run_id = if has_id && add { id } else { self.order_id };
        Ok((
            OrderLog {
                frame_time_delta: ftd,
                timestamp: ts,
                order_id: id,
                price,
                amount,
                order_flags: of,
                entry_flags: ef,
                ..self.prev
            },
            run_id,
        ))
    }

    fn deal(&self, of: u16, ef: u8, p: &mut QshRead) -> (r: Result<(i64, i64, i64, i64), QshError>)
        requires
            old(p).wf(),
        ensures
            final(p).wf(),
            match spec_ol_deal(*self, of, ef, old(p)@) {
                Ok((a, b, c, d, rest)) => r == Ok::<(i64, i64, i64, i64), QshError>((a, b, c, d)) && final(p)@ == rest,
                Err(k) => r matches Err(e) && e.kind() == k,
            },
    {
        let fill = of & OLFlags::FILL != 0;
        let mut ar: i64 = 0;
        if fill && ef & OLEntryFlags::AMOUNT_REST != 0 {
            ar = match p.leb() {
                Ok(v) => v,
                Err(e) => return Err(e),
            };
        }
        let mut deal_id = self.deal_id;
        if fill && ef & OLEntryFlags::DEAL_ID != 0 {
            let d = match p.growing() {
                Ok(v) => v,
                Err(e) => return Err(e),
            };
            deal_id = match checked_grow(deal_id, d) {
                Ok(v) => v,
                Err(e) => return Err(e),
            };
        }
        let mut deal_price = self.deal_price;
        if fill && ef & OLEntryFlags::DEAL_PRICE != 0 {
            let d = match p.leb() {
                Ok(v) => v,
                Err(e) => return Err(e),
            };
            deal_price = match checked_grow(deal_price, d) {
                Ok(v) => v,
                Err(e) => return Err(e),
            };
        }
        let mut oi = self.oi;
        if fill && ef & OLEntryFlags::OI != 0 {
            let d = match p.leb() {
                Ok(v) => v,
                Err(e) => return Err(e),
            };
            oi = match checked_grow(oi, d) {
                Ok(v) => v,
                Err(e) => return Err(e),
            };
        }
        Ok((ar, deal_id, deal_price, oi))
    }

    /// Decodes one order-log record. On success the decoder keeps the
    /// record and the new running values; on failure it stays as it was.
    pub fn parse(&mut self, p: &mut QshRead) -> (r: Result<OrderLog, QshError>)
        requires
            old(p).wf(),
        ensures
            final(p).wf(),
            match spec_parse_ol(*old(self), old(p)@) {
                Ok((st, rec, rest)) => r == Ok::<OrderLog, QshError>(rec) && *final(self) == st && final(p)@ == rest,
                Err(k) => r matches Err(e) && e.kind() == k && *final(self) == *old(self),
            },
    {
        let (head, run_id) = match self.head(p) {
            Ok(v) => v,
            Err(e) => return Err(e),
        };
        let (ar, deal_id, deal_price, oi) = match self.deal(head.order_flags, head.entry_flags, p) {
            Ok(v) => v,
            Err(e) => return Err(e),
        };
        let of = head.order_flags;
        let fill = of & OLFlags::FILL != 0;
        let buy = of & OLFlags::BUY != 0;
        let sell = of & OLFlags::SELL != 0;
        if buy && sell {
            return Err(error_of(ErrorKind::Parsing, "a record has both the buy and the sell flag"));
        }
        let side = if buy {
            Side::Buy
        } else if sell {
            Side::Sell
        } else {
            Side::UNKNOWN
        };
        let r = OrderLog {
            amount_rest: if fill { ar } else if of & OLFlags::ADD != 0 { head.amount } else { 0 },
            deal_id: if fill { deal_id } else { 0 },
            deal_price: if fill { deal_price } else { 0 },
            oi: if fill { oi } else { 0 },
            side,
            type_: OrderType::from_flags(of),
            ..head
        };
        if r.type_ == OrderType::UNKNOWN {
            return Err(error_of(ErrorKind::Parsing, "a record names no order type"));
        }
        let event = OLMsgType::from_record(&r);
        if event == OLMsgType::UNKNOWN {
            return Err(error_of(ErrorKind::Parsing, "a record names no event"));
        }
        let rec = OrderLog { event, ..r };
        *self = OrderLogReader { prev: rec, order_id: run_id, deal_id, deal_price, oi };
        Ok(rec)
    }
}

// ---------------------------------------------------------------- quotes

/// Running state of the quotes decoder: the signed volume at each price
/// (negative for bids, positive for asks) and the running price key.
#[derive(Debug)]
pub struct QuotesReader {
    pub map: BTreeMap<i64, i64>,
    pub key: i64,
}

/// Every stored volume is non-zero and has a magnitude that fits in `i64`.
pub open spec fn quotes_ok(m: Map<i64, i64>) -> bool {
    forall|k: i64| m.contains_key(k) ==> m[k] != 0 && m[k] != i64::MIN
}

/// One row: a price delta and a volume. A zero volume removes the price,
/// which must be there; any other volume is stored at it.
pub open spec fn spec_row(m: Map<i64, i64>, key: i64, s: Seq<u8>) -> Result<(Map<i64, i64>, i64, Seq<u8>), ErrorKind> {
    match spec_leb(s) {
        Err(k) => Err(k),
        Ok((dk, s1)) => match grow(true, key, dk) {
            None => Err(ErrorKind::Overflow),
            Some(k2) => match spec_leb(s1) {
                Err(k) => Err(k),
                Ok((v, s2)) => if v == 0 {
                    if m.contains_key(k2) {
                        Ok((m.remove(k2), k2, s2))
                    } else {
                        Err(ErrorKind::InvalidState)
                    }
                } else if v == i64::MIN {
                    Err(ErrorKind::Overflow)
                } else {
                    Ok((m.insert(k2, v as i64), k2, s2))
                },
            },
        },
    }
}

/// The first `n` rows in turn.
pub open spec fn spec_rows(m: Map<i64, i64>, key: i64, s: Seq<u8>, n: int) -> Result<(Map<i64, i64>, i64, Seq<u8>), ErrorKind>
    decreases n,
{
    if n <= 0 {
        Ok((m, key, s))
    } else {
        match spec_rows(m, key, s, n - 1) {
            Err(k) => Err(k),
            Ok((m1, k1, s1)) => spec_row(m1, k1, s1),
        }
    }
}

/// One quotes record: frame time delta, row count, rows. Gives the delta,
/// the new map and key, and the bytes after the record.
pub open spec fn spec_quotes(m: Map<i64, i64>, key: i64, s: Seq<u8>) -> Result<(i64, Map<i64, i64>, i64, Seq<u8>), ErrorKind> {
    match spec_growing(s) {
        Err(k) => Err(k),
        Ok((ftd, s1)) => match spec_leb(s1) {
            Err(k) => Err(k),
            Ok((n, s2)) => match spec_rows(m, key, s2, n) {
                Err(k) => Err(k),
                Ok((m2, k2, s3)) => Ok((ftd as i64, m2, k2, s3)),
            },
        },
    }
}

/// `side` lists, in strictly ascending price order, every price of `m`
/// whose volume is negative (for bids) or positive (for asks), with the
/// magnitude of that volume.
pub open spec fn side_listing(m: Map<i64, i64>, side: Seq<(i64, i64)>, bids: bool) -> bool {
    &&& forall|i: int, j: int| 0 <= i < j < side.len() ==> (#[trigger] side[i]).0 < (#[trigger] side[j]).0
    &&& forall|i: int|
        0 <= i < side.len() ==> m.contains_key((#[trigger] side[i]).0) && if bids {
            m[side[i].0] < 0 && side[i].1 == -m[side[i].0]
        } else {
            m[side[i].0] > 0 && side[i].1 == m[side[i].0]
        }
    &&& forall|k: i64|
        m.contains_key(k) && (if bids { m[k] < 0 } else { m[k] > 0 }) ==> exists|i: int|
            0 <= i < side.len() && (#[trigger] side[i]).0 == k
}

impl QuotesReader {
    /// No quotes and a zero key.
    pub fn new() -> (r: QuotesReader)
        ensures
            r.map@ == Map::<i64, i64>::empty(),
            r.key == 0,
    {
        QuotesReader { map: BTreeMap::new(), key: 0 }
    }

    fn row(&mut self, p: &mut QshRead) -> (r: Result<(), QshError>)
        requires
            old(p).wf(),
            quotes_ok(old(self).map@),
        ensures
            final(p).wf(),
            match spec_row(old(self).map@, old(self).key, old(p)@) {
                Ok((m, k, rest)) => r is Ok && final(self).map@ == m && final(self).key == k && final(p)@ == rest
                    && quotes_ok(m),
                Err(k) => r matches Err(e) && e.kind() == k,
            },
    {
        let d = match p.leb() {
            Ok(v) => v,
            Err(e) => return Err(e),
        };
        let k = match checked_grow(self.key, d) {
            Ok(v) => v,
            Err(e) => return Err(e),
        };
        let v = match p.leb() {
            Ok(v) => v,
            Err(e) => return Err(e),
        };
        if v == 0 {
            match self.map.remove(&k) {
                Some(_) => {},
                None => return Err(error_of(ErrorKind::InvalidState, "key not found")),
            }
        } else if v == i64::MIN {
            return Err(error_of(ErrorKind::Overflow, "quote volume out of range"));
        } else {
            self.map.insert(k, v);
        }
        self.key = k;
        Ok(())
    }

    /// Decodes one quotes record: updates the running map and gives the
    /// bids and asks it then holds, both in ascending price order. On
    /// failure the map and key stay as they were.
    pub fn parse(&mut self, p: &mut QshRead) -> (r: Result<Quotes, QshError>)
        requires
            old(p).wf(),
            quotes_ok(old(self).map@),
        ensures
            final(p).wf(),
            match spec_quotes(old(self).map@, old(self).key, old(p)@) {
                Ok((ftd, m, k, rest)) => r matches Ok(q) && q.frame_time_delta == ftd && final(self).map@ == m
                    && final(self).key == k && final(p)@ == rest && quotes_ok(m) && side_listing(m, q.bid@, true)
                    && side_listing(m, q.ask@, false),
                Err(k) => r matches Err(e) && e.kind() == k && final(self).map@ == old(self).map@
                    && final(self).key == old(self).key,
            },
    {
        let ftd = match p.growing() {
            Ok(v) => v,
            Err(e) => return Err(e),
        };
        let n = match p.leb() {
            Ok(v) => v,
            Err(e) => return Err(e),
        };
        let mut work = QuotesReader { map: self.map.clone(), key: self.key };
        let ghost m0 = work.map@;
        let ghost k0 = work.key;
        let ghost s0 = p@;
        let ghost pre = old(p)@;
        proof {
            assert(spec_quotes(m0, k0, pre) == match spec_rows(m0, k0, s0, n as int) {
                Err(k) => Err(k),
                Ok((m2, k2, s3)) => Ok((ftd, m2, k2, s3)),
            });
        }
        let mut i: i64 = 0;
        while i < n
            invariant
                p.wf(),
                self.map@ == old(self).map@,
                self.key == old(self).key,
                m0 == old(self).map@,
                k0 == old(self).key,
                pre == old(p)@,
                spec_quotes(m0, k0, pre) == match spec_rows(m0, k0, s0, n as int) {
                    Err(k) => Err(k),
                    Ok((m2, k2, s3)) => Ok((ftd, m2, k2, s3)),
                },
                0 <= i <= n || (n < 0 && i == 0),
                quotes_ok(work.map@),
                spec_rows(m0, k0, s0, i as int) == Ok::<(Map<i64, i64>, i64, Seq<u8>), ErrorKind>((work.map@, work.key, p@)),
            decreases n - i,
        {
            let ghost mb = work.map@;
            let ghost kb = work.key;
            let ghost pb = p@;
            let r = work.row(p);
            match r {
                Err(e) => {
                    proof {
                        assert(spec_rows(m0, k0, s0, i as int + 1) == spec_row(mb, kb, pb));
                        lemma_rows_err(m0, k0, s0, i as int + 1, n as int);
                    }
                    return Err(e);
                },
                Ok(()) => {},
            }
            i = i + 1;
        }
        proof {
            if n < 0 {
                assert(spec_rows(m0, k0, s0, n as int) == spec_rows(m0, k0, s0, 0));
            }
        }
        let mut bid: Vec<(i64, i64)> = Vec::new();
        let mut ask: Vec<(i64, i64)> = Vec::new();
        let ghost m = work.map@;
        let iter = work.map.iter();
        proof {
            let r = IteratorSpec::remaining(&iter);
            let ks = r.map_values(|kv: (&i64, &i64)| *kv.0);
            assert(increasing_seq(ks));
            assert forall|a: int, b: int| 0 <= a < b < r.len() implies *(#[trigger] r[a]).0 < *(#[trigger] r[b]).0 by {
                assert(ks[a] == *r[a].0);
                assert(ks[b] == *r[b].0);
                assert(ks[a].cmp_spec(&ks[b]) is Less);
            }
        }
        for kv in it: iter
            invariant
                m == work.map@,
                quotes_ok(m),
                0 <= it.index() <= it.seq().len(),
                it.seq().len() == m.dom().len(),
                forall|t: int| 0 <= t < it.seq().len() ==> m.contains_key(*(#[trigger] it.seq()[t]).0) && m[*it.seq()[t].0] == *it.seq()[t].1,
                forall|a: int, b: int| 0 <= a < b < it.seq().len() ==> *(#[trigger] it.seq()[a]).0 < *(#[trigger] it.seq()[b]).0,
                forall|k: i64| #[trigger] m.contains_key(k) ==> exists|t: int| 0 <= t < it.seq().len() && *(#[trigger] it.seq()[t]).0 == k,
                prefix_listing(m, bid@, true, it.seq(), it.index()),
                prefix_listing(m, ask@, false, it.seq(), it.index()),
        {
            let ghost sq = it.seq();
            let ghost i = it.index();
            let ghost bid0 = bid@;
            let ghost ask0 = ask@;
            let k = *kv.0;
            let v = *kv.1;
            proof {
                assert(*sq[i].0 == k && *sq[i].1 == v);
                assert(m[k] == v);
                assert(v != 0 && v != i64::MIN);
            }
            if v < 0 {
                bid.push((k, -v));
            } else {
                ask.push((k, v));
            }
            proof {
                if i + 1 < sq.len() {
                    assert(*sq[i].0 < *sq[i + 1].0);
                }
                assert forall|t: int|
                    0 <= t < i + 1 && *(#[trigger] sq[t]).1 < 0 implies exists|a: int|
                        0 <= a < bid@.len() && (#[trigger] bid@[a]).0 == *sq[t].0 by {
                    if t < i {
                        let a = choose|a: int| 0 <= a < bid0.len() && (#[trigger] bid0[a]).0 == *sq[t].0;
                        assert(bid@[a] == bid0[a]);
                    } else {
                        assert(bid@[bid@.len() - 1].0 == k);
                    }
                }
                assert forall|t: int|
                    0 <= t < i + 1 && *(#[trigger] sq[t]).1 > 0 implies exists|a: int|
                        0 <= a < ask@.len() && (#[trigger] ask@[a]).0 == *sq[t].0 by {
                    if t < i {
                        let a = choose|a: int| 0 <= a < ask0.len() && (#[trigger] ask0[a]).0 == *sq[t].0;
                        assert(ask@[a] == ask0[a]);
                    } else {
                        assert(ask@[ask@.len() - 1].0 == k);
                    }
                }
            }
        }
        *self = work;
        Ok(Quotes { frame_time_delta: ftd, bid, ask })
    }
}

/// `side` lists the entries of the first `i` pairs of `sq` with negative
/// (for bids) or positive (for asks) volume, in order, below the key of
/// pair `i`.
pub open spec fn prefix_listing(m: Map<i64, i64>, side: Seq<(i64, i64)>, bids: bool, sq: Seq<(&i64, &i64)>, i: int) -> bool {
    &&& forall|a: int, b: int| 0 <= a < b < side.len() ==> (#[trigger] side[a]).0 < (#[trigger] side[b]).0
    &&& forall|a: int|
        0 <= a < side.len() ==> m.contains_key((#[trigger] side[a]).0) && if bids {
            m[side[a].0] < 0 && side[a].1 == -m[side[a].0]
        } else {
            m[side[a].0] > 0 && side[a].1 == m[side[a].0]
        }
    &&& (i < sq.len() && side.len() > 0) ==> side.last().0 < *sq[i].0
    &&& forall|t: int|
        0 <= t < i && (if bids { *(#[trigger] sq[t]).1 < 0 } else { *sq[t].1 > 0 }) ==> exists|a: int|
            0 <= a < side.len() && (#[trigger] side[a]).0 == *sq[t].0
}

/// A quotes record whose first row removes (volume zero) a price that the
/// map does not hold fails with `InvalidState`; so sending again rows that
/// remove prices already gone fails rather than changing anything.
pub proof fn lemma_remove_absent_fails(m: Map<i64, i64>, key: i64, s: Seq<u8>)
    requires
        spec_growing(s) is Ok,
        spec_leb(spec_growing(s)->Ok_0.1) is Ok,
        spec_leb(spec_growing(s)->Ok_0.1)->Ok_0.0 >= 1,
        spec_leb(spec_leb(spec_growing(s)->Ok_0.1)->Ok_0.1) is Ok,
        ({
            let s2 = spec_leb(spec_growing(s)->Ok_0.1)->Ok_0.1;
            let dk = spec_leb(s2)->Ok_0.0;
            let s3 = spec_leb(s2)->Ok_0.1;
            &&& fits_i64(key + dk)
            &&& !m.contains_key((key + dk) as i64)
            &&& spec_leb(s3) == Ok::<(int, Seq<u8>), ErrorKind>((0, spec_leb(s3)->Ok_0.1))
        }),
    ensures
        spec_quotes(m, key, s) == Err::<(i64, Map<i64, i64>, i64, Seq<u8>), ErrorKind>(ErrorKind::InvalidState),
{
    let s1 = spec_growing(s)->Ok_0.1;
    let n = spec_leb(s1)->Ok_0.0;
    let s2 = spec_leb(s1)->Ok_0.1;
    assert(spec_rows(m, key, s2, 0) == Ok::<(Map<i64, i64>, i64, Seq<u8>), ErrorKind>((m, key, s2)));
    assert(spec_rows(m, key, s2, 1) == spec_row(m, key, s2));
    lemma_rows_err(m, key, s2, 1, n);
}

/// Rows in turn fail with `InvalidState` at the first row that removes
/// (volume zero) a price that the map, as the rows before left it, does not
/// hold, unless an earlier row failed.
pub proof fn lemma_absent_removal_fails_at(m: Map<i64, i64>, key: i64, s: Seq<u8>, j: int, n: int)
    requires
        0 <= j < n,
        spec_rows(m, key, s, j) is Ok,
        ({
            let (mj, kj, sj) = spec_rows(m, key, s, j)->Ok_0;
            &&& spec_leb(sj) is Ok
            &&& fits_i64(kj + spec_leb(sj)->Ok_0.0)
            &&& !mj.contains_key((kj + spec_leb(sj)->Ok_0.0) as i64)
            &&& spec_leb(spec_leb(sj)->Ok_0.1) is Ok
            &&& spec_leb(spec_leb(sj)->Ok_0.1)->Ok_0.0 == 0
        }),
    ensures
        spec_rows(m, key, s, n) == Err::<(Map<i64, i64>, i64, Seq<u8>), ErrorKind>(ErrorKind::InvalidState),
{
    let (mj, kj, sj) = spec_rows(m, key, s, j)->Ok_0;
    assert(spec_rows(m, key, s, j + 1) == spec_row(mj, kj, sj));
    lemma_rows_err(m, key, s, j + 1, n);
}

proof fn lemma_rows_err(m: Map<i64, i64>, key: i64, s: Seq<u8>, i: int, n: int)
    requires
        0 < i <= n,
        spec_rows(m, key, s, i) is Err,
    ensures
        spec_rows(m, key, s, n) == spec_rows(m, key, s, i),
    decreases n - i,
{
    if i < n {
        lemma_rows_err(m, key, s, i + 1, n);
    }
}

// ---------------------------------------------------------------- deals

/// Running state of the deals decoder: the last deal.
#[derive(Debug, Clone, Copy)]
pub struct DealReader {
    pub prev: Deal,
}

/// One deal record: frame time delta, flags, then the time, deal id, order
/// id, price, amount and open interest that the flags announce; all but the
/// amount are deltas. The two low flag bits give the side.
pub open spec fn spec_deal(st: Deal, s: Seq<u8>) -> Result<(Deal, Seq<u8>), ErrorKind> {
    match spec_growing(s) {
        Err(k) => Err(k),
        Ok((ftd, s1)) => match spec_fixed(s1, 1) {
            Err(k) => Err(k),
            Ok((f, s2)) => {
                let f = f as u8;
                match opt_growing(has8(f, DealFlags::TIMESTAMP), s2) {
                    Err(k) => Err(k),
                    Ok((d1, s3)) => match grow(has8(f, DealFlags::TIMESTAMP), st.timestamp, d1) {
                        None => Err(ErrorKind::Overflow),
                        Some(ts) => match opt_growing(has8(f, DealFlags::DEAL_ID), s3) {
                            Err(k) => Err(k),
                            Ok((d2, s4)) => match grow(has8(f, DealFlags::DEAL_ID), st.deal_id, d2) {
                                None => Err(ErrorKind::Overflow),
                                Some(deal_id) => match opt_leb(has8(f, DealFlags::ORDER_ID), s4) {
                                    Err(k) => Err(k),
                                    Ok((d3, s5)) => match grow(has8(f, DealFlags::ORDER_ID), st.order_id, d3) {
                                        None => Err(ErrorKind::Overflow),
                                        Some(order_id) => spec_deal_tail(
                                            Deal { timestamp: ts, deal_id, order_id, ..st },
                                            ftd as i64,
                                            f,
                                            s5,
                                        ),
                                    },
                                },
                            },
                        },
                    },
                }
            },
        },
    }
}

/// The price, amount and open interest of a deal record, then its side and
/// frame time delta.
pub open spec fn spec_deal_tail(st: Deal, ftd: i64, f: u8, s: Seq<u8>) -> Result<(Deal, Seq<u8>), ErrorKind> {
    match opt_leb(has8(f, DealFlags::PRICE), s) {
        Err(k) => Err(k),
        Ok((d4, s6)) => match grow(has8(f, DealFlags::PRICE), st.price, d4) {
            None => Err(ErrorKind::Overflow),
            Some(price) => match opt_leb(has8(f, DealFlags::AMOUNT), s6) {
                Err(k) => Err(k),
                Ok((am, s7)) => match opt_leb(has8(f, DealFlags::OI), s7) {
                    Err(k) => Err(k),
                    Ok((d5, s8)) => match grow(has8(f, DealFlags::OI), st.oi, d5) {
                        None => Err(ErrorKind::Overflow),
                        Some(oi) => Ok((
                            Deal {
                                frame_time_delta: ftd,
                                side: side_of(f & 0x03),
                                price,
                                amount: if has8(f, DealFlags::AMOUNT) { am as i64 } else { st.amount },
                                oi,
                                ..st
                            },
                            s8,
                        )),
                    },
                },
            },
        },
    }
}

/// A running field grown by a growing integer when `c` holds.
fn grow_growing(c: bool, a: i64, p: &mut QshRead) -> (r: Result<i64, QshError>)
    requires
        old(p).wf(),
    ensures
        final(p).wf(),
        match opt_growing(c, old(p)@) {
            Err(k) => r matches Err(e) && e.kind() == k,
            Ok((d, rest)) => match grow(c, a, d) {
                None => r matches Err(e) && e.kind() == ErrorKind::Overflow,
                Some(v) => r == Ok::<i64, QshError>(v) && final(p)@ == rest,
            },
        },
{
    if !c {
        return Ok(a);
    }
    let d = match p.growing() {
        Ok(v) => v,
        Err(e) => return Err(e),
    };
    checked_grow(a, d)
}

/// A running field grown by a signed LEB128 when `c` holds.
fn grow_leb(c: bool, a: i64, p: &mut QshRead) -> (r: Result<i64, QshError>)
    requires
        old(p).wf(),
    ensures
        final(p).wf(),
        match opt_leb(c, old(p)@) {
            Err(k) => r matches Err(e) && e.kind() == k,
            Ok((d, rest)) => match grow(c, a, d) {
                None => r matches Err(e) && e.kind() == ErrorKind::Overflow,
                Some(v) => r == Ok::<i64, QshError>(v) && final(p)@ == rest,
            },
        },
{
    if !c {
        return Ok(a);
    }
    let d = match p.leb() {
        Ok(v) => v,
        Err(e) => return Err(e),
    };
    checked_grow(a, d)
}

/// A signed LEB128 when `c` holds, otherwise `a`.
fn leb_or(c: bool, a: i64, p: &mut QshRead) -> (r: Result<i64, QshError>)
    requires
        old(p).wf(),
    ensures
        final(p).wf(),
        match opt_leb(c, old(p)@) {
            Err(k) => r matches Err(e) && e.kind() == k,
            Ok((v, rest)) => r == Ok::<i64, QshError>(if c { v as i64 } else { a }) && final(p)@ == rest,
        },
{
    if !c {
        return Ok(a);
    }
    p.leb()
}

impl DealReader {
    /// A decoder with every running value zero.
    pub fn new() -> (r: DealReader)
        ensures
            r.prev == (Deal {
                frame_time_delta: 0,
                side: Side::UNKNOWN,
                timestamp: 0,
                deal_id: 0,
                order_id: 0,
                price: 0,
                amount: 0,
                oi: 0,
            }),
    {
        DealReader {
            prev: Deal {
                frame_time_delta: 0,
                side: Side::UNKNOWN,
                timestamp: 0,
                deal_id: 0,
                order_id: 0,
                price: 0,
                amount: 0,
                oi: 0,
            },
        }
    }

    /// Decodes one deal record. On success the decoder keeps the deal; on
    /// failure it stays as it was.
    pub fn parse(&mut self, p: &mut QshRead) -> (r: Result<Deal, QshError>)
        requires
            old(p).wf(),
        ensures
            final(p).wf(),
            match spec_deal(old(self).prev, old(p)@) {
                Ok((d, rest)) => r == Ok::<Deal, QshError>(d) && final(self).prev == d && final(p)@ == rest,
                Err(k) => r matches Err(e) && e.kind() == k && *final(self) == *old(self),
            },
    {
        let st = self.prev;
        let ftd = match p.growing() {
            Ok(v) => v,
            Err(e) => return Err(e),
        };
        let f = match p.byte() {
            Ok(v) => v,
            Err(e) => return Err(e),
        };
        let timestamp = match grow_growing(f & DealFlags::TIMESTAMP != 0, st.timestamp, p) {
            Ok(v) => v,
            Err(e) => return Err(e),
        };
        let deal_id = match grow_growing(f & DealFlags::DEAL_ID != 0, st.deal_id, p) {
            Ok(v) => v,
            Err(e) => return Err(e),
        };
        let order_id = match grow_leb(f & DealFlags::ORDER_ID != 0, st.order_id, p) {
            Ok(v) => v,
            Err(e) => return Err(e),
        };
        let price = match grow_leb(f & DealFlags::PRICE != 0, st.price, p) {
            Ok(v) => v,
            Err(e) => return Err(e),
        };
        let amount = match leb_or(f & DealFlags::AMOUNT != 0, st.amount, p) {
            Ok(v) => v,
            Err(e) => return Err(e),
        };
        let oi = match grow_leb(f & DealFlags::OI != 0, st.oi, p) {
            Ok(v) => v,
            Err(e) => return Err(e),
        };
        let d = Deal {
            frame_time_delta: ftd,
            side: Side::from_byte(f & 0x03),
            timestamp,
            deal_id,
            order_id,
            price,
            amount,
            oi,
        };
        self.prev = d;
        Ok(d)
    }
}

// ---------------------------------------------------------------- auxiliary information

/// Running state of the auxiliary-information decoder: the last record.
#[derive(Debug, Clone)]
pub struct AuxInfoReader {
    pub prev: AuxInfo,
}

/// An auxiliary-information record as mathematical values.
pub struct AuxInfoModel {
    pub frame_time_delta: i64,
    pub timestamp: i64,
    pub price: i64,
    pub ask_total: i64,
    pub bid_total: i64,
    pub oi: i64,
    pub hi_limit: i64,
    pub low_limit: i64,
    pub deposit_bits: u64,
    pub rate_bits: u64,
    pub message: Seq<char>,
}

impl View for AuxInfo {
    type V = AuxInfoModel;

    open spec fn view(&self) -> AuxInfoModel {
        AuxInfoModel {
            frame_time_delta: self.frame_time_delta,
            timestamp: self.timestamp,
            price: self.price,
            ask_total: self.ask_total,
            bid_total: self.bid_total,
            oi: self.oi,
            hi_limit: self.hi_limit,
            low_limit: self.low_limit,
            deposit_bits: self.deposit_bits,
            rate_bits: self.rate_bits,
            message: self.message@,
        }
    }
}

/// One auxiliary record: frame time delta, flags, then the time, ask total,
/// bid total, open interest and price that the flags announce, as deltas.
pub open spec fn spec_aux(st: AuxInfoModel, s: Seq<u8>) -> Result<(AuxInfoModel, Seq<u8>), ErrorKind> {
    match spec_growing(s) {
        Err(k) => Err(k),
        Ok((ftd, s1)) => match spec_fixed(s1, 1) {
            Err(k) => Err(k),
            Ok((f, s2)) => {
                let f = f as u8;
                match opt_growing(has8(f, AuxInfoFlags::TIMESTAMP), s2) {
                    Err(k) => Err(k),
                    Ok((d1, s3)) => match grow(has8(f, AuxInfoFlags::TIMESTAMP), st.timestamp, d1) {
                        None => Err(ErrorKind::Overflow),
                        Some(ts) => match opt_leb(has8(f, AuxInfoFlags::ASK_TOTAL), s3) {
                            Err(k) => Err(k),
                            Ok((d2, s4)) => match grow(has8(f, AuxInfoFlags::ASK_TOTAL), st.ask_total, d2) {
                                None => Err(ErrorKind::Overflow),
                                Some(ask) => match opt_leb(has8(f, AuxInfoFlags::BID_TOTAL), s4) {
                                    Err(k) => Err(k),
                                    Ok((d3, s5)) => match grow(has8(f, AuxInfoFlags::BID_TOTAL), st.bid_total, d3) {
                                        None => Err(ErrorKind::Overflow),
                                        Some(bid) => match opt_leb(has8(f, AuxInfoFlags::OI), s5) {
                                            Err(k) => Err(k),
                                            Ok((d4, s6)) => match grow(has8(f, AuxInfoFlags::OI), st.oi, d4) {
                                                None => Err(ErrorKind::Overflow),
                                                Some(oi) => match opt_leb(has8(f, AuxInfoFlags::PRICE), s6) {
                                                    Err(k) => Err(k),
                                                    Ok((d5, s7)) => match grow(has8(f, AuxInfoFlags::PRICE), st.price, d5) {
                                                        None => Err(ErrorKind::Overflow),
                                                        Some(price) => spec_aux_tail(
                                                            AuxInfoModel {
                                                                frame_time_delta: ftd as i64,
                                                                timestamp: ts,
                                                                ask_total: ask,
                                                                bid_total: bid,
                                                                oi,
                                                                price,
                                                                ..st
                                                            },
                                                            f,
                                                            s7,
                                                        ),
                                                    },
                                                },
                                            },
                                        },
                                    },
                                },
                            },
                        },
                    },
                }
            },
        },
    }
}

/// The session limits and deposit, the rate, and the message of an
/// auxiliary record; none of them a delta. Without its flag the message is
/// empty.
pub open spec fn spec_aux_tail(st: AuxInfoModel, f: u8, s: Seq<u8>) -> Result<(AuxInfoModel, Seq<u8>), ErrorKind> {
    let si = has8(f, AuxInfoFlags::SESSION_INFO);
    match opt_leb(si, s) {
        Err(k) => Err(k),
        Ok((hi, s1)) => match opt_leb(si, s1) {
            Err(k) => Err(k),
            Ok((lo, s2)) => match (if si { spec_fixed(s2, 8) } else { Ok((0, s2)) }) {
                Err(k) => Err(k),
                Ok((dep, s3)) => match (if has8(f, AuxInfoFlags::RATE) { spec_fixed(s3, 8) } else { Ok((0, s3)) }) {
                    Err(k) => Err(k),
                    Ok((rate, s4)) => match (if has8(f, AuxInfoFlags::MESSAGE) { spec_string(s4) } else { Ok((Seq::empty(), s4)) }) {
                        Err(k) => Err(k),
                        Ok((msg, s5)) => Ok((
                            AuxInfoModel {
                                hi_limit: if si { hi as i64 } else { st.hi_limit },
                                low_limit: if si { lo as i64 } else { st.low_limit },
                                deposit_bits: if si { dep as u64 } else { st.deposit_bits },
                                rate_bits: if has8(f, AuxInfoFlags::RATE) { rate as u64 } else { st.rate_bits },
                                message: msg,
                                ..st
                            },
                            s5,
                        )),
                    },
                },
            },
        },
    }
}

impl AuxInfoReader {
    /// A decoder with every running value zero and no message.
    pub fn new() -> (r: AuxInfoReader)
        ensures
            r.prev@ == (AuxInfoModel {
                frame_time_delta: 0,
                timestamp: 0,
                price: 0,
                ask_total: 0,
                bid_total: 0,
                oi: 0,
                hi_limit: 0,
                low_limit: 0,
                deposit_bits: 0,
                rate_bits: 0,
                message: Seq::empty(),
            }),
    {
        let r = AuxInfoReader {
            prev: AuxInfo {
                frame_time_delta: 0,
                timestamp: 0,
                price: 0,
                ask_total: 0,
                bid_total: 0,
                oi: 0,
                hi_limit: 0,
                low_limit: 0,
                deposit_bits: 0,
                rate_bits: 0,
                message: String::new(),
            },
        };
        assert(r.prev.message@ =~= Seq::<char>::empty());
        r
    }

    /// Decodes one auxiliary-information record. On success the decoder
    /// keeps it; on failure the decoder stays as it was.
    pub fn parse(&mut self, p: &mut QshRead) -> (r: Result<AuxInfo, QshError>)
        requires
            old(p).wf(),
        ensures
            final(p).wf(),
            match spec_aux(old(self).prev@, old(p)@) {
                Ok((a, rest)) => r matches Ok(x) && x@ == a && final(self).prev@ == a && final(p)@ == rest,
                Err(k) => r matches Err(e) && e.kind() == k && final(self).prev@ == old(self).prev@,
            },
    {
        let ftd = match p.growing() {
            Ok(v) => v,
            Err(e) => return Err(e),
        };
        let f = match p.byte() {
            Ok(v) => v,
            Err(e) => return Err(e),
        };
        let timestamp = match grow_growing(f & AuxInfoFlags::TIMESTAMP != 0, self.prev.timestamp, p) {
            Ok(v) => v,
            Err(e) => return Err(e),
        };
        let ask_total = match grow_leb(f & AuxInfoFlags::ASK_TOTAL != 0, self.prev.ask_total, p) {
            Ok(v) => v,
            Err(e) => return Err(e),
        };
        let bid_total = match grow_leb(f & AuxInfoFlags::BID_TOTAL != 0, self.prev.bid_total, p) {
            Ok(v) => v,
            Err(e) => return Err(e),
        };
        let oi = match grow_leb(f & AuxInfoFlags::OI != 0, self.prev.oi, p) {
            Ok(v) => v,
            Err(e) => return Err(e),
        };
        let price = match grow_leb(f & AuxInfoFlags::PRICE != 0, self.prev.price, p) {
            Ok(v) => v,
            Err(e) => return Err(e),
        };
        self.tail(ftd, timestamp, ask_total, bid_total, oi, price, f, p)
    }

    fn tail(
        &mut self,
        ftd: i64,
        timestamp: i64,
        ask_total: i64,
        bid_total: i64,
        oi: i64,
        price: i64,
        f: u8,
        p: &mut QshRead,
    ) -> (r: Result<AuxInfo, QshError>)
        requires
            old(p).wf(),
        ensures
            final(p).wf(),
            match spec_aux_tail(
                AuxInfoModel {
                    frame_time_delta: ftd,
                    timestamp,
                    ask_total,
                    bid_total,
                    oi,
                    price,
                    ..old(self).prev@
                },
                f,
                old(p)@,
            ) {
                Ok((a, rest)) => r matches Ok(x) && x@ == a && final(self).prev@ == a && final(p)@ == rest,
                Err(k) => r matches Err(e) && e.kind() == k && final(self).prev@ == old(self).prev@,
            },
    {
        let si = f & AuxInfoFlags::SESSION_INFO != 0;
        let hi_limit = match leb_or(si, self.prev.hi_limit, p) {
            Ok(v) => v,
            Err(e) => return Err(e),
        };
        let low_limit = match leb_or(si, self.prev.low_limit, p) {
            Ok(v) => v,
            Err(e) => return Err(e),
        };
        let mut deposit_bits = self.prev.deposit_bits;
        if si {
            deposit_bits = match p.u64() {
                Ok(v) => v,
                Err(e) => return Err(e),
            };
        }
        let mut rate_bits = self.prev.rate_bits;
        if f & AuxInfoFlags::RATE != 0 {
            rate_bits = match p.u64() {
                Ok(v) => v,
                Err(e) => return Err(e),
            };
        }
        let message = if f & AuxInfoFlags::MESSAGE != 0 {
            match p.string() {
                Ok(v) => v,
                Err(e) => return Err(e),
            }
        } else {
            String::new()
        };
        proof {
            if f & AuxInfoFlags::MESSAGE == 0 {
                assert(message@ =~= Seq::<char>::empty());
            }
        }
        let a = AuxInfo {
            frame_time_delta: ftd,
            timestamp,
            price,
            ask_total,
            bid_total,
            oi,
            hi_limit,
            low_limit,
            deposit_bits,
            rate_bits,
            message: message.clone(),
        };
        self.prev = AuxInfo {
            frame_time_delta: ftd,
            timestamp,
            price,
            ask_total,
            bid_total,
            oi,
            hi_limit,
            low_limit,
            deposit_bits,
            rate_bits,
            message,
        };
        Ok(a)
    }
}

// ---------------------------------------------------------------- records in turn

/// A decoder together with the bytes that it reads: gives one record after
/// another until the bytes run out.
pub struct RecordIter<T> {
    pub parser: T,
    pub reader: QshRead,
}

impl<T> RecordIter<T> {
    pub fn new(parser: T, reader: QshRead) -> (r: RecordIter<T>)
        ensures
            r.parser == parser,
            r.reader == reader,
    {
        RecordIter { parser, reader }
    }
}

impl RecordIter<OrderLogReader> {
    /// The next order-log record; `None` once every byte has been read.
    pub fn next(&mut self) -> (r: Option<Result<OrderLog, QshError>>)
        requires
            old(self).reader.wf(),
        ensures
            final(self).reader.wf(),
            old(self).reader@.len() == 0 ==> r is None,
            old(self).reader@.len() > 0 ==> match spec_parse_ol(old(self).parser, old(self).reader@) {
                Ok((st, rec, rest)) => r == Some(Ok::<OrderLog, QshError>(rec)) && final(self).parser == st
                    && final(self).reader@ == rest,
                Err(k) => r matches Some(Err(e)) && e.kind() == k && final(self).parser == old(self).parser,
            },
    {
        if self.reader.eof() {
            None
        } else {
            Some(self.parser.parse(&mut self.reader))
        }
    }
}

impl RecordIter<DealReader> {
    /// The next deal; `None` once every byte has been read.
    pub fn next(&mut self) -> (r: Option<Result<Deal, QshError>>)
        requires
            old(self).reader.wf(),
        ensures
            final(self).reader.wf(),
            old(self).reader@.len() == 0 ==> r is None,
            old(self).reader@.len() > 0 ==> match spec_deal(old(self).parser.prev, old(self).reader@) {
                Ok((d, rest)) => r == Some(Ok::<Deal, QshError>(d)) && final(self).parser.prev == d
                    && final(self).reader@ == rest,
                Err(k) => r matches Some(Err(e)) && e.kind() == k && final(self).parser.prev == old(self).parser.prev,
            },
    {
        if self.reader.eof() {
            None
        } else {
            Some(self.parser.parse(&mut self.reader))
        }
    }
}

impl RecordIter<AuxInfoReader> {
    /// The next auxiliary-information record; `None` once every byte has
    /// been read.
    pub fn next(&mut self) -> (r: Option<Result<AuxInfo, QshError>>)
        requires
            old(self).reader.wf(),
        ensures
            final(self).reader.wf(),
            old(self).reader@.len() == 0 ==> r is None,
            old(self).reader@.len() > 0 ==> match spec_aux(old(self).parser.prev@, old(self).reader@) {
                Ok((a, rest)) => r matches Some(Ok(x)) && x@ == a && final(self).parser.prev@ == a
                    && final(self).reader@ == rest,
                Err(k) => r matches Some(Err(e)) && e.kind() == k && final(self).parser.prev@ == old(self).parser.prev@,
            },
    {
        if self.reader.eof() {
            None
        } else {
            Some(self.parser.parse(&mut self.reader))
        }
    }
}

impl RecordIter<QuotesReader> {
    /// The next quotes record; `None` once every byte has been read.
    pub fn next(&mut self) -> (r: Option<Result<Quotes, QshError>>)
        requires
            old(self).reader.wf(),
            quotes_ok(old(self).parser.map@),
        ensures
            final(self).reader.wf(),
            old(self).reader@.len() == 0 ==> r is None,
            old(self).reader@.len() > 0 ==> match spec_quotes(old(self).parser.map@, old(self).parser.key, old(self).reader@) {
                Ok((ftd, m, k, rest)) => r matches Some(Ok(q)) && q.frame_time_delta == ftd
                    && final(self).parser.map@ == m && final(self).parser.key == k && final(self).reader@ == rest
                    && quotes_ok(m) && side_listing(m, q.bid@, true) && side_listing(m, q.ask@, false),
                Err(k) => r matches Some(Err(e)) && e.kind() == k && final(self).parser.map@ == old(self).parser.map@
                    && final(self).parser.key == old(self).parser.key,
            },
    {
        if self.reader.eof() {
            None
        } else {
            Some(self.parser.parse(&mut self.reader))
        }
    }
}

} // verus!

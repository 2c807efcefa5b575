//! A price-level order book fed with order-level actions.
//!
//! Each side is a sequence of levels kept sorted from the best price
//! outwards: descending prices for bids, ascending prices for asks. A level
//! holds its price, its total volume and its live orders in arrival order.

use vstd::prelude::*;

use crate::types::{has16, L2Message, OLFlags, OrderLog, OrderType, Price, Side, Timestamp, Volume, order_type_of};
use crate::{error_of, ErrorKind, QshError};

verus! {

/// Milliseconds from 0001-01-01 to 1970-01-01.
pub const EPOCH_OFFSET: i64 = 62135596800000;

/// A price level: its price, the sum of its orders' amounts, and its orders
/// in arrival order.
#[derive(Debug, Clone)]
pub struct Level {
    pub price: Price,
    pub volume: Volume,
    pub orders: Vec<OrderLog>,
}

/// What a level holds, as mathematical values.
pub struct LevelModel {
    pub price: i64,
    pub volume: int,
    pub orders: Seq<OrderLog>,
}

impl View for Level {
    type V = LevelModel;

    open spec fn view(&self) -> LevelModel {
        LevelModel { price: self.price, volume: self.volume as int, orders: self.orders@ }
    }
}

/// What a book holds: both sides, best level first, and the time of the
/// last change.
pub struct BookModel {
    pub bids: Seq<LevelModel>,
    pub asks: Seq<LevelModel>,
    pub timestamp: i64,
}

pub open spec fn levels_view(v: Seq<Level>) -> Seq<LevelModel> {
    v.map_values(|l: Level| l@)
}

/// Whether price `a` comes before price `b` on a side: higher first for
/// bids, lower first for asks.
pub open spec fn better(buy: bool, a: i64, b: i64) -> bool {
    if buy {
        a > b
    } else {
        a < b
    }
}

pub open spec fn sorted_levels(s: Seq<LevelModel>, buy: bool) -> bool {
    forall|i: int, j: int| 0 <= i < j < s.len() ==> better(buy, #[trigger] s[i].price, #[trigger] s[j].price)
}

/// The sum of the amounts of a sequence of orders.
pub open spec fn sum_amounts(s: Seq<OrderLog>) -> int
    decreases s.len(),
{
    if s.len() == 0 {
        0
    } else {
        sum_amounts(s.drop_last()) + s.last().amount
    }
}

/// A level holds at least one order, and its volume is their total amount,
/// which is positive.
pub open spec fn level_ok(l: LevelModel) -> bool {
    l.orders.len() > 0 && l.volume == sum_amounts(l.orders) && fits_i64(l.volume) && l.volume > 0
}

pub open spec fn side_ok(s: Seq<LevelModel>, buy: bool) -> bool {
    sorted_levels(s, buy) && forall|i: int| 0 <= i < s.len() ==> level_ok(#[trigger] s[i])
}

/// Both sides strictly sorted from the best price, each level non-empty
/// with a volume equal to the sum of its orders.
pub open spec fn sides_ok(b: BookModel) -> bool {
    side_ok(b.bids, true) && side_ok(b.asks, false)
}

/// The best bid is below the best ask whenever both sides hold a level.
pub open spec fn uncrossed(b: BookModel) -> bool {
    b.bids.len() > 0 && b.asks.len() > 0 ==> b.bids[0].price < b.asks[0].price
}

/// The book's invariant: sorted sides of non-empty levels whose volume is
/// the sum of their orders and positive, and the best bid below the best
/// ask.
pub open spec fn book_ok(b: BookModel) -> bool {
    sides_ok(b) && uncrossed(b)
}

pub open spec fn fits_i64(x: int) -> bool {
    i64::MIN <= x <= i64::MAX
}

/// The number of leading levels whose price comes before `p`: on a sorted
/// side, the index of the level at `p`, or where it would be inserted.
pub open spec fn level_pos(s: Seq<LevelModel>, buy: bool, p: i64) -> int
    decreases s.len(),
{
    if s.len() > 0 && better(buy, s[0].price, p) {
        1 + level_pos(s.drop_first(), buy, p)
    } else {
        0
    }
}

/// The index of the first order with the given id, or the length of the
/// sequence if there is none.
pub open spec fn order_pos(s: Seq<OrderLog>, id: i64) -> int
    decreases s.len(),
{
    if s.len() > 0 && s[0].order_id != id {
        1 + order_pos(s.drop_first(), id)
    } else {
        0
    }
}

pub open spec fn side_levels(b: BookModel, side: Side) -> Seq<LevelModel> {
    if side == Side::Buy {
        b.bids
    } else {
        b.asks
    }
}

/// The book with one side replaced and a new timestamp.
pub open spec fn with_side(b: BookModel, side: Side, s: Seq<LevelModel>, ts: i64) -> BookModel {
    if side == Side::Buy {
        BookModel { bids: s, asks: b.asks, timestamp: ts }
    } else {
        BookModel { bids: b.bids, asks: s, timestamp: ts }
    }
}

/// Windows-epoch milliseconds can be moved to the Unix epoch without
/// leaving `i64`.
pub open spec fn ts_ok(t: i64) -> bool {
    t >= i64::MIN + EPOCH_OFFSET
}

// ---------------------------------------------------------------- add

pub open spec fn add_valid(rec: OrderLog) -> bool {
    &&& !has16(rec.order_flags, OLFlags::FILL)
    &&& !has16(rec.order_flags, OLFlags::CANCELED)
    &&& !has16(rec.order_flags, OLFlags::CANCELED_GROUP)
    &&& rec.amount_rest != 0
    &&& rec.amount == rec.amount_rest
    &&& rec.side != Side::UNKNOWN
}

/// An order that would meet or pass the best price of the other side.
pub open spec fn crosses(b: BookModel, rec: OrderLog) -> bool {
    if rec.side == Side::Buy {
        b.asks.len() > 0 && rec.price >= b.asks[0].price
    } else {
        b.bids.len() > 0 && rec.price <= b.bids[0].price
    }
}

/// Adding an order to one side: it joins the end of the level at its price,
/// or opens a new level in sorted position; a level whose total would not
/// be positive is refused. Gives the side and the new size
/// of the level.
pub open spec fn add_side(s: Seq<LevelModel>, buy: bool, rec: OrderLog) -> Result<(Seq<LevelModel>, int), ErrorKind> {
    let i = level_pos(s, buy, rec.price);
    if i < s.len() && s[i].price == rec.price {
        let v = s[i].volume + rec.amount;
        if !fits_i64(v) {
            Err(ErrorKind::Overflow)
        } else if v <= 0 {
            Err(ErrorKind::Validation)
        } else {
            Ok((s.update(i, LevelModel { price: rec.price, volume: v, orders: s[i].orders.push(rec) }), v))
        }
    } else if rec.amount <= 0 {
        Err(ErrorKind::Validation)
    } else {
        Ok((s.insert(i, LevelModel { price: rec.price, volume: rec.amount as int, orders: seq![rec] }), rec.amount as int))
    }
}

/// What `OrderBook::add` does: the new book and the event, or the kind of
/// the error.
pub open spec fn book_add(b: BookModel, rec: OrderLog) -> Result<(BookModel, L2Message), ErrorKind> {
    if !add_valid(rec) || crosses(b, rec) {
        Err(ErrorKind::Validation)
    } else if !ts_ok(rec.timestamp) {
        Err(ErrorKind::Overflow)
    } else {
        match add_side(side_levels(b, rec.side), rec.side == Side::Buy, rec) {
            Err(k) => Err(k),
            Ok((s, v)) => Ok((
                with_side(b, rec.side, s, (rec.timestamp - EPOCH_OFFSET) as i64),
                L2Message::Quote { side: rec.side, price: rec.price, size: v as i64 },
            )),
        }
    }
}

// ---------------------------------------------------------------- cancel

pub open spec fn cancel_valid(rec: OrderLog) -> bool {
    &&& !has16(rec.order_flags, OLFlags::FILL)
    &&& !has16(rec.order_flags, OLFlags::ADD)
    &&& rec.side != Side::UNKNOWN
}

/// The side after a level at index `i` takes new orders and a new volume:
/// the level goes when no order is left, and the event says which.
pub open spec fn settle_level(s: Seq<LevelModel>, i: int, side: Side, orders: Seq<OrderLog>, v: int) -> Result<(Seq<LevelModel>, L2Message), ErrorKind> {
    if !fits_i64(v) {
        Err(ErrorKind::Overflow)
    } else if orders.len() == 0 {
        if v != 0 {
            Err(ErrorKind::InvalidState)
        } else {
            Ok((s.remove(i), L2Message::Remove { side, price: s[i].price }))
        }
    } else if v <= 0 {
        Err(ErrorKind::InvalidState)
    } else {
        Ok((s.update(i, LevelModel { price: s[i].price, volume: v, orders }), L2Message::Quote { side, price: s[i].price, size: v as i64 }))
    }
}

/// Cancelling on one side: with a zero rest the order leaves its level,
/// otherwise its amount shrinks to the rest, which must be smaller.
pub open spec fn cancel_side(s: Seq<LevelModel>, side: Side, rec: OrderLog) -> Result<(Seq<LevelModel>, L2Message), ErrorKind> {
    let i = level_pos(s, side == Side::Buy, rec.price);
    if !(i < s.len() && s[i].price == rec.price) {
        Err(ErrorKind::InvalidState)
    } else {
        let l = s[i];
        let k = order_pos(l.orders, rec.order_id);
        if k >= l.orders.len() {
            Err(ErrorKind::InvalidState)
        } else if rec.amount_rest == 0 {
            let diff = l.orders[k].amount;
            if l.volume < diff {
                Err(ErrorKind::InvalidState)
            } else {
                settle_level(s, i, side, l.orders.remove(k), l.volume - diff)
            }
        } else {
            let o = l.orders[k];
            if o.amount <= rec.amount_rest {
                Err(ErrorKind::InvalidState)
            } else if l.volume <= o.amount - rec.amount_rest {
                Err(ErrorKind::InvalidState)
            } else {
                settle_level(
                    s,
                    i,
                    side,
                    l.orders.update(k, OrderLog { amount: rec.amount_rest, amount_rest: rec.amount_rest, ..o }),
                    l.volume - (o.amount - rec.amount_rest),
                )
            }
        }
    }
}

/// What `OrderBook::cancel` does.
pub open spec fn book_cancel(b: BookModel, rec: OrderLog) -> Result<(BookModel, L2Message), ErrorKind> {
    if !cancel_valid(rec) {
        Err(ErrorKind::Validation)
    } else if !ts_ok(rec.timestamp) {
        Err(ErrorKind::Overflow)
    } else {
        match cancel_side(side_levels(b, rec.side), rec.side, rec) {
            Err(k) => Err(k),
            Ok((s, m)) => Ok((with_side(b, rec.side, s, (rec.timestamp - EPOCH_OFFSET) as i64), m)),
        }
    }
}

// ---------------------------------------------------------------- trade

pub open spec fn trade_valid(rec: OrderLog) -> bool {
    &&& !has16(rec.order_flags, OLFlags::ADD)
    &&& !has16(rec.order_flags, OLFlags::CANCELED)
    &&& !has16(rec.order_flags, OLFlags::CANCELED_GROUP)
    &&& rec.amount != 0
    &&& rec.side != Side::UNKNOWN
}

/// A fill against a resting order: the order leaves when the fill takes
/// all of it, otherwise its amount and rest both shrink by the fill.
pub open spec fn trade_side(s: Seq<LevelModel>, side: Side, rec: OrderLog) -> Result<(Seq<LevelModel>, L2Message), ErrorKind> {
    let i = level_pos(s, side == Side::Buy, rec.price);
    if !(i < s.len() && s[i].price == rec.price) {
        Err(ErrorKind::InvalidState)
    } else {
        let l = s[i];
        let k = order_pos(l.orders, rec.order_id);
        if k >= l.orders.len() {
            Err(ErrorKind::InvalidState)
        } else {
            let o = l.orders[k];
            if o.amount != rec.amount && !(o.amount > rec.amount && o.amount_rest > rec.amount) {
                Err(ErrorKind::InvalidState)
            } else if o.amount != rec.amount && !(fits_i64(o.amount - rec.amount) && fits_i64(o.amount_rest - rec.amount)) {
                Err(ErrorKind::Overflow)
            } else if l.volume < rec.amount {
                Err(ErrorKind::InvalidState)
            } else {
                let orders = if o.amount == rec.amount {
                    l.orders.remove(k)
                } else {
                    l.orders.update(k, OrderLog {
                        amount: (o.amount - rec.amount) as i64,
                        amount_rest: (o.amount_rest - rec.amount) as i64,
                        ..o
                    })
                };
                settle_level(s, i, side, orders, l.volume - rec.amount)
            }
        }
    }
}

/// What `OrderBook::trade` does.
pub open spec fn book_trade(b: BookModel, rec: OrderLog) -> Result<(BookModel, L2Message), ErrorKind> {
    if !trade_valid(rec) {
        Err(ErrorKind::Validation)
    } else if !ts_ok(rec.timestamp) {
        Err(ErrorKind::Overflow)
    } else {
        match trade_side(side_levels(b, rec.side), rec.side, rec) {
            Err(k) => Err(k),
            Ok((s, m)) => Ok((with_side(b, rec.side, s, (rec.timestamp - EPOCH_OFFSET) as i64), m)),
        }
    }
}

// ---------------------------------------------------------------- lemmas

proof fn lemma_pos_props(s: Seq<LevelModel>, buy: bool, p: i64)
    ensures
        0 <= level_pos(s, buy, p) <= s.len(),
        forall|j: int| 0 <= j < level_pos(s, buy, p) ==> better(buy, #[trigger] s[j].price, p),
        level_pos(s, buy, p) < s.len() ==> !better(buy, s[level_pos(s, buy, p)].price, p),
    decreases s.len(),
{
    if s.len() > 0 && better(buy, s[0].price, p) {
        lemma_pos_props(s.drop_first(), buy, p);
        assert forall|j: int| 0 <= j < level_pos(s, buy, p) implies better(buy, #[trigger] s[j].price, p) by {
            if j > 0 {
                assert(s[j] == s.drop_first()[j - 1]);
            }
        }
    }
}

proof fn lemma_pos_char(s: Seq<LevelModel>, buy: bool, p: i64, i: int)
    requires
        0 <= i <= s.len(),
        forall|j: int| 0 <= j < i ==> better(buy, #[trigger] s[j].price, p),
        i < s.len() ==> !better(buy, s[i].price, p),
    ensures
        level_pos(s, buy, p) == i,
    decreases i,
{
    if i > 0 {
        assert(better(buy, s[0].price, p));
        assert forall|j: int| 0 <= j < i - 1 implies better(buy, #[trigger] s.drop_first()[j].price, p) by {
            assert(s.drop_first()[j] == s[j + 1]);
        }
        lemma_pos_char(s.drop_first(), buy, p, i - 1);
    }
}

proof fn lemma_order_pos_props(s: Seq<OrderLog>, id: i64)
    ensures
        0 <= order_pos(s, id) <= s.len(),
        forall|j: int| 0 <= j < order_pos(s, id) ==> (#[trigger] s[j]).order_id != id,
        order_pos(s, id) < s.len() ==> s[order_pos(s, id)].order_id == id,
    decreases s.len(),
{
    if s.len() > 0 && s[0].order_id != id {
        lemma_order_pos_props(s.drop_first(), id);
        assert forall|j: int| 0 <= j < order_pos(s, id) implies (#[trigger] s[j]).order_id != id by {
            if j > 0 {
                assert(s[j] == s.drop_first()[j - 1]);
            }
        }
    }
}

proof fn lemma_order_pos_char(s: Seq<OrderLog>, id: i64, i: int)
    requires
        0 <= i <= s.len(),
        forall|j: int| 0 <= j < i ==> (#[trigger] s[j]).order_id != id,
        i < s.len() ==> s[i].order_id == id,
    ensures
        order_pos(s, id) == i,
    decreases i,
{
    if i > 0 {
        assert(s[0].order_id != id);
        assert forall|j: int| 0 <= j < i - 1 implies (#[trigger] s.drop_first()[j]).order_id != id by {
            assert(s.drop_first()[j] == s[j + 1]);
        }
        lemma_order_pos_char(s.drop_first(), id, i - 1);
    }
}

proof fn lemma_sum_push(s: Seq<OrderLog>, x: OrderLog)
    ensures
        sum_amounts(s.push(x)) == sum_amounts(s) + x.amount,
{
    assert(s.push(x).drop_last() =~= s);
}

proof fn lemma_sum_update(s: Seq<OrderLog>, k: int, x: OrderLog)
    requires
        0 <= k < s.len(),
    ensures
        sum_amounts(s.update(k, x)) == sum_amounts(s) - s[k].amount + x.amount,
    decreases s.len(),
{
    if k == s.len() - 1 {
        assert(s.update(k, x).drop_last() =~= s.drop_last());
    } else {
        lemma_sum_update(s.drop_last(), k, x);
        assert(s.update(k, x).drop_last() =~= s.drop_last().update(k, x));
    }
}

proof fn lemma_sum_remove(s: Seq<OrderLog>, k: int)
    requires
        0 <= k < s.len(),
    ensures
        sum_amounts(s.remove(k)) == sum_amounts(s) - s[k].amount,
    decreases s.len(),
{
    if k == s.len() - 1 {
        assert(s.remove(k) =~= s.drop_last());
    } else {
        lemma_sum_remove(s.drop_last(), k);
        assert(s.remove(k).drop_last() =~= s.drop_last().remove(k));
    }
}

proof fn lemma_add_side_ok(s: Seq<LevelModel>, buy: bool, rec: OrderLog)
    requires
        side_ok(s, buy),
        add_side(s, buy, rec) is Ok,
    ensures
        side_ok(add_side(s, buy, rec)->Ok_0.0, buy),
        level_pos(add_side(s, buy, rec)->Ok_0.0, buy, rec.price) == level_pos(s, buy, rec.price),
{
    lemma_pos_props(s, buy, rec.price);
    let i = level_pos(s, buy, rec.price);
    let t = add_side(s, buy, rec)->Ok_0.0;
    if i < s.len() && s[i].price == rec.price {
        lemma_sum_push(s[i].orders, rec);
        assert(forall|j: int| 0 <= j < t.len() && j != i ==> t[j] == s[j]);
    } else {
        assert(sum_amounts(seq![rec]) == rec.amount) by {
            assert(seq![rec].drop_last() =~= Seq::<OrderLog>::empty());
            assert(sum_amounts(Seq::<OrderLog>::empty()) == 0);
        }
        assert forall|a: int, c: int| 0 <= a < c < t.len() implies better(buy, #[trigger] t[a].price, #[trigger] t[c].price) by {
            if c < i {
            } else if a > i {
                assert(t[a] == s[a - 1] && t[c] == s[c - 1]);
            } else if a == i {
                assert(t[c] == s[c - 1]);
                assert(!better(buy, s[i].price, rec.price));
            } else if c == i {
            } else {
                assert(t[c] == s[c - 1]);
                assert(!better(buy, s[i].price, rec.price));
            }
        }
        assert forall|j: int| 0 <= j < t.len() implies level_ok(#[trigger] t[j]) by {
            if j > i {
                assert(t[j] == s[j - 1]);
            }
        }
    }
    lemma_pos_props(t, buy, rec.price);
    lemma_pos_char(t, buy, rec.price, i);
}

proof fn lemma_settle_ok(s: Seq<LevelModel>, buy: bool, i: int, side: Side, orders: Seq<OrderLog>, v: int)
    requires
        side_ok(s, buy),
        0 <= i < s.len(),
        v == sum_amounts(orders),
        settle_level(s, i, side, orders, v) is Ok,
    ensures
        side_ok(settle_level(s, i, side, orders, v)->Ok_0.0, buy),
{
    let t = settle_level(s, i, side, orders, v)->Ok_0.0;
    if orders.len() == 0 {
        assert forall|a: int, c: int| 0 <= a < c < t.len() implies better(buy, #[trigger] t[a].price, #[trigger] t[c].price) by {
            let a2 = if a < i { a } else { a + 1 };
            let c2 = if c < i { c } else { c + 1 };
            assert(t[a] == s[a2] && t[c] == s[c2]);
        }
        assert forall|j: int| 0 <= j < t.len() implies level_ok(#[trigger] t[j]) by {
            if j >= i {
                assert(t[j] == s[j + 1]);
            }
        }
    } else {
        assert(forall|j: int| 0 <= j < t.len() && j != i ==> t[j] == s[j]);
        assert(t[i].price == s[i].price);
    }
}

proof fn lemma_cancel_side_ok(s: Seq<LevelModel>, side: Side, rec: OrderLog)
    requires
        side_ok(s, side == Side::Buy),
    ensures
        cancel_side(s, side, rec) is Ok ==> side_ok(cancel_side(s, side, rec)->Ok_0.0, side == Side::Buy),
{
    let buy = side == Side::Buy;
    let i = level_pos(s, buy, rec.price);
    lemma_pos_props(s, buy, rec.price);
    if cancel_side(s, side, rec) is Ok {
        let l = s[i];
        let k = order_pos(l.orders, rec.order_id);
        lemma_order_pos_props(l.orders, rec.order_id);
        assert(level_ok(s[i]));
        if rec.amount_rest == 0 {
            lemma_sum_remove(l.orders, k);
            lemma_settle_ok(s, buy, i, side, l.orders.remove(k), l.volume - l.orders[k].amount);
        } else {
            let o = l.orders[k];
            let n = OrderLog { amount: rec.amount_rest, amount_rest: rec.amount_rest, ..o };
            lemma_sum_update(l.orders, k, n);
            lemma_settle_ok(s, buy, i, side, l.orders.update(k, n), l.volume - (o.amount - rec.amount_rest));
        }
    }
}

proof fn lemma_trade_side_ok(s: Seq<LevelModel>, side: Side, rec: OrderLog)
    requires
        side_ok(s, side == Side::Buy),
    ensures
        trade_side(s, side, rec) is Ok ==> side_ok(trade_side(s, side, rec)->Ok_0.0, side == Side::Buy),
{
    let buy = side == Side::Buy;
    let i = level_pos(s, buy, rec.price);
    lemma_pos_props(s, buy, rec.price);
    if trade_side(s, side, rec) is Ok {
        let l = s[i];
        let k = order_pos(l.orders, rec.order_id);
        lemma_order_pos_props(l.orders, rec.order_id);
        assert(level_ok(s[i]));
        let o = l.orders[k];
        if o.amount == rec.amount {
            lemma_sum_remove(l.orders, k);
            lemma_settle_ok(s, buy, i, side, l.orders.remove(k), l.volume - rec.amount);
        } else {
            let n = OrderLog { amount: (o.amount - rec.amount) as i64, amount_rest: (o.amount_rest - rec.amount) as i64, ..o };
            lemma_sum_update(l.orders, k, n);
            lemma_settle_ok(s, buy, i, side, l.orders.update(k, n), l.volume - rec.amount);
        }
    }
}

// ---------------------------------------------------------------- laws

/// In a well-formed book every level of either side holds at least one
/// order and has a positive total volume, equal to the sum of the amounts of
/// its orders.
pub proof fn lemma_level_volume_positive(b: BookModel, side: Side, i: int)
    requires
        book_ok(b),
        0 <= i < side_levels(b, side).len(),
    ensures
        side_levels(b, side)[i].volume == sum_amounts(side_levels(b, side)[i].orders),
        side_levels(b, side)[i].volume > 0,
        side_levels(b, side)[i].orders.len() > 0,
{
    assert(level_ok(side_levels(b, side)[i]));
}

/// Adding an order and then cancelling it in full (same id, side and price,
/// zero rest) gives back the side as it was before the add, provided no
/// order with that id already rests at that price.
pub proof fn lemma_add_then_cancel(b: BookModel, rec: OrderLog, rec2: OrderLog)
    requires
        book_ok(b),
        book_add(b, rec) is Ok,
        cancel_valid(rec2),
        ts_ok(rec2.timestamp),
        rec2.order_id == rec.order_id,
        rec2.side == rec.side,
        rec2.price == rec.price,
        rec2.amount_rest == 0,
        forall|i: int, k: int|
            0 <= i < side_levels(b, rec.side).len() && side_levels(b, rec.side)[i].price == rec.price && 0 <= k
                < side_levels(b, rec.side)[i].orders.len() ==> #[trigger] side_levels(b, rec.side)[i].orders[k].order_id
                != rec.order_id,
    ensures
        book_cancel(book_add(b, rec)->Ok_0.0, rec2) is Ok,
        side_levels(book_cancel(book_add(b, rec)->Ok_0.0, rec2)->Ok_0.0, rec.side) == side_levels(b, rec.side),
{
    let s = side_levels(b, rec.side);
    let buy = rec.side == Side::Buy;
    let i = level_pos(s, buy, rec.price);
    lemma_pos_props(s, buy, rec.price);
    lemma_add_side_ok(s, buy, rec);
    let s1 = add_side(s, buy, rec)->Ok_0.0;
    let b1 = book_add(b, rec)->Ok_0.0;
    assert(side_levels(b1, rec.side) == s1);
    assert(level_pos(s1, buy, rec.price) == i);
    if i < s.len() && s[i].price == rec.price {
        let os = s[i].orders;
        let n = os.len();
        assert forall|j: int| 0 <= j < n implies (#[trigger] os.push(rec)[j]).order_id != rec.order_id by {
            assert(os.push(rec)[j] == os[j]);
            assert(s[i].orders[j].order_id != rec.order_id);
        }
        lemma_order_pos_char(os.push(rec), rec.order_id, n as int);
        assert(os.push(rec).remove(n as int) =~= os);
        lemma_level_volume_positive(b, rec.side, i);
        assert(level_ok(s[i]));
        assert(s1[i].orders == os.push(rec));
        assert(s1[i].volume == s[i].volume + rec.amount);
        assert(order_pos(s1[i].orders, rec.order_id) == n);
        assert(s1[i].orders[n as int].amount == rec.amount);
        let s2 = s1.update(i, LevelModel { price: s1[i].price, volume: s[i].volume, orders: os });
        assert(settle_level(s1, i, rec.side, os, s1[i].volume - rec.amount) == Ok::<(Seq<LevelModel>, L2Message), ErrorKind>((s2, L2Message::Quote { side: rec.side, price: s1[i].price, size: s[i].volume as i64 })));
        assert(s2 =~= s);
        assert(cancel_side(s1, rec.side, rec2) is Ok);
    } else {
        lemma_order_pos_char(seq![rec], rec.order_id, 0);
        assert(seq![rec].remove(0) =~= Seq::<OrderLog>::empty());
        assert(s1[i].orders == seq![rec]);
        assert(s1.remove(i) =~= s);
        assert(cancel_side(s1, rec.side, rec2) is Ok);
    }
}


proof fn lemma_settle_first(s: Seq<LevelModel>, buy: bool, i: int, side: Side, orders: Seq<OrderLog>, v: int)
    requires
        sorted_levels(s, buy),
        0 <= i < s.len(),
        settle_level(s, i, side, orders, v) is Ok,
    ensures
        ({
            let t = settle_level(s, i, side, orders, v)->Ok_0.0;
            t.len() > 0 ==> t[0].price == s[0].price || better(buy, s[0].price, t[0].price)
        }),
{
    let t = settle_level(s, i, side, orders, v)->Ok_0.0;
    if orders.len() == 0 && t.len() > 0 {
        if i == 0 {
            assert(t[0] == s[1]);
        } else {
            assert(t[0] == s[0]);
        }
    }
}

/// The book after an order leaves or shrinks on one side is uncrossed when
/// it was before: that side's best price did not move towards the other.
proof fn lemma_side_first_uncrossed(b: BookModel, side: Side, t: Seq<LevelModel>, ts: i64)
    requires
        uncrossed(b),
        t.len() > 0 ==> side_levels(b, side).len() > 0 && (t[0].price == side_levels(b, side)[0].price || better(
            side == Side::Buy,
            side_levels(b, side)[0].price,
            t[0].price,
        )),
    ensures
        uncrossed(with_side(b, side, t, ts)),
{
}

/// Adding an order keeps the book's invariant: sorted sides, positive level
/// volumes equal to the sum of their orders, best bid below best ask.
pub proof fn lemma_add_keeps_ok(b: BookModel, rec: OrderLog)
    requires
        book_ok(b),
    ensures
        book_add(b, rec) is Ok ==> book_ok(book_add(b, rec)->Ok_0.0),
{
    if book_add(b, rec) is Ok {
        let s = side_levels(b, rec.side);
        let buy = rec.side == Side::Buy;
        lemma_add_side_ok(s, buy, rec);
        lemma_pos_props(s, buy, rec.price);
        let i = level_pos(s, buy, rec.price);
        let t = add_side(s, buy, rec)->Ok_0.0;
        if i == 0 {
            assert(t[0].price == rec.price);
        } else {
            assert(t[0] == s[0]);
        }
    }
}

/// Cancelling an order keeps the book's invariant.
pub proof fn lemma_cancel_keeps_ok(b: BookModel, rec: OrderLog)
    requires
        book_ok(b),
    ensures
        book_cancel(b, rec) is Ok ==> book_ok(book_cancel(b, rec)->Ok_0.0),
{
    if book_cancel(b, rec) is Ok {
        let s = side_levels(b, rec.side);
        let buy = rec.side == Side::Buy;
        lemma_cancel_side_ok(s, rec.side, rec);
        lemma_pos_props(s, buy, rec.price);
        let i = level_pos(s, buy, rec.price);
        let l = s[i];
        let k = order_pos(l.orders, rec.order_id);
        lemma_order_pos_props(l.orders, rec.order_id);
        if rec.amount_rest == 0 {
            lemma_settle_first(s, buy, i, rec.side, l.orders.remove(k), l.volume - l.orders[k].amount);
        } else {
            let o = l.orders[k];
            let n = OrderLog { amount: rec.amount_rest, amount_rest: rec.amount_rest, ..o };
            lemma_settle_first(s, buy, i, rec.side, l.orders.update(k, n), l.volume - (o.amount - rec.amount_rest));
        }
        let t = cancel_side(s, rec.side, rec)->Ok_0.0;
        lemma_side_first_uncrossed(b, rec.side, t, (rec.timestamp - EPOCH_OFFSET) as i64);
    }
}

/// A fill keeps the book's invariant.
pub proof fn lemma_trade_keeps_ok(b: BookModel, rec: OrderLog)
    requires
        book_ok(b),
    ensures
        book_trade(b, rec) is Ok ==> book_ok(book_trade(b, rec)->Ok_0.0),
{
    if book_trade(b, rec) is Ok {
        let s = side_levels(b, rec.side);
        let buy = rec.side == Side::Buy;
        lemma_trade_side_ok(s, rec.side, rec);
        lemma_pos_props(s, buy, rec.price);
        let i = level_pos(s, buy, rec.price);
        let l = s[i];
        let k = order_pos(l.orders, rec.order_id);
        lemma_order_pos_props(l.orders, rec.order_id);
        let o = l.orders[k];
        if o.amount == rec.amount {
            lemma_settle_first(s, buy, i, rec.side, l.orders.remove(k), l.volume - rec.amount);
        } else {
            let n = OrderLog {
                amount: (o.amount - rec.amount) as i64,
                amount_rest: (o.amount_rest - rec.amount) as i64,
                ..o
            };
            lemma_settle_first(s, buy, i, rec.side, l.orders.update(k, n), l.volume - rec.amount);
        }
        let t = trade_side(s, rec.side, rec)->Ok_0.0;
        lemma_side_first_uncrossed(b, rec.side, t, (rec.timestamp - EPOCH_OFFSET) as i64);
    }
}

// ---------------------------------------------------------------- book

/// A price-level book: bids, asks, and the Unix time of the last change.
#[derive(Debug)]
pub struct OrderBook {
    bids: Vec<Level>,
    asks: Vec<Level>,
    timestamp: Timestamp,
}

impl View for OrderBook {
    type V = BookModel;

    closed spec fn view(&self) -> BookModel {
        BookModel { bids: levels_view(self.bids@), asks: levels_view(self.asks@), timestamp: self.timestamp }
    }
}

impl OrderBook {
    pub open spec fn wf(&self) -> bool {
        book_ok(self@)
    }

    /// An empty book.
    pub fn new() -> (b: OrderBook)
        ensures
            b.wf(),
            b@.bids.len() == 0,
            b@.asks.len() == 0,
            b@.timestamp == 0,
    {
        let b = OrderBook { bids: Vec::new(), asks: Vec::new(), timestamp: 0 };
        assert(b@.bids =~= Seq::<LevelModel>::empty());
        assert(b@.asks =~= Seq::<LevelModel>::empty());
        b
    }

    /// Binary search of a side for `price`: whether a level holds it, and
    /// its index or the index where it would be inserted.
    fn find_level(levels: &Vec<Level>, buy: bool, price: Price) -> (r: (bool, usize))
        requires
            sorted_levels(levels_view(levels@), buy),
        ensures
            r.1 == level_pos(levels_view(levels@), buy, price),
            r.1 <= levels@.len(),
            r.0 == (r.1 < levels@.len() && levels@[r.1 as int].price == price),
    {
        let ghost s = levels_view(levels@);
        let mut lo: usize = 0;
        let mut hi: usize = levels.len();
        while lo < hi
            invariant
                0 <= lo <= hi <= levels@.len(),
                s == levels_view(levels@),
                sorted_levels(s, buy),
                forall|j: int| 0 <= j < lo ==> better(buy, #[trigger] s[j].price, price),
                forall|j: int| hi <= j < s.len() ==> !better(buy, #[trigger] s[j].price, price),
            decreases hi - lo,
        {
            let mid = lo + (hi - lo) / 2;
            let p = levels[mid].price;
            let b = if buy { p > price } else { p < price };
            if b {
                assert forall|j: int| 0 <= j < mid + 1 implies better(buy, #[trigger] s[j].price, price) by {
                    if j < mid {
                        assert(better(buy, s[j].price, s[mid as int].price));
                    }
                }
                lo = mid + 1;
            } else {
                assert forall|j: int| mid <= j < s.len() implies !better(buy, #[trigger] s[j].price, price) by {
                    if j > mid {
                        assert(better(buy, s[mid as int].price, s[j].price));
                    }
                }
                hi = mid;
            }
        }
        proof {
            lemma_pos_char(s, buy, price, lo as int);
        }
        let found = lo < levels.len() && levels[lo].price == price;
        (found, lo)
    }

    /// Adds `rec` to one side and gives the new size of its level.
    fn add_to_side(levels: &mut Vec<Level>, buy: bool, rec: OrderLog) -> (r: Result<Volume, QshError>)
        requires
            side_ok(levels_view(old(levels)@), buy),
        ensures
            match add_side(levels_view(old(levels)@), buy, rec) {
                Ok((s, v)) => r == Ok::<Volume, QshError>(v as i64) && levels_view(final(levels)@) == s,
                Err(k) => r matches Err(e) && e.kind() == k && final(levels)@ == old(levels)@,
            },
    {
        let ghost s = levels_view(levels@);
        let (found, ix) = OrderBook::find_level(levels, buy, rec.price);
        if found {
            let v = levels[ix].volume as i128 + rec.amount as i128;
            if v > i64::MAX as i128 || v < i64::MIN as i128 {
                return Err(error_of(ErrorKind::Overflow, "level volume out of range"));
            }
            if v <= 0 {
                return Err(error_of(ErrorKind::Validation, "the level total would not stay positive"));
            }
            let mut lvl = levels.remove(ix);
            lvl.orders.push(rec);
            lvl.volume = v as i64;
            levels.insert(ix, lvl);
            proof {
                assert(levels_view(levels@) =~= s.update(ix as int, LevelModel { price: rec.price, volume: v as int, orders: s[ix as int].orders.push(rec) }));
            }
            Ok(v as i64)
        } else {
            if rec.amount <= 0 {
                return Err(error_of(ErrorKind::Validation, "a new level needs a positive amount"));
            }
            let mut orders: Vec<OrderLog> = Vec::new();
            orders.push(rec);
            levels.insert(ix, Level { price: rec.price, volume: rec.amount, orders });
            proof {
                assert(orders@ =~= seq![rec]);
                assert(levels_view(levels@) =~= s.insert(ix as int, LevelModel { price: rec.price, volume: rec.amount as int, orders: seq![rec] }));
            }
            Ok(rec.amount)
        }
    }

    /// Adds a new resting order at the end of the level at its price. The
    /// record must not be a fill or a cancellation, must have a side, and its
    /// amount must equal its non-zero rest; an order that meets or passes the
    /// other side's best price, a new level without a positive amount, and a
    /// level whose total would not stay positive are `Validation` errors. A
    /// timestamp that cannot move to the Unix epoch, or a level total out of
    /// `i64`, is `Overflow`. On success the event `Quote` with the new size of
    /// its level is pushed to `events`; on failure neither the book nor
    /// `events` changes.
    pub fn add(&mut self, rec: OrderLog, events: &mut Vec<L2Message>) -> (r: Result<(), QshError>)
        requires
            old(self).wf(),
        ensures
            final(self).wf(),
            match book_add(old(self)@, rec) {
                Ok((b, m)) => r is Ok && final(self)@ == b && final(events)@ == old(events)@.push(m),
                Err(k) => r matches Err(e) && e.kind() == k && final(self)@ == old(self)@ && final(events)@ == old(events)@,
            },
    {
        let f = rec.order_flags;
        if f & OLFlags::FILL != 0 || f & OLFlags::CANCELED != 0 || f & OLFlags::CANCELED_GROUP != 0 {
            return Err(error_of(ErrorKind::Validation, "an added order must not be a fill or a cancellation"));
        }
        if rec.amount_rest == 0 || rec.amount != rec.amount_rest {
            return Err(error_of(ErrorKind::Validation, "an added order needs amount == amount_rest != 0"));
        }
        if rec.side == Side::UNKNOWN {
            return Err(error_of(ErrorKind::Validation, "an added order needs a side"));
        }
        let crossing = if rec.side == Side::Buy {
            self.asks.len() > 0 && rec.price >= self.asks[0].price
        } else {
            self.bids.len() > 0 && rec.price <= self.bids[0].price
        };
        if crossing {
            return Err(error_of(ErrorKind::Validation, "an added order would cross the other side"));
        }
        if rec.timestamp < i64::MIN + EPOCH_OFFSET {
            return Err(error_of(ErrorKind::Overflow, "timestamp out of range"));
        }
        let ghost s = side_levels(self@, rec.side);
        let ghost buy = rec.side == Side::Buy;
        proof {
            if add_side(s, buy, rec) is Ok {
                lemma_add_side_ok(s, buy, rec);
            }
            lemma_add_keeps_ok(self@, rec);
        }
        let size = if rec.side == Side::Buy {
            OrderBook::add_to_side(&mut self.bids, true, rec)
        } else {
            OrderBook::add_to_side(&mut self.asks, false, rec)
        };
        match size {
            Err(e) => Err(e),
            Ok(size) => {
                self.timestamp = ticks_to_unix_time(rec.timestamp);
                events.push(L2Message::Quote { side: rec.side, price: rec.price, size });
                Ok(())
            },
        }
    }

    /// The index of the first order with the given id; the length when
    /// there is none.
    pub(crate) fn find_order(orders: &Vec<OrderLog>, id: i64) -> (k: usize)
        ensures
            k == order_pos(orders@, id),
            k <= orders@.len(),
    {
        let mut k: usize = 0;
        while k < orders.len() && orders[k].order_id != id
            invariant
                k <= orders@.len(),
                forall|j: int| 0 <= j < k ==> (#[trigger] orders@[j]).order_id != id,
            decreases orders@.len() - k,
        {
            k = k + 1;
        }
        proof {
            lemma_order_pos_char(orders@, id, k as int);
        }
        k
    }

    /// Gives level `ix` the orders that `lvl` holds and the volume `v`, or
    /// takes it away when no order is left; the event says which.
    fn settle(levels: &mut Vec<Level>, ix: usize, side: Side, lvl: Level, v: i128) -> (r: Result<L2Message, QshError>)
        requires
            ix < old(levels)@.len(),
            lvl.price == old(levels)@[ix as int].price,
        ensures
            match settle_level(levels_view(old(levels)@), ix as int, side, lvl.orders@, v as int) {
                Ok((s, m)) => r == Ok::<L2Message, QshError>(m) && levels_view(final(levels)@) == s,
                Err(k) => r matches Err(e) && e.kind() == k && final(levels)@ == old(levels)@,
            },
    {
        let ghost s = levels_view(levels@);
        if v > i64::MAX as i128 || v < i64::MIN as i128 {
            return Err(error_of(ErrorKind::Overflow, "level volume out of range"));
        }
        if lvl.orders.len() == 0 {
            if v != 0 {
                return Err(error_of(ErrorKind::InvalidState, "a level without orders keeps a volume"));
            }
            let price = lvl.price;
            levels.remove(ix);
            proof {
                assert(levels_view(levels@) =~= s.remove(ix as int));
            }
            Ok(L2Message::Remove { side, price })
        } else if v <= 0 {
            Err(error_of(ErrorKind::InvalidState, "a level with orders has no positive volume"))
        } else {
            let price = lvl.price;
            let mut lvl = lvl;
            lvl.volume = v as i64;
            let ghost orders = lvl.orders@;
            levels.set(ix, lvl);
            proof {
                assert(levels_view(levels@) =~= s.update(ix as int, LevelModel { price: s[ix as int].price, volume: v as int, orders }));
            }
            Ok(L2Message::Quote { side, price, size: v as i64 })
        }
    }

    fn cancel_in_side(levels: &mut Vec<Level>, side: Side, rec: OrderLog) -> (r: Result<L2Message, QshError>)
        requires
            side_ok(levels_view(old(levels)@), side == Side::Buy),
        ensures
            match cancel_side(levels_view(old(levels)@), side, rec) {
                Ok((s, m)) => r == Ok::<L2Message, QshError>(m) && levels_view(final(levels)@) == s,
                Err(k) => r matches Err(e) && e.kind() == k && final(levels)@ == old(levels)@,
            },
    {
        let ghost s = levels_view(levels@);
        let (found, ix) = OrderBook::find_level(levels, side == Side::Buy, rec.price);
        if !found {
            return Err(error_of(ErrorKind::InvalidState, "no level at the price of the cancelled order"));
        }
        let k = OrderBook::find_order(&levels[ix].orders, rec.order_id);
        if k >= levels[ix].orders.len() {
            return Err(error_of(ErrorKind::InvalidState, "cancelled order not found in its level"));
        }
        let vol = levels[ix].volume as i128;
        let o = levels[ix].orders[k];
        let mut lvl = Level { price: levels[ix].price, volume: levels[ix].volume, orders: copy_orders(&levels[ix].orders) };
        if rec.amount_rest == 0 {
            let diff = o.amount as i128;
            if vol < diff {
                return Err(error_of(ErrorKind::InvalidState, "level volume below the order amount"));
            }
            lvl.orders.remove(k);
            OrderBook::settle(levels, ix, side, lvl, vol - diff)
        } else {
            if o.amount <= rec.amount_rest {
                return Err(error_of(ErrorKind::InvalidState, "cancel rest not below the order amount"));
            }
            let diff = o.amount as i128 - rec.amount_rest as i128;
            if vol <= diff {
                return Err(error_of(ErrorKind::InvalidState, "level volume not above the cancelled volume"));
            }
            lvl.orders.set(k, OrderLog { amount: rec.amount_rest, amount_rest: rec.amount_rest, ..o });
            OrderBook::settle(levels, ix, side, lvl, vol - diff)
        }
    }

    fn trade_in_side(levels: &mut Vec<Level>, side: Side, rec: OrderLog) -> (r: Result<L2Message, QshError>)
        requires
            side_ok(levels_view(old(levels)@), side == Side::Buy),
        ensures
            match trade_side(levels_view(old(levels)@), side, rec) {
                Ok((s, m)) => r == Ok::<L2Message, QshError>(m) && levels_view(final(levels)@) == s,
                Err(k) => r matches Err(e) && e.kind() == k && final(levels)@ == old(levels)@,
            },
    {
        let ghost s = levels_view(levels@);
        let (found, ix) = OrderBook::find_level(levels, side == Side::Buy, rec.price);
        if !found {
            return Err(error_of(ErrorKind::InvalidState, "no level at the price of the fill"));
        }
        let k = OrderBook::find_order(&levels[ix].orders, rec.order_id);
        if k >= levels[ix].orders.len() {
            return Err(error_of(ErrorKind::InvalidState, "filled order not found in its level"));
        }
        let vol = levels[ix].volume as i128;
        let o = levels[ix].orders[k];
        let mut lvl = Level { price: levels[ix].price, volume: levels[ix].volume, orders: copy_orders(&levels[ix].orders) };
        if o.amount != rec.amount {
            if !(o.amount > rec.amount && o.amount_rest > rec.amount) {
                return Err(error_of(ErrorKind::InvalidState, "fill larger than the order"));
            }
            let a = o.amount as i128 - rec.amount as i128;
            let b = o.amount_rest as i128 - rec.amount as i128;
            if a > i64::MAX as i128 || b > i64::MAX as i128 {
                return Err(error_of(ErrorKind::Overflow, "order amount out of range"));
            }
            if vol < rec.amount as i128 {
                return Err(error_of(ErrorKind::InvalidState, "level volume below the fill"));
            }
            lvl.orders.set(k, OrderLog { amount: a as i64, amount_rest: b as i64, ..o });
        } else {
            if vol < rec.amount as i128 {
                return Err(error_of(ErrorKind::InvalidState, "level volume below the fill"));
            }
            lvl.orders.remove(k);
        }
        OrderBook::settle(levels, ix, side, lvl, vol - rec.amount as i128)
    }

    /// Cancels a resting order, in full when `rec.amount_rest` is zero,
    /// otherwise down to that rest. The event is `Quote` with the new size
    /// of the level, or `Remove` when the level is left empty. On failure
    /// neither the book nor `events` changes.
    pub fn cancel(&mut self, rec: OrderLog, events: &mut Vec<L2Message>) -> (r: Result<(), QshError>)
        requires
            old(self).wf(),
        ensures
            final(self).wf(),
            match book_cancel(old(self)@, rec) {
                Ok((b, m)) => r is Ok && final(self)@ == b && final(events)@ == old(events)@.push(m),
                Err(k) => r matches Err(e) && e.kind() == k && final(self)@ == old(self)@ && final(events)@ == old(events)@,
            },
    {
        let f = rec.order_flags;
        if f & OLFlags::FILL != 0 || f & OLFlags::ADD != 0 {
            return Err(error_of(ErrorKind::Validation, "a cancellation must not be a fill or an add"));
        }
        if rec.side == Side::UNKNOWN {
            return Err(error_of(ErrorKind::Validation, "a cancellation needs a side"));
        }
        if rec.timestamp < i64::MIN + EPOCH_OFFSET {
            return Err(error_of(ErrorKind::Overflow, "timestamp out of range"));
        }
        proof {
            lemma_cancel_side_ok(side_levels(self@, rec.side), rec.side, rec);
            lemma_cancel_keeps_ok(self@, rec);
        }
        let m = if rec.side == Side::Buy {
            OrderBook::cancel_in_side(&mut self.bids, rec.side, rec)
        } else {
            OrderBook::cancel_in_side(&mut self.asks, rec.side, rec)
        };
        match m {
            Err(e) => Err(e),
            Ok(m) => {
                self.timestamp = ticks_to_unix_time(rec.timestamp);
                events.push(m);
                Ok(())
            },
        }
    }

    /// Applies a fill to a resting order. The event is `Quote` with the new
    /// size of the level, or `Remove` when the level is left empty. On
    /// failure neither the book nor `events` changes.
    pub fn trade(&mut self, rec: OrderLog, events: &mut Vec<L2Message>) -> (r: Result<(), QshError>)
        requires
            old(self).wf(),
        ensures
            final(self).wf(),
            match book_trade(old(self)@, rec) {
                Ok((b, m)) => r is Ok && final(self)@ == b && final(events)@ == old(events)@.push(m),
                Err(k) => r matches Err(e) && e.kind() == k && final(self)@ == old(self)@ && final(events)@ == old(events)@,
            },
    {
        let f = rec.order_flags;
        if f & OLFlags::ADD != 0 || f & OLFlags::CANCELED != 0 || f & OLFlags::CANCELED_GROUP != 0 {
            return Err(error_of(ErrorKind::Validation, "a fill must not be an add or a cancellation"));
        }
        if rec.amount == 0 {
            return Err(error_of(ErrorKind::Validation, "a fill needs a non-zero amount"));
        }
        if rec.side == Side::UNKNOWN {
            return Err(error_of(ErrorKind::Validation, "a fill needs a side"));
        }
        if rec.timestamp < i64::MIN + EPOCH_OFFSET {
            return Err(error_of(ErrorKind::Overflow, "timestamp out of range"));
        }
        proof {
            lemma_trade_side_ok(side_levels(self@, rec.side), rec.side, rec);
            lemma_trade_keeps_ok(self@, rec);
        }
        let m = if rec.side == Side::Buy {
            OrderBook::trade_in_side(&mut self.bids, rec.side, rec)
        } else {
            OrderBook::trade_in_side(&mut self.asks, rec.side, rec)
        };
        match m {
            Err(e) => Err(e),
            Ok(m) => {
                self.timestamp = ticks_to_unix_time(rec.timestamp);
                events.push(m);
                Ok(())
            },
        }
    }

    /// Empties both sides; the timestamp stays.
    pub fn clear(&mut self)
        ensures
            final(self).wf(),
            final(self)@.bids.len() == 0,
            final(self)@.asks.len() == 0,
            final(self)@.timestamp == old(self)@.timestamp,
    {
        self.bids.clear();
        self.asks.clear();
        proof {
            assert(self@.bids =~= Seq::<LevelModel>::empty());
            assert(self@.asks =~= Seq::<LevelModel>::empty());
        }
    }

    /// The number of levels on the bid side for `Buy`, on the ask side
    /// otherwise.
    pub fn depth(&self, side: Side) -> (n: usize)
        ensures
            n == side_levels(self@, side).len(),
    {
        if side == Side::Buy {
            self.bids.len()
        } else {
            self.asks.len()
        }
    }

    /// Price and volume of the level at index `depth` of a side.
    pub fn level_summary(&self, side: Side, depth: usize) -> (r: (Price, Volume))
        requires
            depth < side_levels(self@, side).len(),
        ensures
            r.0 == side_levels(self@, side)[depth as int].price,
            r.1 == side_levels(self@, side)[depth as int].volume,
    {
        let l = if side == Side::Buy { &self.bids[depth] } else { &self.asks[depth] };
        (l.price, l.volume)
    }

    /// The Unix time of the last change, and the best `depth` levels of both
    /// sides as rows of bid price, bid volume, ask price and ask volume.
    pub fn snapshot(&self, depth: usize) -> (r: (Timestamp, Vec<i64>))
        requires
            depth <= self@.bids.len(),
            depth <= self@.asks.len(),
        ensures
            r.0 == self@.timestamp,
            r.1@ == snapshot_rows(self@, depth as int),
            r.1@.len() == 4 * depth,
    {
        let mut v: Vec<i64> = Vec::new();
        let mut i: usize = 0;
        while i < depth
            invariant
                i <= depth,
                depth <= self@.bids.len(),
                depth <= self@.asks.len(),
                v@ == snapshot_rows(self@, i as int),
                v@.len() == 4 * i,
            decreases depth - i,
        {
            let ghost before = v@;
            v.push(self.bids[i].price);
            v.push(self.bids[i].volume);
            v.push(self.asks[i].price);
            v.push(self.asks[i].volume);
            i = i + 1;
            proof {
                let b = self@.bids[i - 1];
                let a = self@.asks[i - 1];
                assert(v@ =~= before + seq![b.price as i64, b.volume as i64, a.price as i64, a.volume as i64]);
            }
        }
        (self.timestamp, v)
    }
}

/// The best `k` levels of both sides, flattened row by row.
pub open spec fn snapshot_rows(b: BookModel, k: int) -> Seq<i64>
    decreases k,
{
    if k <= 0 {
        Seq::empty()
    } else {
        snapshot_rows(b, k - 1) + seq![
            b.bids[k - 1].price,
            b.bids[k - 1].volume as i64,
            b.asks[k - 1].price,
            b.asks[k - 1].volume as i64,
        ]
    }
}

pub open spec fn spec_fiok_with_trades(tx: Seq<OrderLog>) -> bool {
    let t = order_type_of(tx[0].order_flags);
    (t == OrderType::IOK || t == OrderType::FOK) ==> tx.len() > 2
}

/// Keeps a transaction that opens with an immediate-or-kill or fill-or-kill
/// order only when it holds more than two records, that is when the order
/// traded; any other transaction is kept.
pub fn fiok_with_trades(tx: &Vec<OrderLog>) -> (r: bool)
    requires
        tx@.len() > 0,
    ensures
        r == spec_fiok_with_trades(tx@),
{
    let t = OrderType::from_flags(tx[0].order_flags);
    if t == OrderType::IOK || t == OrderType::FOK {
        tx.len() > 2
    } else {
        true
    }
}

pub open spec fn spec_non_system_record(rec: OrderLog) -> bool {
    has16(rec.order_flags, OLFlags::NON_SYSTEM) || has16(rec.order_flags, OLFlags::NON_ZERO_REPL_ACT)
        || rec.side == Side::UNKNOWN
}

/// A record outside the exchange's matching system, one with a non-zero
/// replication action, or one without a side.
pub fn non_system_record(rec: &OrderLog) -> (r: bool)
    ensures
        r == spec_non_system_record(*rec),
{
    rec.order_flags & OLFlags::NON_SYSTEM != 0 || rec.order_flags & OLFlags::NON_ZERO_REPL_ACT != 0
        || rec.side == Side::UNKNOWN
}

/// The records that the book is built from.
pub fn system_record(rec: &OrderLog) -> (r: bool)
    ensures
        r == !spec_non_system_record(*rec),
{
    !non_system_record(rec)
}

/// Whether the record closes its transaction.
pub fn tx_end(rec: &OrderLog) -> (r: bool)
    ensures
        r == has16(rec.order_flags, OLFlags::TX_END),
{
    rec.order_flags & OLFlags::TX_END != 0
}

/// Groups records into transactions as they arrive: a group closes with,
/// and includes, the first record that ends a transaction.
pub struct Partition {
    acc: Vec<OrderLog>,
}

impl View for Partition {
    type V = Seq<OrderLog>;

    /// The records of the group still open.
    closed spec fn view(&self) -> Seq<OrderLog> {
        self.acc@
    }
}

impl Partition {
    /// No group open.
    pub fn new() -> (p: Partition)
        ensures
            p@.len() == 0,
    {
        Partition { acc: Vec::new() }
    }

    /// Takes the next record; gives the transaction that it closes, if any.
    pub fn push(&mut self, rec: OrderLog) -> (r: Option<Vec<OrderLog>>)
        ensures
            has16(rec.order_flags, OLFlags::TX_END) ==> (r matches Some(tx) && tx@ == old(self)@.push(rec)
                && final(self)@.len() == 0),
            !has16(rec.order_flags, OLFlags::TX_END) ==> r is None && final(self)@ == old(self)@.push(rec),
    {
        self.acc.push(rec);
        if tx_end(&rec) {
            let mut tx: Vec<OrderLog> = Vec::new();
            std::mem::swap(&mut tx, &mut self.acc);
            Some(tx)
        } else {
            None
        }
    }
}

/// A copy of a sequence of orders.
pub fn copy_orders(v: &Vec<OrderLog>) -> (r: Vec<OrderLog>)
    ensures
        r@ == v@,
{
    let mut r: Vec<OrderLog> = Vec::new();
    let mut i: usize = 0;
    while i < v.len()
        invariant
            i <= v@.len(),
            r@ == v@.subrange(0, i as int),
        decreases v@.len() - i,
    {
        r.push(v[i]);
        i = i + 1;
        assert(r@ =~= v@.subrange(0, i as int));
    }
    assert(v@.subrange(0, v@.len() as int) =~= v@);
    r
}

impl Default for OrderBook {
    fn default() -> (b: OrderBook)
        ensures
            b.wf(),
            b@.bids.len() == 0,
            b@.asks.len() == 0,
            b@.timestamp == 0,
    {
        OrderBook::new()
    }
}

/// Moves a timestamp from the Windows epoch (0001-01-01) to the Unix epoch,
/// both in milliseconds.
pub fn ticks_to_unix_time(v: Timestamp) -> (r: Timestamp)
    requires
        ts_ok(v),
    ensures
        r == v - EPOCH_OFFSET,
{
    v - EPOCH_OFFSET
}

} // verus!

//! Records, messages and flag masks of the QSH format.

use vstd::prelude::*;

verus! {

pub type Price = i64;

pub type Volume = i64;

pub type Timestamp = i64;

pub type UID = i64;

/// Kind of the data stream held by a QSH file.
#[derive(Debug, Clone, Copy, PartialEq, Eq, Structural)]
pub enum Stream {
    QUOTES,
    DEALS,
    OWNORDERS,
    OWNTRADES,
    MESSAGES,
    AUXINFO,
    ORDERLOG,
}

/// The stream kind that a stream-type byte of the header stands for, if it
/// is one this library decodes.
pub open spec fn stream_of(v: u8) -> Option<Stream> {
    if v == 0x10 {
        Some(Stream::QUOTES)
    } else if v == 0x20 {
        Some(Stream::DEALS)
    } else if v == 0x60 {
        Some(Stream::AUXINFO)
    } else if v == 0x70 {
        Some(Stream::ORDERLOG)
    } else {
        None
    }
}

impl Stream {
    /// Maps a stream-type byte to its stream kind; `None` for kinds that are
    /// not supported.
    pub fn from_byte(v: u8) -> (r: Option<Stream>)
        ensures
            r == stream_of(v),
    {
        if v == 0x10 {
            Some(Stream::QUOTES)
        } else if v == 0x20 {
            Some(Stream::DEALS)
        } else if v == 0x60 {
            Some(Stream::AUXINFO)
        } else if v == 0x70 {
            Some(Stream::ORDERLOG)
        } else {
            None
        }
    }
}

/// The fixed part of a QSH file, in front of the records.
#[derive(Debug, Clone)]
pub struct Header {
    pub recording_time: Timestamp,
    pub version: u8,
    pub stream: Stream,
    pub instrument: String,
    pub recorder: String,
    pub comment: String,
}

#[derive(Debug, Clone, Copy, PartialEq, Eq, Structural)]
pub enum Side {
    Buy,
    Sell,
    UNKNOWN,
}

/// The side that the two low bits of a byte stand for.
pub open spec fn side_of(b: u8) -> Side {
    if b == 1 {
        Side::Buy
    } else if b == 2 {
        Side::Sell
    } else {
        Side::UNKNOWN
    }
}

impl Side {
    /// `1` is a buy, `2` a sell, anything else unknown.
    pub fn from_byte(b: u8) -> (r: Side)
        ensures
            r == side_of(b),
    {
        if b == 1 {
            Side::Buy
        } else if b == 2 {
            Side::Sell
        } else {
            Side::UNKNOWN
        }
    }
}

impl Default for Side {
    fn default() -> (r: Side)
        ensures
            r == Side::UNKNOWN,
    {
        Side::UNKNOWN
    }
}

#[derive(Debug, Clone, Copy, PartialEq, Eq, Structural)]
pub enum OrderType {
    Limit,
    IOK,
    FOK,
    UNKNOWN,
}

impl Default for OrderType {
    fn default() -> (r: OrderType)
        ensures
            r == OrderType::UNKNOWN,
    {
        OrderType::UNKNOWN
    }
}

/// Flag masks of an order-log record (16 bits).
pub struct OLFlags;

impl OLFlags {
    pub const NON_ZERO_REPL_ACT: u16 = 1;
    pub const NEW_SESSION: u16 = 1 << 1;
    pub const ADD: u16 = 1 << 2;
    pub const FILL: u16 = 1 << 3;
    pub const BUY: u16 = 1 << 4;
    pub const SELL: u16 = 1 << 5;
    pub const SNAPSHOT: u16 = 1 << 6;
    pub const QUOTE: u16 = 1 << 7;
    pub const COUNTER: u16 = 1 << 8;
    pub const NON_SYSTEM: u16 = 1 << 9;
    pub const TX_END: u16 = 1 << 10;
    pub const FILL_OR_KILL: u16 = 1 << 11;
    pub const MOVED: u16 = 1 << 12;
    pub const CANCELED: u16 = 1 << 13;
    pub const CANCELED_GROUP: u16 = 1 << 14;
    pub const CROSS_TRADE: u16 = 1 << 15;
}

/// Masks of the fields present in an order-log record (8 bits).
pub struct OLEntryFlags;

impl OLEntryFlags {
    pub const DATE_TIME: u8 = 1;
    pub const ORDER_ID: u8 = 1 << 1;
    pub const PRICE: u8 = 1 << 2;
    pub const AMOUNT: u8 = 1 << 3;
    pub const AMOUNT_REST: u8 = 1 << 4;
    pub const DEAL_ID: u8 = 1 << 5;
    pub const DEAL_PRICE: u8 = 1 << 6;
    pub const OI: u8 = 1 << 7;
}

/// Masks of the fields present in a deal record (8 bits).
pub struct DealFlags;

impl DealFlags {
    pub const TIMESTAMP: u8 = 1 << 2;
    pub const DEAL_ID: u8 = 1 << 3;
    pub const ORDER_ID: u8 = 1 << 4;
    pub const PRICE: u8 = 1 << 5;
    pub const AMOUNT: u8 = 1 << 6;
    pub const OI: u8 = 1 << 7;
}

/// Masks of the fields present in an auxiliary-information record (8 bits).
pub struct AuxInfoFlags;

impl AuxInfoFlags {
    pub const TIMESTAMP: u8 = 1;
    pub const ASK_TOTAL: u8 = 1 << 1;
    pub const BID_TOTAL: u8 = 1 << 2;
    pub const OI: u8 = 1 << 3;
    pub const PRICE: u8 = 1 << 4;
    pub const SESSION_INFO: u8 = 1 << 5;
    pub const RATE: u8 = 1 << 6;
    pub const MESSAGE: u8 = 1 << 7;
}

/// Whether any bit of `mask` is set in the 16-bit `flags`.
pub open spec fn has16(flags: u16, mask: u16) -> bool {
    flags & mask != 0
}

/// Whether any bit of `mask` is set in the 8-bit `flags`.
pub open spec fn has8(flags: u8, mask: u8) -> bool {
    flags & mask != 0
}

/// The order type that the order flags describe.
pub open spec fn order_type_of(flags: u16) -> OrderType {
    if has16(flags, OLFlags::COUNTER) {
        OrderType::IOK
    } else if has16(flags, OLFlags::FILL_OR_KILL) {
        OrderType::FOK
    } else if has16(flags, OLFlags::QUOTE) {
        OrderType::Limit
    } else {
        OrderType::UNKNOWN
    }
}

impl OrderType {
    /// Counter orders are immediate-or-kill, then fill-or-kill, then quotes
    /// are limit orders; flags that name none of them give `UNKNOWN`.
    pub fn from_flags(flags: u16) -> (r: OrderType)
        ensures
            r == order_type_of(flags),
    {
        if flags & OLFlags::COUNTER != 0 {
            OrderType::IOK
        } else if flags & OLFlags::FILL_OR_KILL != 0 {
            OrderType::FOK
        } else if flags & OLFlags::QUOTE != 0 {
            OrderType::Limit
        } else {
            OrderType::UNKNOWN
        }
    }
}

#[derive(Debug, Clone, Copy, PartialEq, Eq, Structural)]
pub enum OLMsgType {
    Add,
    Fill,
    Cancel,
    Remove,
    UNKNOWN,
}

impl Default for OLMsgType {
    fn default() -> (r: OLMsgType)
        ensures
            r == OLMsgType::UNKNOWN,
    {
        OLMsgType::UNKNOWN
    }
}

/// What an order-log record does to its order.
pub open spec fn msg_type_of(r: OrderLog) -> OLMsgType {
    if has16(r.order_flags, OLFlags::ADD) {
        OLMsgType::Add
    } else if has16(r.order_flags, OLFlags::FILL) {
        OLMsgType::Fill
    } else if has16(r.order_flags, OLFlags::CANCELED) || has16(r.order_flags, OLFlags::CANCELED_GROUP)
        || has16(r.order_flags, OLFlags::MOVED) {
        OLMsgType::Cancel
    } else if has16(r.order_flags, OLFlags::CROSS_TRADE) || r.amount_rest == 0 {
        OLMsgType::Remove
    } else {
        OLMsgType::UNKNOWN
    }
}

impl OLMsgType {
    /// Add, then fill, then the three kinds of cancellation, then removal
    /// (a cross trade or nothing left); `UNKNOWN` when none applies.
    pub fn from_record(r: &OrderLog) -> (m: OLMsgType)
        ensures
            m == msg_type_of(*r),
    {
        let f = r.order_flags;
        if f & OLFlags::ADD != 0 {
            OLMsgType::Add
        } else if f & OLFlags::FILL != 0 {
            OLMsgType::Fill
        } else if f & OLFlags::CANCELED != 0 || f & OLFlags::CANCELED_GROUP != 0 || f
            & OLFlags::MOVED != 0 {
            OLMsgType::Cancel
        } else if f & OLFlags::CROSS_TRADE != 0 || r.amount_rest == 0 {
            OLMsgType::Remove
        } else {
            OLMsgType::UNKNOWN
        }
    }
}

/// A change of the price-level book.
#[derive(Debug, Clone, Copy, PartialEq, Eq, Structural)]
pub enum L2Message {
    /// The level at `price` now holds `size`.
    Quote { side: Side, price: Price, size: Volume },
    /// The level at `price` is gone.
    Remove { side: Side, price: Price },
    /// The book was reset for a new session.
    Clear,
}

/// An order-level action in the canonical form.
#[derive(Debug, Clone, Copy, PartialEq, Eq, Structural)]
pub enum L3Message {
    Add(OrderLog),
    Cancel(OrderLog),
    Trade(OrderLog),
}

/// A decoded order-log entry.
#[derive(Debug, Clone, Copy, PartialEq, Eq, Structural)]
pub struct OrderLog {
    pub frame_time_delta: Timestamp,
    pub timestamp: Timestamp,
    pub order_id: UID,
    pub price: Price,
    pub amount: Volume,
    pub amount_rest: Volume,
    pub deal_id: UID,
    pub deal_price: Price,
    pub oi: Volume,
    pub order_flags: u16,
    pub entry_flags: u8,
    pub side: Side,
    pub event: OLMsgType,
    pub type_: OrderType,
}

/// The record with every number zero and every derived field unknown.
pub open spec fn blank_order_log() -> OrderLog {
    OrderLog {
        frame_time_delta: 0,
        timestamp: 0,
        order_id: 0,
        price: 0,
        amount: 0,
        amount_rest: 0,
        deal_id: 0,
        deal_price: 0,
        oi: 0,
        order_flags: 0,
        entry_flags: 0,
        side: Side::UNKNOWN,
        event: OLMsgType::UNKNOWN,
        type_: OrderType::UNKNOWN,
    }
}

impl Default for OrderLog {
    fn default() -> (r: OrderLog)
        ensures
            r == blank_order_log(),
    {
        OrderLog {
            frame_time_delta: 0,
            timestamp: 0,
            order_id: 0,
            price: 0,
            amount: 0,
            amount_rest: 0,
            deal_id: 0,
            deal_price: 0,
            oi: 0,
            order_flags: 0,
            entry_flags: 0,
            side: Side::UNKNOWN,
            event: OLMsgType::UNKNOWN,
            type_: OrderType::UNKNOWN,
        }
    }
}

/// A decoded quotes record: bids and asks in ascending price order.
#[derive(Debug, Clone, Default)]
pub struct Quotes {
    pub frame_time_delta: Timestamp,
    pub bid: Vec<(Price, Volume)>,
    pub ask: Vec<(Price, Volume)>,
}

/// A decoded deal record.
#[derive(Debug, Clone, Copy, PartialEq, Eq, Structural)]
pub struct Deal {
    pub frame_time_delta: Timestamp,
    pub side: Side,
    pub timestamp: Timestamp,
    pub deal_id: UID,
    pub order_id: UID,
    pub price: Price,
    pub amount: Volume,
    pub oi: Volume,
}

/// A decoded auxiliary-information record. The two floating-point fields,
/// `deposit` and `rate`, are held as the bits of their IEEE-754 encoding.
#[derive(Debug, Clone)]
pub struct AuxInfo {
    pub frame_time_delta: Timestamp,
    pub timestamp: Timestamp,
    pub price: Price,
    pub ask_total: Volume,
    pub bid_total: Volume,
    pub oi: Volume,
    pub hi_limit: Price,
    pub low_limit: Price,
    pub deposit_bits: u64,
    pub rate_bits: u64,
    pub message: String,
}

} // verus!

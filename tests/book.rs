use qsh_rs::l3tol2::{convert, L3L2Converter};
use qsh_rs::moex2conv::{chunk_to_l3, chunks, moex_to_l3, Chunk};
use qsh_rs::orderbook::{
    fiok_with_trades, non_system_record, system_record, ticks_to_unix_time, tx_end, OrderBook, Partition,
};
use qsh_rs::types::{L2Message, L3Message, OLFlags, OLMsgType, OrderLog, OrderType, Side};
use qsh_rs::{ErrorKind, QshError};

const TS: i64 = 63_000_000_000_000;

fn rec(flags: u16, id: i64, price: i64, amount: i64, rest: i64) -> OrderLog {
    let side = if flags & OLFlags::BUY != 0 {
        Side::Buy
    } else if flags & OLFlags::SELL != 0 {
        Side::Sell
    } else {
        Side::UNKNOWN
    };
    let mut r = OrderLog {
        frame_time_delta: 0,
        timestamp: TS,
        order_id: id,
        price,
        amount,
        amount_rest: rest,
        deal_id: 0,
        deal_price: 0,
        oi: 0,
        order_flags: flags,
        entry_flags: 0,
        side,
        event: OLMsgType::UNKNOWN,
        type_: OrderType::from_flags(flags),
    };
    r.event = OLMsgType::from_record(&r);
    r
}

const ADD_BUY: u16 = OLFlags::ADD | OLFlags::BUY | OLFlags::QUOTE;
const ADD_SELL: u16 = OLFlags::ADD | OLFlags::SELL | OLFlags::QUOTE;

fn kind(r: &Result<(), QshError>) -> Option<ErrorKind> {
    match r {
        Ok(()) => None,
        Err(e) => Some(e.kind()),
    }
}

#[test]
fn scenario_single_add() {
    let mut c = L3L2Converter::new(0);
    let out = c.push(rec(ADD_BUY | OLFlags::TX_END, 42, 100, 3, 3));
    assert_eq!(out, Some(Ok(vec![L2Message::Quote { side: Side::Buy, price: 100, size: 3 }])));
    assert_eq!(c.book().depth(Side::Buy), 1);
    assert_eq!(c.book().depth(Side::Sell), 0);
}

#[test]
fn scenario_full_cancel() {
    let mut c = L3L2Converter::new(0);
    c.push(rec(ADD_BUY | OLFlags::TX_END, 42, 100, 3, 3));
    let out = c.push(rec(OLFlags::CANCELED | OLFlags::BUY | OLFlags::TX_END, 42, 100, 0, 0));
    assert_eq!(out, Some(Ok(vec![L2Message::Remove { side: Side::Buy, price: 100 }])));
    assert_eq!(c.book().depth(Side::Buy), 0);
}

#[test]
fn scenario_aggressor_hits_two_resting() {
    let mut c = L3L2Converter::new(0);
    c.push(rec(ADD_SELL, 1, 100, 2, 2));
    let setup = c.push(rec(ADD_SELL | OLFlags::TX_END, 2, 101, 5, 5));
    assert_eq!(
        setup,
        Some(Ok(vec![
            L2Message::Quote { side: Side::Sell, price: 100, size: 2 },
            L2Message::Quote { side: Side::Sell, price: 101, size: 5 },
        ]))
    );
    let aggressor = rec(OLFlags::ADD | OLFlags::BUY | OLFlags::COUNTER, 9, 101, 5, 5);
    let fill1 = rec(OLFlags::FILL | OLFlags::SELL, 1, 100, 2, 0);
    let fill2 = rec(OLFlags::FILL | OLFlags::SELL | OLFlags::TX_END, 2, 101, 3, 2);
    let tx = vec![aggressor, fill1, fill2];
    assert_eq!(moex_to_l3(tx.clone()).unwrap(), vec![L3Message::Trade(fill1), L3Message::Trade(fill2)]);
    assert_eq!(c.push(aggressor), None);
    assert_eq!(c.push(fill1), None);
    let out = c.push(fill2);
    assert_eq!(
        out,
        Some(Ok(vec![
            L2Message::Remove { side: Side::Sell, price: 100 },
            L2Message::Quote { side: Side::Sell, price: 101, size: 2 },
        ]))
    );
    assert_eq!(c.book().depth(Side::Buy), 0);
    assert_eq!(c.book().level_summary(Side::Sell, 0), (101, 2));
}

#[test]
fn scenario_intra_transaction_cross() {
    let tx = vec![
        rec(ADD_BUY, 10, 100, 1, 1),
        rec(ADD_SELL, 11, 100, 1, 1),
        rec(OLFlags::FILL | OLFlags::BUY, 10, 100, 1, 0),
        rec(OLFlags::FILL | OLFlags::SELL | OLFlags::TX_END, 11, 100, 1, 0),
    ];
    assert_eq!(moex_to_l3(tx.clone()).unwrap(), vec![]);
    let mut c = L3L2Converter::new(0);
    let mut last = None;
    for r in tx {
        last = c.push(r);
    }
    assert_eq!(last, Some(Ok(vec![])));
    assert_eq!(c.book().depth(Side::Buy), 0);
    assert_eq!(c.book().depth(Side::Sell), 0);
}

#[test]
fn scenario_new_session() {
    let mut c = L3L2Converter::new(0);
    c.push(rec(ADD_BUY | OLFlags::TX_END, 1, 100, 3, 3));
    c.push(rec(ADD_SELL | OLFlags::TX_END, 2, 101, 3, 3));
    let out = c.push(rec(ADD_BUY | OLFlags::NEW_SESSION | OLFlags::TX_END, 3, 99, 1, 1));
    assert_eq!(out, Some(Ok(vec![L2Message::Clear])));
    assert_eq!(c.book().depth(Side::Buy), 0);
    assert_eq!(c.book().depth(Side::Sell), 0);
}

#[test]
fn add_then_cancel_restores_level() {
    let mut b = OrderBook::new();
    let mut ev = Vec::new();
    b.add(rec(ADD_BUY, 1, 100, 4, 4), &mut ev).unwrap();
    b.add(rec(ADD_BUY, 2, 99, 1, 1), &mut ev).unwrap();
    let before = (b.level_summary(Side::Buy, 0), b.level_summary(Side::Buy, 1), b.depth(Side::Buy));
    b.add(rec(ADD_BUY, 7, 100, 3, 3), &mut ev).unwrap();
    assert_eq!(b.level_summary(Side::Buy, 0), (100, 7));
    b.cancel(rec(OLFlags::CANCELED | OLFlags::BUY, 7, 100, 0, 0), &mut ev).unwrap();
    assert_eq!((b.level_summary(Side::Buy, 0), b.level_summary(Side::Buy, 1), b.depth(Side::Buy)), before);
    b.add(rec(ADD_BUY, 8, 101, 2, 2), &mut ev).unwrap();
    b.cancel(rec(OLFlags::CANCELED | OLFlags::BUY, 8, 101, 0, 0), &mut ev).unwrap();
    assert_eq!((b.level_summary(Side::Buy, 0), b.level_summary(Side::Buy, 1), b.depth(Side::Buy)), before);
}

#[test]
fn levels_sorted_and_totalled() {
    let mut b = OrderBook::new();
    let mut ev = Vec::new();
    for (id, p, a) in [(1, 100, 2), (2, 102, 1), (3, 101, 5), (4, 100, 3)] {
        b.add(rec(ADD_BUY, id, p, a, a), &mut ev).unwrap();
    }
    for (id, p, a) in [(5, 105, 1), (6, 103, 2), (7, 104, 4), (8, 103, 6)] {
        b.add(rec(ADD_SELL, id, p, a, a), &mut ev).unwrap();
    }
    assert_eq!(b.depth(Side::Buy), 3);
    assert_eq!(b.depth(Side::Sell), 3);
    assert_eq!(b.level_summary(Side::Buy, 0), (102, 1));
    assert_eq!(b.level_summary(Side::Buy, 1), (101, 5));
    assert_eq!(b.level_summary(Side::Buy, 2), (100, 5));
    assert_eq!(b.level_summary(Side::Sell, 0), (103, 8));
    assert_eq!(b.level_summary(Side::Sell, 1), (104, 4));
    assert_eq!(b.level_summary(Side::Sell, 2), (105, 1));
    let (ts, rows) = b.snapshot(2);
    assert_eq!(ts, TS - 62_135_596_800_000);
    assert_eq!(rows, vec![102, 1, 103, 8, 101, 5, 104, 4]);
}

#[test]
fn partial_cancel_and_trade() {
    let mut b = OrderBook::new();
    let mut ev = Vec::new();
    b.add(rec(ADD_SELL, 1, 100, 5, 5), &mut ev).unwrap();
    b.add(rec(ADD_SELL, 2, 100, 4, 4), &mut ev).unwrap();
    b.cancel(rec(OLFlags::CANCELED | OLFlags::SELL, 1, 100, 0, 2), &mut ev).unwrap();
    assert_eq!(ev.last(), Some(&L2Message::Quote { side: Side::Sell, price: 100, size: 6 }));
    b.trade(rec(OLFlags::FILL | OLFlags::SELL, 2, 100, 4, 0), &mut ev).unwrap();
    assert_eq!(ev.last(), Some(&L2Message::Quote { side: Side::Sell, price: 100, size: 2 }));
    b.trade(rec(OLFlags::FILL | OLFlags::SELL, 1, 100, 1, 1), &mut ev).unwrap();
    assert_eq!(ev.last(), Some(&L2Message::Quote { side: Side::Sell, price: 100, size: 1 }));
    b.trade(rec(OLFlags::FILL | OLFlags::SELL, 1, 100, 1, 0), &mut ev).unwrap();
    assert_eq!(ev.last(), Some(&L2Message::Remove { side: Side::Sell, price: 100 }));
    assert_eq!(b.depth(Side::Sell), 0);
    b.clear();
    assert_eq!(b.depth(Side::Buy), 0);
}

#[test]
fn book_errors_leave_book_unchanged() {
    let mut b = OrderBook::new();
    let mut ev = Vec::new();
    b.add(rec(ADD_BUY, 1, 100, 2, 2), &mut ev).unwrap();
    let n = ev.len();
    assert_eq!(kind(&b.add(rec(ADD_BUY | OLFlags::FILL, 2, 100, 2, 2), &mut ev)), Some(ErrorKind::Validation));
    assert_eq!(kind(&b.add(rec(ADD_BUY, 2, 100, 2, 1), &mut ev)), Some(ErrorKind::Validation));
    assert_eq!(kind(&b.add(rec(ADD_BUY, 2, 100, 0, 0), &mut ev)), Some(ErrorKind::Validation));
    assert_eq!(kind(&b.cancel(rec(OLFlags::CANCELED | OLFlags::BUY, 9, 100, 0, 0), &mut ev)), Some(ErrorKind::InvalidState));
    assert_eq!(kind(&b.cancel(rec(OLFlags::CANCELED | OLFlags::BUY, 1, 98, 0, 0), &mut ev)), Some(ErrorKind::InvalidState));
    assert_eq!(kind(&b.cancel(rec(OLFlags::CANCELED | OLFlags::BUY, 1, 100, 0, 5), &mut ev)), Some(ErrorKind::InvalidState));
    assert_eq!(kind(&b.cancel(rec(OLFlags::ADD | OLFlags::BUY, 1, 100, 0, 0), &mut ev)), Some(ErrorKind::Validation));
    assert_eq!(kind(&b.trade(rec(OLFlags::FILL | OLFlags::BUY, 1, 100, 3, 0), &mut ev)), Some(ErrorKind::InvalidState));
    assert_eq!(kind(&b.trade(rec(OLFlags::FILL | OLFlags::BUY, 1, 100, 0, 0), &mut ev)), Some(ErrorKind::Validation));
    let mut late = rec(ADD_BUY, 3, 100, 1, 1);
    late.timestamp = i64::MIN;
    assert_eq!(kind(&b.add(late, &mut ev)), Some(ErrorKind::Overflow));
    let mut big = rec(ADD_BUY, 4, 100, i64::MAX, i64::MAX);
    big.timestamp = TS;
    assert_eq!(kind(&b.add(big, &mut ev)), Some(ErrorKind::Overflow));
    assert_eq!(ev.len(), n);
    assert_eq!(b.level_summary(Side::Buy, 0), (100, 2));
    assert_eq!(b.depth(Side::Buy), 1);
}

#[test]
fn add_refuses_non_positive_and_crossing() {
    let mut b = OrderBook::new();
    let mut ev = Vec::new();
    assert_eq!(kind(&b.add(rec(ADD_BUY, 1, 100, -3, -3), &mut ev)), Some(ErrorKind::Validation));
    assert_eq!(b.depth(Side::Buy), 0);
    b.add(rec(ADD_SELL, 2, 100, 2, 2), &mut ev).unwrap();
    assert_eq!(kind(&b.add(rec(ADD_BUY, 3, 101, 1, 1), &mut ev)), Some(ErrorKind::Validation));
    assert_eq!(kind(&b.add(rec(ADD_BUY, 3, 100, 1, 1), &mut ev)), Some(ErrorKind::Validation));
    b.add(rec(ADD_BUY, 3, 99, 1, 1), &mut ev).unwrap();
    assert_eq!(kind(&b.add(rec(ADD_SELL, 4, 99, 1, 1), &mut ev)), Some(ErrorKind::Validation));
    b.add(rec(ADD_SELL, 4, 101, 1, 1), &mut ev).unwrap();
    assert_eq!(b.depth(Side::Buy), 1);
    assert_eq!(b.depth(Side::Sell), 2);
    assert_eq!(ev.len(), 3);
}

#[test]
fn negative_amounts_keep_level_totals_positive() {
    let mut b = OrderBook::new();
    let mut ev = Vec::new();
    b.add(rec(ADD_BUY, 1, 100, 10, 10), &mut ev).unwrap();
    b.add(rec(ADD_BUY, 2, 100, -2, -2), &mut ev).unwrap();
    assert_eq!(ev.last(), Some(&L2Message::Quote { side: Side::Buy, price: 100, size: 8 }));
    assert_eq!(kind(&b.add(rec(ADD_BUY, 3, 100, -8, -8), &mut ev)), Some(ErrorKind::Validation));
    assert_eq!(b.level_summary(Side::Buy, 0), (100, 8));
    b.add(rec(ADD_BUY, 4, 100, 5, 5), &mut ev).unwrap();
    b.cancel(rec(OLFlags::CANCELED | OLFlags::BUY, 4, 100, 0, -1), &mut ev).unwrap();
    assert_eq!(b.level_summary(Side::Buy, 0), (100, 7));
    let mut c = OrderBook::new();
    c.add(rec(ADD_BUY, 1, 100, 3, 3), &mut ev).unwrap();
    assert_eq!(kind(&c.cancel(rec(OLFlags::CANCELED | OLFlags::BUY, 1, 100, 0, -1), &mut ev)), Some(ErrorKind::InvalidState));
    assert_eq!(kind(&c.cancel(rec(OLFlags::CANCELED | OLFlags::BUY, 9, 100, 0, -1), &mut ev)), Some(ErrorKind::InvalidState));
    assert_eq!(c.level_summary(Side::Buy, 0), (100, 3));
}

#[test]
fn negative_aggressor_is_refused() {
    let mut a = rec(ADD_BUY, 9, 101, 3, 3);
    a.amount = -1;
    a.amount_rest = -1;
    let r = chunk_to_l3(&Chunk::Trades(vec![a], vec![]));
    assert_eq!(r.unwrap_err().kind(), ErrorKind::InvalidState);
}

#[test]
fn converter_stops_after_error() {
    let mut c = L3L2Converter::new(0);
    let out = c.push(rec(OLFlags::CANCELED | OLFlags::BUY | OLFlags::TX_END, 9, 100, 0, 0));
    assert_eq!(out.unwrap().unwrap_err().kind(), ErrorKind::InvalidState);
    assert_eq!(c.push(rec(ADD_BUY | OLFlags::TX_END, 1, 100, 1, 1)), None);
    assert_eq!(c.book().depth(Side::Buy), 0);
    let out = convert(
        vec![
            rec(OLFlags::CANCELED | OLFlags::BUY | OLFlags::TX_END, 9, 100, 0, 0),
            rec(ADD_BUY | OLFlags::TX_END, 1, 100, 1, 1),
        ],
        0,
    );
    assert_eq!(out.len(), 1);
    assert!(out[0].is_err());
}

#[test]
fn one_aggressor_fills_bounded() {
    let a = rec(ADD_BUY, 9, 101, 3, 3);
    let own = rec(OLFlags::FILL | OLFlags::BUY, 9, 101, 2, 1);
    let own2 = rec(OLFlags::FILL | OLFlags::BUY, 9, 101, 2, 0);
    let ok = chunk_to_l3(&Chunk::Trades(vec![a], vec![own])).unwrap();
    let mut rested = a;
    rested.amount = 1;
    rested.amount_rest = 1;
    assert_eq!(ok, vec![L3Message::Add(rested)]);
    let bad = chunk_to_l3(&Chunk::Trades(vec![a], vec![own, own2]));
    assert_eq!(bad.unwrap_err().kind(), ErrorKind::InvalidState);
}

#[test]
fn chunks_cut_transactions() {
    let plain = vec![
        rec(ADD_BUY, 1, 100, 1, 1),
        rec(OLFlags::ADD | OLFlags::BUY | OLFlags::COUNTER, 2, 100, 1, 1),
        rec(OLFlags::BUY | OLFlags::QUOTE, 3, 100, 0, 0),
        rec(OLFlags::CANCELED | OLFlags::BUY, 4, 100, 0, 0),
    ];
    let cs = chunks(plain).unwrap();
    assert_eq!(cs.len(), 2);
    let bad = vec![rec(OLFlags::FILL | OLFlags::BUY, 1, 100, 1, 0), rec(OLFlags::BUY | OLFlags::QUOTE, 3, 100, 0, 0)];
    assert_eq!(chunks(bad).err().map(|e| e.kind()), Some(ErrorKind::Validation));
    let odd = chunk_to_l3(&Chunk::Order(rec(OLFlags::BUY | OLFlags::QUOTE, 5, 100, 1, 1)));
    assert_eq!(odd.unwrap_err().kind(), ErrorKind::Validation);
}

#[test]
fn record_filters() {
    let r = rec(ADD_BUY | OLFlags::TX_END, 1, 100, 1, 1);
    assert!(system_record(&r));
    assert!(tx_end(&r));
    assert!(non_system_record(&rec(ADD_BUY | OLFlags::NON_SYSTEM, 1, 100, 1, 1)));
    assert!(non_system_record(&rec(ADD_BUY | OLFlags::NON_ZERO_REPL_ACT, 1, 100, 1, 1)));
    assert!(non_system_record(&rec(OLFlags::ADD | OLFlags::QUOTE, 1, 100, 1, 1)));
    assert!(!tx_end(&rec(ADD_BUY, 1, 100, 1, 1)));
    let iok = rec(OLFlags::ADD | OLFlags::BUY | OLFlags::COUNTER, 1, 100, 1, 1);
    assert!(!fiok_with_trades(&vec![iok, iok]));
    assert!(fiok_with_trades(&vec![iok, iok, iok]));
    assert!(fiok_with_trades(&vec![r]));
    assert_eq!(ticks_to_unix_time(62_135_596_800_000), 0);
    assert_eq!(ticks_to_unix_time(63_000_000_000_000), 864_403_200_000);
}

#[test]
fn partition_groups_by_tx_end() {
    let mut p = Partition::new();
    let a = rec(ADD_BUY, 1, 100, 1, 1);
    let b = rec(ADD_BUY | OLFlags::TX_END, 2, 100, 1, 1);
    assert_eq!(p.push(a), None);
    assert_eq!(p.push(b), Some(vec![a, b]));
    assert_eq!(p.push(b), Some(vec![b]));
}

#[test]
fn convert_runs_pipeline() {
    let input = vec![
        rec(ADD_BUY, 1, 100, 2, 2),
        rec(ADD_SELL | OLFlags::TX_END, 2, 101, 3, 3),
        rec(ADD_BUY | OLFlags::NON_SYSTEM | OLFlags::TX_END, 3, 100, 2, 2),
        rec(OLFlags::CANCELED | OLFlags::BUY | OLFlags::TX_END, 9, 100, 0, 0),
        rec(ADD_BUY, 4, 99, 1, 1),
    ];
    let out = convert(input, 5);
    assert_eq!(out.len(), 2);
    assert_eq!(
        out[0],
        Ok(vec![
            L2Message::Quote { side: Side::Buy, price: 100, size: 2 },
            L2Message::Quote { side: Side::Sell, price: 101, size: 3 },
        ])
    );
    assert_eq!(out[1].as_ref().unwrap_err().kind(), ErrorKind::InvalidState);
}

use qsh_rs::parse::{AuxInfoReader, DealReader, OrderLogReader, QuotesReader, RecordIter};
use qsh_rs::read::{header, QshRead};
use qsh_rs::types::{OLMsgType, OrderType, Side, Stream};
use qsh_rs::ErrorKind;

const SIG: &[u8] = b"QScalp History Data";

fn header_bytes(version: u8, count: u8, stream: u8) -> Vec<u8> {
    let mut v = SIG.to_vec();
    v.push(version);
    v.extend_from_slice(&[3, b'r', b'e', b'c']);
    v.push(0);
    v.extend_from_slice(&(-5i64).to_le_bytes());
    v.push(count);
    v.push(stream);
    v.extend_from_slice(&[2, b'S', b'i']);
    v
}

fn ol_records() -> Vec<u8> {
    vec![
        // add, buy, quote, end of transaction: time 5, order 42, price 100, amount 3
        0x00, 0x0f, 0x94, 0x04, 0x05, 0x2a, 0xe4, 0x00, 0x03,
        // cancel of the same order, quote: only the order id (delta 0) is present
        0x00, 0x02, 0x90, 0x24, 0x00,
    ]
}

#[test]
fn scenario_signature_check() {
    let mut bad = b"QScalp History Dat!".to_vec();
    bad.extend_from_slice(&[4, 0, 0]);
    let mut p = QshRead::new(bad);
    assert_eq!(header(&mut p).unwrap_err().kind(), ErrorKind::Validation);
    let mut v = SIG.to_vec();
    v.push(0x05);
    let mut p = QshRead::new(v);
    assert_eq!(header(&mut p).unwrap_err().kind(), ErrorKind::Validation);
    let mut p = QshRead::new(SIG[..10].to_vec());
    assert_eq!(header(&mut p).unwrap_err().kind(), ErrorKind::UnexpectedEnd);
}

#[test]
fn header_stream_count() {
    for count in [0u8, 2, 7] {
        let mut p = QshRead::new(header_bytes(4, count, 0x70));
        assert_eq!(header(&mut p).unwrap_err().kind(), ErrorKind::Validation);
    }
    let mut p = QshRead::new(header_bytes(4, 1, 0x30));
    assert_eq!(header(&mut p).unwrap_err().kind(), ErrorKind::Validation);
    let mut p = QshRead::new(header_bytes(4, 1, 0x70));
    let h = header(&mut p).unwrap();
    assert_eq!(h.version, 4);
    assert_eq!(h.stream, Stream::ORDERLOG);
    assert_eq!(h.recorder, "rec");
    assert_eq!(h.comment, "");
    assert_eq!(h.instrument, "Si");
    assert_eq!(h.recording_time, 0);
    assert!(p.eof());
}

#[test]
fn growing_escape_and_plain() {
    let mut p = QshRead::new(vec![0xff, 0xff, 0xff, 0x7f, 0x7b, 0x7f]);
    assert_eq!(p.growing().unwrap(), -5);
    assert_eq!(p.growing().unwrap(), 127);
    assert!(p.eof());
    let mut p = QshRead::new(vec![0xfe, 0xff, 0xff, 0x7f]);
    assert_eq!(p.growing().unwrap(), 268_435_454);
    let mut p = QshRead::new(vec![0xff, 0xff, 0xff, 0x7f, 0x80, 0x01]);
    assert_eq!(p.growing().unwrap(), 128);
}

#[test]
fn u64_read_across_fed_pieces() {
    let mut p = QshRead::new(vec![9, 1, 2, 3]);
    assert_eq!(p.byte().unwrap(), 9);
    p.feed(&[4, 5, 6, 7, 8, 0xaa]);
    assert_eq!(p.u64().unwrap(), 0x0807_0605_0403_0201);
    assert_eq!(p.remaining(), 1);
    assert_eq!(p.u64().unwrap_err().kind(), ErrorKind::UnexpectedEnd);
    assert_eq!(p.byte().unwrap(), 0xaa);
}

#[test]
fn fixed_width_reads() {
    let mut p = QshRead::new(vec![0x34, 0x12, 0xfe, 0xff, 0xff, 0xff, 0xff, 0xff, 0xff, 0xff, 0xff, 0xff]);
    assert_eq!(p.u16().unwrap(), 0x1234);
    assert_eq!(p.i16().unwrap(), -2);
    assert_eq!(p.i64().unwrap(), -1);
    assert_eq!(p.byte().unwrap_err().kind(), ErrorKind::UnexpectedEnd);
}

#[test]
fn leb_reads() {
    let mut p = QshRead::new(vec![0xe5, 0x8e, 0x26, 0x7b, 0xc0, 0xbb, 0x78]);
    assert_eq!(p.uleb().unwrap(), 624_485);
    assert_eq!(p.leb().unwrap(), -5);
    assert_eq!(p.leb().unwrap(), -123_456);
    let mut over = vec![0x80u8; 9];
    over.push(0x02);
    let mut p = QshRead::new(over);
    assert_eq!(p.uleb().unwrap_err().kind(), ErrorKind::Overflow);
    let mut p = QshRead::new(vec![0x80, 0x80]);
    assert_eq!(p.leb().unwrap_err().kind(), ErrorKind::UnexpectedEnd);
    assert_eq!(p.remaining(), 2);
}

#[test]
fn string_reads() {
    let mut p = QshRead::new(vec![2, b'o', b'k', 2, 0xff, 0xfe, 5, b'a']);
    assert_eq!(p.string().unwrap(), "ok");
    assert_eq!(p.string().unwrap_err().kind(), ErrorKind::InvalidUtf8);
    assert_eq!(p.remaining(), 5);
    let mut p = QshRead::new(vec![5, b'a']);
    assert_eq!(p.string().unwrap_err().kind(), ErrorKind::UnexpectedEnd);
}

#[test]
fn orderlog() {
    let mut bytes = header_bytes(4, 1, 0x70);
    bytes.extend(ol_records());
    let mut p = QshRead::new(bytes);
    assert_eq!(header(&mut p).unwrap().stream, Stream::ORDERLOG);
    let mut it = RecordIter::new(OrderLogReader::new(), p);
    let add = it.next().unwrap().unwrap();
    assert_eq!((add.timestamp, add.order_id, add.price, add.amount, add.amount_rest), (5, 42, 100, 3, 3));
    assert_eq!((add.side, add.type_, add.event), (Side::Buy, OrderType::Limit, OLMsgType::Add));
    let cancel = it.next().unwrap().unwrap();
    assert_eq!((cancel.order_id, cancel.price, cancel.amount_rest), (42, 100, 0));
    assert_eq!(cancel.event, OLMsgType::Cancel);
    assert!(it.next().is_none());
}

#[test]
fn orderlog_both_sides_is_parsing_error() {
    let mut p = QshRead::new(vec![0x00, 0x00, 0x30, 0x00]);
    let mut r = OrderLogReader::new();
    assert_eq!(r.parse(&mut p).unwrap_err().kind(), ErrorKind::Parsing);
}

#[test]
fn orderlog_unknown_type_or_event_is_parsing_error() {
    // add, buy, but neither quote, counter nor fill-or-kill
    let mut p = QshRead::new(vec![0x00, 0x00, 0x14, 0x00]);
    let mut r = OrderLogReader::new();
    assert_eq!(r.parse(&mut p).unwrap_err().kind(), ErrorKind::Parsing);
    assert_eq!(r.order_id, 0);
    // buy, quote, no event flag: the rest is zero, so the order is removed
    let mut p = QshRead::new(vec![0x00, 0x00, 0x90, 0x00]);
    let mut r = OrderLogReader::new();
    assert_eq!(r.parse(&mut p).unwrap().event, OLMsgType::Remove);
}

#[test]
fn orderlog_fill_and_add_keeps_decoded_rest() {
    let mut p = QshRead::new(vec![0x00, 0x18, 0x9c, 0x00, 0x05, 0x02]);
    let mut r = OrderLogReader::new();
    let f = r.parse(&mut p).unwrap();
    assert_eq!((f.amount, f.amount_rest, f.event), (5, 2, OLMsgType::Add));
}

#[test]
fn consume_reads_across_pieces() {
    let mut p = QshRead::new(vec![1, 2, 3]);
    p.feed(&[4, 5]);
    assert_eq!(p.consume(2).unwrap(), vec![1, 2]);
    assert_eq!(p.consume(4).unwrap_err().kind(), ErrorKind::UnexpectedEnd);
    assert_eq!(p.consume(3).unwrap(), vec![3, 4, 5]);
    assert!(p.eof());
}

#[test]
fn quotes_failure_keeps_state() {
    let mut r = QuotesReader::new();
    let mut p = QshRead::new(vec![0x00, 0x01, 0x32, 0x05]);
    assert_eq!(r.parse(&mut p).unwrap().ask, vec![(50, 5)]);
    // two rows: store 60, then remove the absent 70
    let mut p = QshRead::new(vec![0x00, 0x02, 0x0a, 0x03, 0x0a, 0x00]);
    assert_eq!(r.parse(&mut p).unwrap_err().kind(), ErrorKind::InvalidState);
    assert_eq!(r.key, 50);
    let mut p = QshRead::new(vec![0x00, 0x00]);
    let q = r.parse(&mut p).unwrap();
    assert_eq!(q.ask, vec![(50, 5)]);
    assert!(q.bid.is_empty());
}

#[test]
fn orderlog_fill_carries_deal() {
    // fill, sell, quote: order id delta 3, amount 2, rest 1, deal id 77, deal price 100, open interest 5
    let mut p = QshRead::new(vec![0x00, 0xfa, 0xa8, 0x00, 0x03, 0x02, 0x01, 0x4d, 0xe4, 0x00, 0x05]);
    let mut r = OrderLogReader::new();
    let f = r.parse(&mut p).unwrap();
    assert_eq!((f.order_id, f.amount, f.amount_rest, f.deal_id, f.deal_price, f.oi), (3, 2, 1, 77, 100, 5));
    assert_eq!((f.side, f.event), (Side::Sell, OLMsgType::Fill));
    assert_eq!(r.order_id, 0);
}

#[test]
fn quotes() {
    let mut bytes = header_bytes(4, 1, 0x10);
    bytes.extend([0x00, 0x03, 0xe4, 0x00, 0x7b, 0x01, 0x07, 0x01, 0x7e]);
    bytes.extend([0x00, 0x01, 0x00, 0x00]);
    let mut p = QshRead::new(bytes);
    assert_eq!(header(&mut p).unwrap().stream, Stream::QUOTES);
    let mut it = RecordIter::new(QuotesReader::new(), p);
    let q = it.next().unwrap().unwrap();
    assert_eq!(q.bid, vec![(100, 5), (102, 2)]);
    assert_eq!(q.ask, vec![(101, 7)]);
    let q = it.next().unwrap().unwrap();
    assert_eq!(q.bid, vec![(100, 5)]);
    assert_eq!(q.ask, vec![(101, 7)]);
    assert!(it.next().is_none());
}

#[test]
fn quotes_removal_of_absent_key_fails() {
    let mut r = QuotesReader::new();
    let mut p = QshRead::new(vec![0x00, 0x01, 0x32, 0x00]);
    assert_eq!(r.parse(&mut p).unwrap_err().kind(), ErrorKind::InvalidState);
    let mut r = QuotesReader::new();
    let mut p = QshRead::new(vec![0x00, 0x01, 0x32, 0x05, 0x00, 0x01, 0x00, 0x00, 0x00, 0x01, 0x00, 0x00]);
    let q = r.parse(&mut p).unwrap();
    assert_eq!(q.ask, vec![(50, 5)]);
    let q = r.parse(&mut p).unwrap();
    assert!(q.ask.is_empty() && q.bid.is_empty());
    assert_eq!(r.parse(&mut p).unwrap_err().kind(), ErrorKind::InvalidState);
}

#[test]
fn deals() {
    let mut bytes = header_bytes(4, 1, 0x20);
    bytes.extend([0x00, 0xfd, 0x0a, 0x07, 0x09, 0xe4, 0x00, 0x04, 0x7f]);
    bytes.extend([0x01, 0x2a, 0x01, 0x02]);
    let mut p = QshRead::new(bytes);
    assert_eq!(header(&mut p).unwrap().stream, Stream::DEALS);
    let mut it = RecordIter::new(DealReader::new(), p);
    let d = it.next().unwrap().unwrap();
    assert_eq!((d.side, d.timestamp, d.deal_id, d.order_id, d.price, d.amount, d.oi), (Side::Buy, 10, 7, 9, 100, 4, -1));
    let d = it.next().unwrap().unwrap();
    assert_eq!((d.frame_time_delta, d.side, d.deal_id, d.price, d.amount), (1, Side::Sell, 8, 102, 4));
    assert!(it.next().is_none());
}

#[test]
fn aux() {
    let mut bytes = header_bytes(4, 1, 0x60);
    bytes.extend([0x00, 0x91, 0x03, 0x32, 0x02, b'h', b'i']);
    bytes.extend([0x00, 0x60, 0x0a, 0x05]);
    bytes.extend(2.5f64.to_bits().to_le_bytes());
    bytes.extend(0.25f64.to_bits().to_le_bytes());
    let mut p = QshRead::new(bytes);
    assert_eq!(header(&mut p).unwrap().stream, Stream::AUXINFO);
    let mut it = RecordIter::new(AuxInfoReader::new(), p);
    let a = it.next().unwrap().unwrap();
    assert_eq!((a.timestamp, a.price, a.message.as_str()), (3, 50, "hi"));
    let a = it.next().unwrap().unwrap();
    assert_eq!((a.timestamp, a.price, a.hi_limit, a.low_limit, a.message.as_str()), (3, 50, 10, 5, ""));
    assert_eq!(f64::from_bits(a.deposit_bits), 2.5);
    assert_eq!(f64::from_bits(a.rate_bits), 0.25);
    assert!(it.next().is_none());
}

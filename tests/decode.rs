use quote_parser::locate::{find_subslice, split_once_subslice};
use quote_parser::order::{decode_capture, order_quotes, sort_by_accept_time, OrderPolicy};
use quote_parser::quote::{decode_payload, parse_packet, DecodeError, Quote};
use quote_parser::render::render_quote;
use quote_parser::time::{parse_time, TimeOfDay};

fn put(buf: &mut [u8], at: usize, text: &str) {
    buf[at..at + text.len()].copy_from_slice(text.as_bytes());
}

/// A complete payload: each bid level `i` has price `100 + i` and quantity
/// `10 + i`, each ask level price `200 + i` and quantity `20 + i`.
fn payload(issue: &str, time: &str) -> Vec<u8> {
    let mut p = vec![b' '; 210];
    put(&mut p, 0, issue);
    for i in 0..5 {
        put(&mut p, 24 + 12 * i, &format!("{:05}", 100 + i));
        put(&mut p, 29 + 12 * i, &format!("{:07}", 10 + i));
        put(&mut p, 91 + 12 * i, &format!("{:05}", 200 + i));
        put(&mut p, 96 + 12 * i, &format!("{:07}", 20 + i));
    }
    put(&mut p, 201, time);
    p[209] = 0xFF;
    p
}

fn frame(prefix: &[u8], payload: &[u8]) -> Vec<u8> {
    let mut f = prefix.to_vec();
    f.extend_from_slice(b"B6034");
    f.extend_from_slice(payload);
    f
}

fn time(hour: u32, minute: u32, second: u32, micro: u32) -> TimeOfDay {
    TimeOfDay { hour, minute, second, micro }
}

fn synthetic(code: &str, t: TimeOfDay) -> Quote {
    let bids = vec![(1, 11), (2, 12), (3, 13), (4, 14), (5, 15)];
    let asks = vec![(6, 16), (7, 17), (8, 18), (9, 19), (10, 20)];
    Quote::new(t, code.as_bytes().to_vec(), bids, asks).unwrap()
}

#[test]
fn find_subslice_first_occurrence() {
    assert_eq!(find_subslice(b"xxB6034yyB6034", b"B6034"), Some(2));
    assert_eq!(find_subslice(b"B6034", b"B6034"), Some(0));
    assert_eq!(find_subslice(b"B603", b"B6034"), None);
    assert_eq!(find_subslice(b"", b"B6034"), None);
    assert_eq!(find_subslice(b"aaab", b"ab"), Some(2));
}

#[test]
fn split_once_subslice_parts() {
    let (before, after) = split_once_subslice(b"headB6034tail", b"B6034").unwrap();
    assert_eq!(before, b"head");
    assert_eq!(after, b"tail");
    assert!(split_once_subslice(b"no marker here", b"B6034").is_none());
}

#[test]
fn parse_time_start_of_hour() {
    assert_eq!(parse_time(b"09000000"), Some(time(9, 0, 0, 0)));
}

#[test]
fn parse_time_last_hundredth() {
    assert_eq!(parse_time(b"23595999"), Some(time(23, 59, 59, 990_000)));
}

#[test]
fn parse_time_rejects_out_of_range() {
    assert_eq!(parse_time(b"24000000"), None);
    assert_eq!(parse_time(b"12600000"), None);
    assert_eq!(parse_time(b"12006000"), None);
    assert_eq!(parse_time(b"1200a000"), None);
}

#[test]
fn time_text_and_micros() {
    let t = time(9, 30, 12, 340_000);
    let mut out = Vec::new();
    t.push_text(&mut out);
    assert_eq!(out, b"09:30:12.340000");
    assert_eq!(t.micros_of_day(), ((9 * 60 + 30) * 60 + 12) * 1_000_000 + 340_000);
}

#[test]
fn decode_full_payload() {
    let q = decode_payload(&payload("005930      ", "09301234")).unwrap();
    assert_eq!(q.accept_time, time(9, 30, 12, 340_000));
    assert_eq!(q.issue_code(), b"005930      ");
    assert_eq!(q.bids(), &[(10, 100), (11, 101), (12, 102), (13, 103), (14, 104)]);
    assert_eq!(q.asks(), &[(20, 200), (21, 201), (22, 202), (23, 203), (24, 204)]);
}

#[test]
fn decode_twice_gives_same_quote() {
    let p = payload("005930      ", "09301234");
    let a = decode_payload(&p).unwrap();
    let b = decode_payload(&p).unwrap();
    assert_eq!(render_quote(&a), render_quote(&b));
    assert_eq!(a.bids(), b.bids());
    assert_eq!(a.asks(), b.asks());
}

#[test]
fn decode_errors() {
    let good = payload("005930      ", "09301234");
    assert!(matches!(decode_payload(&good[..209]), Err(DecodeError::MissingSentinel)));
    let mut p = good.clone();
    p[209] = 0;
    assert!(matches!(decode_payload(&p), Err(DecodeError::MissingSentinel)));
    let p = payload("005930      ", "25000000");
    assert!(matches!(decode_payload(&p), Err(DecodeError::InvalidTime)));
    let mut p = good.clone();
    p[0] = 0xC3;
    assert!(matches!(decode_payload(&p), Err(DecodeError::InvalidIssueCode)));
    let mut p = good.clone();
    p[96] = b'x';
    assert!(matches!(decode_payload(&p), Err(DecodeError::InvalidNumber)));
}

#[test]
fn decode_accepts_utf8_issue_code() {
    let mut p = payload("005930      ", "09301234");
    p[10] = 0xC3;
    p[11] = 0xA9;
    let q = decode_payload(&p).unwrap();
    assert_eq!(&q.issue_code()[10..], &[0xC3, 0xA9]);
}

#[test]
fn parse_packet_without_marker() {
    assert!(matches!(parse_packet(b"plain frame without the marker"), Ok(None)));
    assert!(matches!(parse_packet(b""), Ok(None)));
}

#[test]
fn render_reverses_bids_only() {
    let q = synthetic("ABC", time(1, 2, 3, 4));
    let line = String::from_utf8(render_quote(&q)).unwrap();
    assert_eq!(
        line,
        "01:02:03.000004 ABC 5@15 4@14 3@13 2@12 1@11 6@16 7@17 8@18 9@19 10@20\n"
    );
}

#[test]
fn reorder_keeps_ties_in_arrival_order() {
    let t = time(10, 0, 0, 0);
    let quotes = vec![
        synthetic("LATE", time(11, 0, 0, 0)),
        synthetic("FIRST", t),
        synthetic("SECOND", t),
        synthetic("EARLY", time(9, 0, 0, 0)),
    ];
    let sorted = sort_by_accept_time(quotes);
    let codes: Vec<&[u8]> = sorted.iter().map(|q| q.issue_code()).collect();
    assert_eq!(codes, vec![&b"EARLY"[..], b"FIRST", b"SECOND", b"LATE"]);
}

#[test]
fn arrival_policy_keeps_order() {
    let quotes = vec![synthetic("B", time(11, 0, 0, 0)), synthetic("A", time(9, 0, 0, 0))];
    let kept = order_quotes(quotes, OrderPolicy::Arrival);
    assert_eq!(kept[0].issue_code(), b"B");
    assert_eq!(kept[1].issue_code(), b"A");
}

#[test]
fn quote_new_checks_its_parts() {
    let bids = vec![(1, 1); 5];
    let asks = vec![(1, 1); 4];
    assert!(Quote::new(time(1, 0, 0, 0), vec![], bids.clone(), asks).is_none());
    assert!(Quote::new(time(24, 0, 0, 0), vec![], bids.clone(), bids.clone()).is_none());
    assert!(Quote::new(time(23, 0, 0, 0), vec![], bids.clone(), bids).is_some());
}

#[test]
fn end_to_end_single_frame() {
    let mut digits = payload("005930      ", "09301234");
    for i in 0..5 {
        put(&mut digits, 24 + 12 * i, "00000");
        put(&mut digits, 29 + 12 * i, "0000000");
        put(&mut digits, 91 + 12 * i, "00000");
        put(&mut digits, 96 + 12 * i, "0000000");
    }
    let frames = vec![b"ethernet header".to_vec(), frame(b"ip/udp header bytes", &digits)];
    let quotes = decode_capture(&frames, OrderPolicy::Arrival).unwrap();
    assert_eq!(quotes.len(), 1);
    let line = String::from_utf8(render_quote(&quotes[0])).unwrap();
    assert!(line.starts_with("09:30:12.340000 005930"));
}

#[test]
fn capture_without_marker_is_empty() {
    let frames = vec![b"one".to_vec(), b"two B603 4".to_vec(), Vec::new()];
    assert!(decode_capture(&frames, OrderPolicy::Arrival).unwrap().is_empty());
    assert!(decode_capture(&frames, OrderPolicy::AcceptTime).unwrap().is_empty());
}

#[test]
fn capture_sorted_by_accept_time() {
    let frames = vec![
        frame(b"", &payload("LATER       ", "10000000")),
        frame(b"xx", &payload("EARLIER     ", "09000000")),
    ];
    let quotes = decode_capture(&frames, OrderPolicy::AcceptTime).unwrap();
    assert_eq!(quotes[0].issue_code(), b"EARLIER     ");
    assert_eq!(quotes[1].issue_code(), b"LATER       ");
}

#[test]
fn capture_stops_at_bad_payload() {
    let mut bad = payload("005930      ", "09301234");
    bad[209] = 0;
    let frames = vec![frame(b"", &payload("005930      ", "09301234")), frame(b"", &bad)];
    assert!(matches!(decode_capture(&frames, OrderPolicy::Arrival), Err(DecodeError::MissingSentinel)));
}

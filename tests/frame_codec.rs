use rabbit_warren::error::RabbitError;
use rabbit_warren::frame::Frame;
use rabbit_warren::num::{i64_text, parse_i64, parse_u16, parse_u32, parse_u64, u64_text};

fn header_of(f: &Frame, key: &str) -> Option<String> {
    f.header(key).cloned()
}

#[test]
fn parse_reads_start_line_headers_and_body() {
    let f = Frame::parse("HELLO a b\r\nKey: Value\r\n\r\nno colon here\r\n  Spaced :  x y  \r\nEnd:\r\nbody\r\nmore").unwrap();
    assert_eq!(f.verb, "HELLO");
    assert_eq!(f.args, vec!["a".to_string(), "b".to_string()]);
    assert_eq!(header_of(&f, "Key"), Some("Value".to_string()));
    assert_eq!(header_of(&f, "Spaced"), Some("x y".to_string()));
    assert_eq!(header_of(&f, "no colon here"), None);
    assert_eq!(f.headers.len(), 2);
    assert_eq!(f.body, Some("body\r\nmore".to_string()));
}

#[test]
fn parse_without_body_after_end() {
    let f = Frame::parse("ACK\r\nLane: 3\r\nEnd:").unwrap();
    assert_eq!(f.body, None);
    let g = Frame::parse("ACK\r\nLane: 3\r\nEnd:\r\n").unwrap();
    assert_eq!(g.body, Some(String::new()));
    let h = Frame::parse("ACK\r\nLane: 3").unwrap();
    assert_eq!(h.body, None);
    assert_eq!(header_of(&h, "Lane"), Some("3".to_string()));
}

#[test]
fn parse_duplicate_keys_keep_last() {
    let f = Frame::parse("X\r\nA: 1\r\nA: 2\r\nEnd:\r\n").unwrap();
    assert_eq!(header_of(&f, "A"), Some("2".to_string()));
    assert_eq!(f.headers.len(), 1);
}

#[test]
fn parse_rejects_missing_verb() {
    assert_eq!(Frame::parse("").unwrap_err(), RabbitError::MalformedFrame);
    assert_eq!(Frame::parse("   \r\nKey: v\r\nEnd:\r\n").unwrap_err(), RabbitError::MalformedFrame);
}

#[test]
fn serialise_writes_wire_format() {
    let mut f = Frame::new("EVENT");
    f.args.push("x".to_string());
    f.set_header("Lane", "2");
    f.set_header("Seq", "9");
    f.body = Some("payload".to_string());
    assert_eq!(f.to_string(), "EVENT x\r\nLane: 2\r\nSeq: 9\r\nEnd:\r\npayload");
    f.set_header("Lane", "4");
    assert_eq!(f.to_string(), "EVENT x\r\nLane: 4\r\nSeq: 9\r\nEnd:\r\npayload");
}

#[test]
fn round_trip_keeps_frame() {
    let mut f = Frame::new("FETCH");
    f.args.push("/q/news".to_string());
    f.set_header("Burrow-ID", "ed25519:BBB");
    f.set_header("Session-Token", "t-1");
    f.body = Some("line one\r\nline two".to_string());
    let g = Frame::parse(&f.to_string()).unwrap();
    assert_eq!(g.verb, f.verb);
    assert_eq!(g.args, f.args);
    assert_eq!(header_of(&g, "Burrow-ID"), Some("ed25519:BBB".to_string()));
    assert_eq!(header_of(&g, "Session-Token"), Some("t-1".to_string()));
    assert_eq!(g.body, f.body);
    assert_eq!(g.to_string(), f.to_string());
}

#[test]
fn round_trip_missing_body_reads_empty() {
    let f = Frame::new("PING");
    let g = Frame::parse(&f.to_string()).unwrap();
    assert_eq!(g.verb, "PING");
    assert!(g.args.is_empty());
    assert!(g.headers.is_empty());
    assert_eq!(g.body, Some(String::new()));
}

#[test]
fn status_verb_round_trips() {
    let mut f = Frame::new("200 HELLO");
    f.set_header("Session-Token", "t");
    let g = Frame::parse(&f.to_string()).unwrap();
    assert_eq!(g.verb, "200 HELLO");
    assert!(g.args.is_empty());
    assert_eq!(g.header("Session-Token"), Some(&"t".to_string()));
    assert_eq!(g.to_string(), f.to_string());
    let h = Frame::parse("404 Not Found here\r\nEnd:\r\n").unwrap();
    assert_eq!(h.verb, "404 Not");
    assert_eq!(h.args, vec!["Found".to_string(), "here".to_string()]);
    let code_only = Frame::parse("200\r\nEnd:\r\n").unwrap();
    assert_eq!(code_only.verb, "200");
    assert!(code_only.args.is_empty());
}

#[test]
fn decimal_numbers() {
    assert_eq!(u64_text(0), "0");
    assert_eq!(u64_text(1234567890), "1234567890");
    assert_eq!(u64_text(u64::MAX), "18446744073709551615");
    assert_eq!(i64_text(-42), "-42");
    assert_eq!(i64_text(i64::MIN), "-9223372036854775808");
    assert_eq!(parse_u64("+5"), Some(5));
    assert_eq!(parse_u64("18446744073709551615"), Some(u64::MAX));
    assert_eq!(parse_u64("18446744073709551616"), None);
    assert_eq!(parse_u64(""), None);
    assert_eq!(parse_u64("+"), None);
    assert_eq!(parse_u64("-1"), None);
    assert_eq!(parse_u64(" 1"), None);
    assert_eq!(parse_u16("65535"), Some(65535));
    assert_eq!(parse_u16("65536"), None);
    assert_eq!(parse_u32("4294967295"), Some(u32::MAX));
    assert_eq!(parse_i64("-9223372036854775808"), Some(i64::MIN));
    assert_eq!(parse_i64("9223372036854775808"), None);
    assert_eq!(parse_i64("-"), None);
    assert_eq!(parse_i64("+600"), Some(600));
}

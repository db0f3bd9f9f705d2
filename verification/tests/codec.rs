use miniredis::message::{Message, ProtocolError};

fn bulk(s: &str) -> Message {
    Message::bulk_string(s.as_bytes().to_vec())
}

fn simple(s: &str) -> Message {
    Message::simple_string(s.as_bytes().to_vec())
}

fn parse_all(bytes: &[u8]) -> Result<(Message, usize), ProtocolError> {
    Message::deserialize(&bytes.to_vec(), 0)
}

#[test]
fn serialize_simple_string() {
    assert_eq!(simple("OK").serialize(), b"+OK\r\n".to_vec());
}

#[test]
fn serialize_bulk_string() {
    assert_eq!(bulk("hey").serialize(), b"$3\r\nhey\r\n".to_vec());
}

#[test]
fn serialize_empty_bulk_string() {
    assert_eq!(bulk("").serialize(), b"$0\r\n\r\n".to_vec());
}

#[test]
fn serialize_null_bulk_string() {
    assert_eq!(Message::NullBulkString.serialize(), b"$-1\r\n".to_vec());
}

#[test]
fn serialize_array() {
    let m = Message::array(vec![bulk("ECHO"), bulk("hey")]);
    assert_eq!(m.serialize(), b"*2\r\n$4\r\nECHO\r\n$3\r\nhey\r\n".to_vec());
}

#[test]
fn deserialize_simple_string() {
    let (m, p) = parse_all(b"+PONG\r\n").unwrap();
    assert_eq!(m, simple("PONG"));
    assert_eq!(p, 7);
}

#[test]
fn deserialize_bulk_string() {
    let (m, p) = parse_all(b"$3\r\nbar\r\n").unwrap();
    assert_eq!(m, bulk("bar"));
    assert_eq!(p, 9);
}

#[test]
fn deserialize_null_bulk_string() {
    let (m, p) = parse_all(b"$-1\r\n").unwrap();
    assert_eq!(m, Message::NullBulkString);
    assert_eq!(p, 5);
}

#[test]
fn deserialize_array() {
    let (m, p) = parse_all(b"*2\r\n$4\r\nECHO\r\n$3\r\nhey\r\n").unwrap();
    assert_eq!(m, Message::array(vec![bulk("ECHO"), bulk("hey")]));
    assert_eq!(p, 23);
}

#[test]
fn deserialize_stops_after_one_value() {
    let bytes = b"+one\r\n+two\r\n".to_vec();
    let (m, p) = Message::deserialize(&bytes, 0).unwrap();
    assert_eq!(m, simple("one"));
    assert_eq!(p, 6);
    let (m2, p2) = Message::deserialize(&bytes, p).unwrap();
    assert_eq!(m2, simple("two"));
    assert_eq!(p2, 12);
}

#[test]
fn round_trip_nested_array() {
    let m = Message::array(vec![
        bulk("SET"),
        bulk(""),
        Message::NullBulkString,
        simple("status"),
        Message::array(vec![bulk("inner"), simple("x")]),
    ]);
    let bytes = m.serialize();
    let (back, used) = Message::deserialize(&bytes, 0).unwrap();
    assert_eq!(back, m);
    assert_eq!(used, bytes.len());
}

#[test]
fn round_trip_empty_array() {
    let m = Message::array(vec![]);
    let bytes = m.serialize();
    assert_eq!(bytes, b"*0\r\n".to_vec());
    let (back, used) = Message::deserialize(&bytes, 0).unwrap();
    assert_eq!(back, m);
    assert_eq!(used, 4);
}

#[test]
fn round_trip_non_ascii_text() {
    let m = bulk("héllo wörld");
    let bytes = m.serialize();
    let (back, used) = Message::deserialize(&bytes, 0).unwrap();
    assert_eq!(back, m);
    assert_eq!(used, bytes.len());
}

#[test]
fn deserialize_rejects_unknown_marker() {
    assert!(parse_all(b"!oops\r\n").is_err());
}

#[test]
fn deserialize_rejects_empty_input() {
    assert!(parse_all(b"").is_err());
}

#[test]
fn deserialize_rejects_truncated_bulk() {
    assert!(parse_all(b"$10\r\nshort\r\n").is_err());
}

#[test]
fn deserialize_rejects_bulk_without_terminator() {
    assert!(parse_all(b"$3\r\nbarXY").is_err());
}

#[test]
fn deserialize_rejects_non_numeric_size() {
    assert!(parse_all(b"$x3\r\nbar\r\n").is_err());
}

#[test]
fn deserialize_rejects_missing_size() {
    assert!(parse_all(b"$\r\nbar\r\n").is_err());
}

#[test]
fn deserialize_rejects_oversized_length_field() {
    assert!(parse_all(b"$99999999999999999999999999\r\nbar\r\n").is_err());
}

#[test]
fn deserialize_rejects_invalid_text_payload() {
    assert!(parse_all(b"$2\r\n\xff\xfe\r\n").is_err());
}

#[test]
fn deserialize_rejects_overlong_utf8_payload() {
    // 0xC0 0xAF is an overlong encoding of '/';
    assert!(parse_all(b"$2\r\n\xc0\xaf\r\n").is_err());
}

#[test]
fn deserialize_rejects_simple_string_without_crlf() {
    assert!(parse_all(b"+PONG").is_err());
}

#[test]
fn deserialize_rejects_array_with_bad_element() {
    assert!(parse_all(b"*2\r\n$3\r\nfoo\r\n!bad\r\n").is_err());
}

#[test]
fn deserialize_rejects_array_count_beyond_input() {
    assert!(parse_all(b"*3\r\n$3\r\nfoo\r\n").is_err());
}

#[test]
fn simple_string_keeps_lone_cr_and_lf() {
    let m = simple("a\rb");
    let bytes = m.serialize();
    let (back, used) = Message::deserialize(&bytes, 0).unwrap();
    assert_eq!(back, m);
    assert_eq!(used, bytes.len());
}

#[test]
fn parse_size_reads_digits_and_terminator() {
    let bytes = b"123\r\nrest".to_vec();
    let (v, p) = miniredis::message::parse_size(&bytes, 0).unwrap();
    assert_eq!(v, 123);
    assert_eq!(p, 5);
}

#[test]
fn parse_size_rejects_missing_digits() {
    let bytes = b"\r\n".to_vec();
    assert!(miniredis::message::parse_size(&bytes, 0).is_err());
}

#[test]
fn ok_message_is_plus_ok() {
    assert_eq!(Message::ok_message().serialize(), b"+OK\r\n".to_vec());
}

#[test]
fn null_bulk_string_consumes_its_whole_sentinel_inside_arrays() {
    let (m, p) = parse_all(b"*2\r\n$-1\r\n$1\r\na\r\n").unwrap();
    assert_eq!(
        m,
        Message::array(vec![Message::NullBulkString, bulk("a")])
    );
    assert_eq!(p, 16);
}

#[test]
fn deserialize_rejects_bare_minus_length() {
    assert!(parse_all(b"$-\r\n").is_err());
}

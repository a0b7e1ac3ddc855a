use sood::address::{Ipv4Address, SocketAddress};
use sood::properties::Properties;
use sood::protocol::{parse_message, serialize_message, serialize_query, serialize_response, MessageType};

fn addr(a: u8, b: u8, c: u8, d: u8, port: u16) -> SocketAddress {
    SocketAddress::V4 { ip: Ipv4Address::new(a, b, c, d), port }
}

fn header(t: u8) -> Vec<u8> {
    let mut buf = Vec::new();
    buf.extend_from_slice(b"SOOD");
    buf.push(2);
    buf.push(t);
    buf
}

fn push_prop(buf: &mut Vec<u8>, key: &[u8], value: Option<&[u8]>) {
    buf.push(key.len() as u8);
    buf.extend_from_slice(key);
    match value {
        None => buf.extend_from_slice(&0xFFFFu16.to_be_bytes()),
        Some(v) => {
            buf.extend_from_slice(&(v.len() as u16).to_be_bytes());
            buf.extend_from_slice(v);
        }
    }
}

#[test]
fn test_parse_query() {
    // Create a simple query message
    let mut buf = Vec::new();
    buf.extend_from_slice(b"SOOD");
    buf.push(2); // version
    buf.push(b'Q'); // type

    // Add property: "key" = "value"
    buf.push(3); // key length
    buf.extend_from_slice(b"key");
    buf.extend_from_slice(&5u16.to_be_bytes()); // value length
    buf.extend_from_slice(b"value");

    let from = addr(192, 168, 1, 100, 9003);
    let msg = parse_message(&buf, from).unwrap();

    assert_eq!(msg.msg_type, MessageType::Query);
    assert_eq!(msg.properties.get("key"), Some(&Some("value".to_string())));
}

#[test]
fn test_parse_null_value() {
    let mut buf = Vec::new();
    buf.extend_from_slice(b"SOOD");
    buf.push(2);
    buf.push(b'Q');

    // Add property: "key" = null
    buf.push(3);
    buf.extend_from_slice(b"key");
    buf.extend_from_slice(&0xFFFFu16.to_be_bytes());

    let from = addr(192, 168, 1, 100, 9003);
    let msg = parse_message(&buf, from).unwrap();

    assert_eq!(msg.properties.get("key"), Some(&None));
}

#[test]
fn test_serialize_query() {
    let mut props = Properties::new();
    props.insert("service".to_string(), Some("roon".to_string()));

    let buf = serialize_query(&mut props);

    // Verify header
    assert_eq!(&buf[0..4], b"SOOD");
    assert_eq!(buf[4], 2);
    assert_eq!(buf[5], b'Q');

    // Verify it can be parsed back
    let from = addr(192, 168, 1, 100, 9003);
    let msg = parse_message(&buf, from).unwrap();

    assert_eq!(msg.msg_type, MessageType::Query);
    assert_eq!(msg.properties.get("service"), Some(&Some("roon".to_string())));
    assert!(msg.properties.contains_key("_tid")); // Auto-generated
}

#[test]
fn message_type_bytes() {
    assert_eq!(MessageType::Query.as_byte(), b'Q');
    assert_eq!(MessageType::Response.as_byte(), b'R');
    assert_eq!(MessageType::from_byte(b'Q'), Some(MessageType::Query));
    assert_eq!(MessageType::from_byte(b'R'), Some(MessageType::Response));
    assert_eq!(MessageType::from_byte(b'X'), None);
}

#[test]
fn parse_response_with_empty_and_null_values() {
    let mut buf = header(b'R');
    push_prop(&mut buf, b"a", Some(b""));
    push_prop(&mut buf, b"b", None);
    let from = addr(10, 0, 0, 1, 9003);
    let msg = parse_message(&buf, from).unwrap();
    assert_eq!(msg.msg_type, MessageType::Response);
    assert_eq!(msg.from, from);
    assert_eq!(msg.properties.len(), 2);
    assert_eq!(msg.properties.get("a"), Some(&Some(String::new())));
    assert_eq!(msg.properties.get("b"), Some(&None));
    assert_eq!(msg.properties.get("c"), None);
}

#[test]
fn parse_header_only() {
    let buf = header(b'Q');
    let msg = parse_message(&buf, addr(1, 2, 3, 4, 5)).unwrap();
    assert!(msg.properties.is_empty());
}

#[test]
fn parse_rejects_malformed_packets() {
    let from = addr(192, 168, 1, 100, 9003);
    // too short
    assert!(parse_message(b"SOOD\x02", from).is_none());
    // wrong header
    assert!(parse_message(b"SOOX\x02Q", from).is_none());
    // wrong version
    assert!(parse_message(b"SOOD\x01Q", from).is_none());
    // unknown type
    assert!(parse_message(b"SOOD\x02X", from).is_none());
    // zero key length
    let mut buf = header(b'Q');
    buf.push(0);
    buf.extend_from_slice(&[0, 0]);
    assert!(parse_message(&buf, from).is_none());
    // key runs past the end
    let mut buf = header(b'Q');
    buf.push(5);
    buf.extend_from_slice(b"ab");
    assert!(parse_message(&buf, from).is_none());
    // value length missing
    let mut buf = header(b'Q');
    buf.push(2);
    buf.extend_from_slice(b"ab");
    buf.push(0);
    assert!(parse_message(&buf, from).is_none());
    // value runs past the end
    let mut buf = header(b'Q');
    buf.push(2);
    buf.extend_from_slice(b"ab");
    buf.extend_from_slice(&10u16.to_be_bytes());
    buf.extend_from_slice(b"abc");
    assert!(parse_message(&buf, from).is_none());
    // key not UTF-8
    let mut buf = header(b'Q');
    push_prop(&mut buf, &[0xff, 0xfe], Some(b"v"));
    assert!(parse_message(&buf, from).is_none());
    // value not UTF-8
    let mut buf = header(b'Q');
    push_prop(&mut buf, b"k", Some(&[0xc3]));
    assert!(parse_message(&buf, from).is_none());
}

#[test]
fn parse_later_value_replaces_earlier() {
    let mut buf = header(b'Q');
    push_prop(&mut buf, b"x", Some(b"1"));
    push_prop(&mut buf, b"y", Some(b"2"));
    push_prop(&mut buf, b"x", Some(b"3"));
    let msg = parse_message(&buf, addr(1, 1, 1, 1, 1)).unwrap();
    assert_eq!(msg.properties.len(), 2);
    assert_eq!(msg.properties.get("x"), Some(&Some("3".to_string())));
    let (k0, v0) = msg.properties.entry(0);
    assert_eq!(k0, "x");
    assert_eq!(v0, &Some("3".to_string()));
    let (k1, _) = msg.properties.entry(1);
    assert_eq!(k1, "y");
}

#[test]
fn parse_utf8_properties() {
    let mut buf = header(b'R');
    push_prop(&mut buf, "naïve".as_bytes(), Some("日本".as_bytes()));
    let msg = parse_message(&buf, addr(1, 1, 1, 1, 1)).unwrap();
    assert_eq!(msg.properties.get("naïve"), Some(&Some("日本".to_string())));
}

#[test]
fn parse_reply_address_and_port() {
    let mut buf = header(b'R');
    push_prop(&mut buf, b"_replyaddr", Some(b"10.0.0.7"));
    push_prop(&mut buf, b"_replyport", Some(b"9100"));
    push_prop(&mut buf, b"name", Some(b"core"));
    let msg = parse_message(&buf, addr(192, 168, 1, 100, 9003)).unwrap();
    assert_eq!(msg.from, addr(10, 0, 0, 7, 9100));
    assert!(!msg.properties.contains_key("_replyaddr"));
    assert!(!msg.properties.contains_key("_replyport"));
    assert_eq!(msg.properties.len(), 1);
}

#[test]
fn parse_reply_values_that_do_not_read_are_ignored() {
    let from = addr(192, 168, 1, 100, 9003);
    for bad_addr in [&b"10.0.0"[..], b"10.0.0.256", b"10.0.0.07", b"10..0.1", b"a.b.c.d", b"1.2.3.4.5", b""] {
        let mut buf = header(b'R');
        push_prop(&mut buf, b"_replyaddr", Some(bad_addr));
        let msg = parse_message(&buf, from).unwrap();
        assert_eq!(msg.from, from);
        assert!(msg.properties.is_empty());
    }
    for bad_port in [&b"-1"[..], b"65536", b"+", b"", b"80a", b" 80"] {
        let mut buf = header(b'R');
        push_prop(&mut buf, b"_replyport", Some(bad_port));
        let msg = parse_message(&buf, from).unwrap();
        assert_eq!(msg.from, from);
        assert!(msg.properties.is_empty());
    }
    // a null reply value is removed too
    let mut buf = header(b'R');
    push_prop(&mut buf, b"_replyaddr", None);
    let msg = parse_message(&buf, from).unwrap();
    assert_eq!(msg.from, from);
    assert!(msg.properties.is_empty());
}

#[test]
fn parse_reply_values_std_accepts() {
    let from = addr(192, 168, 1, 100, 9003);
    let mut buf = header(b'R');
    push_prop(&mut buf, b"_replyaddr", Some(b"0.255.10.0"));
    push_prop(&mut buf, b"_replyport", Some(b"+00080"));
    let msg = parse_message(&buf, from).unwrap();
    assert_eq!(msg.from, addr(0, 255, 10, 0, 80));
}

#[test]
fn parse_reply_address_turns_ipv6_source_into_ipv4() {
    let from = SocketAddress::V6 { ip: 1, port: 4000, flowinfo: 7, scope_id: 3 };
    let mut buf = header(b'R');
    push_prop(&mut buf, b"_replyaddr", Some(b"127.0.0.1"));
    let msg = parse_message(&buf, from).unwrap();
    assert_eq!(msg.from, addr(127, 0, 0, 1, 4000));

    let mut buf = header(b'R');
    push_prop(&mut buf, b"_replyport", Some(b"65535"));
    let msg = parse_message(&buf, from).unwrap();
    assert_eq!(msg.from, SocketAddress::V6 { ip: 1, port: 65535, flowinfo: 7, scope_id: 3 });
}

#[test]
fn serialize_response_exact_bytes() {
    let mut props = Properties::new();
    props.insert("k".to_string(), Some("vv".to_string()));
    props.insert("n".to_string(), None);
    let buf = serialize_response(&mut props);
    let mut expected = header(b'R');
    expected.extend_from_slice(&[1, b'k', 0, 2, b'v', b'v', 1, b'n', 0xff, 0xff]);
    assert_eq!(buf, expected);
    assert_eq!(props.len(), 2);
    assert!(!props.contains_key("_tid"));
}

#[test]
fn serialize_truncates_long_keys_and_values() {
    let mut props = Properties::new();
    let key = "k".repeat(300);
    let value = "v".repeat(70000);
    props.insert(key, Some(value));
    let buf = serialize_message(MessageType::Response, &props);
    assert_eq!(buf[6], 255);
    assert_eq!(&buf[7 + 255..7 + 257], &65534u16.to_be_bytes());
    assert_eq!(buf.len(), 6 + 1 + 255 + 2 + 65534);
    let msg = parse_message(&buf, addr(1, 1, 1, 1, 1)).unwrap();
    assert_eq!(msg.properties.get(&"k".repeat(255)), Some(&Some("v".repeat(65534))));
}

#[test]
fn serialize_parse_roundtrip_keeps_order_and_values() {
    let mut props = Properties::new();
    props.insert("b".to_string(), Some("2".to_string()));
    props.insert("a".to_string(), None);
    props.insert("c".to_string(), Some("ü".to_string()));
    let from = addr(192, 168, 0, 2, 9003);
    for t in [MessageType::Query, MessageType::Response] {
        let buf = serialize_message(t, &props);
        let msg = parse_message(&buf, from).unwrap();
        assert_eq!(msg.msg_type, t);
        assert_eq!(msg.from, from);
        assert_eq!(msg.properties.len(), 3);
        for i in 0..3 {
            assert_eq!(msg.properties.entry(i), props.entry(i));
        }
    }
}

#[test]
fn serialize_query_keeps_a_given_transaction_id() {
    let mut props = Properties::new();
    props.insert("_tid".to_string(), Some("my-id".to_string()));
    let buf = serialize_query(&mut props);
    assert_eq!(props.len(), 1);
    assert_eq!(props.get("_tid"), Some(&Some("my-id".to_string())));
    let mut expected = header(b'Q');
    push_prop(&mut expected, b"_tid", Some(b"my-id"));
    assert_eq!(buf, expected);
}

#[test]
fn serialize_query_generates_hyphenated_uuid() {
    let mut props = Properties::new();
    let _ = serialize_query(&mut props);
    let tid = props.get("_tid").unwrap().clone().unwrap();
    assert_eq!(tid.len(), 36);
    for (i, c) in tid.chars().enumerate() {
        if i == 8 || i == 13 || i == 18 || i == 23 {
            assert_eq!(c, '-');
        } else {
            assert!(c.is_ascii_hexdigit() && !c.is_ascii_uppercase());
        }
    }
    assert_eq!(tid.chars().nth(14), Some('4'));
    assert!(matches!(tid.chars().nth(19), Some('8' | '9' | 'a' | 'b')));
    let mut other = Properties::new();
    let _ = serialize_query(&mut other);
    assert_ne!(other.get("_tid"), props.get("_tid"));
}

#[test]
fn properties_insert_remove() {
    let mut props = Properties::new();
    assert_eq!(props.insert("a".to_string(), Some("1".to_string())), None);
    assert_eq!(props.insert("b".to_string(), None), None);
    assert_eq!(props.insert("a".to_string(), Some("2".to_string())), Some(Some("1".to_string())));
    assert_eq!(props.len(), 2);
    assert_eq!(props.entry(0), (&"a".to_string(), &Some("2".to_string())));
    assert_eq!(props.remove("a"), Some(Some("2".to_string())));
    assert_eq!(props.remove("a"), None);
    assert_eq!(props.len(), 1);
    let copy = props.clone();
    assert_eq!(copy.entry(0), props.entry(0));
}

use sood::address::{Ipv4Address, SocketAddress};
use sood::discovery::{service_query, DeviceHistory, QueryError, Sood, SoodBuilder};
use sood::network::NetworkInterface;
use sood::properties::Properties;
use sood::protocol::{parse_message, serialize_message, Message, MessageType};
use sood::service_ids;

fn addr(d: u8) -> SocketAddress {
    SocketAddress::V4 { ip: Ipv4Address::new(192, 168, 1, d), port: 9003 }
}

fn message(t: MessageType, from: SocketAddress, props: &[(&str, Option<&str>)]) -> Message {
    let mut properties = Properties::new();
    for (k, v) in props {
        properties.insert(k.to_string(), v.map(|s| s.to_string()));
    }
    Message { from, msg_type: t, properties }
}

#[test]
fn test_create_sood() {
    let sood = Sood::new();
    assert!(sood.is_ok());
}

#[test]
fn test_builder() {
    let sood = SoodBuilder::new().build();
    assert!(sood.is_ok());
}

#[test]
fn new_state_is_empty() {
    let sood = Sood::new().unwrap();
    assert!(sood.discovered_devices().is_empty());
    assert!(sood.needs_interface("eth0"));
    let d = Sood::default();
    assert!(d.discovered_devices().is_empty());
    let _ = SoodBuilder::default().build().unwrap();
}

#[test]
fn devices_are_deduplicated() {
    let mut sood = Sood::new().unwrap();
    let m = message(MessageType::Response, addr(10), &[("service_id", Some(service_ids::ROON_API)), ("unique_id", Some("abc"))]);
    let d1 = sood.handle_message(&m);
    assert!(d1.publish);
    let dev = d1.device.unwrap();
    assert_eq!(dev.service_id, service_ids::ROON_API);
    assert_eq!(dev.unique_id, "abc");
    assert_eq!(dev.from, addr(10));
    assert_eq!(dev.properties.len(), 2);
    let m2 = message(MessageType::Query, addr(11), &[("service_id", Some(service_ids::ROON_API)), ("unique_id", Some("abc")), ("x", None)]);
    let d2 = sood.handle_message(&m2);
    assert!(d2.device.is_none());
    assert!(!d2.publish);
    assert_eq!(d2.query, None);
    let m3 = message(MessageType::Query, addr(12), &[("service_id", Some(service_ids::ROON_API)), ("unique_id", Some("def"))]);
    assert!(sood.handle_message(&m3).device.is_some());
    let all = sood.discovered_devices();
    assert_eq!(all.len(), 2);
    assert_eq!(all[0].unique_id, "abc");
    assert_eq!(all[1].unique_id, "def");
    assert_eq!(all[1].from, addr(12));
}

#[test]
fn roon_os_devices_use_serial_number() {
    let mut sood = Sood::new().unwrap();
    let m = message(MessageType::Query, addr(20), &[("service_id", Some(service_ids::ROON_OS)), ("unique_id", Some("u1"))]);
    assert!(sood.handle_message(&m).device.is_none());
    let m = message(MessageType::Query, addr(20), &[("service_id", Some(service_ids::ROON_OS)), ("serial_number", Some("SN1"))]);
    let dev = sood.handle_message(&m).device.unwrap();
    assert_eq!(dev.unique_id, "SN1");
    let m = message(MessageType::Query, addr(21), &[("service_id", Some(service_ids::RAAT_ENDPOINT)), ("serial_number", Some("SN2"))]);
    assert!(sood.handle_message(&m).device.is_none());
}

#[test]
fn announcements_need_both_ids_non_null() {
    let mut sood = Sood::new().unwrap();
    let m = message(MessageType::Response, addr(30), &[("service_id", None), ("unique_id", Some("a"))]);
    let d = sood.handle_message(&m);
    assert!(d.device.is_none());
    assert!(d.publish);
    let m = message(MessageType::Response, addr(30), &[("service_id", Some(service_ids::ROON_SERVER)), ("unique_id", None)]);
    assert!(sood.handle_message(&m).device.is_none());
    assert!(sood.discovered_devices().is_empty());
}

#[test]
fn responses_reach_open_queries_only() {
    let mut sood = Sood::new().unwrap();
    let mut props = Properties::new();
    props.insert("query_service_id".to_string(), Some(service_ids::ROON_API.to_string()));
    let q = sood.prepare_query(props).unwrap();
    let sent = parse_message(&q.packet, addr(1)).unwrap();
    assert_eq!(sent.msg_type, MessageType::Query);
    let tid = sent.properties.get("_tid").unwrap().clone().unwrap();
    assert_eq!(tid, uuid::Uuid::from_u128(q.transaction_id).to_string());
    assert_eq!(sent.properties.get("query_service_id"), Some(&Some(service_ids::ROON_API.to_string())));

    let reply = message(MessageType::Response, addr(2), &[("_tid", Some(&tid)), ("name", Some("core"))]);
    let d = sood.handle_message(&reply);
    assert_eq!(d.query, Some(q.transaction_id));
    assert!(d.publish);

    // the reflection of our own query goes nowhere
    let d = sood.handle_message(&sent);
    assert_eq!(d.query, None);
    assert!(!d.publish);

    sood.expire_query(q.transaction_id);
    let d = sood.handle_message(&reply);
    assert_eq!(d.query, None);
    assert!(d.publish);
}

#[test]
fn prepare_query_with_given_transaction_id() {
    let mut sood = Sood::new().unwrap();
    let mut props = Properties::new();
    props.insert("_tid".to_string(), Some("550E8400-e29b-41d4-a716-446655440000".to_string()));
    let q = sood.prepare_query(props).unwrap();
    assert_eq!(q.transaction_id, 0x550e8400_e29b_41d4_a716_446655440000u128);
    let mut expected = Properties::new();
    expected.insert("_tid".to_string(), Some("550E8400-e29b-41d4-a716-446655440000".to_string()));
    assert_eq!(q.packet, serialize_message(MessageType::Query, &expected));
    // a simple-form id reads as the same transaction
    let reply = message(MessageType::Response, addr(3), &[("_tid", Some("550e8400e29b41d4a716446655440000"))]);
    assert_eq!(sood.handle_message(&reply).query, Some(q.transaction_id));
}

#[test]
fn prepare_query_errors() {
    let mut sood = Sood::new().unwrap();
    let mut props = Properties::new();
    props.insert("_tid".to_string(), None);
    assert_eq!(sood.prepare_query(props).err(), Some(QueryError::MissingTransactionId));
    let mut props = Properties::new();
    props.insert("_tid".to_string(), Some("not-a-uuid".to_string()));
    assert_eq!(sood.prepare_query(props).err(), Some(QueryError::InvalidTransactionId));
}

#[test]
fn interfaces_are_tracked() {
    let mut sood = Sood::new().unwrap();
    assert!(sood.needs_interface("eth0"));
    sood.add_interface("eth0".to_string());
    sood.add_interface("wlan0".to_string());
    sood.add_interface("eth0".to_string());
    assert!(!sood.needs_interface("eth0"));
    let current = vec![NetworkInterface {
        name: "wlan0".to_string(),
        ip: Ipv4Address::new(10, 0, 0, 2),
        netmask: Ipv4Address::new(255, 0, 0, 0),
        broadcast: Ipv4Address::new(10, 255, 255, 255),
    }];
    let removed = sood.retain_interfaces(&current);
    assert_eq!(removed, vec!["eth0".to_string()]);
    assert!(sood.needs_interface("eth0"));
    assert!(!sood.needs_interface("wlan0"));
    assert_eq!(sood.take_interfaces(), vec!["wlan0".to_string()]);
    assert!(sood.needs_interface("wlan0"));
}

#[test]
fn history_hands_out_past_devices_in_order() {
    let mut sood = Sood::new().unwrap();
    for id in ["a", "b"] {
        let m = message(MessageType::Response, addr(40), &[("service_id", Some(service_ids::ROON_API)), ("unique_id", Some(id))]);
        sood.handle_message(&m);
    }
    let mut history = DeviceHistory::new(sood.discovered_devices());
    assert_eq!(history.next_device().unwrap().unique_id, "a");
    assert_eq!(history.next_device().unwrap().unique_id, "b");
    assert!(history.next_device().is_none());
    assert!(history.next_device().is_none());
}

#[test]
fn service_ids_are_the_roon_ones() {
    assert_eq!(service_ids::ROON_API, "00720724-5143-4a9b-abac-0e50cba674bb");
    assert_eq!(service_ids::ROON_SERVER, "d52b2cb7-02c5-48fc-981b-a10f0aadd93b");
    assert_eq!(service_ids::ROON_OS, "ecb37afa-665f-4693-9fba-54823b6f1ff1");
    assert_eq!(service_ids::RAAT_ENDPOINT, "5e2042ad-9bc5-4508-be92-ff68f19bdc93");
}

#[test]
fn service_query_names_the_service() {
    let props = service_query(service_ids::ROON_API.to_string());
    assert_eq!(props.len(), 1);
    assert_eq!(props.get("query_service_id"), Some(&Some(service_ids::ROON_API.to_string())));
}

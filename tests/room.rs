use driftdb::room::{
    connection_options, handle_new_room, handle_room, room_command, room_result, RequestMethod, RoomCommand, RoomError,
};
use driftdb::{Action, Delivery, DbRoom, MessageFromDatabase, MessageToDatabase, SequenceNumber, SequenceValue, Store};
use serde_json::Value;

#[test]
fn room_links_follow_the_scheme() {
    let links = room_result(Some("example.com"), "abc", true).unwrap();
    assert_eq!(links.room, "abc");
    assert_eq!(links.socket_url, "wss://example.com/room/abc/connect");
    assert_eq!(links.http_url, "https://example.com/room/abc/send");
    let links = room_result(Some("localhost:8080"), "r1", false).unwrap();
    assert_eq!(links.socket_url, "ws://localhost:8080/room/r1/connect");
    assert_eq!(links.http_url, "http://localhost:8080/room/r1/send");
    assert_eq!(room_result(None, "abc", true), None);
}

#[test]
fn handle_room_reports_what_is_missing() {
    assert_eq!(handle_room(Some("h"), None, false), Err(RoomError::MissingRoomId));
    assert_eq!(handle_room(None, Some("x"), false), Err(RoomError::MissingHost));
    assert_eq!(handle_room(Some("h"), Some("x"), false).unwrap().http_url, "http://h/room/x/send");
}

#[test]
fn new_room_ids_are_alphanumeric() {
    let links = handle_new_room(Some("h"), false).unwrap();
    assert_eq!(links.room.chars().count(), 24);
    assert!(links.room.chars().all(|c| c.is_ascii_alphanumeric()));
    assert_eq!(links.socket_url, format!("ws://h/room/{}/connect", links.room));
    assert_eq!(handle_new_room(None, false), None);
}

#[test]
fn query_flags_need_a_non_empty_value() {
    let o = connection_options(Some("1"), Some(""));
    assert!(o.debug);
    assert!(!o.use_cbor);
    let o = connection_options(None, Some("yes"));
    assert!(!o.debug);
    assert!(o.use_cbor);
}

#[test]
fn room_commands_by_method_and_last_segment() {
    assert_eq!(room_command(RequestMethod::Get, "/room/abc/connect"), RoomCommand::Connect);
    assert_eq!(room_command(RequestMethod::Post, "/room/abc/send"), RoomCommand::Send);
    assert_eq!(room_command(RequestMethod::Post, "/room/abc/connect"), RoomCommand::NotFound);
    assert_eq!(room_command(RequestMethod::Get, "/room/abc/other"), RoomCommand::NotFound);
    assert_eq!(room_command(RequestMethod::Get, "connect"), RoomCommand::NotFound);
    assert_eq!(room_command(RequestMethod::Other, "/connect"), RoomCommand::NotFound);
}

fn text(s: &str) -> Value {
    Value::String(s.to_string())
}

#[test]
fn room_lifecycle_snapshots_durable_changes() {
    let mut room = DbRoom::new(false);
    assert!(!room.is_loaded());
    room.load(None);
    assert!(room.is_loaded());
    let mut outbox: Vec<Delivery> = Vec::new();
    let a = room.connect(false, &mut outbox).unwrap();
    room.send_message(&MessageToDatabase::Push { key: "k".into(), value: text("r"), action: Action::Relay }, &mut outbox);
    assert!(room.take_snapshot().is_none());
    room.send_message(&MessageToDatabase::Push { key: "k".into(), value: text("v"), action: Action::Append }, &mut outbox);
    assert!(outbox.iter().any(|d| matches!(d, Delivery::ToReplicaSink(_))));
    assert!(outbox.iter().all(|d| match d {
        Delivery::ToConnection { id, .. } => *id == a,
        Delivery::ToReplicaSink(_) => true,
    }));
    let snap = room.take_snapshot().unwrap();
    assert_eq!(snap.get(&"k".to_string(), SequenceNumber(0)), vec![SequenceValue { value: text("v"), seq: SequenceNumber(2) }]);
    assert!(room.take_snapshot().is_none());

    let persisted = room.alarm().unwrap();
    assert!(!room.is_loaded());
    assert!(room.alarm().is_none());

    room.load(Some(persisted));
    let mut outbox: Vec<Delivery> = Vec::new();
    let reply = room.send_message(&MessageToDatabase::Get { seq: SequenceNumber(0), key: "k".into() }, &mut outbox);
    assert_eq!(
        reply,
        Some(MessageFromDatabase::Init { key: "k".into(), data: vec![SequenceValue { value: text("v"), seq: SequenceNumber(2) }] })
    );
    assert!(outbox.is_empty());
}

#[test]
fn store_from_streams_checks_its_parts() {
    let sv = |n: u64| SequenceValue { value: Value::from(n), seq: SequenceNumber(n) };
    let good = vec![
        ("a".to_string(), SequenceNumber(3), vec![sv(1), sv(3)]),
        ("b".to_string(), SequenceNumber(0), vec![]),
    ];
    let store = Store::from_streams(&good).unwrap();
    assert_eq!(store.get(&"a".to_string(), SequenceNumber(2)), vec![sv(3)]);
    assert_eq!(store.counter(&"a".to_string()), SequenceNumber(3));
    let dup = vec![("a".to_string(), SequenceNumber(1), vec![]), ("a".to_string(), SequenceNumber(1), vec![])];
    assert!(Store::from_streams(&dup).is_none());
    let unordered = vec![("a".to_string(), SequenceNumber(3), vec![sv(3), sv(1)])];
    assert!(Store::from_streams(&unordered).is_none());
    let above = vec![("a".to_string(), SequenceNumber(1), vec![sv(2)])];
    assert!(Store::from_streams(&above).is_none());
}

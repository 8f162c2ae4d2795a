use driftdb::{Action, Database, Delivery, MessageFromDatabase, MessageToDatabase, SequenceNumber, SequenceValue};
use serde_json::Value;
use std::collections::{HashMap, VecDeque};

/// Routes the database's deliveries to one inbox per subscriber, the way a
/// host hands them to the subscribers' sinks.
struct Host {
    db: Database,
    inboxes: HashMap<u64, VecDeque<MessageFromDatabase>>,
    sink: Vec<driftdb::StoreInstruction>,
}

impl Host {
    fn new() -> Host {
        Host { db: Database::new(), inboxes: HashMap::new(), sink: Vec::new() }
    }

    fn deliver(&mut self, outbox: Vec<Delivery>) {
        for d in outbox {
            match d {
                Delivery::ToConnection { id, message } => self.inboxes.entry(id).or_default().push_back(message),
                Delivery::ToReplicaSink(i) => self.sink.push(i),
            }
        }
    }

    fn connect(&mut self) -> u64 {
        let id = self.db.connect().unwrap();
        self.inboxes.insert(id, VecDeque::new());
        id
    }

    fn connect_debug(&mut self) -> u64 {
        let mut outbox = Vec::new();
        let id = self.db.connect_debug(&mut outbox).unwrap();
        self.inboxes.insert(id, VecDeque::new());
        self.deliver(outbox);
        id
    }

    fn connect_replica(&mut self) -> u64 {
        let mut outbox = Vec::new();
        let id = self.db.connect_replica(&mut outbox).unwrap();
        self.inboxes.insert(id, VecDeque::new());
        self.deliver(outbox);
        id
    }

    fn send(&mut self, conn: u64, message: MessageToDatabase) {
        let mut outbox = Vec::new();
        let response = self.db.send_message(&message, &mut outbox);
        self.deliver(outbox);
        if let Some(response) = response {
            self.inboxes.entry(conn).or_default().push_back(response);
        }
    }

    fn next(&mut self, conn: u64) -> Option<MessageFromDatabase> {
        self.inboxes.get_mut(&conn).and_then(|q| q.pop_front())
    }
}

fn subscribe(host: &mut Host, conn: u64, key: &str) {
    host.send(conn, MessageToDatabase::Get { seq: SequenceNumber::default(), key: key.into() });
}

fn push(host: &mut Host, conn: u64, key: &str, value: Value, action: Action) {
    host.send(conn, MessageToDatabase::Push { key: key.into(), value, action });
}

fn obj(k: &str, v: &str) -> Value {
    let mut m = serde_json::Map::new();
    m.insert(k.to_string(), Value::String(v.to_string()));
    Value::Object(m)
}

fn empty_init(key: &str) -> Option<MessageFromDatabase> {
    Some(MessageFromDatabase::Init { data: vec![], key: key.into() })
}

#[test]
fn test_initialize() {
    let mut host = Host::new();
    let conn = host.connect();
    subscribe(&mut host, conn, "foo");
    assert_eq!(Some(MessageFromDatabase::Init { data: vec![], key: "foo".into() }), host.next(conn));
}

#[test]
fn test_ephemeral_message() {
    let mut host = Host::new();
    let conn = host.connect();
    subscribe(&mut host, conn, "foo");
    assert_eq!(empty_init("foo"), host.next(conn));

    push(&mut host, conn, "foo", obj("bar", "baz"), Action::Relay);
    assert_eq!(
        Some(MessageFromDatabase::Push { key: "foo".into(), value: obj("bar", "baz"), seq: SequenceNumber(1) }),
        host.next(conn)
    );

    push(&mut host, conn, "foo", obj("abc", "def"), Action::Relay);
    assert_eq!(
        Some(MessageFromDatabase::Push { key: "foo".into(), value: obj("abc", "def"), seq: SequenceNumber(2) }),
        host.next(conn)
    );
    assert_eq!(None, host.next(conn));
}

#[test]
fn test_ephemeral_message_multiple_connections() {
    let mut host = Host::new();
    let conn1 = host.connect();
    subscribe(&mut host, conn1, "foo");
    assert_eq!(empty_init("foo"), host.next(conn1));

    let conn2 = host.connect();
    subscribe(&mut host, conn2, "foo");
    assert_eq!(empty_init("foo"), host.next(conn2));

    push(&mut host, conn1, "foo", obj("bar", "baz"), Action::Relay);
    let expected = Some(MessageFromDatabase::Push { key: "foo".into(), value: obj("bar", "baz"), seq: SequenceNumber(1) });
    assert_eq!(expected, host.next(conn1));
    assert_eq!(expected, host.next(conn2));
}

#[test]
fn test_durable_message_sent_to_later_connection() {
    let mut host = Host::new();
    let conn = host.connect();
    subscribe(&mut host, conn, "foo");
    assert_eq!(empty_init("foo"), host.next(conn));

    push(&mut host, conn, "foo", obj("bar", "baz"), Action::Replace);
    assert_eq!(
        Some(MessageFromDatabase::Push { key: "foo".into(), value: obj("bar", "baz"), seq: SequenceNumber(1) }),
        host.next(conn)
    );

    let conn2 = host.connect();
    subscribe(&mut host, conn2, "foo");
    assert_eq!(
        Some(MessageFromDatabase::Init {
            data: vec![SequenceValue { value: obj("bar", "baz"), seq: SequenceNumber(1) }],
            key: "foo".into()
        }),
        host.next(conn2)
    );
}

#[test]
fn test_ephemeral_message_not_subscribed() {
    let mut host = Host::new();
    let conn1 = host.connect();
    subscribe(&mut host, conn1, "foo");
    assert_eq!(empty_init("foo"), host.next(conn1));

    let mut stash2: VecDeque<MessageFromDatabase> = VecDeque::new();

    push(&mut host, conn1, "foo", obj("bar", "baz"), Action::Relay);
    assert_eq!(
        Some(MessageFromDatabase::Push { key: "foo".into(), value: obj("bar", "baz"), seq: SequenceNumber(1) }),
        host.next(conn1)
    );

    // The second stash never registered with the database.
    assert_eq!(None, stash2.pop_front());
}

#[test]
fn test_append() {
    let mut host = Host::new();
    let conn = host.connect();
    subscribe(&mut host, conn, "foo");
    assert_eq!(empty_init("foo"), host.next(conn));

    push(&mut host, conn, "foo", obj("bar", "baz"), Action::Append);
    assert_eq!(
        Some(MessageFromDatabase::Push { key: "foo".into(), value: obj("bar", "baz"), seq: SequenceNumber(1) }),
        host.next(conn)
    );

    push(&mut host, conn, "foo", obj("abc", "def"), Action::Append);
    assert_eq!(
        Some(MessageFromDatabase::Push { key: "foo".into(), value: obj("abc", "def"), seq: SequenceNumber(2) }),
        host.next(conn)
    );
    assert_eq!(Some(MessageFromDatabase::StreamSize { key: "foo".into(), size: 2 }), host.next(conn));

    push(&mut host, conn, "foo", obj("boo", "baa"), Action::Append);
    assert_eq!(
        Some(MessageFromDatabase::Push { key: "foo".into(), value: obj("boo", "baa"), seq: SequenceNumber(3) }),
        host.next(conn)
    );
    assert_eq!(Some(MessageFromDatabase::StreamSize { key: "foo".into(), size: 3 }), host.next(conn));

    let conn2 = host.connect();
    subscribe(&mut host, conn2, "foo");
    assert_eq!(
        Some(MessageFromDatabase::Init {
            key: "foo".into(),
            data: vec![
                SequenceValue { value: obj("bar", "baz"), seq: SequenceNumber(1) },
                SequenceValue { value: obj("abc", "def"), seq: SequenceNumber(2) },
                SequenceValue { value: obj("boo", "baa"), seq: SequenceNumber(3) },
            ]
        }),
        host.next(conn2)
    );
}

#[test]
fn test_compact() {
    let mut host = Host::new();
    let conn = host.connect();
    subscribe(&mut host, conn, "foo");
    assert_eq!(empty_init("foo"), host.next(conn));

    push(&mut host, conn, "foo", obj("bar", "baz"), Action::Append);
    push(&mut host, conn, "foo", obj("abc", "def"), Action::Append);
    push(&mut host, conn, "foo", obj("boo", "baa"), Action::Append);
    push(&mut host, conn, "foo", obj("moo", "ram"), Action::Compact { seq: SequenceNumber(2) });

    let conn2 = host.connect();
    subscribe(&mut host, conn2, "foo");
    assert_eq!(
        Some(MessageFromDatabase::Init {
            key: "foo".into(),
            data: vec![
                SequenceValue { value: obj("moo", "ram"), seq: SequenceNumber(2) },
                SequenceValue { value: obj("boo", "baa"), seq: SequenceNumber(3) },
            ]
        }),
        host.next(conn2)
    );
}

#[test]
fn ping_answers_pong_and_delivers_nothing() {
    let mut host = Host::new();
    let a = host.connect();
    let b = host.connect();
    host.send(a, MessageToDatabase::Ping { nonce: 42 });
    assert_eq!(Some(MessageFromDatabase::Pong { nonce: 42 }), host.next(a));
    assert_eq!(None, host.next(a));
    assert_eq!(None, host.next(b));
}

#[test]
fn relay_does_not_store_but_advances_sequence() {
    let mut host = Host::new();
    let a = host.connect();
    push(&mut host, a, "k", obj("x", "1"), Action::Relay);
    push(&mut host, a, "k", obj("x", "2"), Action::Append);
    assert_eq!(
        Some(MessageFromDatabase::Push { key: "k".into(), value: obj("x", "1"), seq: SequenceNumber(1) }),
        host.next(a)
    );
    assert_eq!(
        Some(MessageFromDatabase::Push { key: "k".into(), value: obj("x", "2"), seq: SequenceNumber(2) }),
        host.next(a)
    );
    subscribe(&mut host, a, "k");
    assert_eq!(
        Some(MessageFromDatabase::Init {
            key: "k".into(),
            data: vec![SequenceValue { value: obj("x", "2"), seq: SequenceNumber(2) }]
        }),
        host.next(a)
    );
}

#[test]
fn get_from_a_later_sequence_skips_older_entries() {
    let mut host = Host::new();
    let a = host.connect();
    push(&mut host, a, "k", obj("x", "1"), Action::Append);
    push(&mut host, a, "k", obj("x", "2"), Action::Append);
    push(&mut host, a, "k", obj("x", "3"), Action::Append);
    host.inboxes.get_mut(&a).unwrap().clear();
    host.send(a, MessageToDatabase::Get { seq: SequenceNumber(2), key: "k".into() });
    assert_eq!(
        Some(MessageFromDatabase::Init {
            key: "k".into(),
            data: vec![
                SequenceValue { value: obj("x", "2"), seq: SequenceNumber(2) },
                SequenceValue { value: obj("x", "3"), seq: SequenceNumber(3) },
            ]
        }),
        host.next(a)
    );
    host.send(a, MessageToDatabase::Get { seq: SequenceNumber(0), key: "missing".into() });
    assert_eq!(empty_init("missing"), host.next(a));
}

#[test]
fn compact_beyond_counter_bumps_it() {
    let mut host = Host::new();
    let a = host.connect();
    push(&mut host, a, "k", obj("x", "1"), Action::Append);
    push(&mut host, a, "k", obj("x", "c"), Action::Compact { seq: SequenceNumber(10) });
    push(&mut host, a, "k", obj("x", "2"), Action::Append);
    host.inboxes.get_mut(&a).unwrap().clear();
    subscribe(&mut host, a, "k");
    assert_eq!(
        Some(MessageFromDatabase::Init {
            key: "k".into(),
            data: vec![
                SequenceValue { value: obj("x", "c"), seq: SequenceNumber(10) },
                SequenceValue { value: obj("x", "2"), seq: SequenceNumber(11) },
            ]
        }),
        host.next(a)
    );
}

#[test]
fn compact_is_not_broadcast() {
    let mut host = Host::new();
    let a = host.connect();
    push(&mut host, a, "k", obj("x", "1"), Action::Append);
    assert!(host.next(a).is_some());
    push(&mut host, a, "k", obj("x", "c"), Action::Compact { seq: SequenceNumber(1) });
    assert_eq!(None, host.next(a));
}

#[test]
fn replace_keeps_only_the_new_value() {
    let mut host = Host::new();
    let a = host.connect();
    push(&mut host, a, "k", obj("x", "1"), Action::Append);
    push(&mut host, a, "k", obj("x", "2"), Action::Append);
    push(&mut host, a, "k", obj("x", "3"), Action::Replace);
    host.inboxes.get_mut(&a).unwrap().clear();
    subscribe(&mut host, a, "k");
    assert_eq!(
        Some(MessageFromDatabase::Init {
            key: "k".into(),
            data: vec![SequenceValue { value: obj("x", "3"), seq: SequenceNumber(3) }]
        }),
        host.next(a)
    );
}

#[test]
fn debug_subscriber_first_gets_every_stream() {
    let mut host = Host::new();
    let a = host.connect();
    push(&mut host, a, "k1", obj("x", "1"), Action::Append);
    push(&mut host, a, "k2", obj("y", "2"), Action::Append);
    let d = host.connect_debug();
    let mut first = vec![host.next(d).unwrap(), host.next(d).unwrap()];
    first.sort_by_key(|m| match m {
        MessageFromDatabase::Init { key, .. } => key.clone(),
        _ => String::new(),
    });
    assert_eq!(
        first,
        vec![
            MessageFromDatabase::Init {
                key: "k1".into(),
                data: vec![SequenceValue { value: obj("x", "1"), seq: SequenceNumber(1) }]
            },
            MessageFromDatabase::Init {
                key: "k2".into(),
                data: vec![SequenceValue { value: obj("y", "2"), seq: SequenceNumber(1) }]
            },
        ]
    );
    assert_eq!(None, host.next(d));

    // A durable push shows the debug subscriber the key's whole stream.
    push(&mut host, a, "k1", obj("x", "3"), Action::Append);
    assert_eq!(
        Some(MessageFromDatabase::Init {
            key: "k1".into(),
            data: vec![
                SequenceValue { value: obj("x", "1"), seq: SequenceNumber(1) },
                SequenceValue { value: obj("x", "3"), seq: SequenceNumber(2) },
            ]
        }),
        host.next(d)
    );
    // A relay shows it the relayed value.
    push(&mut host, a, "k1", obj("x", "r"), Action::Relay);
    assert_eq!(
        Some(MessageFromDatabase::Push { key: "k1".into(), value: obj("x", "r"), seq: SequenceNumber(3) }),
        host.next(d)
    );
}

#[test]
fn dropped_connection_hears_nothing() {
    let mut host = Host::new();
    let a = host.connect();
    let b = host.connect();
    host.db.drop_connection(b);
    push(&mut host, a, "k", obj("x", "1"), Action::Relay);
    push(&mut host, a, "k", obj("x", "2"), Action::Append);
    assert_eq!(None, host.next(b));
    assert!(host.next(a).is_some());
}

#[test]
fn replica_subscriber_and_sink_see_instructions() {
    let mut host = Host::new();
    let a = host.connect();
    push(&mut host, a, "k", obj("x", "1"), Action::Append);
    host.db.set_replica_callback();
    let r = host.connect_replica();
    match host.next(r) {
        Some(MessageFromDatabase::ReplicaInstruction(driftdb::ReplicaInstruction::InitInstruction(store))) => {
            let data = store.get(&"k".to_string(), SequenceNumber(0));
            assert_eq!(data, vec![SequenceValue { value: obj("x", "1"), seq: SequenceNumber(1) }]);
        }
        other => panic!("unexpected {:?}", other),
    }
    push(&mut host, a, "k", obj("x", "2"), Action::Append);
    let expected = driftdb::StoreInstruction {
        key: "k".into(),
        value: obj("x", "2"),
        action: Action::Append,
        broadcast: Some(SequenceValue { value: obj("x", "2"), seq: SequenceNumber(2) }),
    };
    assert_eq!(
        Some(MessageFromDatabase::ReplicaInstruction(driftdb::ReplicaInstruction::StoreInstruction(expected.clone()))),
        host.next(r)
    );
    assert_eq!(host.sink, vec![expected]);
    // A relay reaches the replica subscriber but not the sink.
    push(&mut host, a, "k", obj("x", "3"), Action::Relay);
    assert!(host.next(r).is_some());
    assert_eq!(host.sink.len(), 1);
}

use vstd::prelude::*;
use crate::store::{Store, StoreInstruction, StreamModel};

verus! {

/// serde_json's `Value`: the documents that clients push, carried through
/// the library without being looked into.
#[verifier::external_type_specification]
#[verifier::external_body]
pub struct ExValue(serde_json::Value);

/// Relies on the derived `Clone` of `serde_json::Value`: the copy is the same document.
pub assume_specification[ <serde_json::Value as Clone>::clone ](v: &serde_json::Value) -> (r: serde_json::Value)
    ensures
        r == *v,
;

/// A per-key sequence number; the first one the store hands out is 1.
#[derive(Clone, Copy, PartialEq, Eq, Structural, Debug, PartialOrd, Ord, Hash)]
pub struct SequenceNumber(pub u64);

impl Default for SequenceNumber {
    fn default() -> (r: SequenceNumber)
        ensures
            r.0 == 0,
    {
        SequenceNumber(0)
    }
}

/// A value of a stream together with the sequence number it was stored under.
#[derive(Clone, PartialEq, Debug)]
pub struct SequenceValue {
    pub value: serde_json::Value,
    pub seq: SequenceNumber,
}

impl SequenceValue {
    pub fn duplicate(&self) -> (r: SequenceValue)
        ensures
            r == *self,
    {
        SequenceValue { value: self.value.clone(), seq: self.seq }
    }
}

/// Copies a list of stored values.
pub fn duplicate_values(values: &Vec<SequenceValue>) -> (r: Vec<SequenceValue>)
    ensures
        r@ == values@,
{
    let mut r: Vec<SequenceValue> = Vec::new();
    let mut i: usize = 0;
    while i < values.len()
        invariant
            i <= values.len(),
            r@ == values@.subrange(0, i as int),
        decreases values.len() - i,
    {
        r.push(values[i].duplicate());
        i = i + 1;
        assert(r@ =~= values@.subrange(0, i as int));
    }
    assert(values@.subrange(0, values.len() as int) =~= values@);
    r
}

/// What a push does with its value.
#[derive(Clone, Copy, PartialEq, Eq, Structural, Debug)]
pub enum Action {
    /// Broadcast the value without keeping it.
    Relay,
    /// Append the value to the key's stream.
    Append,
    /// Replace the key's stream by the value alone.
    Replace,
    /// Store the value under `seq` and drop every older entry.
    Compact { seq: SequenceNumber },
}

#[derive(Clone, PartialEq, Debug)]
pub enum MessageToDatabase {
    Push { key: String, value: serde_json::Value, action: Action },
    Get { seq: SequenceNumber, key: String },
    Ping { nonce: u64 },
}

#[derive(Clone, PartialEq, Debug)]
pub enum ReplicaInstruction {
    InitInstruction(Store),
    StoreInstruction(StoreInstruction),
}

#[derive(Clone, PartialEq, Debug)]
pub enum MessageFromDatabase {
    Push { key: String, value: serde_json::Value, seq: SequenceNumber },
    Init { key: String, data: Vec<SequenceValue> },
    Error { message: String },
    StreamSize { key: String, size: usize },
    Pong { nonce: u64 },
    ReplicaInstruction(ReplicaInstruction),
}

/// The mathematical content of a message from the database.
pub enum MessageView {
    Push { key: Seq<char>, value: serde_json::Value, seq: SequenceNumber },
    Init { key: Seq<char>, data: Seq<SequenceValue> },
    Error { message: Seq<char> },
    StreamSize { key: Seq<char>, size: usize },
    Pong { nonce: u64 },
    ReplicaInit(Map<Seq<char>, StreamModel>),
    ReplicaStore(StoreInstruction),
}

impl View for MessageFromDatabase {
    type V = MessageView;

    open spec fn view(&self) -> MessageView {
        match self {
            MessageFromDatabase::Push { key, value, seq } => MessageView::Push { key: key@, value: *value, seq: *seq },
            MessageFromDatabase::Init { key, data } => MessageView::Init { key: key@, data: data@ },
            MessageFromDatabase::Error { message } => MessageView::Error { message: message@ },
            MessageFromDatabase::StreamSize { key, size } => MessageView::StreamSize { key: key@, size: *size },
            MessageFromDatabase::Pong { nonce } => MessageView::Pong { nonce: *nonce },
            MessageFromDatabase::ReplicaInstruction(ReplicaInstruction::InitInstruction(s)) => MessageView::ReplicaInit(s@),
            MessageFromDatabase::ReplicaInstruction(ReplicaInstruction::StoreInstruction(i)) => MessageView::ReplicaStore(*i),
        }
    }
}

impl MessageFromDatabase {
    /// A copy with the same content; replica snapshots stay well formed.
    pub fn duplicate(&self) -> (r: MessageFromDatabase)
        requires
            self.stores_wf(),
        ensures
            r@ == self@,
            r.stores_wf(),
    {
        match self {
            MessageFromDatabase::Push { key, value, seq } => MessageFromDatabase::Push { key: key.clone(), value: value.clone(), seq: *seq },
            MessageFromDatabase::Init { key, data } => MessageFromDatabase::Init { key: key.clone(), data: duplicate_values(data) },
            MessageFromDatabase::Error { message } => MessageFromDatabase::Error { message: message.clone() },
            MessageFromDatabase::StreamSize { key, size } => MessageFromDatabase::StreamSize { key: key.clone(), size: *size },
            MessageFromDatabase::Pong { nonce } => MessageFromDatabase::Pong { nonce: *nonce },
            MessageFromDatabase::ReplicaInstruction(ReplicaInstruction::InitInstruction(s)) =>
                MessageFromDatabase::ReplicaInstruction(ReplicaInstruction::InitInstruction(s.snapshot())),
            MessageFromDatabase::ReplicaInstruction(ReplicaInstruction::StoreInstruction(i)) =>
                MessageFromDatabase::ReplicaInstruction(ReplicaInstruction::StoreInstruction(i.duplicate())),
        }
    }

    /// A store carried by the message is well formed.
    pub open spec fn stores_wf(&self) -> bool {
        match self {
            MessageFromDatabase::ReplicaInstruction(ReplicaInstruction::InitInstruction(s)) => s.wf(),
            _ => true,
        }
    }
}

} // verus!

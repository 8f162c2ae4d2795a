use vstd::prelude::*;
use crate::db::{Database, DeliveryView, Subscriber, after_push, fanout, is_live_on, live};
use crate::store::{StreamModel, at_or_after, instruction_for, state_of, strictly_ordered, Store};
use crate::types::{Action, SequenceNumber, SequenceValue};

verus! {

/// Reading a stream from sequence number zero yields all of it.
pub proof fn lemma_read_from_zero(values: Seq<SequenceValue>)
    ensures
        at_or_after(values, 0) == values,
    decreases values.len(),
{
    reveal(Seq::filter);
    if values.len() > 0 {
        lemma_read_from_zero(values.drop_last());
        assert(values.drop_last().push(values.last()) =~= values);
    }
}

/// In every stream of a well-formed store the sequence numbers rise strictly.
pub proof fn lemma_sequences_increase(store: &Store, key: Seq<char>)
    requires
        store.wf(),
    ensures
        strictly_ordered(state_of(store@, key).values),
{
    store.lemma_streams_wf(key);
}

/// The store after `values` were appended under `key`, one push each, in order.
pub open spec fn appended_all(m: Map<Seq<char>, StreamModel>, key: String, values: Seq<serde_json::Value>) -> Map<Seq<char>, StreamModel>
    decreases values.len(),
{
    if values.len() == 0 {
        m
    } else {
        after_push(appended_all(m, key, values.drop_last()), key, values.last(), Action::Append)
    }
}

/// Values appended to a key that was never pushed to are read back in order,
/// numbered from one.
pub proof fn lemma_appends_numbered_in_order(m: Map<Seq<char>, StreamModel>, key: String, values: Seq<serde_json::Value>)
    requires
        !m.contains_key(key@),
        values.len() < u64::MAX,
    ensures
        at_or_after(state_of(appended_all(m, key, values), key@).values, 0)
            == values.map(|i: int, v: serde_json::Value| SequenceValue { value: v, seq: SequenceNumber((i + 1) as u64) }),
        state_of(appended_all(m, key, values), key@).counter == values.len(),
    decreases values.len(),
{
    let numbered = values.map(|i: int, v: serde_json::Value| SequenceValue { value: v, seq: SequenceNumber((i + 1) as u64) });
    if values.len() > 0 {
        let prev = values.drop_last();
        lemma_appends_numbered_in_order(m, key, prev);
        lemma_read_from_zero(state_of(appended_all(m, key, prev), key@).values);
        let prev_numbered = prev.map(|i: int, v: serde_json::Value| SequenceValue { value: v, seq: SequenceNumber((i + 1) as u64) });
        assert(numbered =~= prev_numbered.push(SequenceValue { value: values.last(), seq: SequenceNumber(values.len() as u64) }));
    } else {
        assert(numbered =~= Seq::<SequenceValue>::empty());
    }
    lemma_read_from_zero(state_of(appended_all(m, key, values), key@).values);
}

/// A relay leaves the stored values as they are, and the next append or
/// replace gets a sequence number one higher than it would have got.
pub proof fn lemma_relay_keeps_stream(m: Map<Seq<char>, StreamModel>, key: String, value: serde_json::Value, next: serde_json::Value, next_action: Action)
    requires
        state_of(m, key@).counter < u64::MAX - 1,
        next_action is Append || next_action is Replace,
    ensures
        at_or_after(state_of(after_push(m, key, value, Action::Relay), key@).values, 0)
            == at_or_after(state_of(m, key@).values, 0),
        instruction_for(after_push(m, key, value, Action::Relay), key, next, next_action).broadcast->0.seq.0
            == instruction_for(m, key, next, next_action).broadcast->0.seq.0 + 1,
{
}

/// After a compaction at `seq` with `value`, a full read gives `value` under
/// `seq`, followed by the earlier entries with larger sequence numbers.
pub proof fn lemma_compaction_keeps_later(m: Map<Seq<char>, StreamModel>, key: String, value: serde_json::Value, seq: SequenceNumber)
    ensures
        at_or_after(state_of(after_push(m, key, value, Action::Compact { seq }), key@).values, 0)
            == seq![SequenceValue { value, seq }] + state_of(m, key@).values.filter(|e: SequenceValue| e.seq.0 > seq.0),
{
    lemma_read_from_zero(state_of(after_push(m, key, value, Action::Compact { seq }), key@).values);
}

proof fn lemma_fanout_to_live(subs: Seq<Subscriber>, msg: crate::types::MessageView, j: int)
    requires
        0 <= j < fanout(subs, msg).len(),
    ensures
        fanout(subs, msg)[j] matches DeliveryView::ToConnection { id, .. } && is_live_on(subs, id),
{
    let l = live(subs);
    subs.lemma_filter_len(|s: Subscriber| s.alive);
    subs.lemma_filter_pred(|s: Subscriber| s.alive, j);
    subs.lemma_filter_contains_rev(|s: Subscriber| s.alive, l[j]);
    assert(l.contains(l[j]));
    let k = choose|k: int| 0 <= k < subs.len() && subs[k] == l[j];
    assert(subs[k].id == l[j].id);
}

/// A push delivers nothing to a subscriber that was dropped.
pub proof fn lemma_dropped_hears_nothing(db: &Database, id: u64, key: String, value: serde_json::Value, action: Action)
    requires
        !db.is_live(id),
    ensures
        forall|j: int| 0 <= j < db.inner().push_deliveries(key, value, action).len() ==>
            !(#[trigger] db.inner().push_deliveries(key, value, action)[j] matches DeliveryView::ToConnection { id: to, .. } && to == id),
{
    let d = db.inner().push_deliveries(key, value, action);
    assert forall|j: int| 0 <= j < d.len() implies
        !(#[trigger] d[j] matches DeliveryView::ToConnection { id: to, .. } && to == id) by {
        let inner = db.inner();
        let i = instruction_for(inner.store_view(), key, value, action);
        let after = after_push(inner.store_view(), key, value, action);
        let a = fanout(inner.replica_connections(), crate::types::MessageView::ReplicaStore(i));
        let b = if i.spec_mutates() {
            fanout(inner.debug_connections(), crate::types::MessageView::Init { key: key@, data: at_or_after(state_of(after, key@).values, 0) })
        } else {
            match i.broadcast {
                Some(bc) => fanout(inner.debug_connections(), crate::types::MessageView::Push { key: key@, value: bc.value, seq: bc.seq }),
                None => Seq::empty(),
            }
        };
        let c: Seq<DeliveryView> = if i.spec_mutates() && inner.has_replica_sink() {
            seq![DeliveryView::ToReplicaSink(i)]
        } else {
            Seq::empty()
        };
        if j < a.len() {
            lemma_fanout_to_live(inner.replica_connections(), crate::types::MessageView::ReplicaStore(i), j);
        } else if j < a.len() + b.len() {
            if i.spec_mutates() {
                lemma_fanout_to_live(inner.debug_connections(), crate::types::MessageView::Init { key: key@, data: at_or_after(state_of(after, key@).values, 0) }, j - a.len());
            } else {
                let bc = i.broadcast->0;
                lemma_fanout_to_live(inner.debug_connections(), crate::types::MessageView::Push { key: key@, value: bc.value, seq: bc.seq }, j - a.len());
            }
        } else if j < a.len() + b.len() + c.len() {
        } else {
            let bc = i.broadcast->0;
            lemma_fanout_to_live(inner.connections(), crate::types::MessageView::Push { key: key@, value: bc.value, seq: bc.seq }, j - a.len() - b.len() - c.len());
        }
    }
}

} // verus!

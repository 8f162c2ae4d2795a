use vstd::prelude::*;
use crate::store::{Store, StoreInstruction, StreamModel, applied, at_or_after, instruction_for, state_of};
use crate::types::{Action, MessageFromDatabase, MessageToDatabase, MessageView, ReplicaInstruction, SequenceNumber};

verus! {

/// A registered subscriber; one that was dropped is skipped, and pruned by the
/// next dispatch over its list.
#[derive(Clone, Copy, PartialEq, Eq, Structural, Debug)]
pub struct Subscriber {
    pub id: u64,
    pub alive: bool,
}

/// A message addressed to a subscriber, or an instruction for the replica sink.
#[derive(Clone, PartialEq, Debug)]
pub enum Delivery {
    ToConnection { id: u64, message: MessageFromDatabase },
    ToReplicaSink(StoreInstruction),
}

pub enum DeliveryView {
    ToConnection { id: u64, message: MessageView },
    ToReplicaSink(StoreInstruction),
}

impl View for Delivery {
    type V = DeliveryView;

    open spec fn view(&self) -> DeliveryView {
        match self {
            Delivery::ToConnection { id, message } => DeliveryView::ToConnection { id: *id, message: message@ },
            Delivery::ToReplicaSink(i) => DeliveryView::ToReplicaSink(*i),
        }
    }
}

pub open spec fn deliveries_view(s: Seq<Delivery>) -> Seq<DeliveryView> {
    s.map_values(|d: Delivery| d@)
}

/// The subscribers that were not dropped, in order.
pub open spec fn live(subs: Seq<Subscriber>) -> Seq<Subscriber> {
    subs.filter(|s: Subscriber| s.alive)
}

/// One copy of `m` for every live subscriber of `subs`, in order.
pub open spec fn fanout(subs: Seq<Subscriber>, m: MessageView) -> Seq<DeliveryView> {
    live(subs).map_values(|s: Subscriber| DeliveryView::ToConnection { id: s.id, message: m })
}

/// The store's counter for a key after a push resolved.
pub open spec fn converted(m: Map<Seq<char>, StreamModel>, key: Seq<char>, action: Action) -> Map<Seq<char>, StreamModel> {
    if action is Compact {
        m
    } else {
        m.insert(key, StreamModel { counter: (state_of(m, key).counter + 1) as u64, values: state_of(m, key).values })
    }
}

/// The store after a push.
pub open spec fn after_push(m: Map<Seq<char>, StreamModel>, key: String, value: serde_json::Value, action: Action) -> Map<Seq<char>, StreamModel> {
    let c = converted(m, key@, action);
    c.insert(key@, applied(state_of(c, key@), instruction_for(m, key, value, action)))
}

proof fn lemma_fanout_push(subs: Seq<Subscriber>, s: Subscriber, m: MessageView)
    ensures
        live(subs.push(s)) == if s.alive { live(subs).push(s) } else { live(subs) },
        fanout(subs.push(s), m) == if s.alive {
            fanout(subs, m).push(DeliveryView::ToConnection { id: s.id, message: m })
        } else {
            fanout(subs, m)
        },
{
    reveal(Seq::filter);
    assert(subs.push(s).drop_last() =~= subs);
    assert(live(subs).push(s).map_values(|t: Subscriber| DeliveryView::ToConnection { id: t.id, message: m })
        =~= fanout(subs, m).push(DeliveryView::ToConnection { id: s.id, message: m }));
}

proof fn lemma_deliveries_push(s: Seq<Delivery>, d: Delivery)
    ensures
        deliveries_view(s.push(d)) == deliveries_view(s).push(d@),
{
    assert(deliveries_view(s.push(d)) =~= deliveries_view(s).push(d@));
}

/// Hands `message` to every live subscriber of `subs` and prunes the dropped ones.
fn fan_out(subs: &mut Vec<Subscriber>, message: &MessageFromDatabase, outbox: &mut Vec<Delivery>)
    requires
        message.stores_wf(),
    ensures
        final(subs)@ == live(old(subs)@),
        deliveries_view(final(outbox)@) == deliveries_view(old(outbox)@) + fanout(old(subs)@, message@),
{
    let ghost out0 = deliveries_view(outbox@);
    let mut kept: Vec<Subscriber> = Vec::new();
    let mut i: usize = 0;
    proof {
        reveal(Seq::filter);
        assert(subs@.subrange(0, 0) =~= Seq::<Subscriber>::empty());
        assert(deliveries_view(outbox@) =~= out0 + fanout(subs@.subrange(0, 0), message@));
    }
    while i < subs.len()
        invariant
            i <= subs@.len(),
            message.stores_wf(),
            kept@ == live(subs@.subrange(0, i as int)),
            deliveries_view(outbox@) == out0 + fanout(subs@.subrange(0, i as int), message@),
        decreases subs@.len() - i,
    {
        let s = subs[i];
        proof {
            assert(subs@.subrange(0, i as int + 1) =~= subs@.subrange(0, i as int).push(s));
            lemma_fanout_push(subs@.subrange(0, i as int), s, message@);
        }
        if s.alive {
            let d = Delivery::ToConnection { id: s.id, message: message.duplicate() };
            proof { lemma_deliveries_push(outbox@, d); }
            outbox.push(d);
            kept.push(s);
        }
        i = i + 1;
    }
    assert(subs@.subrange(0, subs@.len() as int) =~= subs@);
    *subs = kept;
}

/// The state of one room's database: its store, its three subscriber lists and
/// whether a replica sink is installed.
pub struct DatabaseInner {
    connections: Vec<Subscriber>,
    debug_connections: Vec<Subscriber>,
    replica_connections: Vec<Subscriber>,
    replica_callback: bool,
    store: Store,
}

impl DatabaseInner {
    pub closed spec fn wf(&self) -> bool {
        self.store.wf()
    }

    pub closed spec fn store_view(&self) -> Map<Seq<char>, StreamModel> {
        self.store@
    }

    pub closed spec fn connections(&self) -> Seq<Subscriber> {
        self.connections@
    }

    pub closed spec fn debug_connections(&self) -> Seq<Subscriber> {
        self.debug_connections@
    }

    pub closed spec fn replica_connections(&self) -> Seq<Subscriber> {
        self.replica_connections@
    }

    pub closed spec fn has_replica_sink(&self) -> bool {
        self.replica_callback
    }

    /// Whether the database can take `message`: a push other than a
    /// compaction needs a sequence number left for its key.
    pub open spec fn accepts(&self, message: MessageToDatabase) -> bool {
        match message {
            MessageToDatabase::Push { key, action, .. } =>
                !(action is Compact) ==> state_of(self.store_view(), key@).counter < u64::MAX,
            _ => true,
        }
    }

    /// What the subscribers receive when `value` is pushed under `key`: replica
    /// subscribers the instruction, debug subscribers the key's new stream (or
    /// the relayed value), the replica sink a durable instruction, and regular
    /// subscribers the broadcast value, in this order.
    pub open spec fn push_deliveries(&self, key: String, value: serde_json::Value, action: Action) -> Seq<DeliveryView> {
        let i = instruction_for(self.store_view(), key, value, action);
        let after = after_push(self.store_view(), key, value, action);
        let to_replicas = fanout(self.replica_connections(), MessageView::ReplicaStore(i));
        let to_debug = if i.spec_mutates() {
            fanout(self.debug_connections(), MessageView::Init { key: key@, data: at_or_after(state_of(after, key@).values, 0) })
        } else {
            match i.broadcast {
                Some(b) => fanout(self.debug_connections(), MessageView::Push { key: key@, value: b.value, seq: b.seq }),
                None => Seq::empty(),
            }
        };
        let to_sink = if i.spec_mutates() && self.has_replica_sink() {
            seq![DeliveryView::ToReplicaSink(i)]
        } else {
            Seq::empty()
        };
        let to_regular = match i.broadcast {
            Some(b) => fanout(self.connections(), MessageView::Push { key: key@, value: b.value, seq: b.seq }),
            None => Seq::empty(),
        };
        to_replicas + to_debug + to_sink + to_regular
    }

    /// The reply to the sender of `message`.
    pub open spec fn response_for(&self, message: MessageToDatabase) -> Option<MessageView> {
        match message {
            MessageToDatabase::Push { key, value, action } => {
                let size = state_of(after_push(self.store_view(), key, value, action), key@).values.len();
                if size > 1 {
                    Some(MessageView::StreamSize { key: key@, size: size as usize })
                } else {
                    None
                }
            },
            MessageToDatabase::Get { seq, key } =>
                Some(MessageView::Init { key: key@, data: at_or_after(state_of(self.store_view(), key@).values, seq.0) }),
            MessageToDatabase::Ping { nonce } => Some(MessageView::Pong { nonce }),
        }
    }

    /// Handles one message: a push is applied to the store and its deliveries
    /// are added to `outbox`; a read or a ping only answers.
    pub fn send_message(&mut self, message: &MessageToDatabase, outbox: &mut Vec<Delivery>) -> (r: Option<MessageFromDatabase>)
        requires
            old(self).wf(),
            old(self).accepts(*message),
        ensures
            final(self).wf(),
            final(self).has_replica_sink() == old(self).has_replica_sink(),
            match r {
                Some(m) => old(self).response_for(*message) == Some(m@),
                None => old(self).response_for(*message) is None,
            },
            match *message {
                MessageToDatabase::Push { key, value, action } => {
                    &&& final(self).store_view() == after_push(old(self).store_view(), key, value, action)
                    &&& deliveries_view(final(outbox)@) == deliveries_view(old(outbox)@) + old(self).push_deliveries(key, value, action)
                    &&& final(self).replica_connections() == live(old(self).replica_connections())
                    &&& final(self).debug_connections() == live(old(self).debug_connections())
                    &&& final(self).connections() == if action is Compact {
                        old(self).connections()
                    } else {
                        live(old(self).connections())
                    }
                },
                _ => {
                    &&& final(self).store_view() == old(self).store_view()
                    &&& final(outbox)@ == old(outbox)@
                    &&& final(self).replica_connections() == old(self).replica_connections()
                    &&& final(self).debug_connections() == old(self).debug_connections()
                    &&& final(self).connections() == old(self).connections()
                },
            },
    {
        match message {
            MessageToDatabase::Push { key, value, action } => {
                let ghost m0 = self.store@;
                proof { self.store.lemma_streams_wf(key@); }
                let instruction = self.store.convert_to_instruction(key, value.clone(), action);
                proof { self.store.lemma_streams_wf(key@); }
                let stream_size = self.store.apply(&instruction);
                let ghost after = self.store@;
                assert(after == after_push(m0, *key, *value, *action));
                let ghost out0 = deliveries_view(outbox@);

                let replica_message = MessageFromDatabase::ReplicaInstruction(ReplicaInstruction::StoreInstruction(instruction.duplicate()));
                fan_out(&mut self.replica_connections, &replica_message, outbox);
                let ghost out1 = deliveries_view(outbox@);

                if instruction.mutates() {
                    let data = self.store.get(key, SequenceNumber(0));
                    let debug_message = MessageFromDatabase::Init { data, key: key.clone() };
                    fan_out(&mut self.debug_connections, &debug_message, outbox);
                } else {
                    match &instruction.broadcast {
                        Some(seq_value) => {
                            let debug_message = MessageFromDatabase::Push {
                                key: key.clone(),
                                value: seq_value.value.clone(),
                                seq: seq_value.seq,
                            };
                            fan_out(&mut self.debug_connections, &debug_message, outbox);
                        },
                        None => {},
                    }
                }
                let ghost out2 = deliveries_view(outbox@);

                if instruction.mutates() && self.replica_callback {
                    let d = Delivery::ToReplicaSink(instruction.duplicate());
                    proof { lemma_deliveries_push(outbox@, d); }
                    outbox.push(d);
                }
                let ghost out3 = deliveries_view(outbox@);

                match &instruction.broadcast {
                    Some(seq_value) => {
                        let message = MessageFromDatabase::Push {
                            key: key.clone(),
                            value: seq_value.value.clone(),
                            seq: seq_value.seq,
                        };
                        fan_out(&mut self.connections, &message, outbox);
                    },
                    None => {},
                }
                proof {
                    let pd = old(self).push_deliveries(*key, *value, *action);
                    assert(deliveries_view(outbox@) =~= out0 + pd);
                }

                if stream_size > 1 {
                    return Some(MessageFromDatabase::StreamSize { key: key.clone(), size: stream_size });
                }
                None
            },
            MessageToDatabase::Get { seq, key } => {
                let data = self.store.get(key, *seq);
                Some(MessageFromDatabase::Init { data, key: key.clone() })
            },
            MessageToDatabase::Ping { nonce } => Some(MessageFromDatabase::Pong { nonce: *nonce }),
        }
    }
}

/// A room's database, with the registration of subscribers.
pub struct Database {
    inner: DatabaseInner,
    next_id: u64,
}

/// A delivery to `id` of one key's whole stream in `store`.
pub open spec fn is_stream_for(d: DeliveryView, id: u64, store: Map<Seq<char>, StreamModel>) -> bool {
    match d {
        DeliveryView::ToConnection { id: to, message: MessageView::Init { key, data } } =>
            to == id && store.contains_key(key) && data == store[key].values,
        _ => false,
    }
}

/// The key of a delivered stream.
pub open spec fn stream_key(d: DeliveryView) -> Seq<char> {
    match d {
        DeliveryView::ToConnection { message: MessageView::Init { key, .. }, .. } => key,
        _ => Seq::empty(),
    }
}

/// Every subscriber id on the list is below `bound`.
pub open spec fn ids_below(subs: Seq<Subscriber>, bound: u64) -> bool {
    forall|i: int| 0 <= i < subs.len() ==> (#[trigger] subs[i]).id < bound
}

/// Whether a subscriber with `id` that was not dropped is on the list.
pub open spec fn is_live_on(subs: Seq<Subscriber>, id: u64) -> bool {
    exists|i: int| 0 <= i < subs.len() && (#[trigger] subs[i]).id == id && subs[i].alive
}

proof fn lemma_live_ids_below(subs: Seq<Subscriber>, bound: u64)
    requires
        ids_below(subs, bound),
    ensures
        ids_below(live(subs), bound),
{
    let l = live(subs);
    assert forall|i: int| 0 <= i < l.len() implies (#[trigger] l[i]).id < bound by {
        subs.lemma_filter_contains_rev(|s: Subscriber| s.alive, l[i]);
        assert(l.contains(l[i]));
    }
}

/// Marks every entry with `id` as dropped.
fn mark_dropped(subs: &mut Vec<Subscriber>, id: u64)
    ensures
        final(subs)@.len() == old(subs)@.len(),
        forall|i: int| 0 <= i < final(subs)@.len() ==> (#[trigger] final(subs)@[i]).id == old(subs)@[i].id
            && final(subs)@[i].alive == (old(subs)@[i].alive && old(subs)@[i].id != id),
{
    let mut i: usize = 0;
    while i < subs.len()
        invariant
            i <= subs@.len(),
            subs@.len() == old(subs)@.len(),
            forall|j: int| 0 <= j < subs@.len() ==> (#[trigger] subs@[j]).id == old(subs)@[j].id
                && subs@[j].alive == (old(subs)@[j].alive && (j >= i || old(subs)@[j].id != id)),
        decreases subs@.len() - i,
    {
        if subs[i].id == id {
            let s = Subscriber { id, alive: false };
            subs.set(i, s);
        }
        i = i + 1;
    }
}

impl Database {
    /// Well formed, with every registered id below the next one handed out.
    pub closed spec fn wf(&self) -> bool {
        &&& self.inner.wf()
        &&& ids_below(self.inner.connections@, self.next_id)
        &&& ids_below(self.inner.debug_connections@, self.next_id)
        &&& ids_below(self.inner.replica_connections@, self.next_id)
    }

    pub closed spec fn inner(&self) -> DatabaseInner {
        self.inner
    }

    /// The id that the next registration gets.
    pub closed spec fn next_id(&self) -> u64 {
        self.next_id
    }

    /// A subscriber with this id is registered and was not dropped.
    pub open spec fn is_live(&self, id: u64) -> bool {
        ||| is_live_on(self.inner().connections(), id)
        ||| is_live_on(self.inner().debug_connections(), id)
        ||| is_live_on(self.inner().replica_connections(), id)
    }

    pub fn new() -> (r: Database)
        ensures
            r.wf(),
            r.inner().store_view() == Map::<Seq<char>, StreamModel>::empty(),
            r.inner().connections() == Seq::<Subscriber>::empty(),
            r.inner().debug_connections() == Seq::<Subscriber>::empty(),
            r.inner().replica_connections() == Seq::<Subscriber>::empty(),
            !r.inner().has_replica_sink(),
            r.next_id() == 0,
    {
        Database::new_from_store(Store::new())
    }

    /// A database over an existing store, with no subscribers.
    pub fn new_from_store(store: Store) -> (r: Database)
        requires
            store.wf(),
        ensures
            r.wf(),
            r.inner().store_view() == store@,
            r.inner().connections() == Seq::<Subscriber>::empty(),
            r.inner().debug_connections() == Seq::<Subscriber>::empty(),
            r.inner().replica_connections() == Seq::<Subscriber>::empty(),
            !r.inner().has_replica_sink(),
            r.next_id() == 0,
    {
        Database {
            inner: DatabaseInner {
                connections: Vec::new(),
                debug_connections: Vec::new(),
                replica_connections: Vec::new(),
                replica_callback: false,
                store,
            },
            next_id: 0,
        }
    }

    /// Installs the replica sink: from now on every durable instruction is
    /// also delivered to it.
    pub fn set_replica_callback(&mut self)
        ensures
            final(self).wf() == old(self).wf(),
            final(self).inner().has_replica_sink(),
            final(self).inner().store_view() == old(self).inner().store_view(),
            final(self).inner().connections() == old(self).inner().connections(),
            final(self).inner().debug_connections() == old(self).inner().debug_connections(),
            final(self).inner().replica_connections() == old(self).inner().replica_connections(),
            final(self).next_id() == old(self).next_id(),
    {
        self.inner.replica_callback = true;
    }

    /// Handles one message; see `DatabaseInner::send_message`.
    pub fn send_message(&mut self, message: &MessageToDatabase, outbox: &mut Vec<Delivery>) -> (r: Option<MessageFromDatabase>)
        requires
            old(self).wf(),
            old(self).inner().accepts(*message),
        ensures
            final(self).wf(),
            final(self).next_id() == old(self).next_id(),
            final(self).inner().has_replica_sink() == old(self).inner().has_replica_sink(),
            match r {
                Some(m) => old(self).inner().response_for(*message) == Some(m@),
                None => old(self).inner().response_for(*message) is None,
            },
            match *message {
                MessageToDatabase::Push { key, value, action } => {
                    &&& final(self).inner().store_view() == after_push(old(self).inner().store_view(), key, value, action)
                    &&& deliveries_view(final(outbox)@) == deliveries_view(old(outbox)@)
                        + old(self).inner().push_deliveries(key, value, action)
                    &&& final(self).inner().replica_connections() == live(old(self).inner().replica_connections())
                    &&& final(self).inner().debug_connections() == live(old(self).inner().debug_connections())
                    &&& final(self).inner().connections() == if action is Compact {
                        old(self).inner().connections()
                    } else {
                        live(old(self).inner().connections())
                    }
                },
                _ => {
                    &&& final(self).inner().store_view() == old(self).inner().store_view()
                    &&& final(outbox)@ == old(outbox)@
                    &&& final(self).inner().replica_connections() == old(self).inner().replica_connections()
                    &&& final(self).inner().debug_connections() == old(self).inner().debug_connections()
                    &&& final(self).inner().connections() == old(self).inner().connections()
                },
            },
    {
        let ghost before = self.inner;
        let r = self.inner.send_message(message, outbox);
        proof {
            lemma_live_ids_below(before.connections@, self.next_id);
            lemma_live_ids_below(before.debug_connections@, self.next_id);
            lemma_live_ids_below(before.replica_connections@, self.next_id);
        }
        r
    }

    /// Whether `message` can be handled: see `DatabaseInner::accepts`.
    pub fn accepts(&self, message: &MessageToDatabase) -> (r: bool)
        requires
            self.wf(),
        ensures
            r == self.inner().accepts(*message),
    {
        match message {
            MessageToDatabase::Push { key, action, .. } => match action {
                Action::Compact { .. } => true,
                _ => self.inner.store.counter(key).0 < u64::MAX,
            },
            _ => true,
        }
    }

    /// In every stream of the database the sequence numbers rise strictly.
    pub proof fn lemma_sequences_increase(&self, key: Seq<char>)
        requires
            self.wf(),
        ensures
            crate::store::strictly_ordered(state_of(self.inner().store_view(), key).values),
    {
        self.inner.store.lemma_streams_wf(key);
    }

    /// A copy of the store.
    pub fn store_snapshot(&self) -> (r: Store)
        requires
            self.wf(),
        ensures
            r.wf(),
            r@ == self.inner().store_view(),
    {
        self.inner.store.snapshot()
    }

    /// Registers a regular subscriber, which receives every broadcast value.
    /// Gives `None`, and changes nothing, when the ids are used up.
    pub fn connect(&mut self) -> (r: Option<u64>)
        requires
            old(self).wf(),
        ensures
            final(self).wf(),
            r is None <==> old(self).next_id() == u64::MAX,
            r is None ==> *final(self) == *old(self),
            r is Some ==> {
                &&& r->0 == old(self).next_id()
                &&& final(self).next_id() == old(self).next_id() + 1
                &&& final(self).inner().connections() == old(self).inner().connections().push(Subscriber { id: r->0, alive: true })
                &&& final(self).inner().debug_connections() == old(self).inner().debug_connections()
                &&& final(self).inner().replica_connections() == old(self).inner().replica_connections()
                &&& final(self).inner().store_view() == old(self).inner().store_view()
                &&& final(self).inner().has_replica_sink() == old(self).inner().has_replica_sink()
            },
    {
        if self.next_id == u64::MAX {
            return None;
        }
        let id = self.next_id;
        self.inner.connections.push(Subscriber { id, alive: true });
        self.next_id = id + 1;
        Some(id)
    }

    /// Registers a debug subscriber: it first receives the stream of every
    /// key in the store, then the new stream of a key at each durable push and
    /// each relayed value.
    pub fn connect_debug(&mut self, outbox: &mut Vec<Delivery>) -> (r: Option<u64>)
        requires
            old(self).wf(),
        ensures
            final(self).wf(),
            r is None <==> old(self).next_id() == u64::MAX,
            r is None ==> *final(self) == *old(self) && final(outbox)@ == old(outbox)@,
            r is Some ==> {
                let id = r->0;
                let added = final(outbox)@.subrange(old(outbox)@.len() as int, final(outbox)@.len() as int);
                let store = old(self).inner().store_view();
                &&& id == old(self).next_id()
                &&& final(self).next_id() == old(self).next_id() + 1
                &&& final(outbox)@.subrange(0, old(outbox)@.len() as int) == old(outbox)@
                &&& forall|a: int, b: int| 0 <= a < added.len() && 0 <= b < added.len() && a != b
                    ==> stream_key(#[trigger] added[a]@) != stream_key(#[trigger] added[b]@)
                &&& forall|j: int| 0 <= j < added.len() ==> is_stream_for(#[trigger] added[j]@, id, store)
                &&& forall|k: Seq<char>| store.contains_key(k) ==> exists|j: int| 0 <= j < added.len() && stream_key(#[trigger] added[j]@) == k
                &&& final(self).inner().debug_connections() == old(self).inner().debug_connections().push(Subscriber { id, alive: true })
                &&& final(self).inner().connections() == old(self).inner().connections()
                &&& final(self).inner().replica_connections() == old(self).inner().replica_connections()
                &&& final(self).inner().store_view() == store
                &&& final(self).inner().has_replica_sink() == old(self).inner().has_replica_sink()
            },
    {
        if self.next_id == u64::MAX {
            return None;
        }
        let id = self.next_id;
        let dump = self.inner.store.dump();
        let ghost start = outbox@.len();
        let mut i: usize = 0;
        while i < dump.len()
            invariant
                i <= dump@.len(),
                start == old(outbox)@.len(),
                outbox@.len() == start + i,
                outbox@.subrange(0, start as int) == old(outbox)@,
                forall|j: int| 0 <= j < i ==> (#[trigger] outbox@[start + j])@ == (DeliveryView::ToConnection {
                    id,
                    message: MessageView::Init { key: dump@[j].0@, data: dump@[j].1@ },
                }),
            decreases dump@.len() - i,
        {
            let (key, values) = &dump[i];
            outbox.push(Delivery::ToConnection { id, message: MessageFromDatabase::Init { key: key.clone(), data: crate::types::duplicate_values(values) } });
            i = i + 1;
            assert(outbox@.subrange(0, start as int) =~= old(outbox)@);
        }
        proof {
            let added = outbox@.subrange(start as int, outbox@.len() as int);
            let store = self.inner.store@;
            assert forall|j: int| 0 <= j < added.len() implies is_stream_for(#[trigger] added[j]@, id, store) by {
                assert(added[j] == outbox@[start + j]);
            }
            assert forall|k: Seq<char>| store.contains_key(k) implies exists|j: int| 0 <= j < added.len() && stream_key(#[trigger] added[j]@) == k by {
                let j = choose|j: int| 0 <= j < dump@.len() && (#[trigger] dump@[j]).0@ == k;
                assert(added[j] == outbox@[start + j]);
                assert(stream_key(added[j]@) == k);
            }
            assert forall|a: int, b: int| 0 <= a < added.len() && 0 <= b < added.len() && a != b
                implies stream_key(#[trigger] added[a]@) != stream_key(#[trigger] added[b]@) by {
                assert(added[a] == outbox@[start + a]);
                assert(added[b] == outbox@[start + b]);
            }
        }
        self.inner.debug_connections.push(Subscriber { id, alive: true });
        self.next_id = id + 1;
        Some(id)
    }

    /// Registers a replica subscriber: it first receives a copy of the whole
    /// store, then every instruction that a push resolves to.
    pub fn connect_replica(&mut self, outbox: &mut Vec<Delivery>) -> (r: Option<u64>)
        requires
            old(self).wf(),
        ensures
            final(self).wf(),
            r is None <==> old(self).next_id() == u64::MAX,
            r is None ==> *final(self) == *old(self) && final(outbox)@ == old(outbox)@,
            r is Some ==> {
                &&& r->0 == old(self).next_id()
                &&& final(self).next_id() == old(self).next_id() + 1
                &&& deliveries_view(final(outbox)@) == deliveries_view(old(outbox)@).push(DeliveryView::ToConnection {
                    id: r->0,
                    message: MessageView::ReplicaInit(old(self).inner().store_view()),
                })
                &&& final(self).inner().replica_connections() == old(self).inner().replica_connections().push(Subscriber { id: r->0, alive: true })
                &&& final(self).inner().connections() == old(self).inner().connections()
                &&& final(self).inner().debug_connections() == old(self).inner().debug_connections()
                &&& final(self).inner().store_view() == old(self).inner().store_view()
                &&& final(self).inner().has_replica_sink() == old(self).inner().has_replica_sink()
            },
    {
        if self.next_id == u64::MAX {
            return None;
        }
        let id = self.next_id;
        let message = MessageFromDatabase::ReplicaInstruction(ReplicaInstruction::InitInstruction(self.inner.store.snapshot()));
        let d = Delivery::ToConnection { id, message };
        proof { lemma_deliveries_push(outbox@, d); }
        outbox.push(d);
        self.inner.replica_connections.push(Subscriber { id, alive: true });
        self.next_id = id + 1;
        Some(id)
    }

    /// Drops the subscriber `id`: nothing is delivered to it any more, and the
    /// next dispatch over its list prunes it.
    pub fn drop_connection(&mut self, id: u64)
        requires
            old(self).wf(),
        ensures
            final(self).wf(),
            !final(self).is_live(id),
            forall|other: u64| other != id ==> (final(self).is_live(other) == old(self).is_live(other)),
            final(self).next_id() == old(self).next_id(),
            final(self).inner().store_view() == old(self).inner().store_view(),
            final(self).inner().has_replica_sink() == old(self).inner().has_replica_sink(),
    {
        mark_dropped(&mut self.inner.connections, id);
        mark_dropped(&mut self.inner.debug_connections, id);
        mark_dropped(&mut self.inner.replica_connections, id);
        proof {
            assert forall|other: u64| other != id implies (self.is_live(other) == old(self).is_live(other)) by {
                if is_live_on(old(self).inner.connections@, other) {
                    let i = choose|i: int| 0 <= i < old(self).inner.connections@.len() && (#[trigger] old(self).inner.connections@[i]).id == other && old(self).inner.connections@[i].alive;
                    assert(self.inner.connections@[i].id == other);
                }
                if is_live_on(old(self).inner.debug_connections@, other) {
                    let i = choose|i: int| 0 <= i < old(self).inner.debug_connections@.len() && (#[trigger] old(self).inner.debug_connections@[i]).id == other && old(self).inner.debug_connections@[i].alive;
                    assert(self.inner.debug_connections@[i].id == other);
                }
                if is_live_on(old(self).inner.replica_connections@, other) {
                    let i = choose|i: int| 0 <= i < old(self).inner.replica_connections@.len() && (#[trigger] old(self).inner.replica_connections@[i]).id == other && old(self).inner.replica_connections@[i].alive;
                    assert(self.inner.replica_connections@[i].id == other);
                }
                if is_live_on(self.inner.connections@, other) {
                    let i = choose|i: int| 0 <= i < self.inner.connections@.len() && (#[trigger] self.inner.connections@[i]).id == other && self.inner.connections@[i].alive;
                    assert(old(self).inner.connections@[i].id == other);
                }
                if is_live_on(self.inner.debug_connections@, other) {
                    let i = choose|i: int| 0 <= i < self.inner.debug_connections@.len() && (#[trigger] self.inner.debug_connections@[i]).id == other && self.inner.debug_connections@[i].alive;
                    assert(old(self).inner.debug_connections@[i].id == other);
                }
                if is_live_on(self.inner.replica_connections@, other) {
                    let i = choose|i: int| 0 <= i < self.inner.replica_connections@.len() && (#[trigger] self.inner.replica_connections@[i]).id == other && self.inner.replica_connections@[i].alive;
                    assert(old(self).inner.replica_connections@[i].id == other);
                }
            }
        }
    }
}

} // verus!

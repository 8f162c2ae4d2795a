use vstd::prelude::*;
use crate::types::{Action, SequenceNumber, SequenceValue, duplicate_values};

verus! {

/// What the store knows of one key: its counter and its durable stream.
pub struct StreamModel {
    pub counter: u64,
    pub values: Seq<SequenceValue>,
}

/// Sequence numbers rise strictly along the stream.
pub open spec fn strictly_ordered(values: Seq<SequenceValue>) -> bool {
    forall|a: int, b: int| 0 <= a < b < values.len() ==> values[a].seq.0 < values[b].seq.0
}

impl StreamModel {
    pub open spec fn empty() -> StreamModel {
        StreamModel { counter: 0, values: Seq::empty() }
    }

    /// Ordered by sequence number, none above the counter.
    pub open spec fn wf(self) -> bool {
        &&& strictly_ordered(self.values)
        &&& forall|i: int| 0 <= i < self.values.len() ==> self.values[i].seq.0 <= self.counter
    }
}

/// The state of `key` in a store model; a key never pushed to is empty.
pub open spec fn state_of(m: Map<Seq<char>, StreamModel>, key: Seq<char>) -> StreamModel {
    if m.contains_key(key) { m[key] } else { StreamModel::empty() }
}

pub open spec fn spec_max(a: u64, b: u64) -> u64 {
    if a >= b { a } else { b }
}

/// The entries kept by a read from `since` on.
pub open spec fn at_or_after(values: Seq<SequenceValue>, since: u64) -> Seq<SequenceValue> {
    values.filter(|e: SequenceValue| e.seq.0 >= since)
}

/// The stream after compaction at `seq` with `value`: the new entry, then every
/// entry with a larger sequence number.
pub open spec fn compacted(values: Seq<SequenceValue>, seq: u64, value: serde_json::Value) -> Seq<SequenceValue> {
    seq![SequenceValue { value, seq: SequenceNumber(seq) }] + values.filter(|e: SequenceValue| e.seq.0 > seq)
}

/// A push after it was resolved against the store.
#[derive(Clone, PartialEq, Debug)]
pub struct StoreInstruction {
    pub key: String,
    pub value: serde_json::Value,
    pub action: Action,
    pub broadcast: Option<SequenceValue>,
}

impl StoreInstruction {
    /// Durable actions change the stream; a relay does not.
    pub fn mutates(&self) -> (r: bool)
        ensures
            r == self.spec_mutates(),
    {
        match self.action {
            Action::Relay => false,
            _ => true,
        }
    }

    pub open spec fn spec_mutates(&self) -> bool {
        !(self.action is Relay)
    }

    pub fn duplicate(&self) -> (r: StoreInstruction)
        ensures
            r == *self,
    {
        let broadcast = match &self.broadcast {
            Some(b) => Some(b.duplicate()),
            None => None,
        };
        StoreInstruction { key: self.key.clone(), value: self.value.clone(), action: self.action, broadcast }
    }
}

/// The instruction that a push of `value` under `key` resolves to.
pub open spec fn instruction_for(
    m: Map<Seq<char>, StreamModel>,
    key: String,
    value: serde_json::Value,
    action: Action,
) -> StoreInstruction {
    StoreInstruction {
        key,
        value,
        action,
        broadcast: match action {
            Action::Compact { .. } => None,
            _ => Some(SequenceValue { value, seq: SequenceNumber((state_of(m, key@).counter + 1) as u64) }),
        },
    }
}

/// The state of the key after the instruction is applied to `st`.
pub open spec fn applied(st: StreamModel, i: StoreInstruction) -> StreamModel {
    let counter = match i.broadcast {
        Some(b) => spec_max(st.counter, b.seq.0),
        None => st.counter,
    };
    match i.action {
        Action::Relay => StreamModel { counter, values: st.values },
        Action::Append => StreamModel { counter, values: st.values.push(i.broadcast->0) },
        Action::Replace => StreamModel { counter, values: seq![i.broadcast->0] },
        Action::Compact { seq } => StreamModel {
            counter: spec_max(counter, seq.0),
            values: compacted(st.values, seq.0, i.value),
        },
    }
}

/// An instruction that keeps the stream ordered: durable ones other than a
/// compaction carry their entry, and an appended one comes after the stream.
pub open spec fn admits(st: StreamModel, i: StoreInstruction) -> bool {
    match i.action {
        Action::Append => i.broadcast is Some && (forall|j: int|
            0 <= j < st.values.len() ==> st.values[j].seq.0 < i.broadcast->0.seq.0),
        Action::Replace => i.broadcast is Some,
        _ => true,
    }
}

/// The stream of one key.
#[derive(Clone, PartialEq, Debug)]
pub struct KeyStream {
    pub key: String,
    pub counter: SequenceNumber,
    pub values: Vec<SequenceValue>,
}

impl KeyStream {
    pub open spec fn model(&self) -> StreamModel {
        StreamModel { counter: self.counter.0, values: self.values@ }
    }
}

pub open spec fn keys_unique(s: Seq<KeyStream>) -> bool {
    forall|a: int, b: int| 0 <= a < s.len() && 0 <= b < s.len() && a != b ==> s[a].key@ != s[b].key@
}

pub open spec fn streams_view(s: Seq<KeyStream>) -> Map<Seq<char>, StreamModel>
    decreases s.len(),
{
    if s.len() == 0 {
        Map::empty()
    } else {
        streams_view(s.drop_last()).insert(s.last().key@, s.last().model())
    }
}

proof fn lemma_view_index(s: Seq<KeyStream>, i: int)
    requires
        keys_unique(s),
        0 <= i < s.len(),
    ensures
        streams_view(s).contains_key(s[i].key@),
        streams_view(s)[s[i].key@] == s[i].model(),
    decreases s.len(),
{
    if i < s.len() - 1 {
        let t = s.drop_last();
        assert(keys_unique(t));
        lemma_view_index(t, i);
        assert(s[i].key@ != s.last().key@);
    }
}

proof fn lemma_view_keys(s: Seq<KeyStream>, k: Seq<char>)
    ensures
        streams_view(s).contains_key(k) <==> exists|i: int| 0 <= i < s.len() && s[i].key@ == k,
    decreases s.len(),
{
    if s.len() > 0 {
        let t = s.drop_last();
        lemma_view_keys(t, k);
        if streams_view(t).contains_key(k) {
            let i = choose|i: int| 0 <= i < t.len() && t[i].key@ == k;
            assert(s[i].key@ == k);
        }
        if exists|i: int| 0 <= i < s.len() && s[i].key@ == k {
            let i = choose|i: int| 0 <= i < s.len() && s[i].key@ == k;
            if i < s.len() - 1 {
                assert(t[i].key@ == k);
            }
        }
    }
}

proof fn lemma_view_update(s: Seq<KeyStream>, i: int, e: KeyStream)
    requires
        keys_unique(s),
        0 <= i < s.len(),
        e.key@ == s[i].key@,
    ensures
        keys_unique(s.update(i, e)),
        streams_view(s.update(i, e)) == streams_view(s).insert(e.key@, e.model()),
    decreases s.len(),
{
    let u = s.update(i, e);
    let t = s.drop_last();
    if i == s.len() - 1 {
        assert(u.drop_last() =~= t);
        lemma_view_keys(t, e.key@);
        if streams_view(t).contains_key(e.key@) {
            let j = choose|j: int| 0 <= j < t.len() && t[j].key@ == e.key@;
            assert(s[j].key@ == s[i].key@);
        }
        assert(streams_view(u) =~= streams_view(s).insert(e.key@, e.model()));
    } else {
        assert(keys_unique(t));
        lemma_view_update(t, i, e);
        assert(u.drop_last() =~= t.update(i, e));
        assert(s.last().key@ != e.key@);
        assert(streams_view(u) =~= streams_view(s).insert(e.key@, e.model()));
    }
}

proof fn lemma_view_same(s: Seq<KeyStream>, r: Seq<KeyStream>)
    requires
        s.len() == r.len(),
        forall|i: int| 0 <= i < s.len() ==> s[i].key@ == r[i].key@ && s[i].model() == r[i].model(),
    ensures
        streams_view(s) == streams_view(r),
    decreases s.len(),
{
    if s.len() > 0 {
        lemma_view_same(s.drop_last(), r.drop_last());
    }
}

/// Filters `values` down to the entries at `bound` or after it (`inclusive`),
/// or strictly after it.
fn entries_from(values: &Vec<SequenceValue>, bound: u64, inclusive: bool) -> (r: Vec<SequenceValue>)
    ensures
        inclusive ==> r@ == values@.filter(|e: SequenceValue| e.seq.0 >= bound),
        !inclusive ==> r@ == values@.filter(|e: SequenceValue| e.seq.0 > bound),
        strictly_ordered(values@) ==> strictly_ordered(r@),
        forall|j: int| 0 <= j < r@.len() ==> (if inclusive { r@[j].seq.0 >= bound } else { r@[j].seq.0 > bound }),
{
    let ghost pred = if inclusive {
        |e: SequenceValue| e.seq.0 >= bound
    } else {
        |e: SequenceValue| e.seq.0 > bound
    };
    let mut r: Vec<SequenceValue> = Vec::new();
    let mut i: usize = 0;
    while i < values.len()
        invariant
            i <= values.len(),
            pred == (if inclusive { |e: SequenceValue| e.seq.0 >= bound } else { |e: SequenceValue| e.seq.0 > bound }),
            r@ == values@.subrange(0, i as int).filter(pred),
            strictly_ordered(values@) ==> strictly_ordered(r@),
            strictly_ordered(values@) && i < values.len() && r@.len() > 0 ==> r@.last().seq.0 < values@[i as int].seq.0,
            forall|j: int| 0 <= j < r@.len() ==> pred(r@[j]),
        decreases values.len() - i,
    {
        let e = &values[i];
        let keep = if inclusive { e.seq.0 >= bound } else { e.seq.0 > bound };
        proof {
            let sub = values@.subrange(0, i as int + 1);
            assert(sub.drop_last() =~= values@.subrange(0, i as int));
            reveal(Seq::filter);
            assert(sub.filter(pred) == if pred(sub.last()) {
                values@.subrange(0, i as int).filter(pred).push(sub.last())
            } else {
                values@.subrange(0, i as int).filter(pred)
            });
        }
        if keep {
            r.push(e.duplicate());
        }
        i = i + 1;
    }
    assert(values@.subrange(0, values.len() as int) =~= values@);
    r
}

/// The counter and stream that one part of a stored snapshot gives its key.
pub open spec fn part_model(p: (String, SequenceNumber, Vec<SequenceValue>)) -> StreamModel {
    StreamModel { counter: p.1.0, values: p.2@ }
}

/// Keys appear once, and every stream is ordered below its counter.
pub open spec fn parts_valid(parts: Seq<(String, SequenceNumber, Vec<SequenceValue>)>) -> bool {
    &&& forall|a: int, b: int| 0 <= a < parts.len() && 0 <= b < parts.len() && a != b
        ==> (#[trigger] parts[a]).0@ != (#[trigger] parts[b]).0@
    &&& forall|a: int| 0 <= a < parts.len() ==> part_model(#[trigger] parts[a]).wf()
}

/// Whether `values` is ordered by sequence number, none above `counter`.
fn stream_is_ordered(values: &Vec<SequenceValue>, counter: SequenceNumber) -> (r: bool)
    ensures
        r == (StreamModel { counter: counter.0, values: values@ }).wf(),
{
    let mut i: usize = 0;
    while i < values.len()
        invariant
            i <= values@.len(),
            strictly_ordered(values@.subrange(0, i as int)),
            forall|j: int| 0 <= j < i ==> (#[trigger] values@[j]).seq.0 <= counter.0,
        decreases values@.len() - i,
    {
        if values[i].seq.0 > counter.0 {
            return false;
        }
        if i > 0 && values[i - 1].seq.0 >= values[i].seq.0 {
            assert(values@.subrange(0, i as int + 1)[i - 1] == values@[i - 1]);
            return false;
        }
        proof {
            let p = values@.subrange(0, i as int);
            let q = values@.subrange(0, i as int + 1);
            assert forall|a: int, b: int| 0 <= a < b < q.len() implies q[a].seq.0 < q[b].seq.0 by {
                if b < i {
                    assert(q[a] == p[a] && q[b] == p[b]);
                } else if a < i - 1 {
                    assert(q[a] == p[a] && p[i - 1] == q[i - 1]);
                }
            }
        }
        i = i + 1;
    }
    assert(values@.subrange(0, values@.len() as int) =~= values@);
    true
}

/// Every key's counter and durable stream.
#[derive(Clone, PartialEq, Debug)]
pub struct Store {
    streams: Vec<KeyStream>,
}

impl View for Store {
    type V = Map<Seq<char>, StreamModel>;

    closed spec fn view(&self) -> Map<Seq<char>, StreamModel> {
        streams_view(self.streams@)
    }
}

impl Store {
    /// Keys are unique and every stream is ordered below its counter.
    pub closed spec fn wf(&self) -> bool {
        &&& keys_unique(self.streams@)
        &&& forall|i: int| 0 <= i < self.streams@.len() ==> (#[trigger] self.streams@[i]).model().wf()
    }

    pub fn new() -> (r: Store)
        ensures
            r.wf(),
            r@ == Map::<Seq<char>, StreamModel>::empty(),
    {
        Store { streams: Vec::new() }
    }

    /// Every stream of a well-formed store is ordered below its counter.
    pub proof fn lemma_streams_wf(&self, key: Seq<char>)
        requires
            self.wf(),
        ensures
            state_of(self@, key).wf(),
    {
        lemma_view_keys(self.streams@, key);
        if self@.contains_key(key) {
            let i = choose|i: int| 0 <= i < self.streams@.len() && self.streams@[i].key@ == key;
            lemma_view_index(self.streams@, i);
        }
    }

    fn find(&self, key: &String) -> (r: Option<usize>)
        requires
            self.wf(),
        ensures
            match r {
                Some(i) => i < self.streams@.len() && self.streams@[i as int].key@ == key@
                    && self@.contains_key(key@) && self@[key@] == self.streams@[i as int].model(),
                None => !self@.contains_key(key@),
            },
    {
        let mut i: usize = 0;
        while i < self.streams.len()
            invariant
                self.wf(),
                i <= self.streams@.len(),
                forall|j: int| 0 <= j < i ==> self.streams@[j].key@ != key@,
            decreases self.streams@.len() - i,
        {
            if self.streams[i].key == *key {
                proof { lemma_view_index(self.streams@, i as int); }
                return Some(i);
            }
            i = i + 1;
        }
        proof { lemma_view_keys(self.streams@, key@); }
        None
    }

    /// Sets the stream of `key`, adding the key where it is missing.
    fn put(&mut self, found: Option<usize>, entry: KeyStream)
        requires
            old(self).wf(),
            entry.model().wf(),
            match found {
                Some(i) => i < old(self).streams@.len() && old(self).streams@[i as int].key@ == entry.key@,
                None => !old(self)@.contains_key(entry.key@),
            },
        ensures
            final(self).wf(),
            final(self)@ == old(self)@.insert(entry.key@, entry.model()),
    {
        let ghost k = entry.key@;
        let ghost m = entry.model();
        match found {
            Some(i) => {
                proof { lemma_view_update(self.streams@, i as int, entry); }
                self.streams.set(i, entry);
            }
            None => {
                proof { lemma_view_keys(self.streams@, k); }
                self.streams.push(entry);
                assert(self.streams@.drop_last() =~= old(self).streams@);
            }
        }
        assert(self.wf()) by {
            assert forall|i: int| 0 <= i < self.streams@.len() implies (#[trigger] self.streams@[i]).model().wf() by {
                if self.streams@[i].key@ != k {
                    assert(self.streams@[i] == old(self).streams@[i]);
                }
            }
        }
    }

    /// Resolves a push: picks the sequence number that its value is broadcast
    /// with, and advances the key's counter to it. A compaction changes nothing
    /// here.
    pub fn convert_to_instruction(&mut self, key: &String, value: serde_json::Value, action: &Action) -> (r: StoreInstruction)
        requires
            old(self).wf(),
            !(*action is Compact) ==> state_of(old(self)@, key@).counter < u64::MAX,
        ensures
            final(self).wf(),
            r == instruction_for(old(self)@, *key, value, *action),
            *action is Compact ==> final(self)@ == old(self)@,
            !(*action is Compact) ==> final(self)@ == old(self)@.insert(
                key@,
                StreamModel { counter: r.broadcast->0.seq.0, values: state_of(old(self)@, key@).values },
            ),
    {
        if let Action::Compact { .. } = action {
            return StoreInstruction { key: key.clone(), value, action: *action, broadcast: None };
        }
        let found = self.find(key);
        let (counter, values) = match found {
            Some(i) => (self.streams[i].counter.0, duplicate_values(&self.streams[i].values)),
            None => (0u64, Vec::new()),
        };
        proof { if found is Some { assert(self.streams@[found->0 as int].model().wf()); } }
        let seq = SequenceNumber(counter + 1);
        self.put(found, KeyStream { key: key.clone(), counter: seq, values });
        StoreInstruction {
            key: key.clone(),
            value: value.clone(),
            action: *action,
            broadcast: Some(SequenceValue { value, seq }),
        }
    }

    /// Commits an instruction to the key's state; returns how many durable
    /// entries the key then has.
    pub fn apply(&mut self, instruction: &StoreInstruction) -> (r: usize)
        requires
            old(self).wf(),
            admits(state_of(old(self)@, instruction.key@), *instruction),
        ensures
            final(self).wf(),
            final(self)@ == old(self)@.insert(instruction.key@, applied(state_of(old(self)@, instruction.key@), *instruction)),
            r == applied(state_of(old(self)@, instruction.key@), *instruction).values.len(),
    {
        let ghost st = state_of(self@, instruction.key@);
        proof { self.lemma_streams_wf(instruction.key@); }
        let found = self.find(&instruction.key);
        let (old_counter, old_values) = match found {
            Some(i) => (self.streams[i].counter.0, duplicate_values(&self.streams[i].values)),
            None => (0u64, Vec::new()),
        };
        assert(old_values@ == st.values && old_counter == st.counter);
        let mut counter = match &instruction.broadcast {
            Some(b) => if old_counter >= b.seq.0 { old_counter } else { b.seq.0 },
            None => old_counter,
        };
        let values = match instruction.action {
            Action::Relay => old_values,
            Action::Append => {
                let mut v = old_values;
                match &instruction.broadcast {
                    Some(b) => v.push(b.duplicate()),
                    None => {},
                }
                v
            },
            Action::Replace => {
                let mut v: Vec<SequenceValue> = Vec::new();
                match &instruction.broadcast {
                    Some(b) => v.push(b.duplicate()),
                    None => {},
                }
                v
            },
            Action::Compact { seq } => {
                if counter < seq.0 {
                    counter = seq.0;
                }
                let rest = entries_from(&old_values, seq.0, false);
                let mut v: Vec<SequenceValue> = Vec::new();
                v.push(SequenceValue { value: instruction.value.clone(), seq });
                let mut j: usize = 0;
                while j < rest.len()
                    invariant
                        j <= rest@.len(),
                        v@ == seq![SequenceValue { value: instruction.value, seq }] + rest@.subrange(0, j as int),
                    decreases rest@.len() - j,
                {
                    v.push(rest[j].duplicate());
                    j = j + 1;
                    assert(v@ =~= seq![SequenceValue { value: instruction.value, seq }] + rest@.subrange(0, j as int));
                }
                assert(rest@.subrange(0, rest@.len() as int) =~= rest@);
                v
            },
        };
        let ghost after = applied(st, *instruction);
        assert(values@ =~= after.values);
        assert(counter == after.counter);
        assert(after.wf()) by {
            match instruction.action {
                Action::Compact { seq } => {
                    let rest = st.values.filter(|e: SequenceValue| e.seq.0 > seq.0);
                    assert forall|a: int, b: int| 0 <= a < b < after.values.len() implies
                        after.values[a].seq.0 < after.values[b].seq.0 by {
                        if a > 0 {
                            assert(after.values[a] == rest[a - 1]);
                        }
                        assert(after.values[b] == rest[b - 1]);
                    }
                    assert forall|i: int| 0 <= i < after.values.len() implies after.values[i].seq.0 <= after.counter by {
                        if i > 0 {
                            assert(after.values[i] == rest[i - 1]);
                            assert(rest.contains(rest[i - 1]));
                            st.values.lemma_filter_contains_rev(|e: SequenceValue| e.seq.0 > seq.0, rest[i - 1]);
                        }
                    }
                },
                _ => {},
            }
        }
        let size = values.len();
        self.put(found, KeyStream { key: instruction.key.clone(), counter: SequenceNumber(counter), values });
        size
    }

    /// The durable entries of `key` from `seq` on, oldest first; a missing key
    /// gives none.
    pub fn get(&self, key: &String, seq: SequenceNumber) -> (r: Vec<SequenceValue>)
        requires
            self.wf(),
        ensures
            r@ == at_or_after(state_of(self@, key@).values, seq.0),
    {
        match self.find(key) {
            Some(i) => entries_from(&self.streams[i].values, seq.0, true),
            None => {
                proof {
                    reveal(Seq::filter);
                }
                Vec::new()
            },
        }
    }

    /// Every key with its durable stream.
    pub fn dump(&self) -> (r: Vec<(String, Vec<SequenceValue>)>)
        requires
            self.wf(),
        ensures
            forall|k: Seq<char>| self@.contains_key(k) <==> exists|i: int| 0 <= i < r@.len() && (#[trigger] r@[i]).0@ == k,
            forall|i: int| 0 <= i < r@.len() ==> self@.contains_key((#[trigger] r@[i]).0@)
                && r@[i].1@ == self@[r@[i].0@].values,
            forall|a: int, b: int| 0 <= a < r@.len() && 0 <= b < r@.len() && a != b ==> r@[a].0@ != r@[b].0@,
    {
        let mut r: Vec<(String, Vec<SequenceValue>)> = Vec::new();
        let mut i: usize = 0;
        while i < self.streams.len()
            invariant
                self.wf(),
                i <= self.streams@.len(),
                r@.len() == i,
                forall|j: int| 0 <= j < i ==> (#[trigger] r@[j]).0@ == self.streams@[j].key@
                    && r@[j].1@ == self.streams@[j].values@,
            decreases self.streams@.len() - i,
        {
            r.push((self.streams[i].key.clone(), duplicate_values(&self.streams[i].values)));
            i = i + 1;
        }
        assert forall|k: Seq<char>| self@.contains_key(k) <==> exists|i: int| 0 <= i < r@.len() && (#[trigger] r@[i]).0@ == k by {
            lemma_view_keys(self.streams@, k);
            if self@.contains_key(k) {
                let j = choose|j: int| 0 <= j < self.streams@.len() && self.streams@[j].key@ == k;
                assert(r@[j].0@ == k);
            }
        }
        assert forall|i: int| 0 <= i < r@.len() implies self@.contains_key((#[trigger] r@[i]).0@)
            && r@[i].1@ == self@[r@[i].0@].values by {
            lemma_view_index(self.streams@, i);
        }
        r
    }

    /// The counter of `key`: the largest sequence number it has handed out.
    pub fn counter(&self, key: &String) -> (r: SequenceNumber)
        requires
            self.wf(),
        ensures
            r.0 == state_of(self@, key@).counter,
    {
        match self.find(key) {
            Some(i) => self.streams[i].counter,
            None => SequenceNumber(0),
        }
    }

    /// Builds a store from each key's counter and stream. Gives `None` when a
    /// key comes twice, or when a stream is out of order or above its counter.
    pub fn from_streams(parts: &Vec<(String, SequenceNumber, Vec<SequenceValue>)>) -> (r: Option<Store>)
        ensures
            r is Some <==> parts_valid(parts@),
            r is Some ==> {
                &&& r->0.wf()
                &&& forall|k: Seq<char>| r->0@.contains_key(k) <==> exists|i: int| 0 <= i < parts@.len() && (#[trigger] parts@[i]).0@ == k
                &&& forall|i: int| 0 <= i < parts@.len() ==> r->0@[(#[trigger] parts@[i]).0@] == part_model(parts@[i])
            },
    {
        let mut store = Store::new();
        let mut i: usize = 0;
        while i < parts.len()
            invariant
                i <= parts@.len(),
                store.wf(),
                parts_valid(parts@.subrange(0, i as int)),
                forall|k: Seq<char>| store@.contains_key(k) <==> exists|j: int| 0 <= j < i && (#[trigger] parts@[j]).0@ == k,
                forall|j: int| 0 <= j < i ==> store@[(#[trigger] parts@[j]).0@] == part_model(parts@[j]),
            decreases parts@.len() - i,
        {
            let (key, counter, values) = &parts[i];
            let ghost pre = parts@.subrange(0, i as int + 1);
            if !stream_is_ordered(values, *counter) {
                assert(pre[i as int] == parts@[i as int]);
                return None;
            }
            let found = store.find(key);
            if found.is_some() {
                let ghost j = choose|j: int| 0 <= j < i && (#[trigger] parts@[j]).0@ == key@;
                assert(pre[j] == parts@[j] && pre[i as int] == parts@[i as int]);
                return None;
            }
            store.put(None, KeyStream { key: key.clone(), counter: *counter, values: duplicate_values(values) });
            i = i + 1;
            assert forall|a: int, b: int| 0 <= a < i && 0 <= b < i && a != b implies
                (#[trigger] parts@.subrange(0, i as int)[a]).0@ != (#[trigger] parts@.subrange(0, i as int)[b]).0@ by {
                if a < i - 1 && b < i - 1 {
                    assert(parts@.subrange(0, i as int)[a] == parts@.subrange(0, i - 1)[a]);
                    assert(parts@.subrange(0, i as int)[b] == parts@.subrange(0, i - 1)[b]);
                }
            }
            assert forall|a: int| 0 <= a < i implies part_model(#[trigger] parts@.subrange(0, i as int)[a]).wf() by {
                if a < i - 1 {
                    assert(parts@.subrange(0, i as int)[a] == parts@.subrange(0, i - 1)[a]);
                }
            }
        }
        assert(parts@.subrange(0, parts@.len() as int) =~= parts@);
        Some(store)
    }

    /// A copy of the store with the same content.
    pub fn snapshot(&self) -> (r: Store)
        requires
            self.wf(),
        ensures
            r.wf(),
            r@ == self@,
    {
        let mut streams: Vec<KeyStream> = Vec::new();
        let mut i: usize = 0;
        while i < self.streams.len()
            invariant
                self.wf(),
                i <= self.streams@.len(),
                streams@.len() == i,
                forall|j: int| 0 <= j < i ==> (#[trigger] streams@[j]).key@ == self.streams@[j].key@
                    && streams@[j].model() == self.streams@[j].model(),
            decreases self.streams@.len() - i,
        {
            let s = &self.streams[i];
            streams.push(KeyStream { key: s.key.clone(), counter: s.counter, values: duplicate_values(&s.values) });
            i = i + 1;
        }
        proof { lemma_view_same(self.streams@, streams@); }
        let r = Store { streams };
        assert(r.wf()) by {
            assert forall|i: int| 0 <= i < r.streams@.len() implies (#[trigger] r.streams@[i]).model().wf() by {
                assert(self.streams@[i].model().wf());
            }
        }
        r
    }
}

} // verus!

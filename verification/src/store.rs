use crate::error::CommandError;
use crate::key::{EventKey, KeyView};
use crate::time::Timestamp;
use vstd::prelude::*;

verus! {

/// What is kept of an event: the text shown for it and the moment it was
/// created or last reset.
pub ghost struct RecordView {
    pub description: Seq<char>,
    pub since: Timestamp,
}

/// The record of one event.
#[derive(Debug, PartialEq, Eq)]
pub struct EventRecord {
    pub description: String,
    pub since: Timestamp,
}

impl View for EventRecord {
    type V = RecordView;

    open spec fn view(&self) -> RecordView {
        RecordView { description: self.description@, since: self.since }
    }
}

impl Clone for EventRecord {
    fn clone(&self) -> (r: Self)
        ensures
            r@ == self@,
    {
        EventRecord { description: self.description.clone(), since: self.since }
    }
}

#[derive(Debug)]
struct Entry {
    key: EventKey,
    record: EventRecord,
}

spec fn holds(entries: Seq<Entry>, k: KeyView) -> bool {
    exists|i: int| 0 <= i < entries.len() && (#[trigger] entries[i]).key@ == k
}

spec fn slot(entries: Seq<Entry>, k: KeyView) -> int {
    choose|i: int| 0 <= i < entries.len() && (#[trigger] entries[i]).key@ == k
}

spec fn distinct(entries: Seq<Entry>) -> bool {
    forall|i: int, j: int|
        0 <= i < j < entries.len() ==> (#[trigger] entries[i]).key@ != (#[trigger] entries[j]).key@
}

spec fn model(entries: Seq<Entry>) -> Map<KeyView, RecordView> {
    Map::new(|k: KeyView| holds(entries, k), |k: KeyView| entries[slot(entries, k)].record@)
}

spec fn key_seq(entries: Seq<Entry>) -> Seq<KeyView> {
    Seq::new(entries.len(), |i: int| entries[i].key@)
}

proof fn lemma_slot(entries: Seq<Entry>, i: int)
    requires
        distinct(entries),
        0 <= i < entries.len(),
    ensures
        holds(entries, entries[i].key@),
        slot(entries, entries[i].key@) == i,
        model(entries).contains_key(entries[i].key@),
        model(entries)[entries[i].key@] == entries[i].record@,
{
    let k = entries[i].key@;
    assert(holds(entries, k));
    let j = slot(entries, k);
    assert(0 <= j < entries.len() && entries[j].key@ == k);
}

proof fn lemma_after_set(before: Seq<Entry>, i: int, e: Entry)
    requires
        distinct(before),
        0 <= i < before.len(),
        before[i].key@ == e.key@,
    ensures
        distinct(before.update(i, e)),
        model(before.update(i, e)) == model(before).insert(e.key@, e.record@),
        key_seq(before.update(i, e)) == key_seq(before),
{
    let after = before.update(i, e);
    assert(distinct(after)) by {
        assert forall|a: int, b: int| 0 <= a < b < after.len() implies (#[trigger] after[a]).key@
            != (#[trigger] after[b]).key@ by {
            assert(after[a].key@ == before[a].key@);
            assert(after[b].key@ == before[b].key@);
        }
    }
    assert(key_seq(after) =~= key_seq(before));
    let target = model(before).insert(e.key@, e.record@);
    assert forall|k: KeyView| model(after).contains_key(k) implies #[trigger] target.contains_key(k)
        && target[k] == model(after)[k] by {
        let j = slot(after, k);
        lemma_slot(after, j);
        if j != i {
            assert(before[j] == after[j]);
            lemma_slot(before, j);
        }
    }
    assert forall|k: KeyView| #[trigger] target.contains_key(k) implies model(after).contains_key(k) by {
        if k == e.key@ {
            lemma_slot(after, i);
        } else {
            let j = slot(before, k);
            assert(before[j] == after[j]);
            lemma_slot(after, j);
        }
    }
    assert(model(after) =~= target);
}

proof fn lemma_after_push(before: Seq<Entry>, e: Entry)
    requires
        distinct(before),
        !holds(before, e.key@),
    ensures
        distinct(before.push(e)),
        model(before.push(e)) == model(before).insert(e.key@, e.record@),
        key_seq(before.push(e)) == key_seq(before).push(e.key@),
{
    let after = before.push(e);
    let last = before.len() as int;
    assert(distinct(after)) by {
        assert forall|a: int, b: int| 0 <= a < b < after.len() implies (#[trigger] after[a]).key@
            != (#[trigger] after[b]).key@ by {
            assert(after[a] == before[a]);
            if b < last {
                assert(after[b] == before[b]);
            }
        }
    }
    assert(key_seq(after) =~= key_seq(before).push(e.key@));
    let target = model(before).insert(e.key@, e.record@);
    assert forall|k: KeyView| model(after).contains_key(k) implies #[trigger] target.contains_key(k)
        && target[k] == model(after)[k] by {
        let j = slot(after, k);
        lemma_slot(after, j);
        if j != last {
            assert(before[j] == after[j]);
            lemma_slot(before, j);
        }
    }
    assert forall|k: KeyView| #[trigger] target.contains_key(k) implies model(after).contains_key(k) by {
        if k == e.key@ {
            lemma_slot(after, last);
        } else {
            let j = slot(before, k);
            assert(before[j] == after[j]);
            lemma_slot(after, j);
        }
    }
    assert(model(after) =~= target);
}

proof fn lemma_after_remove(before: Seq<Entry>, i: int)
    requires
        distinct(before),
        0 <= i < before.len(),
    ensures
        distinct(before.remove(i)),
        model(before.remove(i)) == model(before).remove(before[i].key@),
        key_seq(before.remove(i)) == key_seq(before).remove(i),
{
    let after = before.remove(i);
    assert(distinct(after)) by {
        assert forall|a: int, b: int| 0 <= a < b < after.len() implies (#[trigger] after[a]).key@
            != (#[trigger] after[b]).key@ by {
            let a0 = if a < i { a } else { a + 1 };
            let b0 = if b < i { b } else { b + 1 };
            assert(after[a] == before[a0]);
            assert(after[b] == before[b0]);
        }
    }
    assert(key_seq(after) =~= key_seq(before).remove(i));
    let target = model(before).remove(before[i].key@);
    assert forall|k: KeyView| model(after).contains_key(k) implies #[trigger] target.contains_key(k)
        && target[k] == model(after)[k] by {
        let j = slot(after, k);
        lemma_slot(after, j);
        let j0 = if j < i { j } else { j + 1 };
        assert(after[j] == before[j0]);
        lemma_slot(before, j0);
        lemma_slot(before, i);
    }
    assert forall|k: KeyView| #[trigger] target.contains_key(k) implies model(after).contains_key(k) by {
        let j0 = slot(before, k);
        lemma_slot(before, j0);
        let j = if j0 < i { j0 } else { j0 - 1 };
        assert(after[j] == before[j0]);
        lemma_slot(after, j);
    }
    assert(model(after) =~= target);
}

/// The events of all communities: to each key at most one record. The keys
/// are kept in the order in which they first came.
#[derive(Debug)]
pub struct EventStore {
    entries: Vec<Entry>,
}

impl View for EventStore {
    type V = Map<KeyView, RecordView>;

    /// The record that each stored key has.
    closed spec fn view(&self) -> Map<KeyView, RecordView> {
        model(self.entries@)
    }
}

impl EventStore {
    /// Whether the store is in order: no two entries have the same key.
    pub closed spec fn wf(self) -> bool {
        distinct(self.entries@)
    }

    /// The stored keys, in the order in which the store hands them out.
    pub closed spec fn keys(self) -> Seq<KeyView> {
        key_seq(self.entries@)
    }

    /// A store without events.
    pub fn new() -> (r: EventStore)
        ensures
            r.wf(),
            r@ == Map::<KeyView, RecordView>::empty(),
            r.keys() == Seq::<KeyView>::empty(),
    {
        let r = EventStore { entries: Vec::new() };
        assert(r@ =~= Map::<KeyView, RecordView>::empty());
        assert(r.keys() =~= Seq::<KeyView>::empty());
        r
    }

    fn find(&self, key: &EventKey) -> (r: Option<usize>)
        ensures
            match r {
                Some(i) => i < self.entries@.len() && self.entries@[i as int].key@ == key@,
                None => !holds(self.entries@, key@),
            },
    {
        let mut i: usize = 0;
        while i < self.entries.len()
            invariant
                i <= self.entries@.len(),
                forall|j: int| 0 <= j < i ==> (#[trigger] self.entries@[j]).key@ != key@,
            decreases self.entries@.len() - i,
        {
            if self.entries[i].key.same_as(key) {
                return Some(i);
            }
            i += 1;
        }
        None
    }

    /// The record stored under `key`, if there is one. The store is left as
    /// it is.
    pub fn load(&self, key: &EventKey) -> (r: Option<EventRecord>)
        requires
            self.wf(),
        ensures
            r is Some <==> self@.contains_key(key@),
            r is Some ==> r.unwrap()@ == self@[key@],
    {
        match self.find(key) {
            Some(i) => {
                proof {
                    lemma_slot(self.entries@, i as int);
                }
                Some(self.entries[i].record.clone())
            },
            None => None,
        }
    }

    /// Stores `record` under `key`, in place of the record that the key had,
    /// if it had one. A key that is new comes last in the order of the keys.
    pub fn save(&mut self, key: EventKey, record: EventRecord)
        requires
            old(self).wf(),
        ensures
            final(self).wf(),
            final(self)@ == old(self)@.insert(key@, record@),
            final(self)@.contains_key(key@) && final(self)@[key@] == record@,
            final(self).keys() == if old(self)@.contains_key(key@) {
                old(self).keys()
            } else {
                old(self).keys().push(key@)
            },
    {
        let found = self.find(&key);
        let entry = Entry { key, record };
        match found {
            Some(i) => {
                proof {
                    lemma_slot(self.entries@, i as int);
                    lemma_after_set(self.entries@, i as int, entry);
                }
                self.entries.set(i, entry);
            },
            None => {
                proof {
                    lemma_after_push(self.entries@, entry);
                }
                self.entries.push(entry);
            },
        }
    }

    /// Takes the record under `key` out of the store; `NotFound` if there is
    /// none, and the store is then left as it is. The other keys keep their
    /// order.
    pub fn remove(&mut self, key: &EventKey) -> (r: Result<(), CommandError>)
        requires
            old(self).wf(),
        ensures
            final(self).wf(),
            r is Ok <==> old(self)@.contains_key(key@),
            r is Err ==> r == Err::<(), CommandError>(CommandError::NotFound),
            final(self)@ == old(self)@.remove(key@),
            !final(self)@.contains_key(key@),
            final(self).keys() == old(self).keys().remove_value(key@),
    {
        proof {
            lemma_keys_of(*self);
        }
        match self.find(key) {
            Some(i) => {
                proof {
                    lemma_slot(self.entries@, i as int);
                    lemma_after_remove(self.entries@, i as int);
                    lemma_remove_value(key_seq(self.entries@), i as int);
                }
                self.entries.remove(i);
                Ok(())
            },
            None => {
                assert(self@.remove(key@) =~= self@);
                proof {
                    let ks = key_seq(self.entries@);
                    assert(!ks.contains(key@));
                    assert(ks.index_of_first(key@) is None) by {
                        ks.index_of_first_ensures(key@);
                    }
                }
                Err(CommandError::NotFound)
            },
        }
    }

    /// How many events are stored.
    pub fn len(&self) -> (r: usize)
        ensures
            r == self.keys().len(),
    {
        self.entries.len()
    }

    /// The key at place `index` in the order of the keys.
    pub fn key_at(&self, index: usize) -> (r: EventKey)
        requires
            index < self.keys().len(),
        ensures
            r@ == self.keys()[index as int],
    {
        self.entries[index].key.clone()
    }

    /// All stored keys, in the store's order.
    pub fn list_keys(&self) -> (r: Vec<EventKey>)
        ensures
            r@.len() == self.keys().len(),
            forall|i: int| 0 <= i < r@.len() ==> (#[trigger] r@[i])@ == self.keys()[i],
    {
        let mut out: Vec<EventKey> = Vec::new();
        let mut i: usize = 0;
        while i < self.entries.len()
            invariant
                i <= self.entries@.len(),
                out@.len() == i,
                forall|j: int| 0 <= j < i ==> (#[trigger] out@[j])@ == self.entries@[j].key@,
            decreases self.entries@.len() - i,
        {
            out.push(self.entries[i].key.clone());
            i += 1;
        }
        out
    }
}

proof fn lemma_remove_value(keys: Seq<KeyView>, i: int)
    requires
        keys.no_duplicates(),
        0 <= i < keys.len(),
    ensures
        keys.remove_value(keys[i]) == keys.remove(i),
{
    keys.index_of_first_ensures(keys[i]);
}

/// The keys that a store hands out are those that have a record, each once.
pub proof fn lemma_keys_of(store: EventStore)
    requires
        store.wf(),
    ensures
        store.keys().no_duplicates(),
        forall|k: KeyView| store@.contains_key(k) <==> store.keys().contains(k),
{
    let entries = store.entries@;
    let ks = store.keys();
    assert forall|i: int, j: int| 0 <= i < ks.len() && 0 <= j < ks.len() && i != j implies ks[i]
        != ks[j] by {
        if i < j {
            assert(entries[i].key@ != entries[j].key@);
        } else {
            assert(entries[j].key@ != entries[i].key@);
        }
    }
    assert forall|k: KeyView| store@.contains_key(k) <==> store.keys().contains(k) by {
        if store@.contains_key(k) {
            let j = slot(entries, k);
            assert(ks[j] == k);
        }
        if ks.contains(k) {
            let j = choose|j: int| 0 <= j < ks.len() && ks[j] == k;
            lemma_slot(entries, j);
        }
    }
}

} // verus!

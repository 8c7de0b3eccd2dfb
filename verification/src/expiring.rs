//! The self-expiring store.
//!
//! The store keeps its entries in a table with one slot for each key, and an
//! index from sequence numbers to keys that is ordered by sequence number. A
//! touch gives the entry the next number of a counter, so the index lists the
//! entries from the one touched longest ago to the one touched last, and a
//! purge only has to look at its front.

use vstd::prelude::*;
use std::collections::BTreeMap;
use crate::clock::{Timestamp, TimeSpan, is_expired, wall_clock};
use crate::key::StoreKey;
use crate::store_view::{Entry, StoreView};

verus! {

/// One slot of the table: a key with its value, the sequence number of its
/// last touch and the time of that touch.
struct Slot<K, V> {
    key: K,
    value: V,
    insert_count: u64,
    insert_time: Timestamp,
}

/// A map from keys to values whose entries disappear when they have not been
/// touched for a fixed time.
pub struct Expiring<K: StoreKey, V> {
    values: Vec<Slot<K, V>>,
    by_insert: BTreeMap<u64, K>,
    insert_count: u64,
    expire_duration: TimeSpan,
}

/// Whether some slot holds the key with view `key`.
spec fn holds<K: StoreKey, V>(slots: Seq<Slot<K, V>>, key: K::V) -> bool {
    exists|i: int| 0 <= i < slots.len() && (#[trigger] slots[i]).key@ == key
}

/// The position of a slot that holds the key with view `key`.
spec fn slot_index<K: StoreKey, V>(slots: Seq<Slot<K, V>>, key: K::V) -> int {
    choose|i: int| 0 <= i < slots.len() && (#[trigger] slots[i]).key@ == key
}

/// The entry that a slot stands for.
spec fn entry_of<K: StoreKey, V>(slot: Slot<K, V>) -> Entry<V> {
    Entry { value: slot.value, sequence: slot.insert_count as nat, touched: slot.insert_time }
}

/// The entries that a table stands for.
spec fn entries_of<K: StoreKey, V>(slots: Seq<Slot<K, V>>) -> Map<K::V, Entry<V>> {
    Map::new(
        |key: K::V| holds(slots, key),
        |key: K::V| entry_of(slots[slot_index(slots, key)]),
    )
}

/// No two slots hold the same key.
spec fn distinct_keys<K: StoreKey, V>(slots: Seq<Slot<K, V>>) -> bool {
    forall|i: int, j: int|
        0 <= i < j < slots.len() ==> (#[trigger] slots[i]).key@ != (#[trigger] slots[j]).key@
}

/// In a table with distinct keys, a slot is found again under its own key.
proof fn lemma_slot_found<K: StoreKey, V>(slots: Seq<Slot<K, V>>, i: int)
    requires
        distinct_keys(slots),
        0 <= i < slots.len(),
    ensures
        holds(slots, slots[i].key@),
        slot_index(slots, slots[i].key@) == i,
        entries_of(slots).contains_key(slots[i].key@),
        entries_of(slots)[slots[i].key@] == entry_of(slots[i]),
{
    let key = slots[i].key@;
    assert(holds(slots, key));
    let j = slot_index(slots, key);
    assert(0 <= j < slots.len() && slots[j].key@ == key);
    if i < j {
        assert(slots[i].key@ != slots[j].key@);
    } else if j < i {
        assert(slots[j].key@ != slots[i].key@);
    }
}

/// A slot with a new key, put at the end of the table, adds its entry.
proof fn lemma_slot_pushed<K: StoreKey, V>(slots: Seq<Slot<K, V>>, slot: Slot<K, V>)
    requires
        distinct_keys(slots),
        !holds(slots, slot.key@),
    ensures
        distinct_keys(slots.push(slot)),
        entries_of(slots.push(slot)) == entries_of(slots).insert(slot.key@, entry_of(slot)),
{
    let longer = slots.push(slot);
    assert forall|i: int, j: int| 0 <= i < j < longer.len() implies (#[trigger] longer[i]).key@
        != (#[trigger] longer[j]).key@ by {
        if j < slots.len() {
            assert(slots[i].key@ != slots[j].key@);
        } else {
            assert(slots[i].key@ != slot.key@);
        }
    }
    let got = entries_of(longer);
    let want = entries_of(slots).insert(slot.key@, entry_of(slot));
    assert forall|key: K::V| got.contains_key(key) <==> want.contains_key(key) by {
        if holds(longer, key) {
            let i = slot_index(longer, key);
            if i < slots.len() {
                assert(slots[i].key@ == key);
            }
        }
        if holds(slots, key) {
            let i = slot_index(slots, key);
            assert(longer[i].key@ == key);
        }
        if key == slot.key@ {
            assert(longer[slots.len() as int].key@ == key);
        }
    }
    assert forall|key: K::V| got.contains_key(key) implies got[key] == want[key] by {
        let i = slot_index(longer, key);
        lemma_slot_found(longer, i);
        if i < slots.len() {
            assert(slots[i] == longer[i]);
            lemma_slot_found(slots, i);
        }
    }
    assert(got =~= want);
}

/// Taking a slot out of the table takes its entry out.
proof fn lemma_slot_removed<K: StoreKey, V>(slots: Seq<Slot<K, V>>, at: int)
    requires
        distinct_keys(slots),
        0 <= at < slots.len(),
    ensures
        distinct_keys(slots.remove(at)),
        !holds(slots.remove(at), slots[at].key@),
        entries_of(slots.remove(at)) == entries_of(slots).remove(slots[at].key@),
{
    let shorter = slots.remove(at);
    assert forall|i: int| 0 <= i < shorter.len() implies (#[trigger] shorter[i]) == slots[if i
        < at {
        i
    } else {
        i + 1
    }] by {}
    assert forall|i: int, j: int| 0 <= i < j < shorter.len() implies (#[trigger] shorter[i]).key@
        != (#[trigger] shorter[j]).key@ by {
        let a = if i < at { i } else { i + 1 };
        let b = if j < at { j } else { j + 1 };
        assert(slots[a].key@ != slots[b].key@);
    }
    if holds(shorter, slots[at].key@) {
        let i = slot_index(shorter, slots[at].key@);
        let a = if i < at { i } else { i + 1 };
        assert(shorter[i] == slots[a]);
        if a < at {
            assert(slots[a].key@ != slots[at].key@);
        } else {
            assert(slots[at].key@ != slots[a].key@);
        }
    }
    let got = entries_of(shorter);
    let want = entries_of(slots).remove(slots[at].key@);
    assert forall|key: K::V| got.contains_key(key) <==> want.contains_key(key) by {
        if holds(shorter, key) {
            let i = slot_index(shorter, key);
            let a = if i < at { i } else { i + 1 };
            assert(slots[a].key@ == key);
        }
        if holds(slots, key) && key != slots[at].key@ {
            let a = slot_index(slots, key);
            let i = if a < at { a } else { a - 1 };
            assert(shorter[i].key@ == key);
        }
    }
    assert forall|key: K::V| got.contains_key(key) implies got[key] == want[key] by {
        let i = slot_index(shorter, key);
        let a = if i < at { i } else { i + 1 };
        lemma_slot_found(shorter, i);
        assert(shorter[i] == slots[a]);
        lemma_slot_found(slots, a);
    }
    assert(got =~= want);
}

/// A new value in a slot changes the value of its entry and nothing else.
proof fn lemma_slot_revalued<K: StoreKey, V>(
    slots: Seq<Slot<K, V>>,
    at: int,
    slot: Slot<K, V>,
)
    requires
        distinct_keys(slots),
        0 <= at < slots.len(),
        slot.key@ == slots[at].key@,
    ensures
        distinct_keys(slots.update(at, slot)),
        entries_of(slots.update(at, slot)) == entries_of(slots).insert(
            slots[at].key@,
            entry_of(slot),
        ),
{
    let changed = slots.update(at, slot);
    assert forall|i: int, j: int| 0 <= i < j < changed.len() implies (#[trigger] changed[i]).key@
        != (#[trigger] changed[j]).key@ by {
        assert(slots[i].key@ != slots[j].key@);
    }
    let got = entries_of(changed);
    let want = entries_of(slots).insert(slots[at].key@, entry_of(slot));
    assert forall|key: K::V| got.contains_key(key) <==> want.contains_key(key) by {
        if holds(changed, key) {
            let i = slot_index(changed, key);
            assert(slots[i].key@ == key);
        }
        if holds(slots, key) {
            let i = slot_index(slots, key);
            assert(changed[i].key@ == key);
        }
        if key == slots[at].key@ {
            assert(changed[at].key@ == key);
        }
    }
    assert forall|key: K::V| got.contains_key(key) implies got[key] == want[key] by {
        let i = slot_index(changed, key);
        lemma_slot_found(changed, i);
        if i != at {
            assert(changed[i] == slots[i]);
            lemma_slot_found(slots, i);
        }
    }
    assert(got =~= want);
}

/// A table stands for as many entries as it has slots.
proof fn lemma_entries_finite<K: StoreKey, V>(slots: Seq<Slot<K, V>>)
    requires
        distinct_keys(slots),
    ensures
        entries_of(slots).dom().finite(),
        entries_of(slots).len() == slots.len(),
    decreases slots.len(),
{
    if slots.len() == 0 {
        assert(entries_of(slots).dom() =~= Set::<K::V>::empty());
    } else {
        let last = slots.len() - 1;
        let front = slots.remove(last);
        lemma_slot_removed(slots, last);
        lemma_entries_finite(front);
        lemma_slot_found(slots, last);
        assert(!entries_of(front).dom().contains(slots[last].key@));
        assert(entries_of(slots).dom() =~= entries_of(front).dom().insert(slots[last].key@));
    }
}

impl<K: StoreKey, V> Expiring<K, V> {
    /// The store as contracts see it.
    pub closed spec fn view(&self) -> StoreView<K::V, V> {
        StoreView {
            entries: entries_of(self.values@),
            next_sequence: self.insert_count as nat,
            lifetime: self.expire_duration,
        }
    }

    /// The table and the index agree: each key has one slot, each slot has one
    /// record in the index, under its sequence number, and each record of the
    /// index has its slot; and no sequence number has reached the counter.
    pub closed spec fn wf(&self) -> bool {
        &&& distinct_keys(self.values@)
        &&& forall|i: int|
            0 <= i < self.values@.len() ==> {
                &&& (#[trigger] self.values@[i]).insert_count < self.insert_count
                &&& self.by_insert@.contains_key(self.values@[i].insert_count)
                &&& self.by_insert@[self.values@[i].insert_count]@ == self.values@[i].key@
            }
        &&& forall|sequence: u64| #[trigger]
            self.by_insert@.contains_key(sequence) ==> exists|i: int|
                0 <= i < self.values@.len() && (#[trigger] self.values@[i]).insert_count
                    == sequence
    }

    /// A well-formed store satisfies the invariant of its model.
    pub proof fn lemma_view_inv(&self)
        requires
            self.wf(),
        ensures
            self@.inv(),
    {
        let slots = self.values@;
        lemma_entries_finite(slots);
        assert forall|key: K::V| #[trigger] self@.contains(key) implies self@.entries[key].sequence
            < self@.next_sequence by {
            let i = slot_index(slots, key);
            assert(slots[i].insert_count < self.insert_count);
        }
        assert forall|j: K::V, k: K::V|
            #[trigger] self@.contains(j) && #[trigger] self@.contains(k) && j != k implies self@.entries[j].sequence
            != self@.entries[k].sequence by {
            let a = slot_index(slots, j);
            let b = slot_index(slots, k);
            assert(self.by_insert@[slots[a].insert_count]@ == slots[a].key@);
            assert(self.by_insert@[slots[b].insert_count]@ == slots[b].key@);
        }
    }

    /// Whether `self` is `before` with `slot` in place of slot `at`.
    spec fn revalues(&self, before: Self, at: int, slot: Slot<K, V>) -> bool {
        &&& self.values@ == before.values@.update(at, slot)
        &&& self.by_insert == before.by_insert
        &&& self.insert_count == before.insert_count
        &&& self.expire_duration == before.expire_duration
    }

    /// A store stays well formed when a value is exchanged in place.
    proof fn lemma_revalued(&self, after: Self, at: int, slot: Slot<K, V>)
        requires
            self.wf(),
            0 <= at < self.values@.len(),
            slot.key == self.values@[at].key,
            slot.insert_count == self.values@[at].insert_count,
            slot.insert_time == self.values@[at].insert_time,
            after.revalues(*self, at, slot),
        ensures
            after.wf(),
            after@ == self@.with_value(slot.key@, slot.value),
    {
        let slots = self.values@;
        lemma_slot_revalued(slots, at, slot);
        lemma_slot_found(slots, at);
        assert forall|i: int| 0 <= i < after.values@.len() implies {
            &&& (#[trigger] after.values@[i]).insert_count < after.insert_count
            &&& after.by_insert@.contains_key(after.values@[i].insert_count)
            &&& after.by_insert@[after.values@[i].insert_count]@ == after.values@[i].key@
        } by {
            assert(slots[i].insert_count < self.insert_count);
        }
        assert forall|sequence: u64| #[trigger]
            after.by_insert@.contains_key(sequence) implies exists|i: int|
            0 <= i < after.values@.len() && (#[trigger] after.values@[i]).insert_count
                == sequence by {
            let i = choose|i: int|
                0 <= i < slots.len() && (#[trigger] slots[i]).insert_count == sequence;
            assert(after.values@[i].insert_count == sequence);
        }
    }

    /// An empty store whose entries stay fresh for `expire_duration` after a
    /// touch.
    pub fn new(expire_duration: TimeSpan) -> (store: Self)
        ensures
            store.wf(),
            store@ == StoreView::<K::V, V>::empty(expire_duration),
    {
        Expiring::starting_at(expire_duration, 0u64)
    }

    /// An empty store like that of [`Expiring::new`], whose sequence numbers
    /// begin at `first` and not at zero.
    pub fn starting_at(expire_duration: TimeSpan, first: u64) -> (store: Self)
        ensures
            store.wf(),
            store@ == StoreView::<K::V, V>::empty_from(expire_duration, first as nat),
    {
        let store = Expiring {
            values: Vec::new(),
            by_insert: BTreeMap::new(),
            insert_count: first,
            expire_duration,
        };
        assert(store@.entries =~= Map::<K::V, Entry<V>>::empty());
        store
    }

    /// Where in the table `key` has its slot, if it has one.
    fn position(&self, key: &K) -> (found: Option<usize>)
        ensures
            match found {
                Some(i) => i < self.values@.len() && self.values@[i as int].key@ == key@,
                None => !holds(self.values@, key@),
            },
    {
        let mut i: usize = 0;
        while i < self.values.len()
            invariant
                i <= self.values@.len(),
                forall|j: int| 0 <= j < i ==> (#[trigger] self.values@[j]).key@ != key@,
            decreases self.values@.len() - i,
        {
            if self.values[i].key.same_key(key) {
                return Some(i);
            }
            i += 1;
        }
        None
    }

    /// The value stored under `key`, if there is one. The store is left as it
    /// is: a read does not keep an entry alive.
    pub fn get(&self, key: &K) -> (value: Option<&V>)
        requires
            self.wf(),
        ensures
            match value {
                Some(v) => self@.contains(key@) && *v == self@.value(key@),
                None => !self@.contains(key@),
            },
    {
        match self.position(key) {
            Some(i) => {
                proof {
                    lemma_slot_found(self.values@, i as int);
                }
                Some(&self.values[i].value)
            },
            None => None,
        }
    }

    /// The value stored under `key`, to be changed in place, if there is one.
    /// Whatever the caller writes, the entry keeps its sequence number and its
    /// touch time.
    pub fn get_mut(&mut self, key: &K) -> (value: Option<&mut V>)
        requires
            old(self).wf(),
        ensures
            match value {
                Some(v) => {
                    &&& old(self)@.contains(key@)
                    &&& *v == old(self)@.value(key@)
                    &&& final(self).wf()
                    &&& final(self)@ == old(self)@.with_value(key@, *final(v))
                },
                None => !old(self)@.contains(key@) && *final(self) == *old(self),
            },
    {
        match self.position(key) {
            Some(at) => {
                proof {
                    lemma_slot_found(self.values@, at as int);
                }
                let value = &mut self.values[at].value;
                proof {
                    let before = old(self).values@;
                    let slot = Slot {
                        key: before[at as int].key,
                        value: *final(value),
                        insert_count: before[at as int].insert_count,
                        insert_time: before[at as int].insert_time,
                    };
                    assert forall|after: Self|
                        after.revalues(*old(self), at as int, slot) implies #[trigger] after.wf() by {
                        old(self).lemma_revalued(after, at as int, slot);
                    }
                    assert forall|after: Self|
                        after.revalues(*old(self), at as int, slot) implies #[trigger] after@
                        == old(self)@.with_value(key@, slot.value) by {
                        old(self).lemma_revalued(after, at as int, slot);
                    }
                }
                Some(value)
            },
            None => None,
        }
    }

    /// The value stored under `key`, to be changed in place; a key without an
    /// entry first gets the value that `put` makes, as of time `now`. The flag
    /// tells whether that happened, so that the caller can do once what is due
    /// for a new entry. An entry that was there is not touched.
    pub fn get_or_put_mut_at<F: FnOnce() -> V>(&mut self, key: K, put: F, now: Timestamp) -> (found:
        (bool, &mut V))
        requires
            old(self).wf(),
            old(self)@.contains(key@) || old(self)@.next_sequence < u64::MAX,
            put.requires(()),
        ensures
            found.0 == !old(self)@.contains(key@),
            final(self).wf(),
            found.0 ==> put.ensures((), *found.1) && final(self)@ == old(self)@.put(
                key@,
                *final(found.1),
                now,
            ),
            !found.0 ==> *found.1 == old(self)@.value(key@) && final(self)@ == old(
                self,
            )@.with_value(key@, *final(found.1)),
    {
        let ghost name = key@;
        let (created, at) = match self.position(&key) {
            Some(at) => (false, at),
            None => {
                let value = put();
                self.add_slot(key, value, now);
                (true, self.values.len() - 1)
            },
        };
        let ghost middle = *self;
        proof {
            lemma_slot_found(self.values@, at as int);
        }
        let value = &mut self.values[at].value;
        proof {
            let before = middle.values@;
            let slot = Slot {
                key: before[at as int].key,
                value: *final(value),
                insert_count: before[at as int].insert_count,
                insert_time: before[at as int].insert_time,
            };
            assert forall|after: Self|
                after.revalues(middle, at as int, slot) implies #[trigger] after.wf() by {
                middle.lemma_revalued(after, at as int, slot);
            }
            assert forall|after: Self|
                after.revalues(middle, at as int, slot) implies #[trigger] after@ == (if created {
                old(self)@.put(name, slot.value, now)
            } else {
                old(self)@.with_value(name, slot.value)
            }) by {
                middle.lemma_revalued(after, at as int, slot);
                if created {
                    assert(after@.entries =~= old(self)@.put(name, slot.value, now).entries);
                }
            }
        }
        (created, value)
    }

    /// As [`Expiring::get_or_put_mut_at`], with the reading of the wall clock
    /// for the time.
    pub fn get_or_put_mut<F: FnOnce() -> V>(&mut self, key: K, put: F) -> (found: (bool, &mut V))
        requires
            old(self).wf(),
            old(self)@.contains(key@) || old(self)@.next_sequence < u64::MAX,
            put.requires(()),
        ensures
            found.0 == !old(self)@.contains(key@),
            final(self).wf(),
            found.0 ==> put.ensures((), *found.1) && exists|now: Timestamp|
                final(self)@ == old(self)@.put(key@, *final(found.1), now),
            !found.0 ==> *found.1 == old(self)@.value(key@) && final(self)@ == old(
                self,
            )@.with_value(key@, *final(found.1)),
    {
        let now = wall_clock();
        self.get_or_put_mut_at(key, put, now)
    }

    /// Whether `snapshot` shows every live entry once, with its value.
    pub open spec fn shown_by(&self, snapshot: Seq<(&K, &V)>) -> bool {
        &&& forall|i: int|
            0 <= i < snapshot.len() ==> self@.contains((#[trigger] snapshot[i]).0@)
                && *snapshot[i].1 == self@.value(snapshot[i].0@)
        &&& forall|i: int, j: int|
            0 <= i < j < snapshot.len() ==> (#[trigger] snapshot[i]).0@ != (
            #[trigger] snapshot[j]).0@
        &&& forall|key: K::V|
            self@.contains(key) ==> exists|i: int|
                0 <= i < snapshot.len() && (#[trigger] snapshot[i]).0@ == key
    }

    /// Whether `snapshot` holds a copy of every live entry, each once.
    pub open spec fn copied_by(&self, snapshot: Seq<(K, V)>) -> bool where V: Clone {
        &&& forall|i: int|
            0 <= i < snapshot.len() ==> self@.contains((#[trigger] snapshot[i]).0@) && cloned(
                self@.value(snapshot[i].0@),
                snapshot[i].1,
            )
        &&& forall|i: int, j: int|
            0 <= i < j < snapshot.len() ==> (#[trigger] snapshot[i]).0@ != (
            #[trigger] snapshot[j]).0@
        &&& forall|key: K::V|
            self@.contains(key) ==> exists|i: int|
                0 <= i < snapshot.len() && (#[trigger] snapshot[i]).0@ == key
    }

    /// A copy of every live entry, each key once, in no particular order. The
    /// store is left as it is.
    pub fn all(&self) -> (snapshot: Vec<(K, V)>) where V: Clone
        requires
            self.wf(),
        ensures
            self.copied_by(snapshot@),
            snapshot@.len() == self@.entries.len(),
    {
        let mut snapshot: Vec<(K, V)> = Vec::new();
        let mut i: usize = 0;
        while i < self.values.len()
            invariant
                self.wf(),
                i <= self.values@.len(),
                snapshot@.len() == i,
                forall|j: int|
                    0 <= j < i ==> (#[trigger] snapshot@[j]).0@ == self.values@[j].key@ && cloned(
                        self.values@[j].value,
                        snapshot@[j].1,
                    ),
            decreases self.values@.len() - i,
        {
            let slot = &self.values[i];
            snapshot.push((slot.key.duplicate(), slot.value.clone()));
            i += 1;
        }
        proof {
            let slots = self.values@;
            lemma_entries_finite(slots);
            assert forall|j: int| 0 <= j < snapshot@.len() implies self@.contains(
                (#[trigger] snapshot@[j]).0@,
            ) && cloned(self@.value(snapshot@[j].0@), snapshot@[j].1) by {
                lemma_slot_found(slots, j);
            }
            assert forall|j: int, k: int| 0 <= j < k < snapshot@.len() implies (
            #[trigger] snapshot@[j]).0@ != (#[trigger] snapshot@[k]).0@ by {
                assert(slots[j].key@ != slots[k].key@);
            }
            assert forall|key: K::V| self@.contains(key) implies exists|j: int|
                0 <= j < snapshot@.len() && (#[trigger] snapshot@[j]).0@ == key by {
                let j = slot_index(slots, key);
                assert(snapshot@[j].0@ == key);
            }
        }
        snapshot
    }

    /// Every live entry, each key once, in no particular order, borrowed from
    /// the store. The store is left as it is.
    pub fn all_ref(&self) -> (snapshot: Vec<(&K, &V)>)
        requires
            self.wf(),
        ensures
            self.shown_by(snapshot@),
            snapshot@.len() == self@.entries.len(),
    {
        let mut snapshot: Vec<(&K, &V)> = Vec::new();
        let mut i: usize = 0;
        while i < self.values.len()
            invariant
                self.wf(),
                i <= self.values@.len(),
                snapshot@.len() == i,
                forall|j: int|
                    0 <= j < i ==> (#[trigger] snapshot@[j]).0@ == self.values@[j].key@
                        && *snapshot@[j].1 == self.values@[j].value,
            decreases self.values@.len() - i,
        {
            let slot = &self.values[i];
            snapshot.push((&slot.key, &slot.value));
            i += 1;
        }
        proof {
            let slots = self.values@;
            lemma_entries_finite(slots);
            assert forall|j: int| 0 <= j < snapshot@.len() implies self@.contains(
                (#[trigger] snapshot@[j]).0@,
            ) && *snapshot@[j].1 == self@.value(snapshot@[j].0@) by {
                lemma_slot_found(slots, j);
            }
            assert forall|j: int, k: int| 0 <= j < k < snapshot@.len() implies (
            #[trigger] snapshot@[j]).0@ != (#[trigger] snapshot@[k]).0@ by {
                assert(slots[j].key@ != slots[k].key@);
            }
            assert forall|key: K::V| self@.contains(key) implies exists|j: int|
                0 <= j < snapshot@.len() && (#[trigger] snapshot@[j]).0@ == key by {
                let j = slot_index(slots, key);
                assert(snapshot@[j].0@ == key);
            }
        }
        snapshot
    }

    /// Whether the counter has a sequence number left for one more touch.
    pub fn has_headroom(&self) -> (ready: bool)
        ensures
            ready == (self@.next_sequence < u64::MAX),
    {
        self.insert_count < u64::MAX
    }

    /// Whether the counter has sequence numbers left for `touches` more
    /// touches.
    pub fn sequences_left(&self, touches: u64) -> (ready: bool)
        ensures
            ready == (self@.next_sequence + touches <= u64::MAX),
    {
        self.insert_count <= u64::MAX - touches
    }

    /// Whether the store has no live entry.
    pub fn is_empty(&self) -> (empty: bool)
        requires
            self.wf(),
        ensures
            empty == self@.is_empty(),
    {
        let empty = self.values.is_empty();
        proof {
            if !empty {
                lemma_slot_found(self.values@, 0);
                assert(self@.contains(self.values@[0].key@));
            }
        }
        empty
    }

    /// Takes slot `at` out of the table and its record out of the index.
    fn take_slot(&mut self, at: usize) -> (slot: Slot<K, V>)
        requires
            old(self).wf(),
            at < old(self).values@.len(),
        ensures
            final(self).wf(),
            slot == old(self).values@[at as int],
            final(self).values@ == old(self).values@.remove(at as int),
            final(self)@ == old(self)@.remove(slot.key@),
            !final(self)@.contains(slot.key@),
    {
        let ghost before = self.values@;
        let slot = self.values.remove(at);
        self.by_insert.remove(&slot.insert_count);
        proof {
            lemma_slot_removed(before, at as int);
            let after = self.values@;
            assert forall|i: int| 0 <= i < after.len() implies {
                &&& (#[trigger] after[i]).insert_count < self.insert_count
                &&& self.by_insert@.contains_key(after[i].insert_count)
                &&& self.by_insert@[after[i].insert_count]@ == after[i].key@
            } by {
                let a = if i < at { i } else { i + 1 };
                assert(after[i] == before[a]);
                if a < at {
                    assert(before[a].key@ != before[at as int].key@);
                } else {
                    assert(before[at as int].key@ != before[a].key@);
                }
            }
            assert forall|sequence: u64| #[trigger]
                self.by_insert@.contains_key(sequence) implies exists|i: int|
                0 <= i < after.len() && (#[trigger] after[i]).insert_count == sequence by {
                let a = choose|a: int|
                    0 <= a < before.len() && (#[trigger] before[a]).insert_count == sequence;
                let i = if a < at { a } else { a - 1 };
                assert(after[i] == before[a]);
            }
        }
        slot
    }

    /// Puts an entry for a key that has none at the end of the table, under
    /// the next sequence number.
    fn add_slot(&mut self, key: K, value: V, now: Timestamp)
        requires
            old(self).wf(),
            !old(self)@.contains(key@),
            old(self)@.next_sequence < u64::MAX,
        ensures
            final(self).wf(),
            final(self)@ == old(self)@.put(key@, value, now),
            final(self).values@ == old(self).values@.push(
                Slot {
                    key,
                    value,
                    insert_count: old(self).insert_count,
                    insert_time: now,
                },
            ),
    {
        let ghost before = self.values@;
        let ghost index_before = self.by_insert@;
        let sequence: u64 = self.insert_count;
        let second = key.duplicate();
        let slot = Slot { key, value, insert_count: sequence, insert_time: now };
        proof {
            lemma_slot_pushed(before, slot);
            assert(!index_before.contains_key(sequence)) by {
                if index_before.contains_key(sequence) {
                    let i = choose|i: int|
                        0 <= i < before.len() && (#[trigger] before[i]).insert_count == sequence;
                    assert(before[i].insert_count < self.insert_count);
                }
            }
        }
        self.values.push(slot);
        self.by_insert.insert(sequence, second);
        self.insert_count = sequence + 1;
        proof {
            let after = self.values@;
            assert forall|i: int| 0 <= i < after.len() implies {
                &&& (#[trigger] after[i]).insert_count < self.insert_count
                &&& self.by_insert@.contains_key(after[i].insert_count)
                &&& self.by_insert@[after[i].insert_count]@ == after[i].key@
            } by {
                if i < before.len() {
                    assert(after[i] == before[i]);
                }
            }
            assert forall|s: u64| #[trigger]
                self.by_insert@.contains_key(s) implies exists|i: int|
                0 <= i < after.len() && (#[trigger] after[i]).insert_count == s by {
                if s == sequence {
                    assert(after[before.len() as int].insert_count == s);
                } else {
                    let i = choose|i: int|
                        0 <= i < before.len() && (#[trigger] before[i]).insert_count == s;
                    assert(after[i] == before[i]);
                }
            }
        }
    }

    /// Removes the entry of `key`, if it has one.
    pub fn remove(&mut self, key: &K)
        requires
            old(self).wf(),
        ensures
            final(self).wf(),
            final(self)@ == old(self)@.remove(key@),
    {
        match self.position(key) {
            None => {
                assert(self@.entries =~= self@.entries.remove(key@));
            },
            Some(at) => {
                self.take_slot(at);
            },
        }
    }

    /// Stores `value` under `key` as of time `now`. An entry that `key` had is
    /// replaced; either way the entry counts as touched last of all.
    pub fn put_at(&mut self, key: K, value: V, now: Timestamp)
        requires
            old(self).wf(),
            old(self)@.next_sequence < u64::MAX,
        ensures
            final(self).wf(),
            final(self)@ == old(self)@.put(key@, value, now),
    {
        self.remove(&key);
        self.add_slot(key, value, now);
        assert(self@.entries =~= old(self)@.put(key@, value, now).entries);
    }

    /// Stores `value` under `key` as of the reading of the wall clock.
    pub fn put(&mut self, key: K, value: V)
        requires
            old(self).wf(),
            old(self)@.next_sequence < u64::MAX,
        ensures
            final(self).wf(),
            exists|now: Timestamp| final(self)@ == old(self)@.put(key@, value, now),
    {
        let now = wall_clock();
        self.put_at(key, value, now);
    }

    /// Touches the entry of `key` as of time `now`: it keeps its value and
    /// counts as touched last of all. Returns whether `key` had an entry; if
    /// not, nothing changes.
    pub fn refresh_at(&mut self, key: K, now: Timestamp) -> (found: bool)
        requires
            old(self).wf(),
            old(self)@.next_sequence < u64::MAX,
        ensures
            final(self).wf(),
            found == old(self)@.contains(key@),
            final(self)@ == old(self)@.refresh(key@, now),
    {
        match self.position(&key) {
            None => false,
            Some(at) => {
                proof {
                    lemma_slot_found(self.values@, at as int);
                }
                let slot = self.take_slot(at);
                self.add_slot(key, slot.value, now);
                assert(self@.entries =~= old(self)@.refresh(key@, now).entries);
                true
            },
        }
    }

    /// Touches the entry of `key` as of the reading of the wall clock.
    pub fn refresh(&mut self, key: K) -> (found: bool)
        requires
            old(self).wf(),
            old(self)@.next_sequence < u64::MAX,
        ensures
            final(self).wf(),
            found == old(self)@.contains(key@),
            exists|now: Timestamp| final(self)@ == old(self)@.refresh(key@, now),
    {
        let now = wall_clock();
        self.refresh_at(key, now)
    }

    /// The position of the slot that the front of the index points to.
    fn oldest_slot(&self) -> (found: Option<usize>)
        requires
            self.wf(),
        ensures
            match found {
                Some(at) => at < self.values@.len() && self@.is_oldest(
                    self.values@[at as int].key@,
                ),
                None => self@.is_empty(),
            },
    {
        match first_record(&self.by_insert) {
            None => {
                proof {
                    if self.values@.len() > 0 {
                        assert(self.by_insert@.contains_key(self.values@[0].insert_count));
                    }
                    assert forall|key: K::V| !self@.contains(key) by {
                        if holds(self.values@, key) {
                            let i = slot_index(self.values@, key);
                            assert(self.by_insert@.contains_key(self.values@[i].insert_count));
                        }
                    }
                }
                None
            },
            Some((sequence, key)) => {
                let found = self.position(key);
                proof {
                    let slots = self.values@;
                    let i = choose|i: int|
                        0 <= i < slots.len() && (#[trigger] slots[i]).insert_count == sequence;
                    assert(self.by_insert@[slots[i].insert_count]@ == slots[i].key@);
                    assert(holds(slots, key@));
                    let at = found.unwrap() as int;
                    if at < i {
                        assert(slots[at].key@ != slots[i].key@);
                    } else if i < at {
                        assert(slots[i].key@ != slots[at].key@);
                    }
                    lemma_slot_found(slots, at);
                    assert forall|j: K::V| #[trigger] self@.contains(j) implies self@.entries[slots[at].key@].sequence
                        <= self@.entries[j].sequence by {
                        let b = slot_index(slots, j);
                        assert(self.by_insert@.contains_key(slots[b].insert_count));
                    }
                }
                found
            },
        }
    }

    /// Removes the entries that have outlived the store's lifetime at time
    /// `now`. The entries are looked at in the order of their last touch, from
    /// the one touched longest ago, and the walk ends at the first that is
    /// still fresh: the entries touched after it are taken to be fresher
    /// still.
    pub fn purge_old_entries_at(&mut self, now: Timestamp)
        requires
            old(self).wf(),
        ensures
            final(self).wf(),
            final(self)@ == old(self)@.purge(now),
    {
        loop
            invariant_except_break
                self.wf(),
                self@.purging(old(self)@, now),
            ensures
                self.wf(),
                self@ == old(self)@.purge(now),
            decreases self.values@.len(),
        {
            match self.oldest_slot() {
                None => {
                    proof {
                        self@.lemma_purge_exhausts(old(self)@, now);
                    }
                    break ;
                },
                Some(at) => {
                    let ghost key = self.values@[at as int].key@;
                    proof {
                        lemma_slot_found(self.values@, at as int);
                    }
                    if is_expired(&self.values[at].insert_time, &now, &self.expire_duration) {
                        proof {
                            self.lemma_view_inv();
                            self@.lemma_purge_step(old(self)@, now, key);
                        }
                        self.take_slot(at);
                    } else {
                        proof {
                            self@.lemma_purge_stops(old(self)@, now, key);
                        }
                        break ;
                    }
                },
            }
        }
    }

    /// Removes the entries that have outlived the store's lifetime at the
    /// reading of the wall clock.
    pub fn purge_old_entries(&mut self)
        requires
            old(self).wf(),
        ensures
            final(self).wf(),
            exists|now: Timestamp| final(self)@ == old(self)@.purge(now),
    {
        let now = wall_clock();
        self.purge_old_entries_at(now);
    }
}

/// Reads `store` in each way it can be read: the value under `key`, every
/// entry borrowed, every entry copied. What the reads show is the store: the
/// value that `key` has, if it has one, and every live entry once. The store
/// is afterwards what it was before, with every value, sequence number and
/// touch time: no read changes an entry or keeps it alive.
pub fn read_in_every_way<K: StoreKey, V: Clone>(store: &mut Expiring<K, V>, key: &K) -> (seen:
    Reading<K, V>)
    requires
        old(store).wf(),
    ensures
        *final(store) == *old(store),
        match seen.value {
            Some(value) => old(store)@.contains(key@) && cloned(
                old(store)@.value(key@),
                value,
            ),
            None => !old(store)@.contains(key@),
        },
        seen.shown == old(store)@.entries.len(),
        old(store).copied_by(seen.copied@),
        seen.copied@.len() == old(store)@.entries.len(),
{
    let value = match store.get(key) {
        Some(value) => Some(value.clone()),
        None => None,
    };
    let shown = store.all_ref().len();
    let copied = store.all();
    Reading { value, shown, copied }
}

/// What the three ways of reading a store have shown.
pub struct Reading<K, V> {
    /// A copy of the value under the key that was asked for, if it has one.
    pub value: Option<V>,
    /// How many entries the borrowed listing showed.
    pub shown: usize,
    /// The copied listing.
    pub copied: Vec<(K, V)>,
}

/// The record at the front of an index: `BTreeMap::first_key_value`, which
/// returns the record with the smallest key, or `None` for a map without
/// records.
#[verifier::external_body]
fn first_record<K>(index: &BTreeMap<u64, K>) -> (front: Option<(u64, &K)>)
    ensures
        match front {
            Some((sequence, key)) => {
                &&& index@.contains_key(sequence)
                &&& index@[sequence] == *key
                &&& forall|other: u64| index@.contains_key(other) ==> sequence <= other
            },
            None => forall|other: u64| !index@.contains_key(other),
        },
{
    match index.first_key_value() {
        Some((sequence, key)) => Some((*sequence, key)),
        None => None,
    }
}

} // verus!

//! The mathematical model of an expiring store.
//!
//! A store is a finite map from keys to entries. Each entry carries, beside its
//! value, the sequence number it was given when it was last touched and the time
//! of that touch. Sequence numbers come from a counter that only grows, so they
//! order the entries by how recently each was touched.

use vstd::prelude::*;
use crate::clock::{Timestamp, TimeSpan, expired};

verus! {

/// One entry of a store, as contracts see it.
pub struct Entry<V> {
    pub value: V,
    pub sequence: nat,
    pub touched: Timestamp,
}

/// The state of a store, as contracts see it.
#[verifier::ext_equal]
#[verifier::reject_recursive_types(K)]
pub struct StoreView<K, V> {
    /// The live entries.
    pub entries: Map<K, Entry<V>>,
    /// The sequence number that the next touch will be given.
    pub next_sequence: nat,
    /// How long an entry stays fresh after a touch.
    pub lifetime: TimeSpan,
}

impl<K, V> StoreView<K, V> {
    /// The store without entries whose counter stands at `first`.
    pub open spec fn empty_from(lifetime: TimeSpan, first: nat) -> Self {
        StoreView { entries: Map::empty(), next_sequence: first, lifetime }
    }

    /// The store without entries whose counter stands at zero.
    pub open spec fn empty(lifetime: TimeSpan) -> Self {
        Self::empty_from(lifetime, 0)
    }

    /// Whether `key` has a live entry.
    #[verifier::inline]
    pub open spec fn contains(self, key: K) -> bool {
        self.entries.contains_key(key)
    }

    /// The value stored under `key`.
    pub open spec fn value(self, key: K) -> V
        recommends
            self.contains(key),
    {
        self.entries[key].value
    }

    /// Whether the store has no live entry.
    pub open spec fn is_empty(self) -> bool {
        forall|key: K| !self.contains(key)
    }

    /// What every reachable store satisfies: finitely many entries, every
    /// sequence number below the counter, and no sequence number used twice.
    pub open spec fn inv(self) -> bool {
        &&& self.entries.dom().finite()
        &&& forall|key: K| #[trigger] self.contains(key) ==> self.entries[key].sequence < self.next_sequence
        &&& forall|j: K, k: K|
            #[trigger] self.contains(j) && #[trigger] self.contains(k) && j != k
                ==> self.entries[j].sequence != self.entries[k].sequence
    }

    /// The store after `value` was written under `key` at time `now`: the entry
    /// is new or replaced, and takes the next sequence number.
    pub open spec fn put(self, key: K, value: V, now: Timestamp) -> Self {
        StoreView {
            entries: self.entries.insert(
                key,
                Entry { value, sequence: self.next_sequence, touched: now },
            ),
            next_sequence: self.next_sequence + 1,
            lifetime: self.lifetime,
        }
    }

    /// The store after `key` was touched at time `now` without a change of its
    /// value. A key without an entry leaves the store as it is.
    pub open spec fn refresh(self, key: K, now: Timestamp) -> Self {
        if self.contains(key) {
            self.put(key, self.value(key), now)
        } else {
            self
        }
    }

    /// The store after `value` was written under `key` at time `now`, unless
    /// `key` had an entry already.
    pub open spec fn put_if_absent(self, key: K, value: V, now: Timestamp) -> Self {
        if self.contains(key) {
            self
        } else {
            self.put(key, value, now)
        }
    }

    /// The store after the value under `key` was exchanged for `value` in
    /// place: sequence number and touch time stay.
    pub open spec fn with_value(self, key: K, value: V) -> Self
        recommends
            self.contains(key),
    {
        StoreView {
            entries: self.entries.insert(
                key,
                Entry {
                    value,
                    sequence: self.entries[key].sequence,
                    touched: self.entries[key].touched,
                },
            ),
            next_sequence: self.next_sequence,
            lifetime: self.lifetime,
        }
    }

    /// The store without the entry of `key`.
    pub open spec fn remove(self, key: K) -> Self {
        StoreView {
            entries: self.entries.remove(key),
            next_sequence: self.next_sequence,
            lifetime: self.lifetime,
        }
    }

    /// Whether the entry of `key` has outlived the store's lifetime at `now`.
    pub open spec fn stale(self, key: K, now: Timestamp) -> bool {
        expired(self.entries[key].touched, now, self.lifetime)
    }

    /// Whether a purge at time `now` removes the entry of `key`. A purge walks
    /// the entries from the lowest sequence number up and stops at the first
    /// that is still fresh, so an entry goes exactly when it and every entry
    /// touched before it are stale.
    pub open spec fn doomed(self, key: K, now: Timestamp) -> bool {
        &&& self.contains(key)
        &&& forall|j: K| #[trigger]
            self.contains(j) && self.entries[j].sequence <= self.entries[key].sequence
                ==> self.stale(j, now)
    }

    /// The store after a purge at time `now`.
    pub open spec fn purge(self, now: Timestamp) -> Self {
        StoreView {
            entries: Map::new(
                |key: K| self.contains(key) && !self.doomed(key, now),
                |key: K| self.entries[key],
            ),
            next_sequence: self.next_sequence,
            lifetime: self.lifetime,
        }
    }

    /// Whether `self` can be met in the middle of a purge of `start` at time
    /// `now`: what is gone was stale and was touched before everything that is
    /// left, and what is left is as it was.
    pub open spec fn purging(self, start: Self, now: Timestamp) -> bool {
        &&& self.next_sequence == start.next_sequence
        &&& self.lifetime == start.lifetime
        &&& forall|key: K| #[trigger]
            self.contains(key) ==> start.contains(key) && self.entries[key] == start.entries[key]
        &&& forall|key: K|
            #[trigger] start.contains(key) && !self.contains(key) ==> start.stale(key, now)
        &&& forall|gone: K, left: K|
            #[trigger] start.contains(gone) && !self.contains(gone) && #[trigger] self.contains(left)
                ==> start.entries[gone].sequence < start.entries[left].sequence
    }

    /// Whether `key` has the lowest sequence number of all entries.
    pub open spec fn is_oldest(self, key: K) -> bool {
        &&& self.contains(key)
        &&& forall|j: K| #[trigger]
            self.contains(j) ==> self.entries[key].sequence <= self.entries[j].sequence
    }

    /// A purge may take the oldest entry if it is stale.
    pub proof fn lemma_purge_step(self, start: Self, now: Timestamp, oldest: K)
        requires
            self.inv(),
            self.purging(start, now),
            self.is_oldest(oldest),
            self.stale(oldest, now),
        ensures
            self.remove(oldest).purging(start, now),
    {
        let next = self.remove(oldest);
        assert forall|key: K| #[trigger] next.contains(key) implies start.contains(key)
            && next.entries[key] == start.entries[key] by {
            assert(self.contains(key));
        }
        assert forall|key: K| #[trigger] start.contains(key) && !next.contains(key) implies start.stale(
            key,
            now,
        ) by {
            if key == oldest {
                assert(self.contains(oldest));
            } else {
                assert(!self.contains(key));
            }
        }
        assert forall|gone: K, left: K|
            #[trigger] start.contains(gone) && !next.contains(gone) && #[trigger] next.contains(
                left,
            ) implies start.entries[gone].sequence < start.entries[left].sequence by {
            assert(self.contains(left));
            if gone == oldest {
                assert(self.contains(oldest));
            } else {
                assert(!self.contains(gone));
            }
        }
    }

    /// A purge is over when the oldest entry is still fresh.
    pub proof fn lemma_purge_stops(self, start: Self, now: Timestamp, oldest: K)
        requires
            self.purging(start, now),
            self.is_oldest(oldest),
            !self.stale(oldest, now),
        ensures
            self == start.purge(now),
    {
        let goal = start.purge(now);
        assert forall|key: K| self.contains(key) <==> goal.contains(key) by {
            if self.contains(key) {
                assert(start.contains(oldest));
                assert(!start.stale(oldest, now));
                assert(!start.doomed(key, now));
            }
            if start.contains(key) && !self.contains(key) {
                assert forall|j: K| #[trigger]
                    start.contains(j) && start.entries[j].sequence
                        <= start.entries[key].sequence implies start.stale(j, now) by {
                    if self.contains(j) {
                        assert(start.entries[key].sequence < start.entries[j].sequence);
                    }
                }
                assert(start.doomed(key, now));
            }
        }
        assert forall|key: K| self.contains(key) implies self.entries[key]
            == goal.entries[key] by {}
        assert(self.entries =~= goal.entries);
    }

    /// A purge is over when nothing is left.
    pub proof fn lemma_purge_exhausts(self, start: Self, now: Timestamp)
        requires
            self.purging(start, now),
            self.is_empty(),
        ensures
            self == start.purge(now),
    {
        let goal = start.purge(now);
        assert forall|key: K| start.contains(key) implies start.doomed(key, now) by {
            assert forall|j: K| #[trigger]
                start.contains(j) && start.entries[j].sequence
                    <= start.entries[key].sequence implies start.stale(j, now) by {
                assert(!self.contains(j));
            }
        }
        assert forall|key: K| !self.contains(key) && !goal.contains(key) by {
            if start.contains(key) {
                assert(start.doomed(key, now));
            }
        }
        assert(self.entries =~= goal.entries);
    }

    /// The same store with `f` applied to every value.
    pub open spec fn map_values<W>(self, f: spec_fn(V) -> W) -> StoreView<K, W> {
        StoreView {
            entries: Map::new(
                |key: K| self.contains(key),
                |key: K|
                    Entry {
                        value: f(self.entries[key].value),
                        sequence: self.entries[key].sequence,
                        touched: self.entries[key].touched,
                    },
            ),
            next_sequence: self.next_sequence,
            lifetime: self.lifetime,
        }
    }

    /// Mapping the values of an empty store gives an empty store.
    pub proof fn lemma_map_values_empty<W>(self, f: spec_fn(V) -> W)
        requires
            self == Self::empty_from(self.lifetime, self.next_sequence),
        ensures
            self.map_values(f) == StoreView::<K, W>::empty_from(
                self.lifetime,
                self.next_sequence,
            ),
    {
        assert(self.map_values(f).entries =~= Map::<K, Entry<W>>::empty());
    }

    /// Mapping the values of a store neither empties nor fills it.
    pub proof fn lemma_map_values_is_empty<W>(self, f: spec_fn(V) -> W)
        ensures
            self.map_values(f).is_empty() == self.is_empty(),
    {
        let mapped = self.map_values(f);
        if self.is_empty() {
            assert forall|key: K| !mapped.contains(key) by {
                assert(!self.contains(key));
            }
        }
        if mapped.is_empty() {
            assert forall|key: K| !self.contains(key) by {
                assert(!mapped.contains(key));
            }
        }
    }

    /// Writing and then mapping the values is mapping and then writing the
    /// mapped value.
    pub proof fn lemma_map_values_put<W>(self, f: spec_fn(V) -> W, key: K, value: V, now: Timestamp)
        ensures
            self.put(key, value, now).map_values(f) == self.map_values(f).put(key, f(value), now),
    {
        assert(self.put(key, value, now).map_values(f).entries =~= self.map_values(f).put(
            key,
            f(value),
            now,
        ).entries);
    }

    /// Exchanging a value and mapping commute.
    pub proof fn lemma_map_values_with_value<W>(self, f: spec_fn(V) -> W, key: K, value: V)
        requires
            self.contains(key),
        ensures
            self.with_value(key, value).map_values(f) == self.map_values(f).with_value(
                key,
                f(value),
            ),
    {
        assert(self.with_value(key, value).map_values(f).entries =~= self.map_values(
            f,
        ).with_value(key, f(value)).entries);
    }

    /// Removing and mapping commute.
    pub proof fn lemma_map_values_remove<W>(self, f: spec_fn(V) -> W, key: K)
        ensures
            self.remove(key).map_values(f) == self.map_values(f).remove(key),
    {
        assert(self.remove(key).map_values(f).entries =~= self.map_values(f).remove(key).entries);
    }

    /// Touching and mapping commute.
    pub proof fn lemma_map_values_refresh<W>(self, f: spec_fn(V) -> W, key: K, now: Timestamp)
        ensures
            self.refresh(key, now).map_values(f) == self.map_values(f).refresh(key, now),
    {
        if self.contains(key) {
            self.lemma_map_values_put(f, key, self.value(key), now);
        }
    }

    /// Purging and mapping commute: a purge does not look at values.
    pub proof fn lemma_map_values_purge<W>(self, f: spec_fn(V) -> W, now: Timestamp)
        ensures
            self.purge(now).map_values(f) == self.map_values(f).purge(now),
    {
        let mapped = self.map_values(f);
        assert forall|key: K| self.doomed(key, now) <==> mapped.doomed(key, now) by {
            if self.contains(key) {
                if self.doomed(key, now) {
                    assert forall|j: K| #[trigger]
                        mapped.contains(j) && mapped.entries[j].sequence
                            <= mapped.entries[key].sequence implies mapped.stale(j, now) by {
                        assert(self.stale(j, now));
                    }
                }
                if mapped.doomed(key, now) {
                    assert forall|j: K| #[trigger]
                        self.contains(j) && self.entries[j].sequence
                            <= self.entries[key].sequence implies self.stale(j, now) by {
                        assert(mapped.contains(j));
                        assert(mapped.entries[j].sequence <= mapped.entries[key].sequence);
                        assert(mapped.stale(j, now));
                    }
                }
            }
        }
        assert(self.purge(now).map_values(f).entries =~= mapped.purge(now).entries);
    }

    /// Whether the entries were touched at times that do not run backwards:
    /// a later sequence number never goes with an earlier touch time.
    pub open spec fn touched_in_order(self) -> bool {
        forall|j: K, k: K|
            #[trigger] self.contains(j) && #[trigger] self.contains(k) && self.entries[j].sequence
                <= self.entries[k].sequence ==> self.entries[j].touched.as_nanos()
                <= self.entries[k].touched.as_nanos()
    }

    /// Writing keeps the invariant.
    pub proof fn lemma_put_inv(self, key: K, value: V, now: Timestamp)
        requires
            self.inv(),
        ensures
            self.put(key, value, now).inv(),
    {
        let after = self.put(key, value, now);
        assert forall|j: K, k: K|
            #[trigger] after.contains(j) && #[trigger] after.contains(k) && j != k implies after.entries[j].sequence
            != after.entries[k].sequence by {
            if j != key {
                assert(self.contains(j));
            }
            if k != key {
                assert(self.contains(k));
            }
        }
    }

    /// What was written at time `now` is still there after a purge at time
    /// `now`: a lifetime is never negative.
    pub proof fn lemma_written_survives(self, key: K, value: V, now: Timestamp)
        ensures
            self.put(key, value, now).purge(now).contains(key),
            self.put(key, value, now).purge(now).entries[key] == (Entry {
                value,
                sequence: self.next_sequence,
                touched: now,
            }),
    {
        let written = self.put(key, value, now);
        assert(!written.stale(key, now));
        assert(!written.doomed(key, now));
    }

    /// A purge takes the entries in the order of their sequence numbers and
    /// never takes one that is still fresh: an entry whose last touch lies
    /// within the lifetime stays as it is, and when an entry goes, every entry
    /// with a lower sequence number goes with it.
    pub proof fn law_purge_order(self, now: Timestamp, key: K, earlier: K)
        requires
            self.contains(key),
            self.contains(earlier),
            self.entries[earlier].sequence <= self.entries[key].sequence,
        ensures
            !self.stale(key, now) ==> self.purge(now).contains(key) && self.purge(now).entries[key]
                == self.entries[key],
            !self.purge(now).contains(key) ==> !self.purge(now).contains(earlier),
            !self.purge(now).contains(key) ==> self.stale(key, now) && self.stale(earlier, now),
    {
        if self.doomed(key, now) {
            assert(self.stale(earlier, now));
            assert forall|j: K| #[trigger]
                self.contains(j) && self.entries[j].sequence
                    <= self.entries[earlier].sequence implies self.stale(j, now) by {
                assert(self.entries[j].sequence <= self.entries[key].sequence);
            }
            assert(self.doomed(earlier, now));
        }
    }

    /// Sequence numbers only grow. A write gives its entry a number above that
    /// of every entry in the store, and no operation sets the counter back.
    pub proof fn law_sequences_grow(self, key: K, value: V, now: Timestamp)
        requires
            self.inv(),
        ensures
            forall|other: K|
                self.contains(other) ==> self.entries[other].sequence < self.put(
                    key,
                    value,
                    now,
                ).entries[key].sequence,
            self.put(key, value, now).next_sequence == self.next_sequence + 1,
            self.refresh(key, now).next_sequence >= self.next_sequence,
            self.remove(key).next_sequence == self.next_sequence,
            self.purge(now).next_sequence == self.next_sequence,
    {
    }

    /// A touch of a live entry gives it a higher sequence number and the new
    /// touch time, and leaves its value and every other entry alone; a touch of
    /// a key without an entry changes nothing.
    pub proof fn law_refresh(self, key: K, now: Timestamp)
        requires
            self.inv(),
        ensures
            !self.contains(key) ==> self.refresh(key, now) == self,
            self.contains(key) ==> {
                let after = self.refresh(key, now);
                &&& after.contains(key)
                &&& after.entries[key].value == self.entries[key].value
                &&& after.entries[key].sequence > self.entries[key].sequence
                &&& after.entries[key].touched == now
                &&& after.entries.dom() == self.entries.dom()
                &&& forall|other: K|
                    self.contains(other) && other != key ==> after.entries[other]
                        == self.entries[other]
            },
    {
        if self.contains(key) {
            assert(self.refresh(key, now).entries.dom() =~= self.entries.dom());
        }
    }

    /// Two writes under one key leave one entry for it: it holds the second
    /// value, and its sequence number is above every number the key had
    /// before. No other entry appears, goes or changes.
    pub proof fn law_put_replaces(
        self,
        key: K,
        first: V,
        first_time: Timestamp,
        second: V,
        second_time: Timestamp,
    )
        requires
            self.inv(),
        ensures
            ({
                let once = self.put(key, first, first_time);
                let twice = once.put(key, second, second_time);
                &&& twice.inv()
                &&& twice.contains(key)
                &&& twice.entries[key].value == second
                &&& twice.entries[key].touched == second_time
                &&& twice.entries[key].sequence > once.entries[key].sequence
                &&& self.contains(key) ==> once.entries[key].sequence > self.entries[key].sequence
                &&& twice.entries.dom() == self.entries.dom().insert(key)
                &&& forall|other: K|
                    self.contains(other) && other != key ==> twice.entries[other]
                        == self.entries[other]
            }),
    {
        let once = self.put(key, first, first_time);
        let twice = once.put(key, second, second_time);
        self.lemma_put_inv(key, first, first_time);
        once.lemma_put_inv(key, second, second_time);
        assert(twice.entries.dom() =~= self.entries.dom().insert(key));
    }

    /// Where touch times do not run backwards, a purge removes the stale
    /// entries and no others, and what stays is as it was.
    pub proof fn law_purge_boundary(self, now: Timestamp)
        requires
            self.inv(),
            self.touched_in_order(),
        ensures
            forall|key: K|
                self.purge(now).contains(key) <==> self.contains(key) && !self.stale(key, now),
            forall|key: K|
                self.purge(now).contains(key) ==> self.purge(now).entries[key]
                    == self.entries[key],
    {
        assert forall|key: K| self.contains(key) && self.stale(key, now) implies self.doomed(
            key,
            now,
        ) by {
            assert forall|j: K| #[trigger]
                self.contains(j) && self.entries[j].sequence
                    <= self.entries[key].sequence implies self.stale(j, now) by {
                assert(self.entries[j].touched.as_nanos() <= self.entries[key].touched.as_nanos());
            }
        }
    }
}

} // verus!

use backend::clock::{TimeSpan, Timestamp};
use backend::expiring::{read_in_every_way, Expiring};

fn at(secs: i64) -> Timestamp {
    Timestamp { secs, nanos: 0 }
}

fn ten_seconds() -> Expiring<u128, u32> {
    Expiring::new(TimeSpan::seconds(10))
}

fn sorted(mut snapshot: Vec<(u128, u32)>) -> Vec<(u128, u32)> {
    snapshot.sort();
    snapshot
}

#[test]
fn new_store_is_empty() {
    let store = ten_seconds();
    assert!(store.is_empty());
    assert_eq!(store.get(&1), None);
    assert!(store.all().is_empty());
    assert!(store.all_ref().is_empty());
}

#[test]
fn put_then_get_returns_the_value() {
    let mut store = ten_seconds();
    store.put_at(7, 70, at(100));
    assert_eq!(store.get(&7), Some(&70));
    assert_eq!(store.get(&8), None);
    assert!(!store.is_empty());
}

#[test]
fn put_twice_leaves_one_entry_with_the_second_value() {
    let mut store = ten_seconds();
    store.put_at(7, 1, at(100));
    store.put_at(7, 2, at(101));
    assert_eq!(store.get(&7), Some(&2));
    assert_eq!(store.all(), vec![(7, 2)]);
}

#[test]
fn put_again_counts_as_the_latest_touch() {
    let mut store = ten_seconds();
    store.put_at(1, 10, at(0));
    store.put_at(2, 20, at(1));
    store.put_at(1, 11, at(20));
    // At 12 s the entry of key 2 is stale and now stands first in line;
    // the entry of key 1 was written again at 20 s.
    store.purge_old_entries_at(at(12));
    assert_eq!(sorted(store.all()), vec![(1, 11)]);
}

#[test]
fn refresh_keeps_the_value_and_reports_the_key() {
    let mut store = ten_seconds();
    store.put_at(1, 10, at(0));
    assert!(store.refresh_at(1, at(5)));
    assert_eq!(store.get(&1), Some(&10));
    // Touched at 5 s, the entry is fresh until 15 s.
    store.purge_old_entries_at(at(15));
    assert_eq!(store.get(&1), Some(&10));
    store.purge_old_entries_at(Timestamp { secs: 15, nanos: 1 });
    assert_eq!(store.get(&1), None);
}

#[test]
fn refresh_of_a_missing_key_changes_nothing() {
    let mut store = ten_seconds();
    store.put_at(1, 10, at(0));
    assert!(!store.refresh_at(2, at(5)));
    assert_eq!(store.all(), vec![(1, 10)]);
    store.purge_old_entries_at(at(11));
    assert!(store.is_empty());
}

#[test]
fn refresh_moves_the_entry_behind_the_others() {
    let mut store = ten_seconds();
    store.put_at(1, 10, at(0));
    store.put_at(2, 20, at(1));
    assert!(store.refresh_at(1, at(30)));
    store.purge_old_entries_at(at(12));
    assert_eq!(store.all(), vec![(1, 10)]);
}

#[test]
fn remove_takes_the_entry_and_ignores_a_missing_key() {
    let mut store = ten_seconds();
    store.put_at(1, 10, at(0));
    store.put_at(2, 20, at(0));
    store.remove(&3);
    assert_eq!(sorted(store.all()), vec![(1, 10), (2, 20)]);
    store.remove(&1);
    assert_eq!(store.all(), vec![(2, 20)]);
    assert_eq!(store.get(&1), None);
    store.remove(&2);
    assert!(store.is_empty());
}

#[test]
fn purge_keeps_an_entry_touched_exactly_at_the_deadline() {
    let mut store = ten_seconds();
    store.put_at(1, 10, at(100));
    store.purge_old_entries_at(at(110));
    assert_eq!(store.get(&1), Some(&10));
    store.purge_old_entries_at(Timestamp { secs: 110, nanos: 1 });
    assert_eq!(store.get(&1), None);
}

#[test]
fn purge_removes_exactly_the_entries_past_their_lifetime() {
    let mut store = ten_seconds();
    store.put_at(1, 10, at(100));
    store.put_at(2, 20, at(101));
    store.put_at(3, 30, at(102));
    store.put_at(4, 40, at(103));
    // 111 s and a nanosecond: past 100 + 10 and 101 + 10, not past 102 + 10.
    store.purge_old_entries_at(Timestamp { secs: 111, nanos: 1 });
    assert_eq!(sorted(store.all()), vec![(3, 30), (4, 40)]);
    assert_eq!(store.get(&1), None);
    assert_eq!(store.get(&2), None);
}

#[test]
fn purge_stops_at_the_first_fresh_entry() {
    let mut store = ten_seconds();
    // The second entry carries the earlier time, but it was touched later.
    store.put_at(1, 10, at(100));
    store.put_at(2, 20, at(50));
    store.purge_old_entries_at(at(105));
    assert_eq!(sorted(store.all()), vec![(1, 10), (2, 20)]);
    // Once the first is stale as well, both go.
    store.purge_old_entries_at(at(111));
    assert!(store.is_empty());
}

#[test]
fn purge_of_an_empty_store_does_nothing() {
    let mut store = ten_seconds();
    store.purge_old_entries_at(at(1_000));
    assert!(store.is_empty());
}

#[test]
fn reading_does_not_keep_an_entry_alive() {
    let mut store = ten_seconds();
    store.put_at(1, 10, at(0));
    store.put_at(2, 20, at(5));
    assert_eq!(store.get(&1), Some(&10));
    assert_eq!(sorted(store.all()), vec![(1, 10), (2, 20)]);
    assert_eq!(store.all_ref().len(), 2);
    let seen = read_in_every_way(&mut store, &1);
    assert_eq!(seen.value, Some(10));
    assert_eq!(seen.shown, 2);
    assert_eq!(sorted(seen.copied), vec![(1, 10), (2, 20)]);
    let seen = read_in_every_way(&mut store, &3);
    assert_eq!(seen.value, None);
    assert_eq!(seen.shown, 2);
    // Had a read touched key 1, it would now stand behind key 2 and survive.
    store.purge_old_entries_at(at(12));
    assert_eq!(store.all(), vec![(2, 20)]);
}

#[test]
fn get_mut_changes_the_value_and_not_the_touch() {
    let mut store = ten_seconds();
    store.put_at(1, 10, at(0));
    store.put_at(2, 20, at(5));
    *store.get_mut(&1).unwrap() = 11;
    assert!(store.get_mut(&3).is_none());
    assert_eq!(store.get(&1), Some(&11));
    store.purge_old_entries_at(at(12));
    assert_eq!(store.all(), vec![(2, 20)]);
}

#[test]
fn get_or_put_mut_makes_a_value_only_for_a_new_key() {
    let mut store = ten_seconds();
    let (created, value) = store.get_or_put_mut_at(1, || 10, at(0));
    assert!(created);
    assert_eq!(*value, 10);
    *value = 11;
    let (created, value) = store.get_or_put_mut_at(1, || 99, at(50));
    assert!(!created);
    assert_eq!(*value, 11);
    // The second call did not touch the entry: it is as old as it was.
    store.purge_old_entries_at(at(11));
    assert!(store.is_empty());
}

#[test]
fn all_ref_shows_every_entry_once() {
    let mut store = ten_seconds();
    store.put_at(3, 30, at(0));
    store.put_at(1, 10, at(0));
    store.put_at(3, 31, at(1));
    let mut seen: Vec<(u128, u32)> = Vec::new();
    for (key, value) in store.all_ref() {
        seen.push((*key, *value));
    }
    assert_eq!(sorted(seen), vec![(1, 10), (3, 31)]);
}

#[test]
fn labels_work_as_keys() {
    let mut store: Expiring<String, u32> = Expiring::new(TimeSpan::seconds(10));
    store.put_at(String::from("blue"), 1, at(0));
    store.put_at(String::from("red"), 2, at(1));
    store.put_at(String::from("blue"), 3, at(2));
    assert_eq!(store.get(&String::from("blue")), Some(&3));
    assert_eq!(store.get(&String::from("green")), None);
    store.purge_old_entries_at(at(12));
    assert_eq!(store.all(), vec![(String::from("blue"), 3)]);
}

#[test]
fn the_wall_clock_stamps_put_and_purge() {
    let mut store: Expiring<u128, u32> = Expiring::new(TimeSpan::seconds(3_600));
    store.put(1, 10);
    assert!(store.refresh(1));
    assert!(!store.refresh(2));
    let (created, value) = store.get_or_put_mut(2, || 20);
    assert!(created);
    assert_eq!(*value, 20);
    store.purge_old_entries();
    assert_eq!(sorted(store.all()), vec![(1, 10), (2, 20)]);
    // An entry stamped in 1970 is long past an hour by the wall clock.
    store.put_at(3, 30, at(0));
    store.put(4, 40);
    store.purge_old_entries();
    assert_eq!(sorted(store.all()), vec![(1, 10), (2, 20), (3, 30), (4, 40)]);
    store.remove(&1);
    store.remove(&2);
    store.purge_old_entries();
    assert_eq!(store.all(), vec![(4, 40)]);
}

#[test]
fn the_counter_runs_out_at_the_last_number() {
    let store: Expiring<u128, u32> = Expiring::starting_at(TimeSpan::seconds(10), u64::MAX);
    assert!(!store.has_headroom());
    assert!(!store.sequences_left(1));
    assert!(store.sequences_left(0));
    let mut store: Expiring<u128, u32> = Expiring::starting_at(TimeSpan::seconds(10), u64::MAX - 1);
    assert!(store.has_headroom());
    assert!(!store.sequences_left(2));
    store.put_at(1, 10, at(0));
    assert!(!store.has_headroom());
    assert_eq!(store.get(&1), Some(&10));
}

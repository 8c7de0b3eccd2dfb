use backend::clock::{TimeSpan, Timestamp};
use backend::hr::{del_hr, get_hr, put_hr, put_volume, DatabaseContent, EXPIRATION_SECONDS};
use backend::messages::{AllHR, Id, PutHR, PutVolume, HR};
use backend::room::{RoomContent, DEFAULT_VOLUME};

const FRESH: Id = 0xF00D;

fn at(secs: i64) -> Timestamp {
    Timestamp { secs, nanos: 0 }
}

fn volume_bits(decibels: f64) -> u64 {
    decibels.to_bits()
}

fn two_cues() -> DatabaseContent {
    DatabaseContent::with_settings(
        TimeSpan::seconds(10),
        TimeSpan::seconds(10),
        vec![String::from("A"), String::from("B")],
    )
}

fn sample(hr: i32) -> PutHR {
    PutHR { hr, volume: None }
}

fn record_of(listing: &AllHR, id: Id) -> Option<&HR> {
    let mut found = None;
    for (key, record) in &listing.data {
        if *key == id {
            assert!(found.is_none());
            found = Some(record);
        }
    }
    found
}

fn cue_of(listing: &AllHR, id: Id) -> String {
    record_of(listing, id).unwrap().audio_file.clone()
}

#[test]
fn the_default_volume_is_minus_ten_decibels() {
    assert_eq!(f64::from_bits(DEFAULT_VOLUME), -10.0);
    assert_eq!(DEFAULT_VOLUME, volume_bits(-10.0));
    assert_eq!(EXPIRATION_SECONDS, 10);
}

#[test]
fn a_new_room_has_the_default_volume_and_a_random_setter() {
    let first = RoomContent::new(TimeSpan::seconds(10));
    let second = RoomContent::new(TimeSpan::seconds(10));
    assert_eq!(first.volume(), DEFAULT_VOLUME);
    assert_eq!(first.volume_change_index(), 0);
    assert!(first.is_empty());
    for room in [&first, &second] {
        let id = room.volume_changer_uuid();
        assert_eq!((id >> 76) & 0xf, 4);
        assert_eq!((id >> 62) & 0x3, 2);
    }
    assert_ne!(first.volume_changer_uuid(), second.volume_changer_uuid());
}

#[test]
fn a_room_made_for_a_setter_names_that_setter() {
    let mut room = RoomContent::with_setter(42, TimeSpan::seconds(10));
    assert_eq!(room.volume_changer_uuid(), 42);
    assert_eq!(room.volume(), DEFAULT_VOLUME);
    assert_eq!(room.volume_change_index(), 0);
    room.set_volume(volume_bits(-3.5), 43);
    assert_eq!(f64::from_bits(room.volume()), -3.5);
    assert_eq!(room.volume_changer_uuid(), 43);
    assert_eq!(room.volume_change_index(), 1);
}

#[test]
fn cues_go_to_new_clients_by_least_use() {
    let mut rooms = two_cues();
    rooms.put_hr_at("r", 1, sample(60), at(0), FRESH);
    let listing = rooms.get_hr_at("r", at(0), FRESH);
    assert_eq!(cue_of(&listing, 1), "A");

    rooms.put_hr_at("r", 2, sample(61), at(1), FRESH);
    let listing = rooms.get_hr_at("r", at(1), FRESH);
    assert_eq!(cue_of(&listing, 2), "B");

    rooms.put_hr_at("r", 3, sample(62), at(2), FRESH);
    let listing = rooms.get_hr_at("r", at(2), FRESH);
    assert_eq!(cue_of(&listing, 3), "A");

    // A later sample of client 1 keeps its cue, though B is now used less.
    rooms.put_hr_at("r", 1, sample(90), at(3), FRESH);
    let listing = rooms.get_hr_at("r", at(3), FRESH);
    assert_eq!(cue_of(&listing, 1), "A");
    assert_eq!(record_of(&listing, 1).unwrap().hr, 90);
    assert_eq!(record_of(&listing, 1).unwrap().time_utc, at(3));
    assert_eq!(listing.data.len(), 3);

    // Without client 2 the others have the cues they had.
    rooms.del_hr_at("r", 2, at(4), FRESH);
    let listing = rooms.get_hr_at("r", at(4), FRESH);
    assert_eq!(cue_of(&listing, 1), "A");
    assert_eq!(cue_of(&listing, 3), "A");
    assert!(record_of(&listing, 2).is_none());
    assert_eq!(listing.data.len(), 2);

    // The next new client gets the cue that nobody has.
    rooms.put_hr_at("r", 4, sample(63), at(5), FRESH);
    let listing = rooms.get_hr_at("r", at(5), FRESH);
    assert_eq!(cue_of(&listing, 4), "B");
}

#[test]
fn without_a_catalog_a_client_has_no_cue() {
    let mut rooms =
        DatabaseContent::with_settings(TimeSpan::seconds(10), TimeSpan::seconds(10), Vec::new());
    rooms.put_hr_at("r", 1, sample(60), at(0), FRESH);
    let listing = rooms.get_hr_at("r", at(0), FRESH);
    assert_eq!(cue_of(&listing, 1), "");
}

#[test]
fn the_usual_rooms_hand_out_the_first_cue_of_the_usual_catalog() {
    let mut rooms = DatabaseContent::new();
    rooms.put_hr_at("r", 1, sample(60), at(0), FRESH);
    rooms.put_hr_at("r", 2, sample(60), at(0), FRESH);
    let listing = rooms.get_hr_at("r", at(0), FRESH);
    assert_eq!(cue_of(&listing, 1), "heart-beat.wav");
    assert_eq!(cue_of(&listing, 2), "beep.wav");
    // Samples stay for ten seconds, and not a nanosecond longer.
    let listing = rooms.get_hr_at("r", at(10), FRESH);
    assert_eq!(listing.data.len(), 2);
    let listing = rooms.get_hr_at("r", Timestamp { secs: 10, nanos: 1 }, FRESH);
    assert_eq!(listing.data.len(), 0);
}

#[test]
fn the_last_writer_of_the_volume_wins_and_each_write_counts_once() {
    let mut rooms = two_cues();
    let first = rooms.put_volume_at(
        "r",
        PutVolume { volume: volume_bits(-20.0), volume_changer_uuid: 100 },
        at(0),
        FRESH,
    );
    assert_eq!(first.volume_change_index, 1);
    assert_eq!(first.volume_changer_uuid, 100);
    assert_eq!(f64::from_bits(first.volume), -20.0);

    let second = rooms.put_hr_at(
        "r",
        200,
        PutHR { hr: 60, volume: Some(volume_bits(-5.0)) },
        at(1),
        FRESH,
    );
    assert_eq!(second.volume_change_index, 2);
    assert_eq!(second.volume_changer_uuid, 200);
    assert_eq!(f64::from_bits(second.volume), -5.0);

    let third = rooms.put_volume_at(
        "r",
        PutVolume { volume: volume_bits(-7.25), volume_changer_uuid: 300 },
        at(2),
        FRESH,
    );
    assert_eq!(third.volume_change_index, 3);
    assert_eq!(third.volume_changer_uuid, 300);
    assert_eq!(f64::from_bits(third.volume), -7.25);

    let listing = rooms.get_hr_at("r", at(3), FRESH);
    assert_eq!(listing.volume_change_index, 3);
    assert_eq!(listing.volume_changer_uuid, 300);
    assert_eq!(f64::from_bits(listing.volume), -7.25);
}

#[test]
fn a_sample_without_a_volume_leaves_the_volume_alone() {
    let mut rooms = two_cues();
    let answer = rooms.put_hr_at("r", 1, sample(60), at(0), FRESH);
    assert_eq!(answer.volume_change_index, 0);
    assert_eq!(answer.volume_changer_uuid, FRESH);
    assert_eq!(answer.volume, DEFAULT_VOLUME);
}

#[test]
fn a_room_goes_with_its_last_client() {
    let mut rooms = two_cues();
    let answer = rooms.put_hr_at(
        "r",
        1,
        PutHR { hr: 60, volume: Some(volume_bits(-1.0)) },
        at(0),
        FRESH,
    );
    assert_eq!(answer.volume_change_index, 1);
    rooms.del_hr_at("r", 1, at(1), FRESH);
    // Whoever asks for the room next finds a new one.
    let listing = rooms.get_hr_at("r", at(2), 0xBEEF);
    assert_eq!(listing.data.len(), 0);
    assert_eq!(listing.volume_change_index, 0);
    assert_eq!(listing.volume, DEFAULT_VOLUME);
    assert_eq!(f64::from_bits(listing.volume), -10.0);
    assert_eq!(listing.volume_changer_uuid, 0xBEEF);
}

#[test]
fn a_room_with_clients_left_stays_when_one_is_removed() {
    let mut rooms = two_cues();
    rooms.put_hr_at("r", 1, PutHR { hr: 60, volume: Some(7) }, at(0), FRESH);
    rooms.put_hr_at("r", 2, sample(61), at(0), FRESH);
    rooms.del_hr_at("r", 1, at(1), FRESH);
    let listing = rooms.get_hr_at("r", at(2), 0xBEEF);
    assert_eq!(listing.data.len(), 1);
    assert_eq!(listing.volume_change_index, 1);
    assert_eq!(listing.volume, 7);
    assert_eq!(listing.volume_changer_uuid, 1);
}

#[test]
fn removing_a_client_from_a_room_without_clients_removes_the_room() {
    let mut rooms = two_cues();
    rooms.put_volume_at("r", PutVolume { volume: 7, volume_changer_uuid: 9 }, at(0), FRESH);
    rooms.del_hr_at("r", 1, at(1), FRESH);
    let listing = rooms.get_hr_at("r", at(2), 0xBEEF);
    assert_eq!(listing.volume_change_index, 0);
    assert_eq!(listing.volume_changer_uuid, 0xBEEF);
}

#[test]
fn a_room_goes_when_a_read_finds_its_last_client_expired() {
    let mut rooms = two_cues();
    rooms.put_hr_at("r", 1, PutHR { hr: 60, volume: Some(7) }, at(0), FRESH);
    // The room was last touched at 5 s, the client at 0 s.
    rooms.put_volume_at("r", PutVolume { volume: 8, volume_changer_uuid: 9 }, at(5), FRESH);
    let listing = rooms.get_hr_at("r", at(11), 0xBEEF);
    assert_eq!(listing.data.len(), 0);
    // The read still answers for the room as it was.
    assert_eq!(listing.volume_change_index, 2);
    assert_eq!(listing.volume, 8);
    assert_eq!(listing.volume_changer_uuid, 9);
    // After it, the room is new.
    let listing = rooms.get_hr_at("r", at(11), 0xCAFE);
    assert_eq!(listing.volume_change_index, 0);
    assert_eq!(listing.volume_changer_uuid, 0xCAFE);
}

#[test]
fn a_read_of_a_room_without_clients_leaves_the_room_in_place() {
    let mut rooms = two_cues();
    rooms.put_volume_at("r", PutVolume { volume: 8, volume_changer_uuid: 9 }, at(0), FRESH);
    let listing = rooms.get_hr_at("r", at(1), 0xBEEF);
    assert_eq!(listing.volume_change_index, 1);
    let listing = rooms.get_hr_at("r", at(2), 0xBEEF);
    assert_eq!(listing.volume_change_index, 1);
    assert_eq!(listing.volume_changer_uuid, 9);
}

#[test]
fn a_room_that_nobody_touches_expires() {
    let mut rooms = DatabaseContent::with_settings(
        TimeSpan::seconds(10),
        TimeSpan::seconds(100),
        vec![String::from("A")],
    );
    rooms.put_hr_at("r", 1, PutHR { hr: 60, volume: Some(7) }, at(0), FRESH);
    // A request for another room, past the lifetime of a room, purges the rooms.
    rooms.put_hr_at("s", 2, sample(61), Timestamp { secs: 10, nanos: 1 }, FRESH);
    let listing = rooms.get_hr_at("r", at(11), 0xBEEF);
    assert_eq!(listing.data.len(), 0);
    assert_eq!(listing.volume_change_index, 0);
    assert_eq!(listing.volume_changer_uuid, 0xBEEF);
    let listing = rooms.get_hr_at("s", at(11), 0xBEEF);
    assert_eq!(listing.data.len(), 1);
}

#[test]
fn a_read_keeps_a_room_alive() {
    let mut rooms = DatabaseContent::with_settings(
        TimeSpan::seconds(10),
        TimeSpan::seconds(100),
        vec![String::from("A")],
    );
    rooms.put_hr_at("r", 1, PutHR { hr: 60, volume: Some(7) }, at(0), FRESH);
    let listing = rooms.get_hr_at("r", at(9), FRESH);
    assert_eq!(listing.data.len(), 1);
    // Touched at 9 s by the read, the room is fresh at 15 s.
    rooms.put_hr_at("s", 2, sample(61), at(15), FRESH);
    let listing = rooms.get_hr_at("r", at(15), 0xBEEF);
    assert_eq!(listing.data.len(), 1);
    assert_eq!(listing.volume_change_index, 1);
    assert_eq!(listing.volume_changer_uuid, 1);
}

#[test]
fn a_read_does_not_keep_a_client_alive() {
    let mut rooms = two_cues();
    rooms.put_hr_at("r", 1, sample(60), at(0), FRESH);
    rooms.put_hr_at("r", 2, sample(61), at(8), FRESH);
    let listing = rooms.get_hr_at("r", at(9), FRESH);
    assert_eq!(listing.data.len(), 2);
    let listing = rooms.get_hr_at("r", at(11), FRESH);
    assert_eq!(listing.data.len(), 1);
    assert!(record_of(&listing, 1).is_none());
    assert_eq!(record_of(&listing, 2).unwrap().hr, 61);
    assert_eq!(record_of(&listing, 2).unwrap().time_utc, at(8));
}

#[test]
fn rooms_are_kept_apart() {
    let mut rooms = two_cues();
    rooms.put_hr_at("r", 1, PutHR { hr: 60, volume: Some(7) }, at(0), 11);
    rooms.put_hr_at("s", 1, sample(70), at(0), 22);
    let listing = rooms.get_hr_at("r", at(1), FRESH);
    assert_eq!(record_of(&listing, 1).unwrap().hr, 60);
    assert_eq!(listing.volume_change_index, 1);
    let listing = rooms.get_hr_at("s", at(1), FRESH);
    assert_eq!(record_of(&listing, 1).unwrap().hr, 70);
    assert_eq!(cue_of(&listing, 1), "A");
    assert_eq!(listing.volume_change_index, 0);
    assert_eq!(listing.volume_changer_uuid, 22);
}

#[test]
fn get_mut_brings_a_room_into_being_once() {
    let mut rooms = two_cues();
    {
        let room = rooms.get_mut_at("r", at(0), 11);
        assert_eq!(room.volume_changer_uuid(), 11);
        room.set_volume(5, 12);
    }
    let room = rooms.get_mut_at("r", at(1), 13);
    assert_eq!(room.volume_changer_uuid(), 12);
    assert_eq!(room.volume_change_index(), 1);
    assert_eq!(room.volume(), 5);
}

#[test]
fn the_rooms_can_be_touched_purged_and_removed_by_hand() {
    let mut rooms = two_cues();
    rooms.get_mut_at("r", at(0), 11);
    rooms.get_mut_at("s", at(0), 22);
    rooms.refresh_at("r", at(8));
    rooms.refresh_at("nowhere", at(8));
    rooms.purge_old_entries_at(at(12));
    assert_eq!(rooms.get_mut_at("r", at(12), 33).volume_changer_uuid(), 11);
    assert_eq!(rooms.get_mut_at("s", at(12), 44).volume_changer_uuid(), 44);
    rooms.remove("r");
    rooms.remove("nowhere");
    assert_eq!(rooms.get_mut_at("r", at(12), 55).volume_changer_uuid(), 55);
}

#[test]
fn requests_by_the_wall_clock_work_on_the_rooms() {
    let mut rooms = DatabaseContent::new();
    let answer = put_hr(&mut rooms, "r", 1, PutHR { hr: 60, volume: None }).unwrap();
    assert_eq!(answer.volume_change_index, 0);
    assert_eq!(answer.volume, DEFAULT_VOLUME);
    let setter = answer.volume_changer_uuid;
    assert_eq!((setter >> 76) & 0xf, 4);
    assert_eq!((setter >> 62) & 0x3, 2);

    let answer =
        put_volume(&mut rooms, "r", PutVolume { volume: 3, volume_changer_uuid: 77 }).unwrap();
    assert_eq!(answer.volume_change_index, 1);
    assert_eq!(answer.volume_changer_uuid, 77);
    assert_eq!(answer.volume, 3);

    let listing = get_hr(&mut rooms, "r").unwrap();
    assert_eq!(listing.data.len(), 1);
    assert_eq!(cue_of(&listing, 1), "heart-beat.wav");
    assert_eq!(record_of(&listing, 1).unwrap().hr, 60);
    assert!(record_of(&listing, 1).unwrap().time_utc.secs > 1_577_836_800);
    assert_eq!(listing.volume_change_index, 1);

    del_hr(&mut rooms, "r", 1).unwrap();
    let listing = get_hr(&mut rooms, "r").unwrap();
    assert_eq!(listing.data.len(), 0);
    assert_eq!(listing.volume_change_index, 0);
    assert_ne!(listing.volume_changer_uuid, 77);
    assert_ne!(listing.volume_changer_uuid, setter);

    rooms.refresh("r");
    rooms.purge_old_entries();
    rooms.get_mut("r").set_volume(9, 78);
    let listing = get_hr(&mut rooms, "r").unwrap();
    assert_eq!(listing.volume, 9);
    assert_eq!(listing.volume_changer_uuid, 78);
    assert_eq!(listing.volume_change_index, 1);
}

#[test]
fn requests_fail_when_the_counter_of_the_rooms_has_run_out() {
    let mut rooms = DatabaseContent::starting_at(
        u64::MAX - 1,
        TimeSpan::seconds(10),
        TimeSpan::seconds(10),
        vec![String::from("A")],
    );
    assert!(!rooms.has_headroom());
    assert!(!rooms.can_put_hr("r", &sample(60)));
    assert!(!rooms.can_put_volume("r"));
    let failure = put_hr(&mut rooms, "r", 1, sample(60)).unwrap_err();
    assert_eq!(failure.message(), "a counter has run out of numbers");
    assert!(put_volume(&mut rooms, "r", PutVolume { volume: 3, volume_changer_uuid: 77 }).is_err());
    assert!(get_hr(&mut rooms, "r").is_err());
    assert!(del_hr(&mut rooms, "r", 1).is_err());

    let mut rooms = DatabaseContent::starting_at(
        u64::MAX - 2,
        TimeSpan::seconds(10),
        TimeSpan::seconds(10),
        vec![String::from("A")],
    );
    assert!(rooms.has_headroom());
    assert!(rooms.can_put_hr("r", &sample(60)));
    assert!(rooms.can_put_volume("r"));
    assert!(put_hr(&mut rooms, "r", 1, sample(60)).is_ok());
    // Bringing the room into being and touching it took the last two numbers.
    assert!(!rooms.has_headroom());
    assert!(get_hr(&mut rooms, "r").is_err());
}

use backend::clock::{TimeSpan, Timestamp};
use backend::cues::{audio_files, least_used_audio_in_room};
use backend::expiring::Expiring;
use backend::messages::{Id, HR};

fn at(secs: i64) -> Timestamp {
    Timestamp { secs, nanos: 0 }
}

fn catalog(names: &[&str]) -> Vec<String> {
    let mut files = Vec::new();
    for name in names {
        files.push(String::from(*name));
    }
    files
}

fn room_with(cues: &[&str]) -> Expiring<Id, HR> {
    let mut room: Expiring<Id, HR> = Expiring::new(TimeSpan::seconds(10));
    let mut id: Id = 1;
    for cue in cues {
        room.put_at(id, HR { hr: 60, time_utc: at(0), audio_file: String::from(*cue) }, at(0));
        id += 1;
    }
    room
}

#[test]
fn the_usual_catalog_has_five_cues_in_order() {
    assert_eq!(
        audio_files(),
        vec![
            "heart-beat.wav",
            "beep.wav",
            "heart-beat500.wav",
            "heart-beat1000.wav",
            "heart-beat1500.wav",
        ]
    );
}

#[test]
fn an_empty_catalog_has_no_cue_to_give() {
    assert_eq!(least_used_audio_in_room(&catalog(&[]), &room_with(&[])), None);
    assert_eq!(least_used_audio_in_room(&catalog(&[]), &room_with(&["a"])), None);
}

#[test]
fn an_empty_room_gets_the_first_cue() {
    let cue = least_used_audio_in_room(&catalog(&["a", "b"]), &room_with(&[]));
    assert_eq!(cue, Some(String::from("a")));
}

#[test]
fn an_unused_cue_wins_over_a_used_one() {
    let cue = least_used_audio_in_room(&catalog(&["a", "b", "c"]), &room_with(&["a", "c", "a"]));
    assert_eq!(cue, Some(String::from("b")));
}

#[test]
fn among_equally_used_cues_the_first_wins() {
    let cue = least_used_audio_in_room(&catalog(&["a", "b", "c"]), &room_with(&["a", "b", "c"]));
    assert_eq!(cue, Some(String::from("a")));
    let cue = least_used_audio_in_room(&catalog(&["a", "b", "c"]), &room_with(&["a", "a", "b", "c"]));
    assert_eq!(cue, Some(String::from("b")));
    let cue = least_used_audio_in_room(&catalog(&["c", "b", "a"]), &room_with(&["a", "a", "b", "c"]));
    assert_eq!(cue, Some(String::from("c")));
}

#[test]
fn the_least_used_cue_wins_when_all_are_used() {
    let cue = least_used_audio_in_room(
        &catalog(&["a", "b", "c"]),
        &room_with(&["a", "a", "b", "b", "c", "a"]),
    );
    assert_eq!(cue, Some(String::from("c")));
}

#[test]
fn a_cue_outside_the_catalog_counts_for_nothing() {
    let cue = least_used_audio_in_room(&catalog(&["a", "b"]), &room_with(&["old", "old", "a"]));
    assert_eq!(cue, Some(String::from("b")));
    let cue = least_used_audio_in_room(&catalog(&["a", "b"]), &room_with(&["old", "", "b"]));
    assert_eq!(cue, Some(String::from("a")));
}

#[test]
fn a_cue_listed_twice_is_still_handed_out_from_its_first_place() {
    let cue = least_used_audio_in_room(&catalog(&["a", "b", "a"]), &room_with(&["b"]));
    assert_eq!(cue, Some(String::from("a")));
}

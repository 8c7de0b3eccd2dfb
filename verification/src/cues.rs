//! The rule that gives a new client its audio cue.
//!
//! The cues come from a catalog whose order is fixed. A new client gets the cue
//! that the fewest clients of its room have; among cues that are used equally
//! little, the one that stands first in the catalog.

use vstd::prelude::*;
use crate::expiring::Expiring;
use crate::messages::{HR, HRView, Id};
use crate::store_view::StoreView;

verus! {

/// The records of a store of samples, as contracts see them.
pub open spec fn samples(store: StoreView<Id, HR>) -> StoreView<Id, HRView> {
    store.map_values(|record: HR| record@)
}

/// A catalog of cues, as contracts see it.
pub open spec fn catalog(audio_files: Seq<String>) -> Seq<Seq<char>> {
    audio_files.map_values(|file: String| file@)
}

/// The catalog that the rooms use unless they are set up otherwise.
pub open spec fn default_cues() -> Seq<Seq<char>> {
    seq![
        "heart-beat.wav"@,
        "beep.wav"@,
        "heart-beat500.wav"@,
        "heart-beat1000.wav"@,
        "heart-beat1500.wav"@,
    ]
}

/// Makes the catalog that the rooms use unless they are set up otherwise.
pub fn audio_files() -> (files: Vec<String>)
    ensures
        catalog(files@) == default_cues(),
{
    let mut files: Vec<String> = Vec::new();
    files.push("heart-beat.wav".to_owned());
    files.push("beep.wav".to_owned());
    files.push("heart-beat500.wav".to_owned());
    files.push("heart-beat1000.wav".to_owned());
    files.push("heart-beat1500.wav".to_owned());
    assert(catalog(files@) =~= default_cues());
    files
}

/// The clients whose cue is `cue`.
pub open spec fn users(clients: StoreView<Id, HRView>, cue: Seq<char>) -> Set<Id> {
    Set::new(|id: Id| clients.contains(id) && clients.value(id).audio_file == cue)
}

/// How many clients have the cue `cue`.
pub open spec fn uses(clients: StoreView<Id, HRView>, cue: Seq<char>) -> nat {
    users(clients, cue).len()
}

/// Whether the cue at position `at` of the catalog is the one to hand out: no
/// cue of the catalog is used less, and every cue before it is used more. A
/// cue of a client that the catalog does not list counts for nothing.
pub open spec fn is_least_used(
    cues: Seq<Seq<char>>,
    clients: StoreView<Id, HRView>,
    at: int,
) -> bool {
    &&& 0 <= at < cues.len()
    &&& forall|i: int| 0 <= i < cues.len() ==> uses(clients, cues[at]) <= uses(clients, #[trigger] cues[i])
    &&& forall|i: int| 0 <= i < at ==> uses(clients, cues[at]) < uses(clients, #[trigger] cues[i])
}

/// The cue to hand out, if the catalog has any.
pub open spec fn least_used(cues: Seq<Seq<char>>, clients: StoreView<Id, HRView>) -> Option<
    Seq<char>,
> {
    if cues.len() == 0 {
        None
    } else {
        Some(cues[choose|at: int| is_least_used(cues, clients, at)])
    }
}

/// At most one position of a catalog holds the cue to hand out.
pub proof fn lemma_least_used_unique(
    cues: Seq<Seq<char>>,
    clients: StoreView<Id, HRView>,
    a: int,
    b: int,
)
    requires
        is_least_used(cues, clients, a),
        is_least_used(cues, clients, b),
    ensures
        a == b,
{
    if a < b {
        assert(uses(clients, cues[b]) < uses(clients, cues[a]));
        assert(uses(clients, cues[a]) <= uses(clients, cues[b]));
    } else if b < a {
        assert(uses(clients, cues[a]) < uses(clients, cues[b]));
        assert(uses(clients, cues[b]) <= uses(clients, cues[a]));
    }
}

/// Counts the records of a snapshot of `room` whose cue is `cue`.
fn count_uses(room: &Expiring<Id, HR>, records: &Vec<(&Id, &HR)>, cue: &String) -> (count: usize)
    requires
        room.wf(),
        room.shown_by(records@),
    ensures
        count == uses(samples(room@), cue@),
{
    let ghost clients = samples(room@);
    let ghost seen: Set<Id> = Set::empty();
    let mut count: usize = 0;
    let mut at: usize = 0;
    while at < records.len()
        invariant
            at <= records@.len(),
            clients == samples(room@),
            room.shown_by(records@),
            seen.finite(),
            seen.len() == count,
            count <= at,
            forall|id: Id|
                seen.contains(id) <==> exists|i: int|
                    0 <= i < at && *(#[trigger] records@[i]).0 == id && clients.value(
                        id,
                    ).audio_file == cue@,
        decreases records@.len() - at,
    {
        let record = records[at].1;
        let ghost id = *records@[at as int].0;
        assert(clients.value(id) == record@);
        if record.audio_file == *cue {
            proof {
                if seen.contains(id) {
                    let i = choose|i: int|
                        0 <= i < at && *(#[trigger] records@[i]).0 == id && clients.value(
                            id,
                        ).audio_file == cue@;
                    assert(records@[i].0@ != records@[at as int].0@);
                }
                seen = seen.insert(id);
            }
            count += 1;
        }
        at += 1;
    }
    proof {
        assert forall|id: Id| seen.contains(id) <==> users(clients, cue@).contains(id) by {
            if users(clients, cue@).contains(id) {
                let i = choose|i: int|
                    0 <= i < records@.len() && (#[trigger] records@[i]).0@ == id;
                assert(*records@[i].0 == id);
            }
        }
        assert(seen =~= users(clients, cue@));
    }
    count
}

/// The cue for a client that is new to `room`: of the cues in `audio_files`,
/// the one that the fewest clients of the room have, and of several such the
/// first in `audio_files`. There is none when `audio_files` is empty.
pub fn least_used_audio_in_room(audio_files: &Vec<String>, room: &Expiring<Id, HR>) -> (cue:
    Option<String>)
    requires
        room.wf(),
    ensures
        match cue {
            Some(file) => least_used(catalog(audio_files@), samples(room@)) == Some(file@),
            None => audio_files@.len() == 0,
        },
{
    if audio_files.len() == 0 {
        return None;
    }
    let ghost cues = catalog(audio_files@);
    let ghost clients = samples(room@);
    let records = room.all_ref();
    let mut smallest_at: usize = 0;
    let mut smallest_count: usize = count_uses(room, &records, &audio_files[0]);
    let mut at: usize = 1;
    while at < audio_files.len()
        invariant
            room.wf(),
            room.shown_by(records@),
            cues == catalog(audio_files@),
            clients == samples(room@),
            0 <= smallest_at < at <= audio_files@.len(),
            smallest_count == uses(clients, cues[smallest_at as int]),
            forall|i: int| 0 <= i < at ==> smallest_count <= uses(clients, #[trigger] cues[i]),
            forall|i: int| 0 <= i < smallest_at ==> smallest_count < uses(clients, #[trigger] cues[i]),
        decreases audio_files@.len() - at,
    {
        let count = count_uses(room, &records, &audio_files[at]);
        assert(cues[at as int] == audio_files@[at as int]@);
        if count < smallest_count {
            smallest_at = at;
            smallest_count = count;
        }
        at += 1;
    }
    proof {
        assert(is_least_used(cues, clients, smallest_at as int));
        let chosen = choose|at: int| is_least_used(cues, clients, at);
        lemma_least_used_unique(cues, clients, chosen, smallest_at as int);
    }
    Some(audio_files[smallest_at].clone())
}

} // verus!

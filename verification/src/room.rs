//! One room: the samples of its clients and its volume.

use vstd::prelude::*;
use crate::clock::{TimeSpan, Timestamp};
use crate::cues::{catalog, least_used, least_used_audio_in_room, samples};
use crate::expiring::Expiring;
use crate::messages::{AllHR, HR, HRPutResponse, HRView, Id, PutHR, Volume};
use crate::store_view::StoreView;

verus! {

/// The volume of a room that nobody has set yet: -10 dB.
pub const DEFAULT_VOLUME: Volume = 0xC024_0000_0000_0000;

/// The samples of the clients of a room, and the volume of the room with the
/// identifier of whoever set it last and the number of times it was set.
pub struct RoomContent {
    hr: Expiring<Id, HR>,
    volume_changer_uuid: Id,
    volume_change_index: u64,
    volume: Volume,
}

/// A room as contracts see it.
pub struct RoomView {
    pub clients: StoreView<Id, HRView>,
    pub volume: Volume,
    pub volume_changer_uuid: Id,
    pub volume_change_index: nat,
}

impl RoomView {
    /// A room that has just come into being: no clients, the default volume,
    /// `setter` for the one who set it, and no change counted.
    pub open spec fn fresh(setter: Id, lifetime: TimeSpan) -> RoomView {
        RoomView {
            clients: StoreView::empty(lifetime),
            volume: DEFAULT_VOLUME,
            volume_changer_uuid: setter,
            volume_change_index: 0,
        }
    }

    /// The room after `setter` set its volume to `volume`: the last writer
    /// wins, and the change is counted.
    pub open spec fn with_volume(self, volume: Volume, setter: Id) -> RoomView {
        RoomView {
            clients: self.clients,
            volume,
            volume_changer_uuid: setter,
            volume_change_index: self.volume_change_index + 1,
        }
    }

    /// The room with `clients` for its clients.
    pub open spec fn with_clients(self, clients: StoreView<Id, HRView>) -> RoomView {
        RoomView {
            clients,
            volume: self.volume,
            volume_changer_uuid: self.volume_changer_uuid,
            volume_change_index: self.volume_change_index,
        }
    }

    /// The cue of the client `id` once it has written a sample: the cue it
    /// has, if it is known to the room; for a new client, the least used cue
    /// of the catalog `cues`, and no cue if the catalog is empty.
    pub open spec fn assigned_cue(self, cues: Seq<Seq<char>>, id: Id) -> Seq<char> {
        if self.clients.contains(id) {
            self.clients.value(id).audio_file
        } else {
            match least_used(cues, self.clients) {
                Some(cue) => cue,
                None => Seq::empty(),
            }
        }
    }

    /// The room after the client `id` wrote the sample `put_hr` at time `now`.
    /// A volume that comes with the sample is set for the client. The sample
    /// is stored under `id` with the time `now` and the client's cue, and the
    /// clients are purged.
    pub open spec fn put_sample(self, cues: Seq<Seq<char>>, id: Id, put_hr: PutHR, now: Timestamp)
        -> RoomView {
        let room = match put_hr.volume {
            Some(volume) => self.with_volume(volume, id),
            None => self,
        };
        let record = HRView {
            hr: put_hr.hr,
            time_utc: now,
            audio_file: self.assigned_cue(cues, id),
        };
        room.with_clients(self.clients.put(id, record, now).purge(now))
    }

    /// The room after a purge of its clients at time `now`.
    pub open spec fn purged(self, now: Timestamp) -> RoomView {
        self.with_clients(self.clients.purge(now))
    }

    /// The room without the client `id`.
    pub open spec fn without(self, id: Id) -> RoomView {
        self.with_clients(self.clients.remove(id))
    }

    /// Whether the room can take the sample `put_hr`: the counter of its
    /// clients has a number left, and so has the counter of volume changes if
    /// the sample brings a volume.
    pub open spec fn can_take(self, put_hr: PutHR) -> bool {
        &&& self.clients.next_sequence < u64::MAX
        &&& put_hr.volume is Some ==> self.volume_change_index < u64::MAX
    }

    /// A sample leaves its client in the room. A client that the room knew
    /// keeps the cue it had, whatever the other clients have; a new client has
    /// the least used cue of the catalog, or no cue where the catalog is
    /// empty. The sample carries the time of the write.
    pub proof fn law_cue_assignment(
        self,
        cues: Seq<Seq<char>>,
        id: Id,
        put_hr: PutHR,
        now: Timestamp,
    )
        ensures
            ({
                let after = self.put_sample(cues, id, put_hr, now);
                &&& after.clients.contains(id)
                &&& after.clients.value(id).hr == put_hr.hr
                &&& after.clients.value(id).time_utc == now
                &&& self.clients.contains(id) ==> after.clients.value(id).audio_file
                    == self.clients.value(id).audio_file
                &&& !self.clients.contains(id) && cues.len() > 0 ==> least_used(cues, self.clients)
                    == Some(after.clients.value(id).audio_file)
                &&& !self.clients.contains(id) && cues.len() == 0 ==> after.clients.value(
                    id,
                ).audio_file == Seq::<char>::empty()
            }),
    {
        let record = HRView {
            hr: put_hr.hr,
            time_utc: now,
            audio_file: self.assigned_cue(cues, id),
        };
        self.clients.lemma_written_survives(id, record, now);
    }

    /// Whether `data` lists the samples of the room, each client once.
    pub open spec fn listed_by(self, data: Seq<(Id, HR)>) -> bool {
        &&& forall|i: int|
            0 <= i < data.len() ==> self.clients.contains((#[trigger] data[i]).0)
                && data[i].1@ == self.clients.value(data[i].0)
        &&& forall|i: int, j: int|
            0 <= i < j < data.len() ==> (#[trigger] data[i]).0 != (#[trigger] data[j]).0
        &&& forall|id: Id|
            self.clients.contains(id) ==> exists|i: int|
                0 <= i < data.len() && (#[trigger] data[i]).0 == id
    }

    /// Whether `response` reports the volume of the room.
    pub open spec fn reported_by(self, response: HRPutResponse) -> bool {
        &&& response.volume == self.volume
        &&& response.volume_changer_uuid == self.volume_changer_uuid
        &&& response.volume_change_index == self.volume_change_index
    }
}

/// Whether `id` has the form of a random UUID: version 4 of the variant that
/// RFC 9562 lays down.
pub open spec fn is_random_uuid(id: Id) -> bool {
    id & 0x0000_0000_0000_f000_c000_0000_0000_0000 == 0x0000_0000_0000_4000_8000_0000_0000_0000
}

impl View for RoomContent {
    type V = RoomView;

    closed spec fn view(&self) -> RoomView {
        RoomView {
            clients: samples(self.hr@),
            volume: self.volume,
            volume_changer_uuid: self.volume_changer_uuid,
            volume_change_index: self.volume_change_index as nat,
        }
    }
}

impl RoomContent {
    /// The store of samples is well formed.
    pub closed spec fn wf(&self) -> bool {
        self.hr.wf()
    }

    /// A room without clients, at the default volume, whose samples stay
    /// fresh for `lifetime`. For the one who set the volume it names a random
    /// identifier, drawn for this room.
    pub fn new(lifetime: TimeSpan) -> (room: Self)
        ensures
            room.wf(),
            is_random_uuid(room@.volume_changer_uuid),
            room@ == RoomView::fresh(room@.volume_changer_uuid, lifetime),
    {
        RoomContent::with_setter(random_id(), lifetime)
    }

    /// A room without clients, at the default volume, whose samples stay
    /// fresh for `lifetime`, with `setter` for the one who set the volume.
    pub fn with_setter(setter: Id, lifetime: TimeSpan) -> (room: Self)
        ensures
            room.wf(),
            room@ == RoomView::fresh(setter, lifetime),
    {
        let room = RoomContent {
            hr: Expiring::new(lifetime),
            volume_changer_uuid: setter,
            volume: DEFAULT_VOLUME,
            volume_change_index: 0u64,
        };
        proof {
            room.hr@.lemma_map_values_empty(|record: HR| record@);
        }
        room
    }

    /// Sets the volume of the room for `setter`. Nothing is compared or
    /// merged: the new level replaces the old one and the change is counted.
    pub fn set_volume(&mut self, volume: Volume, setter: Id)
        requires
            old(self).wf(),
            old(self)@.volume_change_index < u64::MAX,
        ensures
            final(self).wf(),
            final(self)@ == old(self)@.with_volume(volume, setter),
    {
        self.volume = volume;
        self.volume_change_index += 1;
        self.volume_changer_uuid = setter;
    }
}

impl RoomContent {
    /// The volume of the room.
    pub fn volume(&self) -> (volume: Volume)
        ensures
            volume == self@.volume,
    {
        self.volume
    }

    /// The identifier of the one who set the volume last.
    pub fn volume_changer_uuid(&self) -> (setter: Id)
        ensures
            setter == self@.volume_changer_uuid,
    {
        self.volume_changer_uuid
    }

    /// How many times the volume was set.
    pub fn volume_change_index(&self) -> (count: u64)
        ensures
            count == self@.volume_change_index,
    {
        self.volume_change_index
    }

    /// Whether the room has no client.
    pub fn is_empty(&self) -> (empty: bool)
        requires
            self.wf(),
        ensures
            empty == self@.clients.is_empty(),
    {
        proof {
            self.hr@.lemma_map_values_is_empty(|record: HR| record@);
        }
        self.hr.is_empty()
    }

    /// Whether the room can take the sample `put_hr`.
    pub fn can_take(&self, put_hr: &PutHR) -> (ready: bool)
        ensures
            ready == self@.can_take(*put_hr),
    {
        self.hr.has_headroom() && (put_hr.volume.is_none() || self.volume_change_index
            < u64::MAX)
    }

    /// Takes the sample `hr` of the client `uuid` at time `now`; the cue of a
    /// new client is chosen from `audio_files`. Returns the volume of the room
    /// as it stands afterwards.
    pub fn put_sample_at(
        &mut self,
        audio_files: &Vec<String>,
        uuid: Id,
        hr: PutHR,
        now: Timestamp,
    ) -> (response: HRPutResponse)
        requires
            old(self).wf(),
            old(self)@.can_take(hr),
        ensures
            final(self).wf(),
            final(self)@ == old(self)@.put_sample(catalog(audio_files@), uuid, hr, now),
            final(self)@.reported_by(response),
    {
        if let Some(volume) = hr.volume {
            self.set_volume(volume, uuid);
        }
        let ghost before = self.hr@;
        let least_used_audio = least_used_audio_in_room(audio_files, &self.hr);
        let mut db_hr = HR::from_put_at(hr, now);
        match self.hr.get(&uuid) {
            None => match least_used_audio {
                Some(least_used_audio) => {
                    db_hr.audio_file = least_used_audio;
                },
                None => (),
            },
            Some(old_hr) => {
                db_hr.audio_file = old_hr.audio_file.clone();
            },
        }
        proof {
            assert(db_hr@.audio_file == old(self)@.assigned_cue(catalog(audio_files@), uuid));
            let f = |record: HR| record@;
            before.lemma_map_values_put(f, uuid, db_hr, now);
            before.put(uuid, db_hr, now).lemma_map_values_purge(f, now);
        }
        self.hr.put_at(uuid, db_hr, now);
        self.hr.purge_old_entries_at(now);
        HRPutResponse {
            volume: self.volume,
            volume_changer_uuid: self.volume_changer_uuid,
            volume_change_index: self.volume_change_index,
        }
    }

    /// Purges the clients as of time `now` and lists the samples that are
    /// left, with the volume of the room.
    pub fn list_at(&mut self, now: Timestamp) -> (listing: AllHR)
        requires
            old(self).wf(),
        ensures
            final(self).wf(),
            final(self)@ == old(self)@.purged(now),
            final(self)@.listed_by(listing.data@),
            listing.volume == final(self)@.volume,
            listing.volume_changer_uuid == final(self)@.volume_changer_uuid,
            listing.volume_change_index == final(self)@.volume_change_index,
    {
        proof {
            self.hr@.lemma_map_values_purge(|record: HR| record@, now);
        }
        self.hr.purge_old_entries_at(now);
        let data = self.hr.all();
        AllHR {
            data,
            volume_changer_uuid: self.volume_changer_uuid,
            volume_change_index: self.volume_change_index,
            volume: self.volume,
        }
    }

    /// Removes the client `uuid`, if the room has such a client.
    pub fn remove_client(&mut self, uuid: &Id)
        requires
            old(self).wf(),
        ensures
            final(self).wf(),
            final(self)@ == old(self)@.without(*uuid),
    {
        proof {
            self.hr@.lemma_map_values_remove(|record: HR| record@, *uuid);
        }
        self.hr.remove(uuid);
    }
}

/// Draws a random identifier: `uuid::Uuid::new_v4`, read as one number with
/// `Uuid::as_u128`. The contract claims no more than the version and variant
/// bits that every such UUID carries. Where the system has no random numbers
/// to give, `uuid` stops the program.
#[verifier::external_body]
pub(crate) fn random_id() -> (id: Id)
    ensures
        is_random_uuid(id),
{
    uuid::Uuid::new_v4().as_u128()
}

} // verus!

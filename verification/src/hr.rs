//! The rooms, by label, and what a request does to them.
//!
//! A room comes into being when it is first asked for and goes when its last
//! client goes or when nobody has touched it for the lifetime of a room. Every
//! request names one room, works on it, touches it, and ends with a purge of the
//! rooms.
//!
//! A request takes the rooms by exclusive reference and gives them back when
//! its answer is made. Whoever shares the rooms between threads or tasks puts
//! them behind one lock, and the requests then take effect one after the
//! other, in the order in which they got the lock.

use vstd::prelude::*;
use crate::clock::{TimeSpan, Timestamp, wall_clock};
use crate::error::Error;
use crate::cues::{audio_files, catalog, default_cues};
use crate::expiring::Expiring;
use crate::messages::{AllHR, HRPutResponse, Id, PutHR, PutVolume, PutVolumeResponse, Volume};
use crate::room::{RoomContent, RoomView, is_random_uuid, random_id};
use crate::store_view::StoreView;

verus! {

/// The label of a room.
pub type RoomLabel = String;

/// How many seconds a sample, and a room, stay fresh after a touch unless the
/// rooms are set up otherwise.
pub const EXPIRATION_SECONDS: u64 = 10;

/// All rooms, with the settings they share: the catalog of audio cues and the
/// lifetime of a sample.
pub struct DatabaseContent {
    by_room: Expiring<RoomLabel, RoomContent>,
    audio_files: Vec<String>,
    sample_lifetime: TimeSpan,
}

/// The rooms as contracts see them.
pub struct RegistryView {
    pub rooms: StoreView<Seq<char>, RoomView>,
    pub cues: Seq<Seq<char>>,
    pub sample_lifetime: TimeSpan,
}

/// The rooms of a store of rooms, as contracts see them.
pub open spec fn rooms_of(store: StoreView<Seq<char>, RoomContent>) -> StoreView<
    Seq<char>,
    RoomView,
> {
    store.map_values(|room: RoomContent| room@)
}

impl RegistryView {
    /// The same settings over other rooms.
    pub open spec fn with_rooms(self, rooms: StoreView<Seq<char>, RoomView>) -> RegistryView {
        RegistryView { rooms, cues: self.cues, sample_lifetime: self.sample_lifetime }
    }

    /// The room `label` as a request finds it: the room of that label, or a
    /// new one whose volume was set by `fresh`.
    pub open spec fn room_or_fresh(self, label: Seq<char>, fresh: Id) -> RoomView {
        if self.rooms.contains(label) {
            self.rooms.value(label)
        } else {
            RoomView::fresh(fresh, self.sample_lifetime)
        }
    }

    /// The rooms once a request at time `now` has asked for the room `label`.
    pub open spec fn opened(self, label: Seq<char>, now: Timestamp, fresh: Id) -> StoreView<
        Seq<char>,
        RoomView,
    > {
        self.rooms.put_if_absent(label, RoomView::fresh(fresh, self.sample_lifetime), now)
    }

    /// The rooms while a request holds the room `label` and has made `room`
    /// of it.
    pub open spec fn holding(self, label: Seq<char>, room: RoomView, now: Timestamp, fresh: Id)
        -> RegistryView {
        self.with_rooms(self.opened(label, now, fresh).with_value(label, room))
    }

    /// The rooms after a request that made `room` of the room `label`, touched
    /// it and purged the rooms.
    pub open spec fn settled(self, label: Seq<char>, room: RoomView, now: Timestamp, fresh: Id)
        -> RegistryView {
        self.with_rooms(
            self.opened(label, now, fresh).with_value(label, room).refresh(label, now).purge(now),
        )
    }

    /// The rooms after a request that removed the room `label` and purged the
    /// rooms.
    pub open spec fn dropped(self, label: Seq<char>, now: Timestamp, fresh: Id) -> RegistryView {
        self.with_rooms(self.opened(label, now, fresh).remove(label).purge(now))
    }

    /// The rooms after the volume of the room `label` was set at time `now`.
    pub open spec fn put_volume(
        self,
        label: Seq<char>,
        put_volume: PutVolume,
        now: Timestamp,
        fresh: Id,
    ) -> RegistryView {
        self.settled(
            label,
            self.room_or_fresh(label, fresh).with_volume(
                put_volume.volume,
                put_volume.volume_changer_uuid,
            ),
            now,
            fresh,
        )
    }

    /// The rooms after the client `id` wrote the sample `put_hr` to the room
    /// `label` at time `now`.
    pub open spec fn put_hr(
        self,
        label: Seq<char>,
        id: Id,
        put_hr: PutHR,
        now: Timestamp,
        fresh: Id,
    ) -> RegistryView {
        self.settled(
            label,
            self.room_or_fresh(label, fresh).put_sample(self.cues, id, put_hr, now),
            now,
            fresh,
        )
    }

    /// Whether the purge of its clients at time `now` takes the last client
    /// of the room `label`.
    pub open spec fn emptied_by_purge(self, label: Seq<char>, now: Timestamp, fresh: Id) -> bool {
        let room = self.room_or_fresh(label, fresh);
        !room.clients.is_empty() && room.purged(now).clients.is_empty()
    }

    /// The rooms after the room `label` was read at time `now`. The clients
    /// of the room are purged; the room goes if that took its last client, and
    /// is touched if not.
    pub open spec fn get_hr(self, label: Seq<char>, now: Timestamp, fresh: Id) -> RegistryView {
        if self.emptied_by_purge(label, now, fresh) {
            self.dropped(label, now, fresh)
        } else {
            self.settled(label, self.room_or_fresh(label, fresh).purged(now), now, fresh)
        }
    }

    /// The rooms after the client `id` was removed from the room `label` at
    /// time `now`. A room that is left without clients goes at once; a room
    /// that has clients left is touched.
    pub open spec fn del_hr(self, label: Seq<char>, id: Id, now: Timestamp, fresh: Id)
        -> RegistryView {
        let room = self.room_or_fresh(label, fresh).without(id);
        if room.clients.is_empty() {
            self.dropped(label, now, fresh)
        } else {
            self.settled(label, room, now, fresh)
        }
    }

    /// Whether the volume of the room `label` can be set: the counters of
    /// the rooms and of the room's volume changes have numbers left.
    pub open spec fn can_put_volume(self, label: Seq<char>) -> bool {
        &&& self.has_headroom()
        &&& self.rooms.contains(label) ==> self.rooms.value(label).volume_change_index < u64::MAX
    }

    /// Whether the room `label` can take the sample `put_hr`: the counters
    /// that the request moves have numbers left.
    pub open spec fn can_put_hr(self, label: Seq<char>, put_hr: PutHR) -> bool {
        &&& self.has_headroom()
        &&& self.rooms.contains(label) ==> self.rooms.value(label).can_take(put_hr)
    }

    /// Whether the counter of the rooms leaves room for a request, which may
    /// take two sequence numbers: one to bring the room into being and one to
    /// touch it.
    pub open spec fn has_headroom(self) -> bool {
        self.rooms.next_sequence + 2 <= u64::MAX
    }
}

/// One way to set the volume of a room: by the request that is made for it,
/// or along with a sample.
pub enum VolumeWrite {
    /// The request that sets the volume and nothing else.
    Dedicated(PutVolume),
    /// A sample of the client `id` that brings a volume.
    WithSample { id: Id, hr: i32, volume: Volume },
}

impl VolumeWrite {
    /// The volume that is written.
    pub open spec fn volume(self) -> Volume {
        match self {
            VolumeWrite::Dedicated(put_volume) => put_volume.volume,
            VolumeWrite::WithSample { volume, .. } => volume,
        }
    }

    /// The one who writes it.
    pub open spec fn setter(self) -> Id {
        match self {
            VolumeWrite::Dedicated(put_volume) => put_volume.volume_changer_uuid,
            VolumeWrite::WithSample { id, .. } => id,
        }
    }
}

impl RegistryView {
    /// The rooms after the volume of the room `label` was written in either
    /// way.
    pub open spec fn write_volume(
        self,
        label: Seq<char>,
        write: VolumeWrite,
        now: Timestamp,
        fresh: Id,
    ) -> RegistryView {
        match write {
            VolumeWrite::Dedicated(put_volume) => self.put_volume(label, put_volume, now, fresh),
            VolumeWrite::WithSample { id, hr, volume } => self.put_hr(
                label,
                id,
                PutHR { hr, volume: Some(volume) },
                now,
                fresh,
            ),
        }
    }

    /// A request that has settled a room leaves the room in place, as the
    /// request made it: the touch at the end keeps it from the purge.
    pub proof fn lemma_settled_room(self, label: Seq<char>, room: RoomView, now: Timestamp, fresh: Id)
        ensures
            self.settled(label, room, now, fresh).rooms.contains(label),
            self.settled(label, room, now, fresh).rooms.value(label) == room,
    {
        let held = self.opened(label, now, fresh).with_value(label, room);
        assert(held.contains(label));
        held.lemma_written_survives(label, room, now);
    }

    /// The last writer of a volume wins, and every write counts once. After
    /// two writes to one room, by the dedicated request or along with a sample
    /// and at any two times, the counter of the room stands two above where
    /// the first write found it, one step for each write, and the volume and
    /// the one who set it are those of the second write.
    pub proof fn law_volume_last_write_wins(
        self,
        label: Seq<char>,
        first: VolumeWrite,
        first_time: Timestamp,
        first_fresh: Id,
        second: VolumeWrite,
        second_time: Timestamp,
        second_fresh: Id,
    )
        ensures
            ({
                let found = self.room_or_fresh(label, first_fresh);
                let once = self.write_volume(label, first, first_time, first_fresh);
                let twice = once.write_volume(label, second, second_time, second_fresh);
                &&& once.rooms.contains(label)
                &&& once.rooms.value(label).volume_change_index == found.volume_change_index + 1
                &&& once.rooms.value(label).volume == first.volume()
                &&& once.rooms.value(label).volume_changer_uuid == first.setter()
                &&& twice.rooms.contains(label)
                &&& twice.rooms.value(label).volume_change_index == found.volume_change_index + 2
                &&& twice.rooms.value(label).volume == second.volume()
                &&& twice.rooms.value(label).volume_changer_uuid == second.setter()
            }),
    {
        let once = self.write_volume(label, first, first_time, first_fresh);
        self.lemma_volume_written(label, first, first_time, first_fresh);
        once.lemma_volume_written(label, second, second_time, second_fresh);
    }

    /// One write of a volume: the room is there afterwards, with the volume
    /// and the writer of the write, and one change more on its counter.
    pub proof fn lemma_volume_written(
        self,
        label: Seq<char>,
        write: VolumeWrite,
        now: Timestamp,
        fresh: Id,
    )
        ensures
            ({
                let found = self.room_or_fresh(label, fresh);
                let after = self.write_volume(label, write, now, fresh);
                &&& after.rooms.contains(label)
                &&& after.rooms.value(label).volume_change_index == found.volume_change_index + 1
                &&& after.rooms.value(label).volume == write.volume()
                &&& after.rooms.value(label).volume_changer_uuid == write.setter()
            }),
    {
        let found = self.room_or_fresh(label, fresh);
        match write {
            VolumeWrite::Dedicated(put_volume) => {
                self.lemma_settled_room(
                    label,
                    found.with_volume(put_volume.volume, put_volume.volume_changer_uuid),
                    now,
                    fresh,
                );
            },
            VolumeWrite::WithSample { id, hr, volume } => {
                let put_hr = PutHR { hr, volume: Some(volume) };
                self.lemma_settled_room(
                    label,
                    found.put_sample(self.cues, id, put_hr, now),
                    now,
                    fresh,
                );
            },
        }
    }

    /// A room goes with its last client. When the client `id` is removed from
    /// a room that has no other client, the room is no longer there, and the
    /// next request for it finds a new room: no clients, the default volume,
    /// no change counted, and nothing of what the room held before.
    pub proof fn law_room_goes_with_last_client(
        self,
        label: Seq<char>,
        id: Id,
        now: Timestamp,
        fresh: Id,
        next_fresh: Id,
    )
        requires
            self.room_or_fresh(label, fresh).without(id).clients.is_empty(),
        ensures
            !self.del_hr(label, id, now, fresh).rooms.contains(label),
            self.del_hr(label, id, now, fresh).room_or_fresh(label, next_fresh) == RoomView::fresh(
                next_fresh,
                self.sample_lifetime,
            ),
    {
    }
}

impl View for DatabaseContent {
    type V = RegistryView;

    closed spec fn view(&self) -> RegistryView {
        RegistryView {
            rooms: rooms_of(self.by_room@),
            cues: catalog(self.audio_files@),
            sample_lifetime: self.sample_lifetime,
        }
    }
}

impl DatabaseContent {
    /// The store of rooms is well formed, and so is every room in it.
    pub closed spec fn wf(&self) -> bool {
        &&& self.by_room.wf()
        &&& forall|label: Seq<char>| #[trigger]
            self.by_room@.contains(label) ==> self.by_room@.value(label).wf()
    }

    /// Whether `self` has the store of rooms `rooms` and the settings of
    /// `other`.
    spec fn resettles(&self, other: Self, rooms: StoreView<Seq<char>, RoomContent>) -> bool {
        &&& self.by_room@ == rooms
        &&& self.by_room.wf()
        &&& self.audio_files == other.audio_files
        &&& self.sample_lifetime == other.sample_lifetime
    }

    /// No rooms, with the usual settings: a room and a sample stay fresh for
    /// [`EXPIRATION_SECONDS`] seconds, and the cues come from the catalog of
    /// [`audio_files`].
    pub fn new() -> (content: DatabaseContent)
        ensures
            content.wf(),
            content@ == (RegistryView {
                rooms: StoreView::empty(TimeSpan { secs: EXPIRATION_SECONDS, nanos: 0 }),
                cues: default_cues(),
                sample_lifetime: TimeSpan { secs: EXPIRATION_SECONDS, nanos: 0 },
            }),
    {
        DatabaseContent::with_settings(
            TimeSpan::seconds(EXPIRATION_SECONDS),
            TimeSpan::seconds(EXPIRATION_SECONDS),
            audio_files(),
        )
    }

    /// No rooms, with the given lifetimes of a room and of a sample and the
    /// given catalog of audio cues.
    pub fn with_settings(
        room_lifetime: TimeSpan,
        sample_lifetime: TimeSpan,
        audio_files: Vec<String>,
    ) -> (content: DatabaseContent)
        ensures
            content.wf(),
            content@ == (RegistryView {
                rooms: StoreView::empty(room_lifetime),
                cues: catalog(audio_files@),
                sample_lifetime,
            }),
    {
        DatabaseContent::starting_at(0u64, room_lifetime, sample_lifetime, audio_files)
    }

    /// No rooms, as with [`DatabaseContent::with_settings`], with a counter of
    /// the rooms whose sequence numbers begin at `first` and not at zero.
    pub fn starting_at(
        first: u64,
        room_lifetime: TimeSpan,
        sample_lifetime: TimeSpan,
        audio_files: Vec<String>,
    ) -> (content: DatabaseContent)
        ensures
            content.wf(),
            content@ == (RegistryView {
                rooms: StoreView::empty_from(room_lifetime, first as nat),
                cues: catalog(audio_files@),
                sample_lifetime,
            }),
    {
        let content = DatabaseContent {
            by_room: Expiring::starting_at(room_lifetime, first),
            audio_files,
            sample_lifetime,
        };
        proof {
            content.by_room@.lemma_map_values_empty(|room: RoomContent| room@);
        }
        content
    }

    /// Touches the room `room_name` as of time `now`, if there is such a
    /// room.
    pub fn refresh_at(&mut self, room_name: &str, now: Timestamp)
        requires
            old(self).wf(),
            old(self)@.rooms.next_sequence < u64::MAX,
        ensures
            final(self).wf(),
            final(self)@ == old(self)@.with_rooms(old(self)@.rooms.refresh(room_name@, now)),
    {
        self.by_room.refresh_at(room_name.to_owned(), now);
        proof {
            old(self).by_room@.lemma_map_values_refresh(
                |room: RoomContent| room@,
                room_name@,
                now,
            );
        }
    }

    /// Touches the room `room_name` as of the reading of the wall clock.
    pub fn refresh(&mut self, room_name: &str)
        requires
            old(self).wf(),
            old(self)@.rooms.next_sequence < u64::MAX,
        ensures
            final(self).wf(),
            exists|now: Timestamp|
                final(self)@ == old(self)@.with_rooms(old(self)@.rooms.refresh(room_name@, now)),
    {
        let now = wall_clock();
        self.refresh_at(room_name, now);
    }

    /// Removes the rooms that nobody has touched for the lifetime of a room,
    /// as of time `now`.
    pub fn purge_old_entries_at(&mut self, now: Timestamp)
        requires
            old(self).wf(),
        ensures
            final(self).wf(),
            final(self)@ == old(self)@.with_rooms(old(self)@.rooms.purge(now)),
    {
        self.by_room.purge_old_entries_at(now);
        proof {
            old(self).by_room@.lemma_map_values_purge(|room: RoomContent| room@, now);
        }
    }

    /// Removes the rooms that nobody has touched for the lifetime of a room,
    /// as of the reading of the wall clock.
    pub fn purge_old_entries(&mut self)
        requires
            old(self).wf(),
        ensures
            final(self).wf(),
            exists|now: Timestamp|
                final(self)@ == old(self)@.with_rooms(old(self)@.rooms.purge(now)),
    {
        let now = wall_clock();
        self.purge_old_entries_at(now);
    }

    /// The room `room_name`, to be worked on in place, and beside it the
    /// catalog of audio cues. If there is no such room, one comes into being
    /// as of time `now`.
    fn open_room(&mut self, room_name: &str, now: Timestamp, fresh: Id) -> (opened: (
        &mut RoomContent,
        &Vec<String>,
    ))
        requires
            old(self).wf(),
            old(self)@.rooms.contains(room_name@) || old(self)@.rooms.next_sequence < u64::MAX,
        ensures
            opened.0.wf(),
            opened.0@ == old(self)@.room_or_fresh(room_name@, fresh),
            catalog(opened.1@) == old(self)@.cues,
            final(opened.0).wf() ==> final(self).wf(),
            final(self)@ == old(self)@.holding(room_name@, final(opened.0)@, now, fresh),
    {
        let lifetime = self.sample_lifetime;
        let make = || -> (made: RoomContent)
            ensures
                made.wf(),
                made@ == RoomView::fresh(fresh, lifetime),
            { RoomContent::with_setter(fresh, lifetime) };
        let found = self.by_room.get_or_put_mut_at(room_name.to_owned(), make, now);
        let room = found.1;
        proof {
            let label = room_name@;
            let before = old(self).by_room@;
            let last = *final(room);
            let rooms = if before.contains(label) {
                before.with_value(label, last)
            } else {
                before.put(label, last, now)
            };
            assert forall|after: Self|
                after.resettles(*old(self), rooms) && last.wf() implies #[trigger] after.wf() by {
                assert forall|other: Seq<char>| #[trigger]
                    after.by_room@.contains(other) implies after.by_room@.value(other).wf() by {
                    if other != label {
                        assert(before.contains(other));
                    }
                }
            }
            assert forall|after: Self| after.resettles(*old(self), rooms) implies #[trigger] after@
                == old(self)@.holding(label, last@, now, fresh) by {
                let f = |room: RoomContent| room@;
                if before.contains(label) {
                    before.lemma_map_values_with_value(f, label, last);
                } else {
                    before.lemma_map_values_put(f, label, last, now);
                    assert(rooms_of(before).put(label, last@, now).entries =~= old(self)@.opened(
                        label,
                        now,
                        fresh,
                    ).with_value(label, last@).entries);
                }
            }
        }
        (room, &self.audio_files)
    }

    /// The room `room_name`, to be worked on in place. If there is no such
    /// room, one comes into being as of time `now`: without clients, at the
    /// default volume, with `fresh` for the one who set it. A room that was
    /// there is not touched by this.
    pub fn get_mut_at(&mut self, room_name: &str, now: Timestamp, fresh: Id) -> (room:
        &mut RoomContent)
        requires
            old(self).wf(),
            old(self)@.rooms.contains(room_name@) || old(self)@.rooms.next_sequence < u64::MAX,
        ensures
            room.wf(),
            room@ == old(self)@.room_or_fresh(room_name@, fresh),
            final(room).wf() ==> final(self).wf(),
            final(self)@ == old(self)@.holding(room_name@, final(room)@, now, fresh),
    {
        self.open_room(room_name, now, fresh).0
    }

    /// An identifier for the one who set the volume of the room `room_name`,
    /// should the room have to come into being: a random one, drawn for the
    /// occasion. Where the room is there, nothing is drawn.
    fn fresh_setter(&self, room_name: &str) -> (fresh: Id)
        requires
            self.wf(),
        ensures
            self@.rooms.contains(room_name@) || is_random_uuid(fresh),
    {
        if self.by_room.get(&room_name.to_owned()).is_some() {
            0
        } else {
            random_id()
        }
    }

    /// The room `room_name`, to be worked on in place. If there is no such
    /// room, one comes into being as of the reading of the wall clock: without
    /// clients, at the default volume, with a random identifier, drawn for
    /// this room, for the one who set it.
    pub fn get_mut(&mut self, room_name: &str) -> (room: &mut RoomContent)
        requires
            old(self).wf(),
            old(self)@.rooms.contains(room_name@) || old(self)@.rooms.next_sequence < u64::MAX,
        ensures
            room.wf(),
            final(room).wf() ==> final(self).wf(),
            exists|now: Timestamp, fresh: Id|
                #![trigger old(self)@.holding(room_name@, final(room)@, now, fresh)]
                {
                    &&& old(self)@.rooms.contains(room_name@) || is_random_uuid(fresh)
                    &&& room@ == old(self)@.room_or_fresh(room_name@, fresh)
                    &&& final(self)@ == old(self)@.holding(room_name@, final(room)@, now, fresh)
                },
    {
        let fresh = self.fresh_setter(room_name);
        let now = wall_clock();
        self.get_mut_at(room_name, now, fresh)
    }

    /// Removes the room `room_name`, if there is such a room.
    pub fn remove(&mut self, room_name: &str)
        requires
            old(self).wf(),
        ensures
            final(self).wf(),
            final(self)@ == old(self)@.with_rooms(old(self)@.rooms.remove(room_name@)),
    {
        self.by_room.remove(&room_name.to_owned());
        proof {
            old(self).by_room@.lemma_map_values_remove(|room: RoomContent| room@, room_name@);
        }
    }

    /// Whether the counter of the rooms leaves room for a request.
    pub fn has_headroom(&self) -> (ready: bool)
        ensures
            ready == self@.has_headroom(),
    {
        self.by_room.sequences_left(2)
    }

    /// Sets the volume of the room `room_name` at time `now`, and returns the
    /// volume as it stands afterwards. A room that is not there comes into
    /// being for it, with `fresh` for the one who set its volume before.
    pub fn put_volume_at(
        &mut self,
        room_name: &str,
        put_volume: PutVolume,
        now: Timestamp,
        fresh: Id,
    ) -> (response: PutVolumeResponse)
        requires
            old(self).wf(),
            old(self)@.has_headroom(),
            old(self)@.room_or_fresh(room_name@, fresh).volume_change_index < u64::MAX,
        ensures
            final(self).wf(),
            final(self)@ == old(self)@.put_volume(room_name@, put_volume, now, fresh),
            response.volume == put_volume.volume,
            response.volume_changer_uuid == put_volume.volume_changer_uuid,
            response.volume_change_index == old(self)@.room_or_fresh(
                room_name@,
                fresh,
            ).volume_change_index + 1,
    {
        let room = self.get_mut_at(room_name, now, fresh);
        room.set_volume(put_volume.volume, put_volume.volume_changer_uuid);
        let response = PutVolumeResponse {
            volume: room.volume(),
            volume_changer_uuid: room.volume_changer_uuid(),
            volume_change_index: room.volume_change_index(),
        };
        self.refresh_at(room_name, now);
        self.purge_old_entries_at(now);
        response
    }

    /// Takes the sample `hr` of the client `uuid` in the room `room_name` at
    /// time `now`, and returns the volume of the room as it stands afterwards.
    /// A room that is not there comes into being for it, with `fresh` for the
    /// one who set its volume.
    pub fn put_hr_at(
        &mut self,
        room_name: &str,
        uuid: Id,
        hr: PutHR,
        now: Timestamp,
        fresh: Id,
    ) -> (response: HRPutResponse)
        requires
            old(self).wf(),
            old(self)@.has_headroom(),
            old(self)@.room_or_fresh(room_name@, fresh).can_take(hr),
        ensures
            final(self).wf(),
            final(self)@ == old(self)@.put_hr(room_name@, uuid, hr, now, fresh),
            old(self)@.room_or_fresh(room_name@, fresh).put_sample(
                old(self)@.cues,
                uuid,
                hr,
                now,
            ).reported_by(response),
    {
        let (room, audio_files) = self.open_room(room_name, now, fresh);
        let response = room.put_sample_at(audio_files, uuid, hr, now);
        self.refresh_at(room_name, now);
        self.purge_old_entries_at(now);
        response
    }

    /// Reads the room `room_name` at time `now`: purges its clients and lists
    /// the samples that are left, with the volume of the room. A room that is
    /// not there comes into being for it, with `fresh` for the one who set
    /// its volume. A room that the purge leaves without clients goes at once.
    pub fn get_hr_at(&mut self, room_name: &str, now: Timestamp, fresh: Id) -> (listing: AllHR)
        requires
            old(self).wf(),
            old(self)@.has_headroom(),
        ensures
            final(self).wf(),
            final(self)@ == old(self)@.get_hr(room_name@, now, fresh),
            old(self)@.room_or_fresh(room_name@, fresh).purged(now).listed_by(listing.data@),
            listing.volume == old(self)@.room_or_fresh(room_name@, fresh).volume,
            listing.volume_changer_uuid == old(self)@.room_or_fresh(
                room_name@,
                fresh,
            ).volume_changer_uuid,
            listing.volume_change_index == old(self)@.room_or_fresh(
                room_name@,
                fresh,
            ).volume_change_index,
    {
        let room = self.get_mut_at(room_name, now, fresh);
        let had_clients = !room.is_empty();
        let listing = room.list_at(now);
        let emptied = had_clients && room.is_empty();
        if emptied {
            self.remove(room_name);
            assert(self@.rooms.entries =~= old(self)@.opened(room_name@, now, fresh).remove(
                room_name@,
            ).entries);
        } else {
            self.refresh_at(room_name, now);
        }
        self.purge_old_entries_at(now);
        listing
    }

    /// Removes the client `uuid` from the room `room_name` at time `now`. A
    /// room that is left without clients goes at once, whatever is left of its
    /// own lifetime, and so does a room that had none.
    pub fn del_hr_at(&mut self, room_name: &str, uuid: Id, now: Timestamp, fresh: Id)
        requires
            old(self).wf(),
            old(self)@.has_headroom(),
        ensures
            final(self).wf(),
            final(self)@ == old(self)@.del_hr(room_name@, uuid, now, fresh),
    {
        let room = self.get_mut_at(room_name, now, fresh);
        room.remove_client(&uuid);
        if room.is_empty() {
            self.remove(room_name);
            assert(self@.rooms.entries =~= old(self)@.opened(room_name@, now, fresh).remove(
                room_name@,
            ).entries);
        } else {
            self.refresh_at(room_name, now);
        }
        self.purge_old_entries_at(now);
    }

    /// Whether the volume of the room `room_name` can be set.
    pub fn can_put_volume(&self, room_name: &str) -> (ready: bool)
        requires
            self.wf(),
        ensures
            ready == self@.can_put_volume(room_name@),
    {
        self.has_headroom() && match self.by_room.get(&room_name.to_owned()) {
            Some(room) => room.volume_change_index() < u64::MAX,
            None => true,
        }
    }

    /// Whether the room `room_name` can take the sample `hr`.
    pub fn can_put_hr(&self, room_name: &str, hr: &PutHR) -> (ready: bool)
        requires
            self.wf(),
        ensures
            ready == self@.can_put_hr(room_name@, *hr),
    {
        self.has_headroom() && match self.by_room.get(&room_name.to_owned()) {
            Some(room) => room.can_take(hr),
            None => true,
        }
    }
}

/// Reads the room `room_name` as of the reading of the wall clock. See
/// [`DatabaseContent::get_hr_at`]. The request fails, and changes nothing,
/// exactly when the counter of the rooms has run out of numbers.
pub fn get_hr(content: &mut DatabaseContent, room_name: &str) -> (result: Result<AllHR, Error>)
    requires
        old(content).wf(),
    ensures
        final(content).wf(),
        match result {
            Ok(listing) => old(content)@.has_headroom() && exists|now: Timestamp, fresh: Id|
                #![trigger old(content)@.get_hr(room_name@, now, fresh)]
                {
                    let room = old(content)@.room_or_fresh(room_name@, fresh);
                    &&& old(content)@.rooms.contains(room_name@) || is_random_uuid(fresh)
                    &&& final(content)@ == old(content)@.get_hr(room_name@, now, fresh)
                    &&& room.purged(now).listed_by(listing.data@)
                    &&& listing.volume == room.volume
                    &&& listing.volume_changer_uuid == room.volume_changer_uuid
                    &&& listing.volume_change_index == room.volume_change_index
                },
            Err(_) => !old(content)@.has_headroom() && *final(content) == *old(content),
        },
{
    if !content.has_headroom() {
        return Err(Error::counters_exhausted());
    }
    let fresh = content.fresh_setter(room_name);
    let now = wall_clock();
    Ok(content.get_hr_at(room_name, now, fresh))
}

/// Sets the volume of the room `room_name` as of the reading of the wall
/// clock. See [`DatabaseContent::put_volume_at`]. The request fails, and
/// changes nothing, exactly when a counter that it moves has run out of
/// numbers.
pub fn put_volume(content: &mut DatabaseContent, room_name: &str, put: PutVolume) -> (result:
    Result<PutVolumeResponse, Error>)
    requires
        old(content).wf(),
    ensures
        final(content).wf(),
        match result {
            Ok(response) => old(content)@.can_put_volume(room_name@) && exists|
                now: Timestamp,
                fresh: Id,
            |
                #![trigger old(content)@.put_volume(room_name@, put, now, fresh)]
                {
                    &&& old(content)@.rooms.contains(room_name@) || is_random_uuid(fresh)
                    &&& final(content)@ == old(content)@.put_volume(
                        room_name@,
                        put,
                        now,
                        fresh,
                    )
                    &&& response.volume == put.volume
                    &&& response.volume_changer_uuid == put.volume_changer_uuid
                    &&& response.volume_change_index == old(content)@.room_or_fresh(
                        room_name@,
                        fresh,
                    ).volume_change_index + 1
                },
            Err(_) => !old(content)@.can_put_volume(room_name@) && *final(content) == *old(
                content,
            ),
        },
{
    if !content.can_put_volume(room_name) {
        return Err(Error::counters_exhausted());
    }
    let fresh = content.fresh_setter(room_name);
    let now = wall_clock();
    Ok(content.put_volume_at(room_name, put, now, fresh))
}

/// Takes the sample `hr` of the client `uuid` in the room `room_name` as of
/// the reading of the wall clock. See [`DatabaseContent::put_hr_at`]. The
/// request fails, and changes nothing, exactly when a counter that it moves has
/// run out of numbers.
pub fn put_hr(content: &mut DatabaseContent, room_name: &str, uuid: Id, hr: PutHR) -> (result:
    Result<HRPutResponse, Error>)
    requires
        old(content).wf(),
    ensures
        final(content).wf(),
        match result {
            Ok(response) => old(content)@.can_put_hr(room_name@, hr) && exists|
                now: Timestamp,
                fresh: Id,
            |
                #![trigger old(content)@.put_hr(room_name@, uuid, hr, now, fresh)]
                {
                    &&& old(content)@.rooms.contains(room_name@) || is_random_uuid(fresh)
                    &&& final(content)@ == old(content)@.put_hr(room_name@, uuid, hr, now, fresh)
                    &&& old(content)@.room_or_fresh(room_name@, fresh).put_sample(
                        old(content)@.cues,
                        uuid,
                        hr,
                        now,
                    ).reported_by(response)
                },
            Err(_) => !old(content)@.can_put_hr(room_name@, hr) && *final(content) == *old(
                content,
            ),
        },
{
    if !content.can_put_hr(room_name, &hr) {
        return Err(Error::counters_exhausted());
    }
    let fresh = content.fresh_setter(room_name);
    let now = wall_clock();
    Ok(content.put_hr_at(room_name, uuid, hr, now, fresh))
}

/// Removes the client `uuid` from the room `room_name` as of the reading of
/// the wall clock. See [`DatabaseContent::del_hr_at`]. The request fails, and
/// changes nothing, exactly when the counter of the rooms has run out of
/// numbers.
pub fn del_hr(content: &mut DatabaseContent, room_name: &str, uuid: Id) -> (result: Result<
    (),
    Error,
>)
    requires
        old(content).wf(),
    ensures
        final(content).wf(),
        match result {
            Ok(_) => old(content)@.has_headroom() && exists|now: Timestamp, fresh: Id|
                #![trigger old(content)@.del_hr(room_name@, uuid, now, fresh)]
                {
                    &&& old(content)@.rooms.contains(room_name@) || is_random_uuid(fresh)
                    &&& final(content)@ == old(content)@.del_hr(room_name@, uuid, now, fresh)
                },
            Err(_) => !old(content)@.has_headroom() && *final(content) == *old(content),
        },
{
    if !content.has_headroom() {
        return Err(Error::counters_exhausted());
    }
    let fresh = content.fresh_setter(room_name);
    let now = wall_clock();
    content.del_hr_at(room_name, uuid, now, fresh);
    Ok(())
}

} // verus!

//! What goes into a room and what comes out of it.

use vstd::prelude::*;
use crate::clock::{Timestamp, wall_clock};

verus! {

/// The identifier of a client, or of whoever set the volume: a 128-bit value.
pub type Id = u128;

/// A volume level in decibels, carried as the bit pattern of an IEEE 754
/// double. A room stores the level and hands it back; it never computes with
/// it.
pub type Volume = u64;

/// The latest sample of one client, with the audio cue the client was given.
#[derive(Debug)]
pub struct HR {
    pub hr: i32,
    pub time_utc: Timestamp,
    pub audio_file: String,
}

/// A sample as contracts see it.
pub struct HRView {
    pub hr: i32,
    pub time_utc: Timestamp,
    pub audio_file: Seq<char>,
}

impl View for HR {
    type V = HRView;

    open spec fn view(&self) -> HRView {
        HRView { hr: self.hr, time_utc: self.time_utc, audio_file: self.audio_file@ }
    }
}

impl Clone for HR {
    fn clone(&self) -> (copy: Self)
        ensures
            copy == *self,
    {
        HR { hr: self.hr, time_utc: self.time_utc, audio_file: self.audio_file.clone() }
    }
}

/// What a client sends to write its sample: the sample, and a new volume for
/// the room if the client wants one.
#[derive(Clone, Copy, Debug)]
pub struct PutHR {
    pub hr: i32,
    pub volume: Option<Volume>,
}

/// What is sent to set the volume of a room.
#[derive(Clone, Copy, Debug)]
pub struct PutVolume {
    pub volume: Volume,
    pub volume_changer_uuid: Id,
}

/// The answer to a [`PutVolume`]: the volume of the room as it now stands.
#[derive(Clone, Copy, Debug)]
pub struct PutVolumeResponse {
    pub volume: Volume,
    pub volume_change_index: u64,
    pub volume_changer_uuid: Id,
}

/// A room as its clients see it: the samples of the clients, each under its
/// client's identifier and each client once, and the volume.
#[derive(Debug)]
pub struct AllHR {
    pub data: Vec<(Id, HR)>,
    pub volume_change_index: u64,
    pub volume: Volume,
    pub volume_changer_uuid: Id,
}

impl Clone for AllHR {
    fn clone(&self) -> (copy: Self)
        ensures
            copy.data@ == self.data@,
            copy.volume_change_index == self.volume_change_index,
            copy.volume == self.volume,
            copy.volume_changer_uuid == self.volume_changer_uuid,
    {
        let mut data: Vec<(Id, HR)> = Vec::new();
        let mut at: usize = 0;
        while at < self.data.len()
            invariant
                at <= self.data@.len(),
                data@ == self.data@.subrange(0, at as int),
            decreases self.data@.len() - at,
        {
            let item = &self.data[at];
            data.push((item.0, item.1.clone()));
            assert(data@ =~= self.data@.subrange(0, at + 1));
            at += 1;
        }
        assert(data@ =~= self.data@);
        AllHR {
            data,
            volume_change_index: self.volume_change_index,
            volume: self.volume,
            volume_changer_uuid: self.volume_changer_uuid,
        }
    }
}

/// The answer to a [`PutHR`]: the volume of the room as it now stands.
#[derive(Clone, Copy, Debug)]
pub struct HRPutResponse {
    pub volume_change_index: u64,
    pub volume_changer_uuid: Id,
    pub volume: Volume,
}

impl HR {
    /// The record that a sample taken at time `now` starts as: no cue is
    /// assigned yet.
    pub open spec fn sampled(put_hr: PutHR, now: Timestamp) -> HRView {
        HRView { hr: put_hr.hr, time_utc: now, audio_file: Seq::empty() }
    }

    /// Makes the record for a sample that arrived at time `now`. The time is
    /// the store's, not the client's.
    pub fn from_put_at(put_hr: PutHR, now: Timestamp) -> (record: HR)
        ensures
            record@ == HR::sampled(put_hr, now),
    {
        HR { hr: put_hr.hr, time_utc: now, audio_file: String::new() }
    }
}

impl From<PutHR> for HR {
    /// Makes the record for a sample that arrives now, by the wall clock.
    fn from(put_hr: PutHR) -> (record: HR)
        ensures
            exists|now: Timestamp| record@ == HR::sampled(put_hr, now),
    {
        let now = wall_clock();
        HR::from_put_at(put_hr, now)
    }
}

impl vstd::std_specs::convert::FromSpecImpl<PutHR> for HR {
    open spec fn obeys_from_spec() -> bool {
        false
    }

    open spec fn from_spec(put_hr: PutHR) -> HR {
        arbitrary()
    }
}

} // verus!

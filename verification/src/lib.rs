//! Shared, short-lived records for the members of a room.
//!
//! Every client of a room keeps one small record alive by writing it again and
//! again; a record that is not written for a fixed time disappears, and so does
//! a room that nobody touches. The crate holds the self-expiring store, the
//! rooms built from it, the rule that hands each new client the least used
//! audio cue, and the room-wide volume with its change counter.

pub mod clock;
pub mod error;
pub mod key;
pub mod store_view;
pub mod expiring;
pub mod messages;
pub mod cues;
pub mod room;
pub mod hr;

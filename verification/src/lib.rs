//! Verified core of a replay-analytics engine for a multiplayer match
//! recording.
//!
//! The crate consumes a stream of per-tick entity lifecycle events and decoded
//! protocol messages, already turned into plain values by the surrounding
//! decoder, and derives time-windowed analytics: player identity resolution,
//! per-second damage attribution, per-second entity positions, objective
//! ("boss") lifecycle and health timelines, and lane-creep wave clustering.
//!
//! World coordinates are modelled as whole world units (`i32`), tick intervals
//! as microseconds, and timestamps as whole seconds; the unverified layer
//! around the crate converts the decoder's floating-point fields into these
//! fixed-point values and renders numeric identities as strings when
//! serializing.

pub mod assoc;
pub mod boss_tracker;
pub mod creep_tracker;
pub mod domain;
pub mod events;
pub mod position;
pub mod replay_parser;
pub mod steam_id;

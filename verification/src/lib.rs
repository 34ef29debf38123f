//! Verified core of a voice-channel announcement service.
//!
//! The library models the durable state of the service (a relational table of
//! per-user announcement records and the filesystem trees holding audio
//! assets) and verifies the logic that acts on it: selecting which clip to
//! play when a user unmutes, ingesting new clips through a staged pipeline
//! that leaves no partial state behind on failure, and the per-guild voice
//! presence decisions. External effects (database, filesystem, transcoder
//! and synthesizer processes, the voice transport) are performed by the
//! embedding program, which mirrors the model's transitions.

pub mod controller;
pub mod duration;
pub mod ingest;
pub mod resolver;
pub mod store;

use vstd::prelude::*;

verus! {

/// Longest permitted clip name, in characters.
pub const CLIP_NAME_MAX_CHARS: usize = 100;

/// Longest remote-media window admitted without an authorized override, in
/// microseconds (seven seconds).
pub const URL_WINDOW_CAP_MICROS: u64 = 7_000_000;

/// Published clips are truncated to this many microseconds (six seconds)
/// unless an authorized override was granted.
pub const TRIM_LIMIT_MICROS: u64 = 6_000_000;

} // verus!

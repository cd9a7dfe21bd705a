//! Timelines.

use crate::duration::Duration;
use vstd::prelude::*;

verus! {

/// A tempo.
#[derive(Clone, Copy, Debug, PartialEq, Eq, Structural)]
pub struct Tempo {
    /// The microseconds that a beat takes.
    pub micros_per_beat: i64,
}

/// A position in beats.
#[derive(Clone, Copy, Debug, PartialEq, Eq, Structural)]
pub struct Beats {
    /// The position in millionths of a beat.
    pub value: i64,
}

/// How beats map to the time of a session: `beat_origin` falls on
/// `time_origin`, and beats follow each other at `tempo`.
#[derive(Clone, Copy, Debug, PartialEq, Eq, Structural)]
pub struct Timeline {
    pub tempo: Tempo,
    pub beat_origin: Beats,
    pub time_origin: Duration,
}

} // verus!

//! Strongly-typed identifiers: wrapping the raw integers keeps a sensor id
//! from ever being mistaken for a track id at a call site.

use vstd::prelude::*;

verus! {

/// Identifies a physical sensor (radar site / channel).
#[derive(Debug, Clone, Copy, PartialEq, Eq, Structural, Hash, PartialOrd, Ord)]
pub struct SensorId(pub u16);

/// Identifies a confirmed or tentative track maintained by the tracker.
#[derive(Debug, Clone, Copy, PartialEq, Eq, Structural, Hash, PartialOrd, Ord)]
pub struct TrackId(pub u32);

/// Identifies a ground-truth target inside the simulator.
#[derive(Debug, Clone, Copy, PartialEq, Eq, Structural, Hash, PartialOrd, Ord)]
pub struct TargetId(pub u32);

} // verus!

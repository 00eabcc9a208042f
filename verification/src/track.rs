//! What a system track reports about itself beyond its kinematics: where
//! its data comes from, how it is moving, and which flight plan it is
//! correlated with.

use vstd::prelude::*;

verus! {

/// The dominant surveillance provenance of a track: the technology that most
/// recently contributed, or `Combined` when several are fresh together.
#[derive(Debug, Clone, Copy, PartialEq, Eq, Structural)]
pub enum Provenance {
    /// No technology age recorded yet.
    Unknown,
    /// Primary radar only.
    Psr,
    /// Secondary radar (Mode A/C).
    Ssr,
    /// Mode S.
    ModeS,
    /// ADS-B.
    AdsB,
    /// FLARM.
    Flarm,
    /// Two or more technologies fresh together (true fusion).
    Combined,
}

/// The technology at position `i` of a track's per-technology source ages:
/// PSR, SSR, Mode S, ADS-B, FLARM.
pub open spec fn technology(i: int) -> Provenance {
    if i == 0 {
        Provenance::Psr
    } else if i == 1 {
        Provenance::Ssr
    } else if i == 2 {
        Provenance::ModeS
    } else if i == 3 {
        Provenance::AdsB
    } else {
        Provenance::Flarm
    }
}

/// How many of the first `n` technologies are fresh.
pub open spec fn fresh_count(fresh: Seq<bool>, n: int) -> int
    decreases n,
{
    if n <= 0 {
        0
    } else {
        fresh_count(fresh, n - 1) + if fresh[n - 1] {
            1int
        } else {
            0int
        }
    }
}

/// The last fresh technology among the first `n`.
pub open spec fn last_fresh(fresh: Seq<bool>, n: int) -> int
    decreases n,
{
    if n <= 0 {
        -1
    } else if fresh[n - 1] {
        n - 1
    } else {
        last_fresh(fresh, n - 1)
    }
}

/// The provenance a track's technologies give: the single fresh one; all
/// fresh ones together when several are; when none is fresh, the most
/// recently seen one, or unknown if none was ever seen.
pub open spec fn provenance_of(fresh: Seq<bool>, most_recent: Option<int>) -> Provenance {
    let n = fresh_count(fresh, 5);
    if n == 0 {
        match most_recent {
            Some(i) => technology(i),
            None => Provenance::Unknown,
        }
    } else if n == 1 {
        technology(last_fresh(fresh, 5))
    } else {
        Provenance::Combined
    }
}

impl Provenance {
    /// Derive a track's provenance from which of its five technologies
    /// (PSR, SSR, Mode S, ADS-B, FLARM) are fresh, and which one was seen
    /// most recently (if any was).
    pub fn derive(fresh: [bool; 5], most_recent: Option<usize>) -> (r: Self)
        requires
            most_recent matches Some(i) ==> i < 5,
        ensures
            r == provenance_of(fresh@, match most_recent {
                Some(i) => Some(i as int),
                None => None,
            }),
    {
        let mut count: usize = 0;
        let mut last: usize = 0;
        let mut i: usize = 0;
        while i < 5
            invariant
                i <= 5,
                fresh@.len() == 5,
                count == fresh_count(fresh@, i as int),
                count <= i,
                count > 0 ==> last == last_fresh(fresh@, i as int) && last < i,
            decreases 5 - i,
        {
            if fresh[i] {
                count = count + 1;
                last = i;
            }
            i = i + 1;
        }
        if count == 0 {
            match most_recent {
                Some(k) => technology_at(k),
                None => Provenance::Unknown,
            }
        } else if count == 1 {
            technology_at(last)
        } else {
            Provenance::Combined
        }
    }
}

fn technology_at(i: usize) -> (r: Provenance)
    ensures
        r == technology(i as int),
{
    if i == 0 {
        Provenance::Psr
    } else if i == 1 {
        Provenance::Ssr
    } else if i == 2 {
        Provenance::ModeS
    } else if i == 3 {
        Provenance::AdsB
    } else {
        Provenance::Flarm
    }
}

/// Two or more fresh technologies always fuse to `Combined`, and a single
/// fresh one is never reported as `Combined` or `Unknown`.
pub proof fn lemma_provenance_fusion(fresh: Seq<bool>, most_recent: Option<int>)
    requires
        fresh.len() == 5,
    ensures
        fresh_count(fresh, 5) >= 2 ==> provenance_of(fresh, most_recent) == Provenance::Combined,
        fresh_count(fresh, 5) == 1 ==> provenance_of(fresh, most_recent) != Provenance::Combined
            && provenance_of(fresh, most_recent) != Provenance::Unknown,
{
}

/// Transversal (course) trend of a track — I062/200 TRANS.
#[derive(Debug, Clone, Copy, PartialEq, Eq, Structural)]
pub enum CourseTrend {
    /// Constant course (straight flight).
    Constant,
    /// Turning right (clockwise over ground).
    RightTurn,
    /// Turning left (anticlockwise over ground).
    LeftTurn,
    /// No determination possible.
    Undetermined,
}

/// Longitudinal (groundspeed) trend of a track — I062/200 LONG.
#[derive(Debug, Clone, Copy, PartialEq, Eq, Structural)]
pub enum SpeedTrend {
    /// Constant groundspeed.
    Constant,
    /// Increasing groundspeed.
    Increasing,
    /// Decreasing groundspeed.
    Decreasing,
    /// No determination possible.
    Undetermined,
}

/// Vertical trend of a track — I062/200 VERT.
#[derive(Debug, Clone, Copy, PartialEq, Eq, Structural)]
pub enum VerticalTrend {
    /// Level flight.
    Level,
    /// Climbing.
    Climb,
    /// Descending.
    Descent,
    /// No determination possible.
    Undetermined,
}

/// A reference to the flight plan a track is correlated with: the field set
/// a label or strip needs.
#[derive(Debug, Clone, PartialEq, Eq)]
pub struct FlightPlanRef {
    /// The plan's callsign — also the primary correlation key.
    pub callsign: String,
    /// Departure aerodrome (ICAO locator), when the plan carries it.
    pub departure: Option<String>,
    /// Destination aerodrome (ICAO locator), when the plan carries it.
    pub destination: Option<String>,
}

/// The track's mode of movement (I062/200): what the aircraft is doing in
/// each of the three axes, `Undetermined` where the tracker cannot tell.
#[derive(Debug, Clone, Copy, PartialEq, Eq, Structural)]
pub struct ModeOfMovement {
    /// Course trend.
    pub course: CourseTrend,
    /// Groundspeed trend.
    pub speed: SpeedTrend,
    /// Vertical trend.
    pub vertical: VerticalTrend,
}

impl ModeOfMovement {
    /// Whether at least one axis carries a determination — an
    /// all-undetermined mode says nothing and is not worth wire bytes.
    pub fn is_determined(&self) -> (r: bool)
        ensures
            r == (self.course != CourseTrend::Undetermined || self.speed
                != SpeedTrend::Undetermined || self.vertical != VerticalTrend::Undetermined),
    {
        self.course != CourseTrend::Undetermined || self.speed != SpeedTrend::Undetermined
            || self.vertical != VerticalTrend::Undetermined
    }
}

} // verus!

//! Reconnect pacing for a pushed feed (the APRS-IS stream): after a clean
//! end of stream the wait drops back to the minimum; after each failure the
//! next wait doubles, up to the maximum.

use vstd::prelude::*;

verus! {

/// The wait before the next connection attempt, in seconds.
pub struct ReconnectBackoff {
    /// The shortest wait: the configured minimum, at least one second.
    min: u64,
    /// The longest wait: the configured maximum, at least `min`.
    max: u64,
    /// The wait the next failed attempt is answered with.
    current: u64,
}

/// `x` doubled, saturating at `u64::MAX`.
pub open spec fn doubled(x: u64) -> u64 {
    if 2 * x > u64::MAX {
        u64::MAX
    } else {
        (2 * x) as u64
    }
}

/// The lesser of two waits.
pub open spec fn least(a: u64, b: u64) -> u64 {
    if a <= b {
        a
    } else {
        b
    }
}

impl ReconnectBackoff {
    /// The shortest wait.
    pub closed spec fn min_secs(&self) -> u64 {
        self.min
    }

    /// The longest wait.
    pub closed spec fn max_secs(&self) -> u64 {
        self.max
    }

    /// The wait a failure is answered with next.
    pub closed spec fn current_secs(&self) -> u64 {
        self.current
    }

    /// The waits stay within `min..=max`, and `min` is at least a second.
    pub closed spec fn wf(&self) -> bool {
        1 <= self.min <= self.current <= self.max
    }

    /// Pacing between `min_secs` (at least one second) and `max_secs` (at
    /// least the minimum), starting at the minimum.
    pub fn new(min_secs: u64, max_secs: u64) -> (r: Self)
        ensures
            r.wf(),
            r.min_secs() == (if min_secs < 1 {
                1
            } else {
                min_secs
            }),
            r.max_secs() == (if max_secs < r.min_secs() {
                r.min_secs()
            } else {
                max_secs
            }),
            r.current_secs() == r.min_secs(),
    {
        let min = if min_secs < 1 {
            1
        } else {
            min_secs
        };
        let max = if max_secs < min {
            min
        } else {
            max_secs
        };
        ReconnectBackoff { min, max, current: min }
    }

    /// The wait after an attempt: the minimum when the stream ended
    /// cleanly, else the current wait; the next failure waits twice as long,
    /// up to the maximum.
    pub fn after_attempt(&mut self, clean_end: bool) -> (wait: u64)
        requires
            old(self).wf(),
        ensures
            final(self).wf(),
            wait == (if clean_end {
                old(self).min_secs()
            } else {
                old(self).current_secs()
            }),
            final(self).current_secs() == least(doubled(wait), old(self).max_secs()),
            final(self).min_secs() == old(self).min_secs(),
            final(self).max_secs() == old(self).max_secs(),
            old(self).min_secs() <= wait <= old(self).max_secs(),
    {
        if clean_end {
            self.current = self.min;
        }
        let wait = self.current;
        let twice = match wait.checked_mul(2) {
            Some(t) => t,
            None => u64::MAX,
        };
        self.current = if twice <= self.max {
            twice
        } else {
            self.max
        };
        wait
    }
}

/// Failures never wait longer than the maximum nor shorter than the
/// minimum, and a clean end of stream always brings the wait back to the
/// minimum, whatever came before.
pub proof fn lemma_reconnect_bounds(b: ReconnectBackoff, clean_end: bool, wait: u64, next: ReconnectBackoff)
    requires
        b.wf(),
        wait == (if clean_end {
            b.min_secs()
        } else {
            b.current_secs()
        }),
        next.current_secs() == least(doubled(wait), b.max_secs()),
    ensures
        b.min_secs() <= wait <= b.max_secs(),
        clean_end ==> wait == b.min_secs(),
        next.current_secs() <= b.max_secs(),
        next.current_secs() >= wait,
{
}

} // verus!

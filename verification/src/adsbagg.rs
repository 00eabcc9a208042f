//! The community-aggregator ADS-B adapter's decisions: which aggregator a
//! configuration names, and how long to wait between polls after successes
//! and failures.

use vstd::prelude::*;

use crate::text::{spells, trimmed, trimmed_spells};

verus! {

/// Which ADSBExchange-v2-compatible community aggregator to poll. All
/// providers share one response schema and differ only in host and path.
#[derive(Debug, Clone, Copy, PartialEq, Eq, Structural)]
pub enum Provider {
    /// adsb.lol — open data, no auth, dynamic rate limits. The default.
    AdsbLol,
    /// adsb.fi — open data, no auth, one request per second.
    AdsbFi,
}

/// The wire/env word a provider is addressed by.
pub open spec fn provider_word(p: Provider) -> Seq<char> {
    match p {
        Provider::AdsbLol => seq!['a', 'd', 's', 'b', '_', 'l', 'o', 'l'],
        Provider::AdsbFi => seq!['a', 'd', 's', 'b', '_', 'f', 'i'],
    }
}

/// The provider a configuration value names: its trimmed text spells a
/// provider's word, ignoring ASCII case.
pub open spec fn provider_named(s: Seq<char>) -> Option<Provider> {
    if spells(trimmed(s), provider_word(Provider::AdsbLol)) {
        Some(Provider::AdsbLol)
    } else if spells(trimmed(s), provider_word(Provider::AdsbFi)) {
        Some(Provider::AdsbFi)
    } else {
        None
    }
}

impl Default for Provider {
    /// adsb.lol is the default provider.
    fn default() -> (r: Self)
        ensures
            r == Provider::AdsbLol,
    {
        Provider::AdsbLol
    }
}

impl Provider {
    /// Parse the wire/env value (snake_case, trimmed, in any case). Unknown
    /// values are `None`.
    pub fn parse(s: &str) -> (r: Option<Self>)
        ensures
            r == provider_named(s@),
    {
        let lol = ['a', 'd', 's', 'b', '_', 'l', 'o', 'l'];
        let fi = ['a', 'd', 's', 'b', '_', 'f', 'i'];
        assert(lol@ =~= provider_word(Provider::AdsbLol));
        assert(fi@ =~= provider_word(Provider::AdsbFi));
        if trimmed_spells(s, lol.as_slice()) {
            Some(Provider::AdsbLol)
        } else if trimmed_spells(s, fi.as_slice()) {
            Some(Provider::AdsbFi)
        } else {
            None
        }
    }

    /// The wire/env value this provider is addressed by.
    pub fn as_str(&self) -> (r: &'static str)
        ensures
            r@ == provider_word(*self),
    {
        match self {
            Provider::AdsbLol => {
                proof {
                    reveal_strlit("adsb_lol");
                }
                "adsb_lol"
            },
            Provider::AdsbFi => {
                proof {
                    reveal_strlit("adsb_fi");
                }
                "adsb_fi"
            },
        }
    }

    /// The provider's public API base URL.
    pub open spec fn base_url_spec(&self) -> Seq<char> {
        match *self {
            Provider::AdsbLol => "https://api.adsb.lol"@,
            Provider::AdsbFi => "https://opendata.adsb.fi/api"@,
        }
    }

    /// The provider's API base URL (everything before the versioned query
    /// path).
    pub fn base_url(&self) -> (r: &'static str)
        ensures
            r@ == self.base_url_spec(),
    {
        match self {
            Provider::AdsbLol => "https://api.adsb.lol",
            Provider::AdsbFi => "https://opendata.adsb.fi/api",
        }
    }
}

/// A provider's own word names it back: parsing what `as_str` gives returns
/// the same provider, and so does any surrounding white space or upper-case
/// spelling of it.
pub proof fn lemma_provider_round_trip(p: Provider)
    ensures
        provider_named(provider_word(p)) == Some(p),
{
    let w = provider_word(p);
    assert(crate::text::lead_end(w, 0) == 0);
    assert(w.subrange(0, w.len() as int) =~= w);
    assert(crate::text::trail_start(w, w.len() as int) == w.len());
    assert(trimmed(w) =~= w);
    assert(spells(w, w));
    if p == Provider::AdsbFi {
        assert(w[5] != provider_word(Provider::AdsbLol)[5]);
    }
}

/// The backoff ceiling, in seconds: five minutes.
pub const MAX_BACKOFF_SECS: u64 = 300;

/// The largest exponent the backoff doubles by.
pub const MAX_BACKOFF_SHIFT: u32 = 20;

/// Exponential backoff between polls after consecutive failures, in whole
/// seconds: each failure doubles the wait from the poll interval, up to a
/// cap that never undercuts a slower configured interval.
#[derive(Debug)]
pub struct Backoff {
    /// The poll interval, at least one second.
    base: u64,
    /// The longest wait: five minutes, or the interval if that is longer.
    cap: u64,
    /// Consecutive failures since the last success.
    failures: u32,
}

/// `2^n`.
pub open spec fn pow2(n: nat) -> nat
    decreases n,
{
    if n == 0 {
        1
    } else {
        2 * pow2((n - 1) as nat)
    }
}

/// The wait after `failures` consecutive failures: the base doubled once
/// per failure (at most twenty times, saturating), capped.
pub open spec fn backoff_wait(base: u64, cap: u64, failures: u32) -> u64 {
    let shift: nat = if failures < MAX_BACKOFF_SHIFT {
        failures as nat
    } else {
        MAX_BACKOFF_SHIFT as nat
    };
    let doubled = base * pow2(shift);
    let saturated: int = if doubled > u64::MAX {
        u64::MAX as int
    } else {
        doubled
    };
    if saturated < cap {
        saturated as u64
    } else {
        cap
    }
}

impl Backoff {
    /// The base the backoff starts from (at least one second).
    pub closed spec fn base_secs(&self) -> u64 {
        self.base
    }

    /// The longest wait.
    pub closed spec fn cap_secs(&self) -> u64 {
        self.cap
    }

    /// Consecutive failures so far.
    pub closed spec fn failure_count(&self) -> u32 {
        self.failures
    }

    /// A backoff for the poll interval `base_secs`: the base is at least one
    /// second, the cap five minutes or the base if that is longer.
    pub fn new(base_secs: u64) -> (r: Self)
        ensures
            r.base_secs() == (if base_secs < 1 {
                1
            } else {
                base_secs
            }),
            r.cap_secs() == (if MAX_BACKOFF_SECS < r.base_secs() {
                r.base_secs()
            } else {
                MAX_BACKOFF_SECS
            }),
            r.failure_count() == 0,
    {
        let base = if base_secs < 1 {
            1
        } else {
            base_secs
        };
        let cap = if MAX_BACKOFF_SECS < base {
            base
        } else {
            MAX_BACKOFF_SECS
        };
        Backoff { base, cap, failures: 0 }
    }

    /// A success: the failure count drops to zero and the next poll waits
    /// the base interval.
    pub fn reset(&mut self) -> (wait: u64)
        ensures
            wait == old(self).base_secs(),
            final(self).failure_count() == 0,
            final(self).base_secs() == old(self).base_secs(),
            final(self).cap_secs() == old(self).cap_secs(),
    {
        self.failures = 0;
        self.base
    }

    /// A failure: one more consecutive failure (saturating), and the wait
    /// before the next poll.
    pub fn fail(&mut self) -> (wait: u64)
        ensures
            final(self).failure_count() == (if old(self).failure_count() == u32::MAX {
                u32::MAX
            } else {
                (old(self).failure_count() + 1) as u32
            }),
            final(self).base_secs() == old(self).base_secs(),
            final(self).cap_secs() == old(self).cap_secs(),
            wait == backoff_wait(
                old(self).base_secs(),
                old(self).cap_secs(),
                final(self).failure_count(),
            ),
    {
        self.failures = self.failures.saturating_add(1);
        let shift = if self.failures < MAX_BACKOFF_SHIFT {
            self.failures
        } else {
            MAX_BACKOFF_SHIFT
        };
        let mut factor: u64 = 1;
        let mut i: u32 = 0;
        while i < shift
            invariant
                i <= shift <= MAX_BACKOFF_SHIFT,
                factor == pow2(i as nat),
                factor <= 0x10_0000,
            decreases shift - i,
        {
            proof {
                lemma_pow2_bound(i as nat);
            }
            factor = factor * 2;
            i = i + 1;
        }
        let secs = match self.base.checked_mul(factor) {
            Some(v) => v,
            None => u64::MAX,
        };
        if secs < self.cap {
            secs
        } else {
            self.cap
        }
    }
}

proof fn lemma_pow2_bound(n: nat)
    requires
        n < 20,
    ensures
        pow2(n) <= 0x8_0000,
        pow2(n + 1) == 2 * pow2(n),
    decreases n,
{
    reveal_with_fuel(pow2, 21);
}

/// Every wait lies between the base and the cap when the cap is at least
/// the base: backoff never polls faster than the configured interval and
/// never waits longer than the cap.
pub proof fn lemma_backoff_bounds(base: u64, cap: u64, failures: u32)
    requires
        1 <= base <= cap,
    ensures
        base <= backoff_wait(base, cap, failures) <= cap,
{
    let shift: nat = if failures < MAX_BACKOFF_SHIFT {
        failures as nat
    } else {
        MAX_BACKOFF_SHIFT as nat
    };
    lemma_pow2_positive(shift);
    assert(base * pow2(shift) >= base) by (nonlinear_arith)
        requires
            pow2(shift) >= 1,
    ;
}

proof fn lemma_pow2_positive(n: nat)
    ensures
        pow2(n) >= 1,
    decreases n,
{
    if n > 0 {
        lemma_pow2_positive((n - 1) as nat);
    }
}

/// Below the cap, the first failure doubles the base and each further
/// failure doubles the previous wait.
pub proof fn lemma_backoff_doubles(base: u64, cap: u64, failures: u32)
    requires
        failures < MAX_BACKOFF_SHIFT,
        base * pow2(failures as nat + 1) <= cap,
    ensures
        backoff_wait(base, cap, (failures + 1) as u32) == 2 * backoff_wait(base, cap, failures),
{
    lemma_pow2_positive(failures as nat);
    let p = pow2(failures as nat);
    assert(pow2(failures as nat + 1) == 2 * p);
    assert(base * (2 * p) == 2 * (base * p)) by (nonlinear_arith);
    assert(base * p <= base * (2 * p)) by (nonlinear_arith)
        requires
            p >= 1,
    ;
}

/// The failure count after `k` consecutive failures from zero, each one
/// adding one and saturating at `u32::MAX`, as `Backoff::fail` does.
pub open spec fn failure_count_after(k: nat) -> u32
    decreases k,
{
    if k == 0 {
        0
    } else {
        let c = failure_count_after((k - 1) as nat);
        if c == u32::MAX {
            u32::MAX
        } else {
            (c + 1) as u32
        }
    }
}

/// The `k`-th wait in a run of failures: the base doubled `min(k, 20)`
/// times, and never more than the cap.
pub open spec fn kth_failure_wait(base: u64, cap: u64, k: nat) -> int {
    let shift: nat = if k < MAX_BACKOFF_SHIFT {
        k
    } else {
        MAX_BACKOFF_SHIFT as nat
    };
    let doubled = base * pow2(shift);
    if doubled < cap {
        doubled
    } else {
        cap as int
    }
}

/// After `k` consecutive failures, counted from a new backoff or from the
/// last reset, the failure count is `k` (saturating) and the wait that the
/// `k`-th failure returns is `min(base * 2^min(k, 20), cap)`.
pub proof fn lemma_failures_in_a_row(base: u64, cap: u64, k: nat)
    ensures
        failure_count_after(k) == (if k < u32::MAX {
            k
        } else {
            u32::MAX as nat
        }),
        backoff_wait(base, cap, failure_count_after(k)) == kth_failure_wait(base, cap, k),
    decreases k,
{
    if k > 0 {
        lemma_failures_in_a_row(base, cap, (k - 1) as nat);
    }
}

/// With a poll interval of five minutes or more, the cap is the interval
/// itself, and every failure waits exactly the interval.
pub proof fn lemma_slow_base_waits_the_base(base: u64, failures: u32)
    requires
        MAX_BACKOFF_SECS <= base,
    ensures
        backoff_wait(base, base, failures) == base,
{
    lemma_backoff_bounds(base, base, failures);
}

} // verus!

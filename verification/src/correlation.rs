//! The flight-plan auto-correlation rules: which plan, if any, a track is
//! labelled with.
//!
//! A wrong label is worse than a missing one, so every rule errs on the side
//! of not correlating: the callsign is the primary key; a squawk is only a
//! fallback when exactly one plan carries it, never the conspicuity code,
//! and never for a track with an identity conflict; and a plan whose
//! expected time lies outside the window is never matched.

use vstd::prelude::*;

use crate::text::{trim_bounds, trimmed};
use crate::track::FlightPlanRef;

verus! {

/// The conspicuity code 1000 (octal): many aircraft squawk it at once, so
/// it never identifies a plan.
pub const CONSPICUITY_CODE: u16 = 0o1000;

/// Why the service did or did not correlate.
#[derive(Debug, Clone, PartialEq, Eq)]
pub enum CorrelationOutcome {
    /// Correlated via the callsign — the primary key.
    ByCallsign(FlightPlanRef),
    /// Correlated via a unique, plausible squawk — the fallback key.
    BySquawk(FlightPlanRef),
    /// A squawk matched but was refused: duplicated among plans, the
    /// conspicuity code, or the track carries an identity conflict.
    SquawkRefused,
    /// Nothing matched.
    NoMatch,
}

/// The correlation keys of one flight plan.
#[derive(Debug, Clone)]
pub struct PlanIdentity {
    /// The plan's callsign as filed.
    pub callsign: String,
    /// The plan's squawk, if assigned.
    pub squawk: Option<u16>,
}

/// Which plan a track correlates with, by index, and why.
#[derive(Debug, Clone, Copy, PartialEq, Eq, Structural)]
pub enum PlanMatch {
    /// The plan whose callsign key matches.
    ByCallsign(usize),
    /// The only plan carrying the squawk.
    BySquawk(usize),
    /// A squawk matched but may not be used.
    SquawkRefused,
    /// Nothing matched.
    NoMatch,
}

/// ASCII lower-case letters raised; every other character unchanged.
pub open spec fn ascii_upper(c: char) -> char {
    if 'a' <= c && c <= 'z' {
        ((c as u32) - 32) as char
    } else {
        c
    }
}

/// Whether two callsigns have the same key: equal once trimmed and with
/// ASCII letters upper-cased.
pub open spec fn same_key(a: Seq<char>, b: Seq<char>) -> bool {
    let x = trimmed(a);
    let y = trimmed(b);
    x.len() == y.len() && forall|i: int| 0 <= i < x.len() ==> ascii_upper(#[trigger] x[i]) == ascii_upper(y[i])
}

/// The last of the first `n` plans whose callsign key is `q`'s (later plans
/// replace earlier ones under the same key).
pub open spec fn callsign_holder(plans: Seq<PlanIdentity>, q: Seq<char>, n: int) -> Option<int>
    decreases n,
{
    if n <= 0 {
        None
    } else if same_key(plans[n - 1].callsign@, q) {
        Some(n - 1)
    } else {
        callsign_holder(plans, q, n - 1)
    }
}

/// How many of the first `n` plans carry the squawk `code`.
pub open spec fn squawk_count(plans: Seq<PlanIdentity>, code: u16, n: int) -> int
    decreases n,
{
    if n <= 0 {
        0
    } else if plans[n - 1].squawk == Some(code) {
        squawk_count(plans, code, n - 1) + 1
    } else {
        squawk_count(plans, code, n - 1)
    }
}

/// The last of the first `n` plans carrying the squawk `code`.
pub open spec fn squawk_holder(plans: Seq<PlanIdentity>, code: u16, n: int) -> int
    decreases n,
{
    if n <= 0 {
        -1
    } else if plans[n - 1].squawk == Some(code) {
        n - 1
    } else {
        squawk_holder(plans, code, n - 1)
    }
}

/// The correlation rules, in order: a plausible plan under the callsign's
/// key; else, for a squawk carried by exactly one plan, a refusal when it
/// is the conspicuity code or the track's identity conflicts, the plan when
/// it is plausible; a refusal when several plans carry the squawk; else no
/// match.
pub open spec fn correlation(
    plans: Seq<PlanIdentity>,
    callsign: Option<Seq<char>>,
    squawk: Option<u16>,
    identity_conflict: bool,
    plausible: Seq<bool>,
) -> PlanMatch {
    let by_callsign = match callsign {
        Some(q) => match callsign_holder(plans, q, plans.len() as int) {
            Some(i) => if plausible[i] {
                Some(i)
            } else {
                None
            },
            None => None,
        },
        None => None,
    };
    if by_callsign is Some {
        PlanMatch::ByCallsign(by_callsign->Some_0 as usize)
    } else {
        match squawk {
            None => PlanMatch::NoMatch,
            Some(code) => {
                let count = squawk_count(plans, code, plans.len() as int);
                if count == 1 {
                    let i = squawk_holder(plans, code, plans.len() as int);
                    if code == CONSPICUITY_CODE || identity_conflict {
                        PlanMatch::SquawkRefused
                    } else if plausible[i] {
                        PlanMatch::BySquawk(i as usize)
                    } else {
                        PlanMatch::NoMatch
                    }
                } else if count > 1 {
                    PlanMatch::SquawkRefused
                } else {
                    PlanMatch::NoMatch
                }
            },
        }
    }
}

/// The character raised if it is an ASCII lower-case letter.
pub fn upper_char(c: char) -> (r: char)
    ensures
        r == ascii_upper(c),
{
    if 'a' <= c && c <= 'z' {
        ((c as u32) - 32) as u8 as char
    } else {
        c
    }
}

/// Whether two callsigns have the same key.
pub fn same_callsign_key(a: &str, b: &str) -> (r: bool)
    ensures
        r == same_key(a@, b@),
{
    let (a0, a1) = trim_bounds(a);
    let (b0, b1) = trim_bounds(b);
    let ghost x = a@.subrange(a0 as int, a1 as int);
    let ghost y = b@.subrange(b0 as int, b1 as int);
    if a1 - a0 != b1 - b0 {
        return false;
    }
    let mut i: usize = 0;
    while i < a1 - a0
        invariant
            a0 <= a1 <= a@.len(),
            b0 <= b1 <= b@.len(),
            a1 - a0 == b1 - b0,
            x == a@.subrange(a0 as int, a1 as int),
            y == b@.subrange(b0 as int, b1 as int),
            x == trimmed(a@),
            y == trimmed(b@),
            i <= a1 - a0,
            forall|j: int| 0 <= j < i ==> ascii_upper(#[trigger] x[j]) == ascii_upper(y[j]),
        decreases a1 - a0 - i,
    {
        let c = upper_char(a.get_char(a0 + i));
        let d = upper_char(b.get_char(b0 + i));
        assert(x[i as int] == a@[a0 + i]);
        assert(y[i as int] == b@[b0 + i]);
        if c != d {
            return false;
        }
        i = i + 1;
    }
    true
}

/// Correlate a track with the plans: by its callsign, else by its squawk,
/// following the rules of [`correlation`]. `plausible[i]` says whether
/// plan `i`'s expected time (if any) lies within the correlation window.
pub fn correlate_plans(
    plans: &[PlanIdentity],
    callsign: Option<&str>,
    squawk: Option<u16>,
    identity_conflict: bool,
    plausible: &[bool],
) -> (r: PlanMatch)
    requires
        plausible.len() == plans.len(),
    ensures
        r == correlation(
            plans@,
            match callsign {
                Some(s) => Some(s@),
                None => None,
            },
            squawk,
            identity_conflict,
            plausible@,
        ),
{
    if let Some(q) = callsign {
        let mut n = plans.len();
        while n > 0 && !same_callsign_key(plans[n - 1].callsign.as_str(), q)
            invariant
                n <= plans.len(),
                callsign_holder(plans@, q@, plans.len() as int) == callsign_holder(
                    plans@,
                    q@,
                    n as int,
                ),
            decreases n,
        {
            n = n - 1;
        }
        if n > 0 && plausible[n - 1] {
            return PlanMatch::ByCallsign(n - 1);
        }
    }
    let code = match squawk {
        None => return PlanMatch::NoMatch,
        Some(c) => c,
    };
    let mut count: usize = 0;
    let mut holder: usize = 0;
    let mut k: usize = 0;
    while k < plans.len()
        invariant
            k <= plans.len(),
            count == squawk_count(plans@, code, k as int),
            count <= k,
            count > 0 ==> holder == squawk_holder(plans@, code, k as int) && holder < k,
        decreases plans.len() - k,
    {
        if plans[k].squawk == Some(code) {
            count = count + 1;
            holder = k;
        }
        k = k + 1;
    }
    if count == 1 {
        if code == CONSPICUITY_CODE || identity_conflict {
            PlanMatch::SquawkRefused
        } else if plausible[holder] {
            PlanMatch::BySquawk(holder)
        } else {
            PlanMatch::NoMatch
        }
    } else if count > 1 {
        PlanMatch::SquawkRefused
    } else {
        PlanMatch::NoMatch
    }
}

/// A squawk shared by several plans, or the conspicuity code, or a track
/// with an identity conflict, never correlates by squawk.
pub proof fn lemma_squawk_safety(
    plans: Seq<PlanIdentity>,
    callsign: Option<Seq<char>>,
    squawk: Option<u16>,
    identity_conflict: bool,
    plausible: Seq<bool>,
)
    requires
        squawk matches Some(code) && (squawk_count(plans, code, plans.len() as int) != 1 || code
            == CONSPICUITY_CODE || identity_conflict),
    ensures
        !(correlation(plans, callsign, squawk, identity_conflict, plausible) is BySquawk),
{
}

proof fn lemma_callsign_holder(plans: Seq<PlanIdentity>, q: Seq<char>, n: int)
    requires
        n <= plans.len(),
    ensures
        callsign_holder(plans, q, n) matches Some(i) ==> 0 <= i < n && same_key(plans[i].callsign@, q)
            && forall|j: int| i < j < n ==> !#[trigger] same_key(plans[j].callsign@, q),
        callsign_holder(plans, q, n) is None ==> forall|j: int|
            0 <= j < n ==> !#[trigger] same_key(plans[j].callsign@, q),
    decreases n,
{
    if n > 0 {
        lemma_callsign_holder(plans, q, n - 1);
    }
}

proof fn lemma_unique_squawk(plans: Seq<PlanIdentity>, code: u16, n: int)
    requires
        n <= plans.len(),
    ensures
        squawk_count(plans, code, n) >= 0,
        squawk_count(plans, code, n) == 0 ==> forall|j: int|
            0 <= j < n ==> (#[trigger] plans[j]).squawk != Some(code),
        squawk_count(plans, code, n) >= 1 ==> 0 <= squawk_holder(plans, code, n) < n
            && plans[squawk_holder(plans, code, n)].squawk == Some(code),
        squawk_count(plans, code, n) == 1 ==> forall|j: int|
            0 <= j < n && j != squawk_holder(plans, code, n) ==> (#[trigger] plans[j]).squawk != Some(
                code,
            ),
    decreases n,
{
    if n > 0 {
        lemma_unique_squawk(plans, code, n - 1);
    }
}

/// A plan is only chosen when its expected time is plausible, and only for
/// the reason given. By callsign: it is the last plan whose callsign has the
/// track's key. By squawk: it is the one and only plan carrying the track's
/// squawk, the squawk is not the conspicuity code, and the track has no
/// identity conflict.
pub proof fn lemma_chosen_plan_is_plausible(
    plans: Seq<PlanIdentity>,
    callsign: Option<Seq<char>>,
    squawk: Option<u16>,
    identity_conflict: bool,
    plausible: Seq<bool>,
)
    requires
        plausible.len() == plans.len(),
        plans.len() <= usize::MAX,
    ensures
        correlation(plans, callsign, squawk, identity_conflict, plausible) matches PlanMatch::ByCallsign(
            i,
        ) ==> {
            &&& i < plans.len()
            &&& plausible[i as int]
            &&& callsign matches Some(q) && same_key(plans[i as int].callsign@, q) && forall|j: int|
                i < j < plans.len() ==> !#[trigger] same_key(plans[j].callsign@, q)
        },
        correlation(plans, callsign, squawk, identity_conflict, plausible) matches PlanMatch::BySquawk(
            i,
        ) ==> {
            &&& i < plans.len()
            &&& plausible[i as int]
            &&& squawk == plans[i as int].squawk
            &&& squawk matches Some(code) && code != CONSPICUITY_CODE && forall|j: int|
                0 <= j < plans.len() && j != i ==> (#[trigger] plans[j]).squawk != Some(code)
            &&& !identity_conflict
        },
{
    let n = plans.len() as int;
    let r = correlation(plans, callsign, squawk, identity_conflict, plausible);
    match callsign {
        Some(q) => {
            lemma_callsign_holder(plans, q, n);
        },
        None => {},
    }
    match squawk {
        Some(code) => {
            lemma_unique_squawk(plans, code, n);
        },
        None => {},
    }
    match r {
        PlanMatch::ByCallsign(i) => {
            let q = callsign->Some_0;
            let h = callsign_holder(plans, q, n)->Some_0;
            assert(h == i);
        },
        PlanMatch::BySquawk(i) => {
            let code = squawk->Some_0;
            assert(squawk_holder(plans, code, n) == i);
        },
        _ => {},
    }
}

} // verus!

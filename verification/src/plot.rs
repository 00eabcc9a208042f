//! What a detection is: the radar channel that produced it, the surveillance
//! technology behind it, and the aircraft identification it may carry.

use vstd::prelude::*;
use vstd::string::StringSliceAdditionalSpecFns;
use vstd::utf8::{encode_utf8, encode_utf8_valid_utf8, is_ascii_chars, is_ascii_chars_encode_utf8, valid_utf8};

verus! {

/// Which radar channel produced a detection: a primary skin paint, a
/// secondary (transponder) reply, or both correlated in the same dwell.
#[derive(Debug, Clone, Copy, PartialEq, Eq, Structural)]
pub enum DetectionKind {
    /// Primary surveillance radar only (skin paint).
    Primary,
    /// Secondary surveillance radar only (transponder reply).
    Secondary,
    /// Correlated primary + secondary in the same dwell.
    Combined,
}

impl DetectionKind {
    /// Whether the dwell included a primary detection.
    pub fn has_primary(self) -> (r: bool)
        ensures
            r == (self == DetectionKind::Primary || self == DetectionKind::Combined),
    {
        match self {
            DetectionKind::Primary | DetectionKind::Combined => true,
            DetectionKind::Secondary => false,
        }
    }

    /// Whether the dwell included a secondary reply.
    pub fn has_secondary(self) -> (r: bool)
        ensures
            r == (self == DetectionKind::Secondary || self == DetectionKind::Combined),
    {
        match self {
            DetectionKind::Secondary | DetectionKind::Combined => true,
            DetectionKind::Primary => false,
        }
    }
}

/// Every detection has at least one of the two channels, and only a
/// combined dwell has both.
pub proof fn lemma_detection_kind_channels(k: DetectionKind)
    ensures
        (k == DetectionKind::Primary || k == DetectionKind::Combined) || (k
            == DetectionKind::Secondary || k == DetectionKind::Combined),
        ((k == DetectionKind::Primary || k == DetectionKind::Combined) && (k
            == DetectionKind::Secondary || k == DetectionKind::Combined)) <==> k
            == DetectionKind::Combined,
{
}

/// Which surveillance technology family produced a plot.
#[derive(Debug, Clone, Copy, PartialEq, Eq, Structural)]
pub enum SourceKind {
    /// Primary surveillance radar skin paint.
    Psr,
    /// Secondary surveillance radar Mode A/C reply (no Mode S address).
    Ssr,
    /// Mode S selective interrogation reply.
    ModeS,
    /// ADS-B (1090 Extended Squitter) geodetic self-report.
    AdsB,
    /// FLARM / Open Glider Network geodetic report.
    Flarm,
}

impl Default for SourceKind {
    /// Plots recorded before the technology was tagged are primary radar.
    fn default() -> (r: Self)
        ensures
            r == SourceKind::Psr,
    {
        SourceKind::Psr
    }
}

/// An aircraft callsign / flight identification: up to eight ASCII
/// characters, space-padded — the shape of the wire representation
/// (8 × 6-bit IA-5 characters).
#[derive(Debug, Clone, Copy, PartialEq, Eq)]
pub struct Callsign(pub [u8; 8]);

/// The eight characters a callsign built from `bytes` holds: the first eight
/// octets, space-padded.
pub open spec fn padded_callsign(bytes: Seq<u8>) -> Seq<u8> {
    Seq::new(8, |i: int| if i < bytes.len() { bytes[i] } else { 0x20u8 })
}

/// The number of characters left once trailing spaces are trimmed.
pub open spec fn trimmed_len(chars: Seq<u8>, n: int) -> int
    decreases n,
{
    if n <= 0 {
        0
    } else if chars[n - 1] != 0x20u8 {
        n
    } else {
        trimmed_len(chars, n - 1)
    }
}

/// `std::str::from_utf8`: the string viewing `bytes` when they are valid
/// UTF-8, and `None` otherwise (the standard library documents that it
/// returns an error exactly when the bytes are not valid UTF-8).
#[verifier::external_body]
pub(crate) fn utf8_str(bytes: &[u8]) -> (r: Option<&str>)
    ensures
        r is Some <==> valid_utf8(bytes@),
        r matches Some(s) ==> s.spec_bytes() == bytes@,
{
    std::str::from_utf8(bytes).ok()
}

fn byte_or_space(bytes: &[u8], i: usize) -> (c: u8)
    ensures
        c == (if i < bytes@.len() {
            bytes@[i as int]
        } else {
            0x20u8
        }),
{
    if i < bytes.len() {
        bytes[i]
    } else {
        0x20u8
    }
}

impl Callsign {
    /// Build a callsign from a string, space-padding or truncating to eight
    /// characters.
    pub fn new(s: &str) -> (r: Self)
        ensures
            r.0@ == padded_callsign(s.spec_bytes()),
    {
        let b = s.as_bytes();
        let chars = [
            byte_or_space(b, 0),
            byte_or_space(b, 1),
            byte_or_space(b, 2),
            byte_or_space(b, 3),
            byte_or_space(b, 4),
            byte_or_space(b, 5),
            byte_or_space(b, 6),
            byte_or_space(b, 7),
        ];
        assert(chars@ =~= padded_callsign(s.spec_bytes()));
        Callsign(chars)
    }

    /// The callsign as a string, with trailing spaces trimmed; empty when
    /// the characters are not valid UTF-8.
    pub fn as_str(&self) -> (r: &str)
        ensures
            ({
                let kept = self.0@.subrange(0, trimmed_len(self.0@, 8));
                if valid_utf8(kept) {
                    r.spec_bytes() == kept
                } else {
                    r@.len() == 0
                }
            }),
    {
        let mut n: usize = 8;
        while n > 0 && self.0[n - 1] == 0x20u8
            invariant
                n <= 8,
                trimmed_len(self.0@, n as int) == trimmed_len(self.0@, 8),
            decreases n,
        {
            n = n - 1;
        }
        let kept = vstd::slice::slice_subrange(self.0.as_slice(), 0, n);
        match utf8_str(kept) {
            Some(s) => s,
            None => {
                proof {
                    reveal_strlit("");
                }
                ""
            },
        }
    }
}

/// A callsign keeps the text it was built from: for up to eight octets
/// not ending in a space, the characters `as_str` keeps are exactly the
/// octets given to `new`.
pub proof fn lemma_callsign_round_trip(b: Seq<u8>)
    requires
        b.len() <= 8,
        b.len() == 0 || b.last() != 0x20u8,
    ensures
        padded_callsign(b).subrange(0, trimmed_len(padded_callsign(b), 8)) == b,
{
    let p = padded_callsign(b);
    lemma_trailing_spaces(p, b.len() as int, 8);
    assert(trimmed_len(p, b.len() as int) == b.len()) by {
        if b.len() > 0 {
            assert(p[b.len() - 1] == b.last());
        }
    }
    assert(p.subrange(0, b.len() as int) =~= b);
}

proof fn lemma_trailing_spaces(p: Seq<u8>, k: int, n: int)
    requires
        0 <= k <= n <= p.len(),
        forall|i: int| k <= i < n ==> p[i] == 0x20u8,
    ensures
        trimmed_len(p, n) == trimmed_len(p, k),
    decreases n - k,
{
    if n > k {
        lemma_trailing_spaces(p, k, n - 1);
    }
}


/// `t` without its trailing spaces.
pub open spec fn without_trailing_spaces(t: Seq<u8>) -> Seq<u8> {
    t.subrange(0, trimmed_len(t, t.len() as int))
}

/// What `as_str` keeps of a callsign built from any octets `b`: the first
/// eight of them (or all, when fewer) without their trailing spaces — so an
/// all-space text keeps nothing; and when `b` is ASCII, what is kept is
/// valid UTF-8, so `as_str` gives exactly those characters.
pub proof fn lemma_callsign_keeps(b: Seq<u8>)
    ensures
        padded_callsign(b).subrange(0, trimmed_len(padded_callsign(b), 8))
            == without_trailing_spaces(b.take(if b.len() < 8 {
            b.len() as int
        } else {
            8
        })),
        (forall|i: int| 0 <= i < b.len() ==> #[trigger] b[i] < 0x80u8) ==> valid_utf8(
            padded_callsign(b).subrange(0, trimmed_len(padded_callsign(b), 8)),
        ),
{
    let m: int = if b.len() < 8 {
        b.len() as int
    } else {
        8
    };
    let t = b.take(m);
    let p = padded_callsign(b);
    lemma_trailing_spaces(p, m, 8);
    lemma_trimmed_len_prefix(p, t, m);
    let k = trimmed_len(t, m);
    lemma_trimmed_len_range(t, m);
    assert(p.subrange(0, k) =~= t.subrange(0, k));
    if forall|i: int| 0 <= i < b.len() ==> #[trigger] b[i] < 0x80u8 {
        let kept = t.subrange(0, k);
        let chars = kept.map_values(|x: u8| x as char);
        assert(is_ascii_chars(chars)) by {
            assert forall|i: int| 0 <= i < chars.len() implies '\0' <= #[trigger] chars[i] <= '\u{7f}' by {
                assert(kept[i] == b[i]);
                assert(b[i] < 0x80u8);
            }
        }
        is_ascii_chars_encode_utf8(chars);
        assert forall|i: int| 0 <= i < kept.len() implies encode_utf8(chars)[i] == #[trigger] kept[i] by {
            assert(chars[i] as u8 == kept[i]) by {
                assert(kept[i] == b[i]);
                assert(b[i] < 0x80u8);
            }
        }
        assert(encode_utf8(chars) =~= kept);
        encode_utf8_valid_utf8(chars);
    }
}

/// Sequences that agree on their first `n` octets trim to the same length.
proof fn lemma_trimmed_len_prefix(p: Seq<u8>, t: Seq<u8>, n: int)
    requires
        0 <= n <= p.len(),
        n <= t.len(),
        forall|i: int| 0 <= i < n ==> p[i] == t[i],
    ensures
        trimmed_len(p, n) == trimmed_len(t, n),
    decreases n,
{
    if n > 0 {
        lemma_trimmed_len_prefix(p, t, n - 1);
    }
}

/// A trimmed length lies within the octets trimmed.
proof fn lemma_trimmed_len_range(t: Seq<u8>, n: int)
    requires
        0 <= n,
    ensures
        0 <= trimmed_len(t, n) <= n,
    decreases n,
{
    if n > 0 {
        lemma_trimmed_len_range(t, n - 1);
    }
}

} // verus!

//! The identity fields of one aircraft in a community aggregator's answer
//! (the ADSBExchange v2 layout): the hexadecimal address, where a leading
//! `~` marks a non-ICAO (TIS-B) address; the callsign; the squawk, written
//! in octal; and the kind of position source.

use vstd::prelude::*;
use vstd::string::StringSliceAdditionalSpecFns;
use vstd::utf8::encode_utf8;

use crate::plot::{padded_callsign, Callsign};
use crate::text::{trim, trimmed};

verus! {

/// The value of `c` as a digit in `radix`, as `char::to_digit` reads it:
/// `0`–`9`, then letters of either case from ten on.
pub open spec fn radix_digit(c: char, radix: int) -> Option<int> {
    let v = if '0' <= c && c <= '9' {
        Some(c as int - '0' as int)
    } else if 'a' <= c && c <= 'z' {
        Some(c as int - 'a' as int + 10)
    } else if 'A' <= c && c <= 'Z' {
        Some(c as int - 'A' as int + 10)
    } else {
        None
    };
    match v {
        Some(d) => if d < radix {
            Some(d)
        } else {
            None
        },
        None => None,
    }
}

/// The number the digits `s` spell in `radix`, when all are digits.
pub open spec fn radix_value(s: Seq<char>, radix: int) -> Option<int>
    decreases s.len(),
{
    if s.len() == 0 {
        Some(0)
    } else {
        match (radix_value(s.drop_last(), radix), radix_digit(s.last(), radix)) {
            (Some(v), Some(d)) => Some(v * radix + d),
            _ => None,
        }
    }
}

/// An unsigned number in `radix` as `from_str_radix` reads one: an optional
/// `+`, then one or more digits.
pub open spec fn radix_number(s: Seq<char>, radix: int) -> Option<int> {
    let d = if s.len() > 0 && s[0] == '+' {
        s.drop_first()
    } else {
        s
    };
    if d.len() == 0 {
        None
    } else {
        radix_value(d, radix)
    }
}

/// `v` when present and in `0..=max`.
pub open spec fn at_most(v: Option<int>, max: int) -> Option<int> {
    match v {
        Some(x) => if 0 <= x <= max {
            Some(x)
        } else {
            None
        },
        None => None,
    }
}

/// Digits never spell a negative number, and a prefix of digits never
/// spells more than the whole.
proof fn lemma_radix_prefix(s: Seq<char>, radix: int, k: int)
    requires
        radix >= 2,
        0 <= k <= s.len(),
        radix_value(s, radix) is Some,
    ensures
        radix_value(s.take(k), radix) is Some,
        0 <= radix_value(s.take(k), radix)->0 <= radix_value(s, radix)->0,
    decreases s.len(),
{
    if s.len() > 0 {
        let t = s.drop_last();
        lemma_radix_prefix(t, radix, if k == s.len() {
            t.len() as int
        } else {
            k
        });
        let v = radix_value(t, radix)->0;
        let d = radix_digit(s.last(), radix)->0;
        assert(v * radix + d >= v) by (nonlinear_arith)
            requires
                v >= 0,
                d >= 0,
                radix >= 2,
        ;
        if k == s.len() {
            assert(s.take(k) =~= s);
            assert(t.take(t.len() as int) =~= t);
        } else {
            assert(t.take(k) =~= s.take(k));
        }
    } else {
        assert(s.take(k) =~= s);
    }
}

/// The value of the character `c` as a digit in `radix`.
fn digit_in(c: char, radix: u32) -> (r: Option<u32>)
    requires
        2 <= radix <= 36,
    ensures
        r matches Some(d) ==> radix_digit(c, radix as int) == Some(d as int),
        r is None ==> radix_digit(c, radix as int) is None,
{
    let v: u32 = if '0' <= c && c <= '9' {
        c as u32 - '0' as u32
    } else if 'a' <= c && c <= 'z' {
        c as u32 - 'a' as u32 + 10
    } else if 'A' <= c && c <= 'Z' {
        c as u32 - 'A' as u32 + 10
    } else {
        return None;
    };
    if v < radix {
        Some(v)
    } else {
        None
    }
}

/// `s` read as an unsigned number in `radix`, when its value is at most
/// `max`.
pub fn parse_radix(s: &str, radix: u32, max: u64) -> (r: Option<u64>)
    requires
        2 <= radix <= 36,
    ensures
        r == (match at_most(radix_number(s@, radix as int), max as int) {
            Some(v) => Some(v as u64),
            None => None::<u64>,
        }),
{
    let n = s.unicode_len();
    let start: usize = if n > 0 && s.get_char(0) == '+' {
        1
    } else {
        0
    };
    let ghost d = s@.subrange(start as int, n as int);
    proof {
        if start == 1 {
            assert(s@.drop_first() =~= d);
        } else {
            assert(s@ =~= d);
        }
    }
    if start == n {
        return None;
    }
    let mut acc: u64 = 0;
    let mut i: usize = start;
    while i < n
        invariant
            start <= i <= n,
            start < n,
            n == s@.len(),
            2 <= radix <= 36,
            d == s@.subrange(start as int, n as int),
            radix_number(s@, radix as int) == radix_value(d, radix as int),
            radix_value(d.take(i - start), radix as int) == Some(acc as int),
            acc <= max,
        decreases n - i,
    {
        let c = s.get_char(i);
        let ghost k = i - start;
        assert(d[k] == c);
        assert(d.take(k + 1).drop_last() =~= d.take(k));
        assert(d.take(k + 1).last() == c);
        let digit = match digit_in(c, radix) {
            Some(x) => x,
            None => {
                proof {
                    if radix_value(d, radix as int) is Some {
                        lemma_radix_prefix(d, radix as int, k + 1);
                    }
                }
                return None;
            },
        };
        let next = match acc.checked_mul(radix as u64) {
            Some(t) => t.checked_add(digit as u64),
            None => None,
        };
        match next {
            Some(v) if v <= max => {
                acc = v;
            },
            _ => {
                proof {
                    if radix_value(d, radix as int) is Some {
                        lemma_radix_prefix(d, radix as int, k + 1);
                    }
                }
                return None;
            },
        }
        i = i + 1;
    }
    assert(d.take(n - start) =~= d);
    proof {
        lemma_radix_prefix(d, radix as int, 0);
    }
    Some(acc)
}

/// What an aircraft's hexadecimal address field says.
#[derive(Debug, Clone, Copy, PartialEq, Eq, Structural)]
pub enum AddressField {
    /// A 24-bit ICAO aircraft address.
    Icao(u32),
    /// No address, or a `~`-marked non-ICAO one: the aircraft is kept
    /// without an identity.
    NotIcao,
    /// Not a hexadecimal number: the aircraft is dropped.
    Malformed,
}

/// The address field, trimmed: absent or `~`-marked is no ICAO address;
/// otherwise it must read as a hexadecimal `u32`.
pub open spec fn address_field_of(hex: Option<Seq<char>>) -> AddressField {
    match hex {
        None => AddressField::NotIcao,
        Some(h) => {
            let t = trimmed(h);
            if t.len() > 0 && t[0] == '~' {
                AddressField::NotIcao
            } else {
                match at_most(radix_number(t, 16), u32::MAX as int) {
                    Some(v) => AddressField::Icao(v as u32),
                    None => AddressField::Malformed,
                }
            }
        },
    }
}

/// Read an aircraft's hexadecimal address field.
pub fn address_field(hex: Option<&str>) -> (r: AddressField)
    ensures
        r == address_field_of(
            match hex {
                Some(h) => Some(h@),
                None => None,
            },
        ),
{
    match hex {
        None => AddressField::NotIcao,
        Some(h) => {
            let t = trim(h);
            if t.unicode_len() > 0 && t.get_char(0) == '~' {
                AddressField::NotIcao
            } else {
                match parse_radix(t, 16, 0xffff_ffff) {
                    Some(v) => AddressField::Icao(v as u32),
                    None => AddressField::Malformed,
                }
            }
        },
    }
}

/// An aircraft's squawk field: its trimmed text read as an octal number
/// that fits sixteen bits.
pub fn squawk_field(squawk: Option<&str>) -> (r: Option<u16>)
    ensures
        r == (match squawk {
            Some(s) => match at_most(radix_number(trimmed(s@), 8), 0xffff) {
                Some(v) => Some(v as u16),
                None => None::<u16>,
            },
            None => None::<u16>,
        }),
{
    match squawk {
        Some(s) => match parse_radix(trim(s), 8, 0xffff) {
            Some(v) => Some(v as u16),
            None => None,
        },
        None => None,
    }
}

/// An aircraft's flight field as a callsign: trimmed, and present only
/// when something is left.
pub fn callsign_field(flight: Option<&str>) -> (r: Option<Callsign>)
    ensures
        r is Some <==> (flight matches Some(f) && trimmed(f@).len() > 0),
        r matches Some(c) ==> c.0@ == padded_callsign(encode_utf8(trimmed(flight->0@))),
{
    match flight {
        Some(f) => {
            let t = trim(f);
            if t.unicode_len() > 0 {
                let c = Callsign::new(t);
                assert(c.0@ =~= padded_callsign(encode_utf8(trimmed(f@))));
                Some(c)
            } else {
                None
            }
        },
        None => None,
    }
}

/// Where an aircraft's position came from, as its `type` field says.
#[derive(Debug, Clone, Copy, PartialEq, Eq, Structural)]
pub enum PositionSource {
    /// ADS-B or ADS-R (`adsb…`, `adsr…`): the aircraft's own fix.
    Adsb,
    /// Multilateration (`mlat`).
    Mlat,
    /// Anything else, or no type.
    Other,
}

/// Whether `s` begins with `p`.
pub open spec fn begins_with(s: Seq<char>, p: Seq<char>) -> bool {
    p.len() <= s.len() && s.take(p.len() as int) == p
}

/// The position source a `type` field names.
pub open spec fn position_source_of(kind: Option<Seq<char>>) -> PositionSource {
    match kind {
        Some(k) => if begins_with(k, seq!['a', 'd', 's', 'b']) || begins_with(
            k,
            seq!['a', 'd', 's', 'r'],
        ) {
            PositionSource::Adsb
        } else if k == seq!['m', 'l', 'a', 't'] {
            PositionSource::Mlat
        } else {
            PositionSource::Other
        },
        None => PositionSource::Other,
    }
}

/// Whether the characters of `s` from 0 on spell `p`.
fn starts_with_chars(s: &str, p: &[char]) -> (r: bool)
    ensures
        r == begins_with(s@, p@),
{
    let n = s.unicode_len();
    if p.len() > n {
        return false;
    }
    let mut i: usize = 0;
    while i < p.len()
        invariant
            i <= p.len() <= n,
            n == s@.len(),
            forall|j: int| 0 <= j < i ==> s@[j] == p@[j],
        decreases p.len() - i,
    {
        if s.get_char(i) != p[i] {
            assert(s@.take(p@.len() as int)[i as int] != p@[i as int]);
            return false;
        }
        i = i + 1;
    }
    assert(s@.take(p@.len() as int) =~= p@);
    true
}

/// Read an aircraft's position-source `type` field.
pub fn position_source(kind: Option<&str>) -> (r: PositionSource)
    ensures
        r == position_source_of(
            match kind {
                Some(k) => Some(k@),
                None => None,
            },
        ),
{
    match kind {
        Some(k) => {
            let adsb = ['a', 'd', 's', 'b'];
            let adsr = ['a', 'd', 's', 'r'];
            let mlat = ['m', 'l', 'a', 't'];
            assert(adsb@ =~= seq!['a', 'd', 's', 'b']);
            assert(adsr@ =~= seq!['a', 'd', 's', 'r']);
            assert(mlat@ =~= seq!['m', 'l', 'a', 't']);
            if starts_with_chars(k, adsb.as_slice()) || starts_with_chars(k, adsr.as_slice()) {
                PositionSource::Adsb
            } else if k.unicode_len() == 4 && starts_with_chars(k, mlat.as_slice()) {
                assert(k@.take(4) =~= k@);
                PositionSource::Mlat
            } else {
                proof {
                    if k@ == seq!['m', 'l', 'a', 't'] {
                        assert(k@.take(4) =~= k@);
                    }
                }
                PositionSource::Other
            }
        },
        None => PositionSource::Other,
    }
}

} // verus!

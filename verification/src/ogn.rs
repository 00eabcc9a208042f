//! The aircraft identity in an OGN (Open Glider Network) APRS beacon: how
//! its 24-bit device address was assigned, read from the `id` token of the
//! beacon's comment or from the source call's prefix.

use vstd::prelude::*;

use crate::text::{is_white_space, white_space};

verus! {

/// How an OGN device address was assigned. Only `Icao` is a real ICAO
/// 24-bit address; FLARM and OGN-tracker ids live in private ranges.
#[derive(Debug, Clone, Copy, PartialEq, Eq, Structural)]
pub enum AddressType {
    /// Unknown / randomly assigned (id byte `aa = 0`).
    Unknown,
    /// Official ICAO 24-bit aircraft address (`aa = 1`).
    Icao,
    /// FLARM hardware id (`aa = 2`).
    Flarm,
    /// OGN tracker id (`aa = 3`).
    OgnTracker,
}

/// The address type the low two bits of an OGN id byte name.
pub open spec fn address_type_of(aa: u8) -> AddressType {
    let t = aa % 4;
    if t == 1 {
        AddressType::Icao
    } else if t == 2 {
        AddressType::Flarm
    } else if t == 3 {
        AddressType::OgnTracker
    } else {
        AddressType::Unknown
    }
}

/// The address type a three-letter source-call prefix names.
pub open spec fn address_type_of_prefix(p: Seq<char>) -> Option<AddressType> {
    if p == seq!['I', 'C', 'A'] {
        Some(AddressType::Icao)
    } else if p == seq!['F', 'L', 'R'] {
        Some(AddressType::Flarm)
    } else if p == seq!['O', 'G', 'N'] {
        Some(AddressType::OgnTracker)
    } else {
        None
    }
}

fn spelled(s: &str, word: &[char]) -> (r: bool)
    ensures
        r == (s@ == word@),
{
    let n = s.unicode_len();
    if n != word.len() {
        return false;
    }
    let mut i: usize = 0;
    while i < n
        invariant
            n == s@.len(),
            n == word@.len(),
            i <= n,
            forall|j: int| 0 <= j < i ==> s@[j] == word@[j],
        decreases n - i,
    {
        if s.get_char(i) != word[i] {
            return false;
        }
        i = i + 1;
    }
    assert(s@ =~= word@);
    true
}

impl AddressType {
    /// Map the low two bits of the OGN id byte to an address type.
    pub fn from_bits(aa: u8) -> (r: Self)
        ensures
            r == address_type_of(aa),
    {
        let t = aa % 4;
        if t == 1 {
            AddressType::Icao
        } else if t == 2 {
            AddressType::Flarm
        } else if t == 3 {
            AddressType::OgnTracker
        } else {
            AddressType::Unknown
        }
    }

    /// The address type named by the three-letter source-call prefix, used
    /// when a beacon carries no `id` field.
    pub fn from_prefix(prefix: &str) -> (r: Option<Self>)
        ensures
            r == address_type_of_prefix(prefix@),
    {
        let ica = ['I', 'C', 'A'];
        let flr = ['F', 'L', 'R'];
        let ogn = ['O', 'G', 'N'];
        assert(ica@ =~= seq!['I', 'C', 'A']);
        assert(flr@ =~= seq!['F', 'L', 'R']);
        assert(ogn@ =~= seq!['O', 'G', 'N']);
        if spelled(prefix, ica.as_slice()) {
            Some(AddressType::Icao)
        } else if spelled(prefix, flr.as_slice()) {
            Some(AddressType::Flarm)
        } else if spelled(prefix, ogn.as_slice()) {
            Some(AddressType::OgnTracker)
        } else {
            None
        }
    }
}

/// Only the low two bits of the id byte matter.
pub proof fn lemma_address_type_low_bits(aa: u8)
    ensures
        address_type_of(aa) == address_type_of(aa % 4),
{
}

// ---------------------------------------------------------------------------
// The `id` token.
// ---------------------------------------------------------------------------

/// The number of octets `c` takes in UTF-8.
pub open spec fn utf8_width(c: char) -> int {
    let u = c as u32;
    if u < 0x80 {
        1
    } else if u < 0x800 {
        2
    } else if u < 0x10000 {
        3
    } else {
        4
    }
}

/// The number of octets `t` takes in UTF-8.
pub open spec fn utf8_width_of(t: Seq<char>) -> int
    decreases t.len(),
{
    if t.len() == 0 {
        0
    } else {
        utf8_width_of(t.drop_last()) + utf8_width(t.last())
    }
}

/// The end of the white-space-free run of `s` starting at `i`.
pub open spec fn token_end(s: Seq<char>, i: int) -> int
    decreases s.len() - i,
{
    if i < 0 || i >= s.len() || is_white_space(s[i]) {
        i
    } else {
        token_end(s, i + 1)
    }
}

/// Whether a token is an OGN id token: ten octets starting with `id`.
pub open spec fn is_id_token(t: Seq<char>) -> bool {
    utf8_width_of(t) == 10 && t.len() >= 2 && t[0] == 'i' && t[1] == 'd'
}

/// The bounds of the first id token of `s` from `i` on, splitting at white
/// space.
pub open spec fn first_id_token(s: Seq<char>, i: int) -> Option<(int, int)>
    decreases s.len() - i,
{
    if i < 0 || i >= s.len() {
        None
    } else if is_white_space(s[i]) {
        first_id_token(s, i + 1)
    } else {
        let e = token_end(s, i);
        if e <= i || e > s.len() {
            None
        } else if is_id_token(s.subrange(i, e)) {
            Some((i, e))
        } else {
            first_id_token(s, e)
        }
    }
}

/// The value of a hexadecimal digit, if `c` is one.
pub open spec fn hex_digit(c: char) -> Option<int> {
    if '0' <= c && c <= '9' {
        Some(c as int - '0' as int)
    } else if 'a' <= c && c <= 'f' {
        Some(c as int - 'a' as int + 10)
    } else if 'A' <= c && c <= 'F' {
        Some(c as int - 'A' as int + 10)
    } else {
        None
    }
}

/// The value of a non-empty run of hexadecimal digits.
pub open spec fn hex_digits(s: Seq<char>) -> Option<int>
    decreases s.len(),
{
    if s.len() == 0 {
        None
    } else if s.len() == 1 {
        hex_digit(s[0])
    } else {
        match (hex_digits(s.drop_last()), hex_digit(s.last())) {
            (Some(v), Some(d)) => Some(16 * v + d),
            _ => None,
        }
    }
}

/// An unsigned hexadecimal number as the standard library reads one: an
/// optional leading `+`, then at least one hexadecimal digit.
pub open spec fn hex_number(s: Seq<char>) -> Option<int> {
    if s.len() > 0 && s[0] == '+' {
        hex_digits(s.subrange(1, s.len() as int))
    } else {
        hex_digits(s)
    }
}

/// What an id token says: address, address type and aircraft type, when
/// its flag and address read as hexadecimal numbers.
pub open spec fn id_of_token(t: Seq<char>) -> Option<(u32, AddressType, u8)> {
    if t.len() != 10 {
        None
    } else {
        match (hex_number(t.subrange(2, 4)), hex_number(t.subrange(4, 10))) {
            (Some(flag), Some(address)) => Some(
                (address as u32, address_type_of(flag as u8), ((flag as u8) >> 2u8) & 0x0Fu8),
            ),
            _ => None,
        }
    }
}

/// The identity the first id token of `rest` carries, if any.
pub open spec fn id_in(rest: Seq<char>) -> Option<(u32, AddressType, u8)> {
    match first_id_token(rest, 0) {
        None => None,
        Some((i, e)) => id_of_token(rest.subrange(i, e)),
    }
}

proof fn lemma_width_positive(t: Seq<char>)
    ensures
        utf8_width_of(t) >= t.len(),
    decreases t.len(),
{
    if t.len() > 0 {
        lemma_width_positive(t.drop_last());
    }
}

proof fn lemma_hex_digits_bound(s: Seq<char>)
    ensures
        hex_digits(s) matches Some(v) ==> 0 <= v < crate::adsbagg::pow2(4 * s.len()),
    decreases s.len(),
{
    if s.len() > 1 {
        lemma_hex_digits_bound(s.drop_last());
        let n = (s.len() - 1) as nat;
        assert(crate::adsbagg::pow2(4 * s.len()) == 16 * crate::adsbagg::pow2(4 * n)) by {
            reveal_with_fuel(crate::adsbagg::pow2, 5);
            assert(4 * s.len() == 4 * n + 4);
            lemma_pow2_add4(4 * n);
        }
    } else if s.len() == 1 {
        reveal_with_fuel(crate::adsbagg::pow2, 5);
    }
}

proof fn lemma_pow2_add4(n: nat)
    ensures
        crate::adsbagg::pow2(n + 4) == 16 * crate::adsbagg::pow2(n),
{
    reveal_with_fuel(crate::adsbagg::pow2, 5);
}

fn hex_digit_value(c: char) -> (r: Option<u32>)
    ensures
        r matches Some(v) ==> hex_digit(c) == Some(v as int),
        r is None ==> hex_digit(c) is None,
{
    if '0' <= c && c <= '9' {
        Some(c as u32 - '0' as u32)
    } else if 'a' <= c && c <= 'f' {
        Some(c as u32 - 'a' as u32 + 10)
    } else if 'A' <= c && c <= 'F' {
        Some(c as u32 - 'A' as u32 + 10)
    } else {
        None
    }
}

/// The hexadecimal number the characters `from..to` of `s` spell (an
/// optional `+`, then at most six digits).
pub(crate) fn hex_at(s: &str, from: usize, to: usize) -> (r: Option<u32>)
    requires
        from <= to <= s@.len(),
        to - from <= 6,
    ensures
        r matches Some(v) ==> hex_number(s@.subrange(from as int, to as int)) == Some(v as int),
        r is None ==> hex_number(s@.subrange(from as int, to as int)) is None,
{
    let ghost t = s@.subrange(from as int, to as int);
    let mut i = from;
    if from < to && s.get_char(from) == '+' {
        i = from + 1;
    }
    let ghost digits = s@.subrange(i as int, to as int);
    assert(hex_number(t) == hex_digits(digits)) by {
        if t.len() > 0 && t[0] == '+' {
            assert(t.subrange(1, t.len() as int) =~= digits);
        } else {
            assert(t =~= digits);
        }
    }
    if i >= to {
        return None;
    }
    let mut value: u32 = 0;
    let start = i;
    while i < to
        invariant
            start < to <= s@.len(),
            start <= i <= to,
            to - start <= 6,
            digits == s@.subrange(start as int, to as int),
            hex_number(s@.subrange(from as int, to as int)) == hex_digits(digits),
            i > start ==> hex_digits(s@.subrange(start as int, i as int)) == Some(value as int),
            value < crate::adsbagg::pow2(4 * (i - start) as nat),
        decreases to - i,
    {
        let d = match hex_digit_value(s.get_char(i)) {
            Some(d) => d,
            None => {
                proof {
                    assert(digits[(i - start) as int] == s@[i as int]);
                    lemma_hex_digits_prefix_none(digits, (i - start) as int);
                }
                return None;
            },
        };
        proof {
            let pre = s@.subrange(start as int, i + 1);
            assert(pre.drop_last() =~= s@.subrange(start as int, i as int));
            assert(pre.last() == s@[i as int]);
            lemma_pow2_add4(4 * (i - start) as nat);
            assert(crate::adsbagg::pow2(4 * (i - start) as nat) <= 0x10_0000) by {
                lemma_pow2_mono(4 * (i - start) as nat, 20);
                reveal_with_fuel(crate::adsbagg::pow2, 21);
            }
        }
        value = value * 16 + d;
        i = i + 1;
        proof {
            assert(4 * (i - start) as nat == 4 * (i - 1 - start) as nat + 4);
        }
    }
    assert(s@.subrange(start as int, to as int) =~= digits);
    Some(value)
}

proof fn lemma_pow2_mono(a: nat, b: nat)
    requires
        a <= b,
    ensures
        crate::adsbagg::pow2(a) <= crate::adsbagg::pow2(b),
    decreases b,
{
    if a < b {
        lemma_pow2_mono(a, (b - 1) as nat);
    }
}

proof fn lemma_hex_digits_prefix_none(s: Seq<char>, k: int)
    requires
        0 <= k < s.len(),
        hex_digit(s[k]) is None,
    ensures
        hex_digits(s) is None,
    decreases s.len(),
{
    if k < s.len() - 1 {
        lemma_hex_digits_prefix_none(s.drop_last(), k);
    }
}

/// The octets `c` takes in UTF-8.
fn char_width(c: char) -> (r: usize)
    ensures
        r == utf8_width(c),
{
    let u = c as u32;
    if u < 0x80 {
        1
    } else if u < 0x800 {
        2
    } else if u < 0x10000 {
        3
    } else {
        4
    }
}

/// Find and decode the OGN `id` token (`id`, a two-digit hexadecimal flag
/// byte, a six-digit hexadecimal address): the address, its type from the
/// flag's low two bits, and the aircraft type from bits 5–2. Only the first
/// whitespace-separated token of ten octets starting with `id` is read.
pub fn find_id(rest: &str) -> (r: Option<(u32, AddressType, u8)>)
    ensures
        r == id_in(rest@),
{
    let n = rest.unicode_len();
    let mut i: usize = 0;
    while i < n
        invariant
            i <= n,
            n == rest@.len(),
            first_id_token(rest@, 0) == first_id_token(rest@, i as int),
        decreases n - i,
    {
        if white_space(rest.get_char(i)) {
            i = i + 1;
        } else {
            // The token's end and its width in octets (counted up to 11).
            let mut e = i;
            let mut width: usize = 0;
            while e < n && !white_space(rest.get_char(e))
                invariant
                    i <= e <= n,
                    n == rest@.len(),
                    token_end(rest@, i as int) == token_end(rest@, e as int),
                    width == (if utf8_width_of(rest@.subrange(i as int, e as int)) > 11 {
                        11
                    } else {
                        utf8_width_of(rest@.subrange(i as int, e as int))
                    }),
                decreases n - e,
            {
                let w = char_width(rest.get_char(e));
                proof {
                    let t = rest@.subrange(i as int, e + 1);
                    assert(t.drop_last() =~= rest@.subrange(i as int, e as int));
                }
                width = if width + w > 11 {
                    11
                } else {
                    width + w
                };
                e = e + 1;
            }
            proof {
                assert(!is_white_space(rest@[i as int]));
                assert(e > i);
            }
            let ghost t = rest@.subrange(i as int, e as int);
            if width == 10 && e - i >= 2 && rest.get_char(i) == 'i' && rest.get_char(i + 1) == 'd' {
                assert(is_id_token(t));
                if e - i != 10 {
                    return None;
                }
                let flag = hex_at(rest, i + 2, i + 4);
                let address = hex_at(rest, i + 4, i + 10);
                proof {
                    assert(t.subrange(2, 4) =~= rest@.subrange(i + 2, i + 4));
                    assert(t.subrange(4, 10) =~= rest@.subrange(i + 4, i + 10));
                }
                return match (flag, address) {
                    (Some(f), Some(a)) => {
                        proof {
                            lemma_hex_digits_bound_number(rest@.subrange(i + 2, i + 4));
                        }
                        let f8 = f as u8;
                        Some((a, AddressType::from_bits(f8), (f8 >> 2u8) & 0x0Fu8))
                    },
                    _ => None,
                };
            }
            proof {
                assert(!is_id_token(t));
            }
            i = e;
        }
    }
    None
}

proof fn lemma_hex_digits_bound_number(s: Seq<char>)
    requires
        s.len() == 2,
    ensures
        hex_number(s) matches Some(v) ==> 0 <= v < 256,
{
    if s[0] == '+' {
        lemma_hex_digits_bound(s.subrange(1, 2));
        reveal_with_fuel(crate::adsbagg::pow2, 5);
    } else {
        lemma_hex_digits_bound(s);
        reveal_with_fuel(crate::adsbagg::pow2, 9);
    }
}

} // verus!

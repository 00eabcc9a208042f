//! The layout of an OGN-flavoured APRS position beacon, read from the line's
//! UTF-8 bytes:
//!
//! ```text
//! FLRDDE626>APRS,qAS,EGHL:/074548h5111.32N/00102.04W'086/007/A=000607 id0ADDE626 !W65!
//! ```
//!
//! the source call before `>`; after the first `:` a data-type id (`/` or
//! `@` with a timestamp, `!` or `=` without); an optional `HHMMSS` + `h`
//! timestamp; the fixed-width latitude (8 bytes), symbol table (1),
//! longitude (9) and symbol code (1); then the comment, carrying the
//! `/A=` altitude in feet, the `id` token and the `!Dxy!` extension. Every
//! slice is taken only at a character boundary; a line that does not fit
//! is refused, never read past its end.

use vstd::prelude::*;
use vstd::string::StringSliceAdditionalSpecFns;
use vstd::utf8::{
    decode_utf8, encode_utf8, encode_utf8_decode_utf8, encode_utf8_valid_utf8, is_char_boundary,
    is_char_boundary_iff_not_is_continuation_byte, is_char_boundary_start_end_of_seq,
    is_continuation_byte,
};

use crate::ogn::{
    address_type_of_prefix, find_id, hex_at, hex_number, id_in, token_end, AddressType,
};
use crate::text::{is_white_space, lemma_encoding_len, white_space};

verus! {

/// The fields of a position beacon that are read as integers or kept as
/// text; the latitude and longitude fields are handed on as written.
#[derive(Debug, Clone)]
pub struct OgnBeacon {
    /// The source call, e.g. `FLRDDE626`.
    pub source_call: String,
    /// Seconds since UTC midnight from an `HHMMSSh` timestamp.
    pub time_of_day_s: Option<u32>,
    /// The latitude field `DDMM.mmH` as written.
    pub latitude_field: String,
    /// The longitude field `DDDMM.mmH` as written.
    pub longitude_field: String,
    /// Altitude in feet from `/A=` and six digits.
    pub altitude_ft: Option<u32>,
    /// The first digit of the first `!Dxy!` token: thousandths of a minute
    /// of latitude (0 without one).
    pub dao_lat: u32,
    /// The second digit: thousandths of a minute of longitude.
    pub dao_lon: u32,
    /// The 24-bit device address, when identifiable.
    pub address: Option<u32>,
    /// How the address was assigned.
    pub address_type: AddressType,
    /// The aircraft-type nibble of an `id` token.
    pub aircraft_type: Option<u8>,
}

/// Whether byte `i` of `b` starts a character or ends the text: the
/// places a `str` may be sliced at.
pub open spec fn boundary(b: Seq<u8>, i: int) -> bool {
    i == 0 || i == b.len() || (0 < i < b.len() && !is_continuation_byte(b[i]))
}

/// The first position at or after `i` where `b` holds `c`.
pub open spec fn byte_pos(b: Seq<u8>, c: u8, i: int) -> Option<int>
    decreases b.len() - i,
{
    if i < 0 || i >= b.len() {
        None
    } else if b[i] == c {
        Some(i)
    } else {
        byte_pos(b, c, i + 1)
    }
}

/// The first position at or after `i` where `b` holds `/A=`.
pub open spec fn altitude_mark(b: Seq<u8>, i: int) -> Option<int>
    decreases b.len() - i,
{
    if i < 0 || i + 3 > b.len() {
        None
    } else if b[i] == 0x2f && b[i + 1] == 0x41 && b[i + 2] == 0x3d {
        Some(i)
    } else {
        altitude_mark(b, i + 1)
    }
}

/// Whether `x` is an ASCII decimal digit.
pub open spec fn ascii_digit(x: u8) -> bool {
    0x30 <= x && x <= 0x39
}

/// Whether the `n` bytes of `b` from `i` on are ASCII decimal digits.
pub open spec fn digits_at(b: Seq<u8>, i: int, n: int) -> bool {
    0 <= i && i + n <= b.len() && forall|k: int| 0 <= k < n ==> ascii_digit(#[trigger] b[i + k])
}

/// The number the ASCII digits `b` spell.
pub open spec fn digit_bytes_value(b: Seq<u8>) -> int
    decreases b.len(),
{
    if b.len() == 0 {
        0
    } else {
        digit_bytes_value(b.drop_last()) * 10 + (b.last() - 0x30)
    }
}

/// The time of day, in seconds, that the six digits `HHMMSS` at `i` spell,
/// when hours, minutes and seconds are in range.
pub open spec fn hms_at(b: Seq<u8>, i: int) -> Option<u32> {
    if digits_at(b, i, 6) {
        let h = digit_bytes_value(b.subrange(i, i + 2));
        let m = digit_bytes_value(b.subrange(i + 2, i + 4));
        let s = digit_bytes_value(b.subrange(i + 4, i + 6));
        if h <= 23 && m <= 59 && s <= 59 {
            Some((h * 3600 + m * 60 + s) as u32)
        } else {
            None
        }
    } else {
        None
    }
}

/// The altitude in feet the comment `r` carries: six digits after its
/// first `/A=`.
pub open spec fn altitude_in(r: Seq<u8>) -> Option<u32> {
    match altitude_mark(r, 0) {
        Some(p) => if digits_at(r, p + 3, 6) {
            Some(digit_bytes_value(r.subrange(p + 3, p + 9)) as u32)
        } else {
            None
        },
        None => None,
    }
}

/// Whether `c` is an ASCII letter.
pub open spec fn ascii_alpha(c: char) -> bool {
    ('a' <= c && c <= 'z') || ('A' <= c && c <= 'Z')
}

/// Whether `c` is a decimal digit.
pub open spec fn decimal_char(c: char) -> bool {
    '0' <= c && c <= '9'
}

/// The digits of a human-readable DAO token `!Dxy!` (a datum letter, then
/// two digits).
pub open spec fn dao_of_token(t: Seq<char>) -> Option<(u32, u32)> {
    if t.len() == 5 && t[0] == '!' && t[4] == '!' && ascii_alpha(t[1]) && decimal_char(t[2])
        && decimal_char(t[3]) {
        Some((((t[2] as u32) - 0x30) as u32, ((t[3] as u32) - 0x30) as u32))
    } else {
        None
    }
}

/// The digits of the first DAO token of `s` from `i` on, splitting at white
/// space.
pub open spec fn first_dao(s: Seq<char>, i: int) -> Option<(u32, u32)>
    decreases s.len() - i,
{
    if i < 0 || i >= s.len() {
        None
    } else if is_white_space(s[i]) {
        first_dao(s, i + 1)
    } else {
        let e = token_end(s, i);
        if e <= i || e > s.len() {
            None
        } else {
            match dao_of_token(s.subrange(i, e)) {
                Some(d) => Some(d),
                None => first_dao(s, e),
            }
        }
    }
}

/// The DAO digits of the comment `s`, `(0, 0)` without a DAO token.
pub open spec fn dao_in(s: Seq<char>) -> (u32, u32) {
    match first_dao(s, 0) {
        Some(d) => d,
        None => (0, 0),
    }
}

/// Where the fields of the beacon `b` lie: the end of the source call, the
/// start of the latitude field, and the timestamp's time of day. `None`
/// when the line is no position beacon or its fields do not fit.
pub open spec fn beacon_layout(b: Seq<u8>) -> Option<(int, int, Option<u32>)> {
    match byte_pos(b, 0x3a, 0) {
        None => None,
        Some(colon) => {
            let call_end = match byte_pos(b.take(colon), 0x3e, 0) {
                Some(g) => g,
                None => colon,
            };
            let q = colon + 1;
            if call_end == 0 || q >= b.len() {
                None
            } else {
                let first = b[q];
                let timed = first == 0x2f || first == 0x40;
                let p0 = q + 1;
                let p1 = if timed {
                    p0 + 7
                } else {
                    p0
                };
                if !(timed || first == 0x21 || first == 0x3d) {
                    None
                } else if timed && !(p0 + 7 <= b.len() && boundary(b, p0 + 7)) {
                    None
                } else if !(p1 + 19 <= b.len() && boundary(b, p1) && boundary(b, p1 + 8) && boundary(
                    b,
                    p1 + 9,
                ) && boundary(b, p1 + 18) && boundary(b, p1 + 19)) {
                    None
                } else {
                    let time = if timed && b[p0 + 6] == 0x68 {
                        hms_at(b, p0)
                    } else {
                        None
                    };
                    Some((call_end, p1, time))
                }
            }
        }
    }
}

/// The aircraft identity: the comment's `id` token, else the source call's
/// three-letter prefix with the six hexadecimal digits after it. `None`
/// when neither names an aircraft address: a known prefix without six
/// readable hexadecimal digits after it identifies no aircraft.
pub open spec fn identity_of(b: Seq<u8>, call_end: int, rest: int) -> Option<
    (Option<u32>, AddressType, Option<u8>),
> {
    match id_in(decode_utf8(b.subrange(rest, b.len() as int))) {
        Some((a, t, k)) => Some((Some(a), t, Some(k))),
        None => if 3 <= call_end && boundary(b, 3) {
            match address_type_of_prefix(decode_utf8(b.subrange(0, 3))) {
                Some(t) => if 9 <= call_end && boundary(b, 9) {
                    match hex_number(decode_utf8(b.subrange(3, 9))) {
                        Some(v) => Some((Some(v as u32), t, None)),
                        None => None,
                    }
                } else {
                    None
                },
                None => None,
            }
        } else {
            None
        },
    }
}

/// The aircraft identity of the beacon `b`, when it is laid out as a
/// position beacon.
pub open spec fn beacon_identity(b: Seq<u8>) -> Option<(Option<u32>, AddressType, Option<u8>)> {
    match beacon_layout(b) {
        Some((call_end, p1, _)) => identity_of(b, call_end, p1 + 19),
        None => None,
    }
}

/// Whether `x` holds what the beacon `b`, laid out as `layout`, says.
pub open spec fn beacon_fields(b: Seq<u8>, layout: (int, int, Option<u32>), x: OgnBeacon) -> bool {
    let (call_end, p1, time) = layout;
    let rest = b.subrange(p1 + 19, b.len() as int);
    &&& encode_utf8(x.source_call@) == b.subrange(0, call_end)
    &&& x.time_of_day_s == time
    &&& encode_utf8(x.latitude_field@) == b.subrange(p1, p1 + 8)
    &&& encode_utf8(x.longitude_field@) == b.subrange(p1 + 9, p1 + 18)
    &&& x.altitude_ft == altitude_in(rest)
    &&& (x.dao_lat, x.dao_lon) == dao_in(decode_utf8(rest))
    &&& identity_of(b, call_end, p1 + 19) == Some((x.address, x.address_type, x.aircraft_type))
}

/// Whether byte `i` of `b` is a place a `str` may be sliced at.
fn is_boundary(b: &[u8], i: usize) -> (r: bool)
    ensures
        r == boundary(b@, i as int),
{
    i == 0 || i == b.len() || (i < b.len() && !(0x80 <= b[i] && b[i] <= 0xbf))
}

/// A slice boundary of the bytes of a `str` is a character boundary.
proof fn lemma_boundary(s: &str, i: int)
    requires
        boundary(s.spec_bytes(), i),
    ensures
        is_char_boundary(s.spec_bytes(), i),
{
    let b = s.spec_bytes();
    encode_utf8_valid_utf8(s@);
    is_char_boundary_start_end_of_seq(b);
    if 0 < i < b.len() {
        is_char_boundary_iff_not_is_continuation_byte(b, i);
    }
}

/// The text between the byte positions `from` and `to` of `s`.
fn slice_str<'a>(s: &'a str, from: usize, to: usize) -> (r: &'a str)
    requires
        from <= to <= s.spec_bytes().len(),
        boundary(s.spec_bytes(), from as int),
        boundary(s.spec_bytes(), to as int),
    ensures
        r.spec_bytes() == s.spec_bytes().subrange(from as int, to as int),
        r@ == decode_utf8(s.spec_bytes().subrange(from as int, to as int)),
{
    let ghost b = s.spec_bytes();
    proof {
        lemma_boundary(s, from as int);
    }
    let (_, tail) = s.split_at(from);
    proof {
        assert(tail.spec_bytes() =~= b.subrange(from as int, b.len() as int));
        let t = tail.spec_bytes();
        if to - from < t.len() && to - from > 0 {
            assert(t[to - from] == b[to as int]);
        }
        assert(boundary(t, (to - from) as int));
        lemma_boundary(tail, (to - from) as int);
    }
    let (mid, _) = tail.split_at(to - from);
    proof {
        assert(mid.spec_bytes() =~= b.subrange(from as int, to as int));
        encode_utf8_decode_utf8(mid@);
    }
    mid
}

/// The first position at or after `from` where `b` holds `c`, or the end.
fn find_byte(b: &[u8], c: u8, from: usize, end: usize) -> (r: usize)
    requires
        from <= end <= b@.len(),
    ensures
        r <= end,
        r < end ==> byte_pos(b@.take(end as int), c, from as int) == Some(r as int) && b@[r as int]
            == c,
        r == end ==> byte_pos(b@.take(end as int), c, from as int) is None,
{
    let ghost t = b@.take(end as int);
    let mut i = from;
    while i < end && b[i] != c
        invariant
            from <= i <= end <= b@.len(),
            t == b@.take(end as int),
            byte_pos(t, c, from as int) == byte_pos(t, c, i as int),
        decreases end - i,
    {
        assert(t[i as int] == b@[i as int]);
        i = i + 1;
    }
    proof {
        if i < end {
            assert(t[i as int] == b@[i as int]);
        }
    }
    i
}

/// The time of day the six digits at `i` spell.
fn hms_value(b: &[u8], i: usize) -> (r: Option<u32>)
    requires
        i + 6 <= b@.len(),
    ensures
        r == hms_at(b@, i as int),
{
    let mut k: usize = 0;
    while k < 6
        invariant
            k <= 6,
            i + 6 <= b.len(),
            forall|j: int| 0 <= j < k ==> ascii_digit(#[trigger] b@[i + j]),
        decreases 6 - k,
    {
        if b[i + k] < 0x30 || b[i + k] > 0x39 {
            assert(!ascii_digit(b@[i + k]));
            return None;
        }
        k = k + 1;
    }
    proof {
        assert(ascii_digit(b@[i + 0]));
        assert(ascii_digit(b@[i + 1]));
        assert(ascii_digit(b@[i + 2]));
        assert(ascii_digit(b@[i + 3]));
        assert(ascii_digit(b@[i + 4]));
        assert(ascii_digit(b@[i + 5]));
        lemma_two_digits(b@, i as int);
        lemma_two_digits(b@, i + 2);
        lemma_two_digits(b@, i + 4);
    }
    let h = ((b[i] - 0x30) as u32) * 10 + ((b[i + 1] - 0x30) as u32);
    let m = ((b[i + 2] - 0x30) as u32) * 10 + ((b[i + 3] - 0x30) as u32);
    let s = ((b[i + 4] - 0x30) as u32) * 10 + ((b[i + 5] - 0x30) as u32);
    if h <= 23 && m <= 59 && s <= 59 {
        Some(h * 3600 + m * 60 + s)
    } else {
        None
    }
}

/// Two ASCII digits spell ten times the first plus the second.
proof fn lemma_two_digits(b: Seq<u8>, i: int)
    requires
        0 <= i,
        i + 2 <= b.len(),
    ensures
        digit_bytes_value(b.subrange(i, i + 2)) == (b[i] - 0x30) * 10 + (b[i + 1] - 0x30),
{
    let t = b.subrange(i, i + 2);
    assert(t.drop_last().drop_last() =~= Seq::<u8>::empty());
    assert(digit_bytes_value(t.drop_last().drop_last()) == 0);
    assert(t.drop_last().last() == b[i]);
    assert(digit_bytes_value(t.drop_last()) == b[i] - 0x30);
}

/// The altitude the comment bytes `r` carry after their first `/A=`.
fn altitude_value(r: &[u8]) -> (v: Option<u32>)
    ensures
        v == altitude_in(r@),
{
    let n = r.len();
    if n < 3 {
        return None;
    }
    let mut p: usize = 0;
    while p <= n - 3 && !(r[p] == 0x2f && r[p + 1] == 0x41 && r[p + 2] == 0x3d)
        invariant
            3 <= n,
            p <= n,
            n == r@.len(),
            altitude_mark(r@, 0) == altitude_mark(r@, p as int),
        decreases n - p,
    {
        p = p + 1;
    }
    if p > n - 3 {
        return None;
    }
    if n - (p + 3) < 6 {
        return None;
    }
    let start = p + 3;
    let mut value: u32 = 0;
    let mut k: usize = 0;
    while k < 6
        invariant
            k <= 6,
            start + 6 <= n,
            n == r@.len(),
            altitude_mark(r@, 0) == Some((start - 3) as int),
            forall|j: int| 0 <= j < k ==> ascii_digit(#[trigger] r@[start + j]),
            value == digit_bytes_value(r@.subrange(start as int, start + k)),
            value < 1_000_000,
            k <= 5 ==> value < 100_000,
            k <= 4 ==> value < 10_000,
            k <= 3 ==> value < 1_000,
            k <= 2 ==> value < 100,
            k <= 1 ==> value < 10,
            k == 0 ==> value == 0,
        decreases 6 - k,
    {
        let d = r[start + k];
        if d < 0x30 || d > 0x39 {
            assert(!ascii_digit(r@[start + k]));
            return None;
        }
        proof {
            let t = r@.subrange(start as int, start + k + 1);
            assert(t.drop_last() =~= r@.subrange(start as int, start + k));
            assert(t.last() == d);
        }
        value = value * 10 + (d - 0x30) as u32;
        k = k + 1;
    }
    Some(value)
}

/// Whether `c` is an ASCII letter.
fn is_ascii_letter(c: char) -> (r: bool)
    ensures
        r == ascii_alpha(c),
{
    ('a' <= c && c <= 'z') || ('A' <= c && c <= 'Z')
}

/// Whether `c` is a decimal digit.
fn is_decimal(c: char) -> (r: bool)
    ensures
        r == decimal_char(c),
{
    '0' <= c && c <= '9'
}

/// The digits of the first human-readable DAO token `!Dxy!` of the
/// comment `rest`, `(0, 0)` without one.
pub fn find_dao(rest: &str) -> (r: (u32, u32))
    ensures
        r == dao_in(rest@),
{
    let n = rest.unicode_len();
    let mut i: usize = 0;
    while i < n
        invariant
            i <= n,
            n == rest@.len(),
            first_dao(rest@, 0) == first_dao(rest@, i as int),
        decreases n - i,
    {
        if white_space(rest.get_char(i)) {
            i = i + 1;
        } else {
            let mut e = i;
            while e < n && !white_space(rest.get_char(e))
                invariant
                    i <= e <= n,
                    n == rest@.len(),
                    token_end(rest@, i as int) == token_end(rest@, e as int),
                decreases n - e,
            {
                e = e + 1;
            }
            proof {
                assert(!is_white_space(rest@[i as int]));
                assert(e > i);
            }
            let ghost t = rest@.subrange(i as int, e as int);
            if e - i == 5 {
                let c0 = rest.get_char(i);
                let c1 = rest.get_char(i + 1);
                let c2 = rest.get_char(i + 2);
                let c3 = rest.get_char(i + 3);
                let c4 = rest.get_char(i + 4);
                assert(t[0] == c0 && t[1] == c1 && t[2] == c2 && t[3] == c3 && t[4] == c4);
                if c0 == '!' && c4 == '!' && is_ascii_letter(c1) && is_decimal(c2) && is_decimal(
                    c3,
                ) {
                    return ((c2 as u32 - 0x30) as u32, (c3 as u32 - 0x30) as u32);
                }
            }
            i = e;
        }
    }
    (0, 0)
}

/// Where the fields of the beacon `line` lie, as [`beacon_layout`] says.
fn layout_of(line: &str) -> (r: Option<(usize, usize, Option<u32>)>)
    ensures
        r matches Some(l) ==> beacon_layout(line.spec_bytes()) == Some(
            (l.0 as int, l.1 as int, l.2),
        ),
        r is None ==> beacon_layout(line.spec_bytes()) is None,
{
    let b = line.as_bytes();
    let ghost bs = line.spec_bytes();
    let n = b.len();
    assert(b@.take(n as int) =~= b@);
    let colon = find_byte(b, 0x3a, 0, n);
    if colon == n {
        return None;
    }
    let call_end = find_byte(b, 0x3e, 0, colon);
    if call_end == 0 || colon + 1 >= n {
        return None;
    }
    let q = colon + 1;
    let first = b[q];
    let timed = first == 0x2f || first == 0x40;
    if !(timed || first == 0x21 || first == 0x3d) {
        return None;
    }
    let p0 = q + 1;
    let mut time: Option<u32> = None;
    let p1 = if timed {
        if n - p0 < 7 || !is_boundary(b, p0 + 7) {
            return None;
        }
        if b[p0 + 6] == 0x68 {
            time = hms_value(b, p0);
        }
        p0 + 7
    } else {
        p0
    };
    if n - p1 < 19 || !is_boundary(b, p1) || !is_boundary(b, p1 + 8) || !is_boundary(b, p1 + 9)
        || !is_boundary(b, p1 + 18) || !is_boundary(b, p1 + 19) {
        return None;
    }
    Some((call_end, p1, time))
}

/// The aircraft identity of a beacon whose source call ends at `call_end`
/// and whose comment starts at `rest_start`, as [`identity_of`] says.
fn identity_from(line: &str, call_end: usize, rest_start: usize) -> (r: Option<
    (Option<u32>, AddressType, Option<u8>),
>)
    requires
        call_end < rest_start <= line.spec_bytes().len(),
        boundary(line.spec_bytes(), call_end as int),
        boundary(line.spec_bytes(), rest_start as int),
    ensures
        r == identity_of(line.spec_bytes(), call_end as int, rest_start as int),
{
    let b = line.as_bytes();
    let ghost bs = line.spec_bytes();
    let n = b.len();
    let rest = slice_str(line, rest_start, n);
    match find_id(rest) {
        Some((a, t, k)) => Some((Some(a), t, Some(k))),
        None => {
            if call_end < 3 || !is_boundary(b, 3) {
                return None;
            }
            let prefix = slice_str(line, 0, 3);
            let t = match AddressType::from_prefix(prefix) {
                Some(t) => t,
                None => return None,
            };
            if call_end < 9 || !is_boundary(b, 9) {
                return None;
            }
            let h = slice_str(line, 3, 9);
            proof {
                lemma_encoding_len(h@);
                encode_utf8_decode_utf8(h@);
                assert(h@.subrange(0, h@.len() as int) =~= h@);
            }
            match hex_at(h, 0, h.unicode_len()) {
                Some(address) => Some((Some(address), t, None)),
                None => None,
            }
        },
    }
}

/// Read the layout of an OGN position beacon: its source call, timestamp,
/// fixed-width latitude and longitude fields, and from the comment the
/// altitude, the DAO digits and the aircraft identity. `None` for anything
/// that is not a position beacon of an identifiable aircraft, and for any
/// field that would have to be sliced inside a character or past the end.
pub fn frame_beacon(line: &str) -> (r: Option<OgnBeacon>)
    ensures
        r is Some <==> beacon_identity(line.spec_bytes()) is Some,
        r matches Some(x) ==> beacon_fields(line.spec_bytes(), beacon_layout(line.spec_bytes())->0, x),
{
    let (call_end, p1, time) = match layout_of(line) {
        Some(l) => l,
        None => return None,
    };
    let ghost bs = line.spec_bytes();
    let n = line.as_bytes().len();
    proof {
        assert(byte_pos(bs, 0x3a, 0) is Some);
        let colon = byte_pos(bs, 0x3a, 0)->0;
        lemma_byte_pos_found(bs, 0x3a, 0);
        lemma_byte_pos_found(bs.take(colon), 0x3e, 0);
        match byte_pos(bs.take(colon), 0x3e, 0) {
            Some(g) => {
                assert(g == call_end);
                assert(bs.take(colon)[g] == bs[g]);
            },
            None => {
                assert(call_end == colon);
            },
        }
        assert(0 < call_end < bs.len());
        assert(!is_continuation_byte(bs[call_end as int]));
        assert(boundary(bs, call_end as int));
    }
    let rest_start = p1 + 19;
    let (address, address_type, aircraft_type) = match identity_from(line, call_end, rest_start) {
        Some(i) => i,
        None => return None,
    };
    let rest = slice_str(line, rest_start, n);
    let source_call = slice_str(line, 0, call_end);
    let latitude_field = slice_str(line, p1, p1 + 8);
    let longitude_field = slice_str(line, p1 + 9, p1 + 18);
    let altitude_ft = altitude_value(rest.as_bytes());
    let (dao_lat, dao_lon) = find_dao(rest);
    proof {
        encode_utf8_decode_utf8(source_call@);
        encode_utf8_decode_utf8(latitude_field@);
        encode_utf8_decode_utf8(longitude_field@);
    }
    Some(
        OgnBeacon {
            source_call: source_call.to_owned(),
            time_of_day_s: time,
            latitude_field: latitude_field.to_owned(),
            longitude_field: longitude_field.to_owned(),
            altitude_ft,
            dao_lat,
            dao_lon,
            address,
            address_type,
            aircraft_type,
        },
    )
}

/// The position `byte_pos` finds holds the byte sought.
proof fn lemma_byte_pos_found(b: Seq<u8>, c: u8, i: int)
    ensures
        byte_pos(b, c, i) matches Some(p) ==> i <= p < b.len() && b[p] == c,
    decreases b.len() - i,
{
    if 0 <= i < b.len() && b[i] != c {
        lemma_byte_pos_found(b, c, i + 1);
    }
}

/// Every beacon that frames names its aircraft: a position beacon without
/// an identifiable address is not an aircraft and frames as nothing.
pub proof fn lemma_framed_beacons_have_an_address(b: Seq<u8>)
    ensures
        beacon_identity(b) matches Some((a, _, _)) ==> a is Some,
{
}

} // verus!

//! The keys of a filed flight plan: its callsign, compared trimmed and
//! case-insensitively, and its squawk, written as up to four octal digits
//! ("squawk 7500"); and the checks a configured list of plans must pass.

use vstd::prelude::*;
use vstd::string::StringSliceAdditionalSpecFns;
use vstd::utf8::{
    encode_utf8, encode_utf8_decode_utf8, encode_utf8_valid_utf8, is_ascii_chars,
    is_ascii_chars_encode_utf8,
};

use crate::correlation::{ascii_upper, same_callsign_key, same_key};
use crate::plot::utf8_str;
use crate::text::{is_white_space, lead_end, lemma_encoding_len, trail_start, trim, trimmed};

verus! {

/// Why a written squawk is refused.
#[derive(Debug, Clone, Copy, PartialEq, Eq, Structural)]
pub enum SquawkError {
    /// Empty, or longer than four characters as written.
    Length,
    /// Not an octal code: a digit 8 or 9, or something other than digits.
    NotOctal,
}

/// Whether `c` is an octal digit.
pub open spec fn is_octal_digit(c: char) -> bool {
    '0' <= c && c <= '7'
}

/// Whether every character of `s` is an octal digit.
pub open spec fn all_octal(s: Seq<char>) -> bool {
    forall|i: int| 0 <= i < s.len() ==> is_octal_digit(#[trigger] s[i])
}

/// The number the octal digits `s` spell.
pub open spec fn octal_value(s: Seq<char>) -> int
    decreases s.len(),
{
    if s.len() == 0 {
        0
    } else {
        octal_value(s.drop_last()) * 8 + ((s.last() as u32) - ('0' as u32))
    }
}

/// `s` read as an octal number: an optional `+`, then one or more octal
/// digits.
pub open spec fn octal_number(s: Seq<char>) -> Option<int> {
    let d = if s.len() > 0 && s[0] == '+' {
        s.drop_first()
    } else {
        s
    };
    if d.len() > 0 && all_octal(d) {
        Some(octal_value(d))
    } else {
        None
    }
}

/// A squawk written as text: trimmed, one to four bytes long, read as an
/// octal number.
pub open spec fn squawk_of_text(s: Seq<char>) -> Result<u16, SquawkError> {
    let t = trimmed(s);
    if t.len() == 0 || encode_utf8(t).len() > 4 {
        Err(SquawkError::Length)
    } else {
        match octal_number(t) {
            Some(v) => Ok(v as u16),
            None => Err(SquawkError::NotOctal),
        }
    }
}

/// The decimal digits of `n` read as octal digits, when none is 8 or 9.
pub open spec fn octal_reading(n: nat) -> Option<int>
    decreases n,
{
    if n < 10 {
        if n <= 7 {
            Some(n as int)
        } else {
            None
        }
    } else {
        match octal_reading(n / 10) {
            Some(h) => if n % 10 <= 7 {
                Some(h * 8 + n % 10)
            } else {
                None
            },
            None => None,
        }
    }
}

/// A squawk written as a number: its one to four decimal digits read as
/// octal digits.
pub open spec fn squawk_of_number(n: u64) -> Result<u16, SquawkError> {
    if n > 9999 {
        Err(SquawkError::Length)
    } else {
        match octal_reading(n as nat) {
            Some(v) => Ok(v as u16),
            None => Err(SquawkError::NotOctal),
        }
    }
}

/// The character of the octal digit `d`.
pub open spec fn octal_char(d: int) -> char {
    if d <= 0 {
        '0'
    } else if d == 1 {
        '1'
    } else if d == 2 {
        '2'
    } else if d == 3 {
        '3'
    } else if d == 4 {
        '4'
    } else if d == 5 {
        '5'
    } else if d == 6 {
        '6'
    } else {
        '7'
    }
}

/// The octal digits of `v`, most significant first, without leading
/// zeros (`0` is the single digit `0`).
pub open spec fn octal_digits(v: nat) -> Seq<char>
    decreases v,
{
    if v < 8 {
        seq![octal_char(v as int)]
    } else {
        octal_digits(v / 8).push(octal_char((v % 8) as int))
    }
}

/// `s` with zeros in front up to `width` characters.
pub open spec fn zero_padded(s: Seq<char>, width: nat) -> Seq<char> {
    if s.len() >= width {
        s
    } else {
        Seq::new((width - s.len()) as nat, |i: int| '0') + s
    }
}

/// A squawk as it is written out: at least four octal digits.
pub open spec fn squawk_written(code: u16) -> Seq<char> {
    zero_padded(octal_digits(code as nat), 4)
}

/// A plan's callsign key: trimmed, ASCII letters upper-cased.
pub open spec fn callsign_key_of(s: Seq<char>) -> Seq<char> {
    trimmed(s).map_values(|c: char| ascii_upper(c))
}

/// Octal digits spell a number below eight to the power of their count.
proof fn lemma_octal_bound(s: Seq<char>)
    requires
        all_octal(s),
        s.len() <= 4,
    ensures
        0 <= octal_value(s) < 4096,
        s.len() <= 3 ==> octal_value(s) < 512,
        s.len() <= 2 ==> octal_value(s) < 64,
        s.len() <= 1 ==> octal_value(s) < 8,
    decreases s.len(),
{
    if s.len() > 0 {
        let t = s.drop_last();
        assert(all_octal(t)) by {
            assert forall|i: int| 0 <= i < t.len() implies is_octal_digit(#[trigger] t[i]) by {
                assert(t[i] == s[i]);
            }
        }
        assert(is_octal_digit(s[s.len() - 1]));
        lemma_octal_bound(t);
    }
}

/// The octal digits `start..end` of `s` as a number, when there is at
/// least one and all are octal digits; at most four of them.
fn octal_run(s: &str, start: usize, end: usize) -> (r: Option<u16>)
    requires
        start <= end <= s@.len(),
        end - start <= 4,
    ensures
        r == (if end > start && all_octal(s@.subrange(start as int, end as int)) {
            Some(octal_value(s@.subrange(start as int, end as int)) as u16)
        } else {
            None::<u16>
        }),
{
    let ghost d = s@.subrange(start as int, end as int);
    if end == start {
        return None;
    }
    let mut acc: u16 = 0;
    let mut i: usize = start;
    while i < end
        invariant
            start <= i <= end <= s@.len(),
            end - start <= 4,
            d == s@.subrange(start as int, end as int),
            all_octal(d.take(i - start)),
            acc == octal_value(d.take(i - start)),
        decreases end - i,
    {
        let c = s.get_char(i);
        let ghost k = i - start;
        assert(d[k] == c);
        if c < '0' || c > '7' {
            assert(!all_octal(d));
            return None;
        }
        assert(d.take(k + 1).drop_last() =~= d.take(k));
        assert(all_octal(d.take(k + 1))) by {
            assert forall|j: int| 0 <= j < k + 1 implies is_octal_digit(#[trigger] d.take(k + 1)[j]) by {
                if j < k {
                    assert(d.take(k + 1)[j] == d.take(k)[j]);
                }
            }
        }
        proof {
            lemma_octal_bound(d.take(k));
        }
        acc = acc * 8 + (c as u32 - '0' as u32) as u16;
        i = i + 1;
    }
    assert(d.take(end - start) =~= d);
    proof {
        lemma_octal_bound(d);
    }
    Some(acc)
}

/// Read a squawk written as text: trimmed, it must be one to four bytes of
/// octal digits (an optional `+` first), read as written — `"1234"` is
/// octal 1234.
pub fn squawk_from_text(s: &str) -> (r: Result<u16, SquawkError>)
    ensures
        r == squawk_of_text(s@),
{
    let t = trim(s);
    let bytes = t.as_bytes().len();
    if bytes == 0 || bytes > 4 {
        return Err(SquawkError::Length);
    }
    proof {
        lemma_encoding_len(t@);
    }
    let n = t.unicode_len();
    let start: usize = if t.get_char(0) == '+' {
        1
    } else {
        0
    };
    proof {
        if start == 1 {
            assert(t@.drop_first() =~= t@.subrange(1, n as int));
        } else {
            assert(t@ =~= t@.subrange(0, n as int));
        }
        let d = t@.subrange(start as int, n as int);
        if d.len() > 0 && all_octal(d) {
            lemma_octal_bound(d);
        }
    }
    match octal_run(t, start, n) {
        Some(v) => Ok(v),
        None => Err(SquawkError::NotOctal),
    }
}

/// Reading decimal digits as octal digits never gives more than the
/// decimal number.
proof fn lemma_octal_reading_bound(n: nat)
    ensures
        octal_reading(n) matches Some(v) ==> 0 <= v <= n,
    decreases n,
{
    if n >= 10 {
        lemma_octal_reading_bound(n / 10);
        if let Some(h) = octal_reading(n / 10) {
            assert(h * 8 + n % 10 <= n) by (nonlinear_arith)
                requires
                    0 <= h <= n / 10,
            ;
        }
    }
}

/// The decimal digits of `n` read as octal digits.
fn octal_reading_of(n: u64) -> (r: Option<u16>)
    requires
        n <= 9999,
    ensures
        r == (match octal_reading(n as nat) {
            Some(v) => Some(v as u16),
            None => None::<u16>,
        }),
        r matches Some(v) ==> v <= n,
    decreases n,
{
    if n < 10 {
        if n <= 7 {
            Some(n as u16)
        } else {
            None
        }
    } else {
        let r = octal_reading_of(n / 10);
        proof {
            lemma_octal_reading_bound(n as nat / 10);
            lemma_octal_reading_bound(n as nat);
        }
        match r {
            Some(h) => {
                if n % 10 <= 7 {
                    assert(h * 8 + n % 10 <= n) by (nonlinear_arith)
                        requires
                            h <= n / 10,
                    ;
                    Some(h * 8 + (n % 10) as u16)
                } else {
                    None
                }
            },
            None => None,
        }
    }
}

/// Read a squawk written as a number: its one to four decimal digits are
/// the octal digits of the code — `1234` is octal 1234.
pub fn squawk_from_number(n: u64) -> (r: Result<u16, SquawkError>)
    ensures
        r == squawk_of_number(n),
{
    if n > 9999 {
        return Err(SquawkError::Length);
    }
    match octal_reading_of(n) {
        Some(v) => Ok(v),
        None => Err(SquawkError::NotOctal),
    }
}

/// The octal digits of `v`, most significant first.
fn octal_digit_chars(v: u16) -> (r: Vec<char>)
    ensures
        r@ == octal_digits(v as nat),
    decreases v,
{
    let last = match v % 8 {
        0 => '0',
        1 => '1',
        2 => '2',
        3 => '3',
        4 => '4',
        5 => '5',
        6 => '6',
        _ => '7',
    };
    assert(octal_char((v % 8) as int) == last);
    if v < 8 {
        vec![last]
    } else {
        let mut digits = octal_digit_chars(v / 8);
        digits.push(last);
        digits
    }
}

/// A squawk written out as octal digits, zero-padded to four (`0o7500` is
/// `"7500"`, `0o12` is `"0012"`).
pub fn squawk_text(code: u16) -> (r: String)
    ensures
        r@ == squawk_written(code),
{
    let digits = octal_digit_chars(code);
    let zeros: usize = if digits.len() < 4 {
        4 - digits.len()
    } else {
        0
    };
    let ghost w = Seq::new(zeros as nat, |i: int| '0') + digits@;
    proof {
        lemma_octal_digits_are_octal(code as nat);
        assert(w =~= squawk_written(code));
    }
    let total = zeros + digits.len();
    let mut bytes: Vec<u8> = Vec::new();
    let mut i: usize = 0;
    while i < total
        invariant
            i <= total,
            total == zeros + digits.len(),
            w == Seq::new(zeros as nat, |i: int| '0') + digits@,
            all_octal(digits@),
            bytes@.len() == i,
            forall|j: int| 0 <= j < i ==> bytes@[j] == (#[trigger] w[j]) as u8,
        decreases total - i,
    {
        let c = if i < zeros {
            '0'
        } else {
            digits[i - zeros]
        };
        assert(c == w[i as int]);
        assert(is_octal_digit(c));
        bytes.push(c as u8);
        i = i + 1;
    }
    proof {
        assert(all_octal(w)) by {
            assert forall|j: int| 0 <= j < w.len() implies is_octal_digit(#[trigger] w[j]) by {
                if j >= zeros {
                    assert(w[j] == digits@[j - zeros]);
                }
            }
        }
        assert(is_ascii_chars(w));
        is_ascii_chars_encode_utf8(w);
        assert(bytes@ =~= encode_utf8(w));
        encode_utf8_valid_utf8(w);
    }
    match utf8_str(bytes.as_slice()) {
        Some(text) => {
            proof {
                encode_utf8_decode_utf8(text@);
                encode_utf8_decode_utf8(w);
            }
            text.to_owned()
        },
        None => String::new(),
    }
}

/// The octal digits of any value are octal digits.
proof fn lemma_octal_digits_are_octal(v: nat)
    ensures
        all_octal(octal_digits(v)),
    decreases v,
{
    if v >= 8 {
        lemma_octal_digits_are_octal(v / 8);
        let h = octal_digits(v / 8);
        let s = h.push(octal_char((v % 8) as int));
        assert(all_octal(s)) by {
            assert forall|i: int| 0 <= i < s.len() implies is_octal_digit(#[trigger] s[i]) by {
                if i < h.len() {
                    assert(s[i] == h[i]);
                }
            }
        }
    }
}

/// `str::to_ascii_uppercase`: the standard library documents that it
/// returns a copy of the text with the ASCII letters `a` to `z` mapped to
/// `A` to `Z` and every other character unchanged, which is all this
/// contract claims.
#[verifier::external_body]
fn ascii_uppercase(s: &str) -> (r: String)
    ensures
        r@ == s@.map_values(|c: char| ascii_upper(c)),
{
    s.to_ascii_uppercase()
}

/// A plan's callsign key: trimmed, ASCII letters upper-cased.
pub fn callsign_key(callsign: &str) -> (r: String)
    ensures
        r@ == callsign_key_of(callsign@),
{
    ascii_uppercase(trim(callsign))
}

/// Why a configured list of flight plans is refused, with the index of
/// the first plan at fault.
#[derive(Debug, Clone, Copy, PartialEq, Eq, Structural)]
pub enum PlanFault {
    /// The plan's callsign is empty once trimmed.
    EmptyCallsign(usize),
    /// An earlier plan has the same callsign key: the two could never be
    /// told apart.
    DuplicateCallsign(usize),
    /// The plan's expected time is not a finite number.
    NonFiniteTime(usize),
}

/// What is wrong with plan `i`, if anything, checked in order: an empty
/// callsign, a callsign key an earlier plan has, a non-finite time.
pub open spec fn plan_fault(callsigns: Seq<String>, finite: Seq<bool>, i: int) -> Option<PlanFault> {
    if trimmed(callsigns[i]@).len() == 0 {
        Some(PlanFault::EmptyCallsign(i as usize))
    } else if exists|j: int| 0 <= j < i && same_key(#[trigger] callsigns[j]@, callsigns[i]@) {
        Some(PlanFault::DuplicateCallsign(i as usize))
    } else if !finite[i] {
        Some(PlanFault::NonFiniteTime(i as usize))
    } else {
        None
    }
}

/// The plans from `i` on checked in order: the first fault found, if any.
pub open spec fn plans_check(callsigns: Seq<String>, finite: Seq<bool>, i: int) -> Result<(), PlanFault>
    decreases callsigns.len() - i,
{
    if i < 0 || i >= callsigns.len() {
        Ok(())
    } else {
        match plan_fault(callsigns, finite, i) {
            Some(f) => Err(f),
            None => plans_check(callsigns, finite, i + 1),
        }
    }
}

/// Check a configured list of flight plans, given each plan's callsign and
/// whether its expected time (if any) is finite: every callsign must be
/// non-empty once trimmed, no two may share a key, and every time must be
/// finite. The first plan at fault is reported.
pub fn validate_plans(callsigns: &Vec<String>, finite_times: &Vec<bool>) -> (r: Result<(), PlanFault>)
    requires
        callsigns.len() == finite_times.len(),
    ensures
        r == plans_check(callsigns@, finite_times@, 0),
{
    let n = callsigns.len();
    let mut i: usize = 0;
    while i < n
        invariant
            i <= n,
            n == callsigns.len(),
            n == finite_times.len(),
            plans_check(callsigns@, finite_times@, 0) == plans_check(callsigns@, finite_times@, i as int),
        decreases n - i,
    {
        let (start, end) = crate::text::trim_bounds(callsigns[i].as_str());
        if start == end {
            assert(trimmed(callsigns@[i as int]@).len() == 0);
            return Err(PlanFault::EmptyCallsign(i));
        }
        assert(trimmed(callsigns@[i as int]@).len() > 0);
        let mut j: usize = 0;
        while j < i
            invariant
                j <= i < n,
                n == callsigns.len(),
                n == finite_times.len(),
                plans_check(callsigns@, finite_times@, 0) == plans_check(callsigns@, finite_times@, i as int),
                trimmed(callsigns@[i as int]@).len() > 0,
                forall|k: int| 0 <= k < j ==> !same_key(#[trigger] callsigns@[k]@, callsigns@[i as int]@),
            decreases i - j,
        {
            if same_callsign_key(callsigns[j].as_str(), callsigns[i].as_str()) {
                assert(same_key(callsigns@[j as int]@, callsigns@[i as int]@));
                assert(plan_fault(callsigns@, finite_times@, i as int) == Some(
                    PlanFault::DuplicateCallsign(i),
                ));
                return Err(PlanFault::DuplicateCallsign(i));
            }
            j = j + 1;
        }
        assert(plan_fault(callsigns@, finite_times@, i as int) == if finite_times@[i as int] {
            None::<PlanFault>
        } else {
            Some(PlanFault::NonFiniteTime(i))
        });
        if !finite_times[i] {
            return Err(PlanFault::NonFiniteTime(i));
        }
        i = i + 1;
    }
    Ok(())
}

/// A squawk written out reads back as the same code: for every code of at
/// most four octal digits, reading `squawk_written(code)` as text gives the
/// code.
pub proof fn lemma_squawk_round_trip(code: u16)
    requires
        code <= 0o7777,
    ensures
        squawk_of_text(squawk_written(code)) == Ok::<u16, SquawkError>(code),
{
    let w = squawk_written(code);
    lemma_octal_digits(code as nat);
    let ds = octal_digits(code as nat);
    let pad = Seq::new((4 - ds.len()) as nat, |i: int| '0');
    assert(w =~= pad + ds);
    lemma_leading_zeros(pad, ds);
    assert(w.len() == 4);
    assert(all_octal(w)) by {
        assert forall|i: int| 0 <= i < w.len() implies is_octal_digit(#[trigger] w[i]) by {
            if i >= pad.len() {
                assert(w[i] == ds[i - pad.len()]);
            }
        }
    }
    assert(!is_white_space(w[0]));
    assert(!is_white_space(w[3]));
    assert(lead_end(w, 0) == 0);
    assert(w.subrange(0, 4) =~= w);
    assert(trail_start(w, 4) == 4);
    assert(trimmed(w) =~= w);
    assert(is_ascii_chars(w));
    is_ascii_chars_encode_utf8(w);
    assert(w[0] != '+');
}

/// The octal digits of `v` are octal digits, at most four of them for a
/// code of at most four, and spell `v`.
proof fn lemma_octal_digits(v: nat)
    requires
        v <= 0o7777,
    ensures
        all_octal(octal_digits(v)),
        1 <= octal_digits(v).len() <= 4,
        v < 512 ==> octal_digits(v).len() <= 3,
        v < 64 ==> octal_digits(v).len() <= 2,
        v < 8 ==> octal_digits(v).len() <= 1,
        octal_value(octal_digits(v)) == v,
    decreases v,
{
    if v < 8 {
        assert((octal_char(v as int) as u32) - ('0' as u32) == v);
        assert(octal_digits(v).drop_last() =~= Seq::<char>::empty());
        assert(octal_value(Seq::<char>::empty()) == 0);
    } else {
        lemma_octal_digits(v / 8);
        let h = octal_digits(v / 8);
        let s = h.push(octal_char((v % 8) as int));
        assert(s.drop_last() =~= h);
        assert((octal_char((v % 8) as int) as u32) - ('0' as u32) == v % 8);
        assert(s.last() == octal_char((v % 8) as int));
        assert(octal_value(s) == octal_value(h) * 8 + v % 8);
        assert(v == (v / 8) * 8 + v % 8);
        assert(all_octal(s)) by {
            assert forall|i: int| 0 <= i < s.len() implies is_octal_digit(#[trigger] s[i]) by {
                if i < h.len() {
                    assert(s[i] == h[i]);
                }
            }
        }
    }
}

/// Two callsigns are told apart by their keys exactly when the correlation
/// rules tell them apart: their keys are equal if and only if they have the
/// same key in the sense of `same_key`.
pub proof fn lemma_keys_equal_iff_same_key(a: Seq<char>, b: Seq<char>)
    ensures
        callsign_key_of(a) == callsign_key_of(b) <==> same_key(a, b),
{
    let x = trimmed(a);
    let y = trimmed(b);
    let kx = callsign_key_of(a);
    let ky = callsign_key_of(b);
    if same_key(a, b) {
        assert(kx =~= ky);
    }
    assert(kx.len() == x.len() && ky.len() == y.len());
    if kx == ky {
        assert(x.len() == y.len());
        assert forall|i: int| 0 <= i < x.len() implies ascii_upper(#[trigger] x[i]) == ascii_upper(
            y[i],
        ) by {
            assert(kx[i] == ascii_upper(x[i]));
            assert(ky[i] == ascii_upper(y[i]));
        }
    }
}

/// The decimal number spelled with the octal digits of `v`: the number a
/// squawk is written as in JSON (`0o1234` is written `1234`).
pub open spec fn octal_as_decimal(v: nat) -> nat
    decreases v,
{
    if v < 8 {
        v
    } else {
        octal_as_decimal(v / 8) * 10 + v % 8
    }
}

/// Whether some decimal digit of `n` is an 8 or a 9.
pub open spec fn has_non_octal_digit(n: nat) -> bool
    decreases n,
{
    if n < 10 {
        n >= 8
    } else {
        n % 10 >= 8 || has_non_octal_digit(n / 10)
    }
}

/// Every code of at most four octal digits reads back from the number it
/// is written as: `1234` reads as octal 1234.
pub proof fn lemma_squawk_number_round_trip(code: u16)
    requires
        code <= 0o7777,
    ensures
        octal_as_decimal(code as nat) <= 9999,
        squawk_of_number(octal_as_decimal(code as nat) as u64) == Ok::<u16, SquawkError>(code),
{
    lemma_octal_as_decimal(code as nat);
}

/// Reading the decimal spelling of `v`'s octal digits gives `v` back, and
/// the spelling has at most as many digits as `v` has octal digits.
proof fn lemma_octal_as_decimal(v: nat)
    ensures
        octal_reading(octal_as_decimal(v)) == Some(v as int),
        v < 8 ==> octal_as_decimal(v) <= 7,
        v < 64 ==> octal_as_decimal(v) <= 77,
        v < 512 ==> octal_as_decimal(v) <= 777,
        v < 4096 ==> octal_as_decimal(v) <= 7777,
        v >= 8 ==> octal_as_decimal(v) >= 10,
    decreases v,
{
    if v >= 8 {
        lemma_octal_as_decimal(v / 8);
        let h = octal_as_decimal(v / 8);
        let n = octal_as_decimal(v);
        assert(n == h * 10 + v % 8);
        assert(n / 10 == h && n % 10 == v % 8) by (nonlinear_arith)
            requires
                n == h * 10 + v % 8,
                v % 8 < 8,
        ;
        assert(h >= 1) by {
            if v / 8 >= 8 {
            } else {
                assert(h == v / 8);
            }
        }
    }
}

/// A written squawk with an 8 or a 9 among its digits is refused, as text
/// and as a number.
pub proof fn lemma_eight_or_nine_refused(s: Seq<char>, n: u64)
    ensures
        (exists|i: int| 0 <= i < trimmed(s).len() && (trimmed(s)[i] == '8' || trimmed(s)[i] == '9'))
            ==> squawk_of_text(s) is Err,
        has_non_octal_digit(n as nat) ==> squawk_of_number(n) is Err,
{
    let t = trimmed(s);
    if exists|i: int| 0 <= i < t.len() && (t[i] == '8' || t[i] == '9') {
        let i = choose|i: int| 0 <= i < t.len() && (t[i] == '8' || t[i] == '9');
        let d = if t.len() > 0 && t[0] == '+' {
            t.drop_first()
        } else {
            t
        };
        if t.len() > 0 && t[0] == '+' {
            assert(i >= 1);
            assert(d[i - 1] == t[i]);
            assert(!is_octal_digit(d[i - 1]));
        } else {
            assert(!is_octal_digit(d[i]));
        }
        assert(!all_octal(d));
    }
    lemma_non_octal_reading(n as nat);
}

/// A decimal number with an 8 or a 9 among its digits has no octal reading.
proof fn lemma_non_octal_reading(n: nat)
    ensures
        has_non_octal_digit(n) ==> octal_reading(n) is None,
    decreases n,
{
    if n >= 10 {
        lemma_non_octal_reading(n / 10);
    }
}

/// Zeros in front of octal digits do not change the number they spell.
proof fn lemma_leading_zeros(zeros: Seq<char>, ds: Seq<char>)
    requires
        forall|i: int| 0 <= i < zeros.len() ==> zeros[i] == '0',
    ensures
        octal_value(zeros + ds) == octal_value(ds),
    decreases ds.len(),
{
    if ds.len() == 0 {
        assert(zeros + ds =~= zeros);
        lemma_zeros_value(zeros);
    } else {
        lemma_leading_zeros(zeros, ds.drop_last());
        assert((zeros + ds).drop_last() =~= zeros + ds.drop_last());
    }
}

/// A run of zeros spells zero.
proof fn lemma_zeros_value(zeros: Seq<char>)
    requires
        forall|i: int| 0 <= i < zeros.len() ==> zeros[i] == '0',
    ensures
        octal_value(zeros) == 0,
    decreases zeros.len(),
{
    if zeros.len() > 0 {
        lemma_zeros_value(zeros.drop_last());
    }
}

} // verus!

//! Reading configuration words: Unicode white space trimmed away at both
//! ends, ASCII letters compared case-insensitively.

use vstd::prelude::*;
use vstd::utf8::{encode_scalar, encode_utf8};

verus! {

/// Whether `c` has the Unicode `White_Space` property.
pub open spec fn is_white_space(c: char) -> bool {
    let u = c as u32;
    (0x09 <= u && u <= 0x0D) || u == 0x20 || u == 0x85 || u == 0xA0 || u == 0x1680 || (0x2000
        <= u && u <= 0x200A) || u == 0x2028 || u == 0x2029 || u == 0x202F || u == 0x205F || u
        == 0x3000
}

/// Whether `c` has the Unicode `White_Space` property.
pub fn white_space(c: char) -> (r: bool)
    ensures
        r == is_white_space(c),
{
    let u = c as u32;
    (0x09 <= u && u <= 0x0D) || u == 0x20 || u == 0x85 || u == 0xA0 || u == 0x1680 || (0x2000
        <= u && u <= 0x200A) || u == 0x2028 || u == 0x2029 || u == 0x202F || u == 0x205F || u
        == 0x3000
}

/// The index of the first character of `s` from `i` on that is not white
/// space, or the length of `s`.
pub open spec fn lead_end(s: Seq<char>, i: int) -> int
    decreases s.len() - i,
{
    if i < 0 || i >= s.len() {
        s.len() as int
    } else if is_white_space(s[i]) {
        lead_end(s, i + 1)
    } else {
        i
    }
}

/// The length of the prefix `s[..j]` once its trailing white space is
/// dropped.
pub open spec fn trail_start(s: Seq<char>, j: int) -> int
    decreases j,
{
    if j <= 0 || j > s.len() {
        0
    } else if is_white_space(s[j - 1]) {
        trail_start(s, j - 1)
    } else {
        j
    }
}

/// `s` without its leading and trailing white space.
pub open spec fn trimmed(s: Seq<char>) -> Seq<char> {
    let rest = s.subrange(lead_end(s, 0), s.len() as int);
    rest.subrange(0, trail_start(rest, rest.len() as int))
}

/// ASCII upper-case letters lowered; every other character unchanged.
pub open spec fn ascii_lower(c: char) -> char {
    if 'A' <= c && c <= 'Z' {
        ((c as u32) + 32) as char
    } else {
        c
    }
}

/// Whether `t` spells `word` ignoring the case of ASCII letters.
pub open spec fn spells(t: Seq<char>, word: Seq<char>) -> bool {
    t.len() == word.len() && forall|i: int| 0 <= i < t.len() ==> ascii_lower(#[trigger] t[i]) == word[i]
}

/// The character positions `(start, end)` of `s` with the white space at
/// both ends trimmed away.
pub fn trim_bounds(s: &str) -> (r: (usize, usize))
    ensures
        r.0 <= r.1 <= s@.len(),
        s@.subrange(r.0 as int, r.1 as int) == trimmed(s@),
{
    let n = s.unicode_len();
    let mut start: usize = 0;
    while start < n && white_space(s.get_char(start))
        invariant
            start <= n,
            n == s@.len(),
            lead_end(s@, 0) == lead_end(s@, start as int),
        decreases n - start,
    {
        start = start + 1;
    }
    let ghost rest = s@.subrange(start as int, n as int);
    let mut end: usize = n;
    while end > start && white_space(s.get_char(end - 1))
        invariant
            start <= end <= n,
            n == s@.len(),
            rest == s@.subrange(start as int, n as int),
            trail_start(rest, rest.len() as int) == trail_start(rest, end - start),
        decreases end,
    {
        assert(rest[end - start - 1] == s@[end - 1]);
        end = end - 1;
    }
    proof {
        if end > start {
            assert(rest[end - start - 1] == s@[end - 1]);
        }
        assert(trail_start(rest, rest.len() as int) == end - start);
        assert(s@.subrange(start as int, end as int) =~= rest.subrange(0, end - start));
    }
    (start, end)
}

/// A UTF-8 encoding is never shorter than the characters it encodes.
pub proof fn lemma_encoding_len(t: Seq<char>)
    ensures
        encode_utf8(t).len() >= t.len(),
    decreases t.len(),
{
    if t.len() > 0 {
        lemma_encoding_len(t.drop_first());
        assert(encode_scalar(t[0] as u32).len() >= 1);
    }
}

/// The characters of `s` between its leading and trailing white space.
pub fn trim(s: &str) -> (r: &str)
    ensures
        r@ == trimmed(s@),
{
    let (start, end) = trim_bounds(s);
    s.substring_char(start, end)
}

/// The character lowered if it is an ASCII capital letter.
pub fn lower_char(c: char) -> (r: char)
    ensures
        r == ascii_lower(c),
{
    if 'A' <= c && c <= 'Z' {
        ((c as u32) + 32) as u8 as char
    } else {
        c
    }
}

/// Whether the characters `start..end` of `s` spell `word`, ignoring the
/// case of ASCII letters.
pub fn spells_at(s: &str, start: usize, end: usize, word: &[char]) -> (r: bool)
    requires
        start <= end <= s@.len(),
    ensures
        r == spells(s@.subrange(start as int, end as int), word@),
{
    let ghost t = s@.subrange(start as int, end as int);
    if end - start != word.len() {
        return false;
    }
    let mut i: usize = 0;
    while i < word.len()
        invariant
            i <= word.len(),
            end - start == word.len(),
            start <= end <= s@.len(),
            t == s@.subrange(start as int, end as int),
            forall|j: int| 0 <= j < i ==> ascii_lower(#[trigger] t[j]) == word@[j],
        decreases word.len() - i,
    {
        let c = lower_char(s.get_char(start + i));
        assert(t[i as int] == s@[start + i]);
        if c != word[i] {
            return false;
        }
        i = i + 1;
    }
    true
}

/// Whether `s`, trimmed, spells `word` ignoring the case of ASCII letters.
pub fn trimmed_spells(s: &str, word: &[char]) -> (r: bool)
    ensures
        r == spells(trimmed(s@), word@),
{
    let (start, end) = trim_bounds(s);
    spells_at(s, start, end, word)
}

/// A configuration flag: `1`, `true` or `yes`, trimmed and in any case.
pub open spec fn flag_set(s: Seq<char>) -> bool {
    let t = trimmed(s);
    spells(t, seq!['1']) || spells(t, seq!['t', 'r', 'u', 'e']) || spells(t, seq!['y', 'e', 's'])
}

/// Read a configuration flag: `1`, `true` or `yes` (trimmed, in any case)
/// is set; anything else is not.
pub fn parse_flag(s: &str) -> (r: bool)
    ensures
        r == flag_set(s@),
{
    let one = ['1'];
    let t = ['t', 'r', 'u', 'e'];
    let y = ['y', 'e', 's'];
    assert(one@ =~= seq!['1']);
    assert(t@ =~= seq!['t', 'r', 'u', 'e']);
    assert(y@ =~= seq!['y', 'e', 's']);
    trimmed_spells(s, one.as_slice()) || trimmed_spells(s, t.as_slice()) || trimmed_spells(
        s,
        y.as_slice(),
    )
}

} // verus!

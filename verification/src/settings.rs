//! Reading adapter settings from text: decimal integers the way the
//! standard library's `FromStr` reads them, and the fallback each setting
//! takes when its value is unset or does not parse.

use vstd::prelude::*;

use crate::adsbagg::Provider;
use crate::ids::SensorId;
use crate::text::{flag_set, parse_flag, trim, trim_bounds, trimmed};

verus! {

/// Whether `c` is an ASCII decimal digit.
pub open spec fn is_digit(c: char) -> bool {
    '0' <= c && c <= '9'
}

/// The value of the decimal digit `c`.
pub open spec fn digit_value(c: char) -> int {
    (c as u32) - ('0' as u32)
}

/// Whether every character of `s` is a decimal digit.
pub open spec fn all_digits(s: Seq<char>) -> bool {
    forall|i: int| 0 <= i < s.len() ==> is_digit(#[trigger] s[i])
}

/// The number the decimal digits `s` spell.
pub open spec fn decimal_value(s: Seq<char>) -> int
    decreases s.len(),
{
    if s.len() == 0 {
        0
    } else {
        decimal_value(s.drop_last()) * 10 + digit_value(s.last())
    }
}

/// The digits of `s` read as a number: `None` unless there is at least one
/// and every character is a digit.
pub open spec fn digits_number(s: Seq<char>) -> Option<int> {
    if s.len() > 0 && all_digits(s) {
        Some(decimal_value(s))
    } else {
        None
    }
}

/// An unsigned decimal: an optional `+`, then one or more digits.
pub open spec fn unsigned_decimal(s: Seq<char>) -> Option<int> {
    if s.len() > 0 && s[0] == '+' {
        digits_number(s.drop_first())
    } else {
        digits_number(s)
    }
}

/// A signed decimal: an optional `+` or `-`, then one or more digits.
pub open spec fn signed_decimal(s: Seq<char>) -> Option<int> {
    if s.len() > 0 && s[0] == '-' {
        match digits_number(s.drop_first()) {
            Some(v) => Some(-v),
            None => None,
        }
    } else {
        unsigned_decimal(s)
    }
}

/// `v` when it is present and lies in `lo..=hi`.
pub open spec fn within(v: Option<int>, lo: int, hi: int) -> Option<int> {
    match v {
        Some(x) => if lo <= x <= hi {
            Some(x)
        } else {
            None
        },
        None => None,
    }
}

/// A longer run of digits never spells a smaller number than its prefix.
proof fn lemma_prefix_value(s: Seq<char>, k: int)
    requires
        all_digits(s),
        0 <= k <= s.len(),
    ensures
        decimal_value(s.take(k)) <= decimal_value(s),
        0 <= decimal_value(s.take(k)),
    decreases s.len(),
{
    if s.len() > 0 {
        let t = s.drop_last();
        assert(all_digits(t)) by {
            assert forall|i: int| 0 <= i < t.len() implies is_digit(#[trigger] t[i]) by {
                assert(t[i] == s[i]);
            }
        }
        assert(is_digit(s[s.len() - 1]));
        if k == s.len() {
            assert(s.take(k) =~= s);
            lemma_prefix_value(t, 0);
            assert(t.take(0) =~= Seq::<char>::empty());
        } else {
            lemma_prefix_value(t, k);
            assert(t.take(k) =~= s.take(k));
        }
    }
}

/// Digits never spell a negative number.
proof fn lemma_digits_number_nonneg(s: Seq<char>)
    ensures
        digits_number(s) matches Some(v) ==> v >= 0,
{
    if all_digits(s) {
        lemma_prefix_value(s, s.len() as int);
        assert(s.take(s.len() as int) =~= s);
    }
}

/// The digits `start..` of `s` as a number no greater than `max`.
fn digits_from(s: &str, start: usize, max: u64) -> (r: Option<u64>)
    requires
        start <= s@.len(),
    ensures
        r == (match within(digits_number(s@.skip(start as int)), 0, max as int) {
            Some(v) => Some(v as u64),
            None => None::<u64>,
        }),
{
    let ghost d = s@.skip(start as int);
    let n = s.unicode_len();
    if start == n {
        return None;
    }
    let mut acc: u64 = 0;
    let mut i: usize = start;
    while i < n
        invariant
            start <= i <= n,
            n == s@.len(),
            d == s@.skip(start as int),
            all_digits(d.take(i - start)),
            acc == decimal_value(d.take(i - start)),
            acc <= max,
        decreases n - i,
    {
        let c = s.get_char(i);
        let ghost k = i - start;
        assert(d[k] == c);
        if c < '0' || c > '9' {
            assert(!all_digits(d));
            return None;
        }
        let digit = (c as u32 - '0' as u32) as u64;
        assert(d.take(k + 1).drop_last() =~= d.take(k));
        assert(d.take(k + 1).last() == c);
        assert(all_digits(d.take(k + 1))) by {
            assert forall|j: int| 0 <= j < k + 1 implies is_digit(#[trigger] d.take(k + 1)[j]) by {
                if j < k {
                    assert(d.take(k + 1)[j] == d.take(k)[j]);
                }
            }
        }
        let next = match acc.checked_mul(10) {
            Some(t) => t.checked_add(digit),
            None => None,
        };
        match next {
            Some(v) if v <= max => {
                acc = v;
            },
            _ => {
                proof {
                    if all_digits(d) {
                        lemma_prefix_value(d, k + 1);
                    }
                }
                return None;
            },
        }
        i = i + 1;
    }
    assert(d.take(n - start) =~= d);
    Some(acc)
}

/// `s` read as an unsigned decimal, when its value is at most `max`.
pub fn parse_unsigned(s: &str, max: u64) -> (r: Option<u64>)
    ensures
        r == (match within(unsigned_decimal(s@), 0, max as int) {
            Some(v) => Some(v as u64),
            None => None::<u64>,
        }),
{
    let n = s.unicode_len();
    if n > 0 && s.get_char(0) == '+' {
        assert(s@.drop_first() =~= s@.skip(1));
        digits_from(s, 1, max)
    } else {
        assert(s@ =~= s@.skip(0));
        digits_from(s, 0, max)
    }
}

/// `s` read as a signed decimal, when its value fits an `i32`.
pub fn parse_i32(s: &str) -> (r: Option<i32>)
    ensures
        r == (match within(signed_decimal(s@), i32::MIN as int, i32::MAX as int) {
            Some(v) => Some(v as i32),
            None => None::<i32>,
        }),
{
    let n = s.unicode_len();
    if n > 0 && s.get_char(0) == '-' {
        assert(s@.drop_first() =~= s@.skip(1));
        proof {
            lemma_digits_number_nonneg(s@.drop_first());
        }
        match digits_from(s, 1, 0x8000_0000) {
            Some(m) => {
                let v: i64 = 0i64 - (m as i64);
                Some(v as i32)
            },
            None => None,
        }
    } else {
        proof {
            lemma_digits_number_nonneg(s@);
            if n > 0 {
                lemma_digits_number_nonneg(s@.drop_first());
            }
        }
        match parse_unsigned(s, 0x7fff_ffff) {
            Some(v) => Some(v as i32),
            None => None,
        }
    }
}

/// A flag setting: an unset value keeps `default`; a set one is on exactly
/// when it reads `1`, `true` or `yes` (trimmed, in any case).
pub fn flag_setting(value: Option<&str>, default: bool) -> (r: bool)
    ensures
        r == (match value {
            Some(v) => flag_set(v@),
            None => default,
        }),
{
    match value {
        Some(v) => parse_flag(v),
        None => default,
    }
}

/// An octet setting, read after trimming; unset or unparseable keeps
/// `default`.
pub fn byte_setting(value: Option<&str>, default: u8) -> (r: u8)
    ensures
        r == (match value {
            Some(v) => match within(unsigned_decimal(trimmed(v@)), 0, 255) {
                Some(x) => x as u8,
                None => default,
            },
            None => default,
        }),
{
    match value {
        Some(v) => match parse_unsigned(trim(v), 255) {
            Some(x) => x as u8,
            None => default,
        },
        None => default,
    }
}

/// A port setting, read as written; unset, unparseable or zero keeps
/// `default`.
pub fn port_setting(value: Option<&str>, default: u16) -> (r: u16)
    ensures
        r == (match value {
            Some(v) => match within(unsigned_decimal(v@), 1, 0xffff) {
                Some(x) => x as u16,
                None => default,
            },
            None => default,
        }),
{
    match value {
        Some(v) => match parse_unsigned(v, 0xffff) {
            Some(x) if x > 0 => x as u16,
            _ => default,
        },
        None => default,
    }
}

/// A sensor id setting, read as written; unset or unparseable keeps
/// `default`.
pub fn sensor_id_setting(value: Option<&str>, default: SensorId) -> (r: SensorId)
    ensures
        r == (match value {
            Some(v) => match within(unsigned_decimal(v@), 0, 0xffff) {
                Some(x) => SensorId(x as u16),
                None => default,
            },
            None => default,
        }),
{
    match value {
        Some(v) => match parse_unsigned(v, 0xffff) {
            Some(x) => SensorId(x as u16),
            None => default,
        },
        None => default,
    }
}

/// A duration in whole seconds, read as written; unset, unparseable or
/// zero keeps `default`.
pub fn seconds_setting(value: Option<&str>, default: u64) -> (r: u64)
    ensures
        r == (match value {
            Some(v) => match within(unsigned_decimal(v@), 1, u64::MAX as int) {
                Some(x) => x as u64,
                None => default,
            },
            None => default,
        }),
{
    match value {
        Some(v) => match parse_unsigned(v, u64::MAX) {
            Some(x) if x > 0 => x,
            _ => default,
        },
        None => default,
    }
}

/// A passcode setting, read after trimming; unset or unparseable is absent.
pub fn passcode_setting(value: Option<&str>) -> (r: Option<i32>)
    ensures
        r == (match value {
            Some(v) => match within(signed_decimal(trimmed(v@)), i32::MIN as int, i32::MAX as int) {
                Some(x) => Some(x as i32),
                None => None::<i32>,
            },
            None => None::<i32>,
        }),
{
    match value {
        Some(v) => parse_i32(trim(v)),
        None => None,
    }
}

/// A text setting: present only when set to something non-empty.
pub fn text_setting(value: Option<String>) -> (r: Option<String>)
    ensures
        r == (match value {
            Some(v) => if v@.len() > 0 {
                Some(v)
            } else {
                None::<String>
            },
            None => None::<String>,
        }),
{
    match value {
        Some(v) => if v.as_str().unicode_len() > 0 {
            Some(v)
        } else {
            None
        },
        None => None,
    }
}

/// A text setting that must hold more than white space to be present.
pub fn non_blank_setting(value: Option<String>) -> (r: Option<String>)
    ensures
        r == (match value {
            Some(v) => if trimmed(v@).len() > 0 {
                Some(v)
            } else {
                None::<String>
            },
            None => None::<String>,
        }),
{
    match value {
        Some(v) => {
            let (start, end) = trim_bounds(v.as_str());
            if start < end {
                Some(v)
            } else {
                None
            }
        },
        None => None,
    }
}

/// The length of `s[..j]` once its trailing `/` characters are dropped.
pub open spec fn slash_trimmed_len(s: Seq<char>, j: int) -> int
    decreases j,
{
    if j <= 0 || j > s.len() {
        0
    } else if s[j - 1] == '/' {
        slash_trimmed_len(s, j - 1)
    } else {
        j
    }
}

/// The base URL a poller addresses: the override without its trailing `/`
/// characters, else the provider's public base.
pub fn effective_base_url(base_url: Option<&str>, provider: Provider) -> (r: String)
    ensures
        r@ == (match base_url {
            Some(b) => b@.take(slash_trimmed_len(b@, b@.len() as int)),
            None => provider.base_url_spec(),
        }),
{
    match base_url {
        Some(b) => {
            let n = b.unicode_len();
            let mut end: usize = n;
            while end > 0 && b.get_char(end - 1) == '/'
                invariant
                    end <= n,
                    n == b@.len(),
                    slash_trimmed_len(b@, n as int) == slash_trimmed_len(b@, end as int),
                decreases end,
            {
                end = end - 1;
            }
            b.substring_char(0, end).to_owned()
        },
        None => provider.base_url().to_owned(),
    }
}

/// The callsign a read-only APRS-IS login announces when none is
/// configured.
pub open spec fn read_only_callsign() -> Seq<char> {
    seq!['N', '0', 'C', 'A', 'L', 'L']
}

/// The login credentials: the configured callsign unless it is absent or
/// empty, else the read-only placeholder; the configured passcode, else
/// `-1` (read-only).
pub fn login_credentials<'a>(callsign: Option<&'a str>, passcode: Option<i32>) -> (r: (&'a str, i32))
    ensures
        r.0@ == (match callsign {
            Some(c) => if c@.len() > 0 {
                c@
            } else {
                read_only_callsign()
            },
            None => read_only_callsign(),
        }),
        r.1 == (match passcode {
            Some(p) => p,
            None => -1i32,
        }),
{
    let pass = match passcode {
        Some(p) => p,
        None => -1,
    };
    let placeholder = "N0CALL";
    proof {
        reveal_strlit("N0CALL");
    }
    match callsign {
        Some(c) => if c.unicode_len() > 0 {
            (c, pass)
        } else {
            (placeholder, pass)
        },
        None => (placeholder, pass),
    }
}

} // verus!

//! Human-readable texts of decoding errors: fixed wording with the numbers
//! involved written in decimal.

use vstd::prelude::*;
use vstd::string::StringSliceAdditionalSpecFns;
use vstd::utf8::{
    encode_utf8, encode_utf8_decode_utf8, encode_utf8_valid_utf8, is_ascii_chars,
    is_ascii_chars_encode_utf8,
};

use crate::octets::append_bytes;
use crate::plot::utf8_str;
use crate::record::BlockError;

verus! {

/// The character of the decimal digit `d`.
pub open spec fn digit_char(d: int) -> char {
    if d <= 0 {
        '0'
    } else if d == 1 {
        '1'
    } else if d == 2 {
        '2'
    } else if d == 3 {
        '3'
    } else if d == 4 {
        '4'
    } else if d == 5 {
        '5'
    } else if d == 6 {
        '6'
    } else if d == 7 {
        '7'
    } else if d == 8 {
        '8'
    } else {
        '9'
    }
}

/// `n` written in decimal, most significant digit first, without leading
/// zeros (`0` is the single digit `0`).
pub open spec fn decimal_chars(n: nat) -> Seq<char>
    decreases n,
{
    if n < 10 {
        seq![digit_char(n as int)]
    } else {
        decimal_chars(n / 10).push(digit_char((n % 10) as int))
    }
}

/// The UTF-8 encoding of joined texts is the joined encodings.
proof fn lemma_encode_concat(a: Seq<char>, b: Seq<char>)
    ensures
        encode_utf8(a + b) == encode_utf8(a) + encode_utf8(b),
    decreases a.len(),
{
    if a.len() > 0 {
        assert((a + b).drop_first() =~= a.drop_first() + b);
        lemma_encode_concat(a.drop_first(), b);
        assert((a + b)[0] == a[0]);
    } else {
        assert(a + b =~= b);
    }
}

/// Append the decimal digits of `n` to `out`.
fn push_decimal(out: &mut Vec<u8>, n: u64)
    ensures
        final(out)@ == old(out)@ + encode_utf8(decimal_chars(n as nat)),
    decreases n,
{
    let digit: u8 = match n % 10 {
        0 => 0x30,
        1 => 0x31,
        2 => 0x32,
        3 => 0x33,
        4 => 0x34,
        5 => 0x35,
        6 => 0x36,
        7 => 0x37,
        8 => 0x38,
        _ => 0x39,
    };
    let ghost c = digit_char((n % 10) as int);
    assert(c as u32 == digit as u32);
    assert(encode_utf8(seq![c]) =~= seq![digit]) by {
        assert(is_ascii_chars(seq![c]));
        is_ascii_chars_encode_utf8(seq![c]);
        assert(c as u8 == digit);
    }
    if n < 10 {
        out.push(digit);
    } else {
        push_decimal(out, n / 10);
        out.push(digit);
        proof {
            lemma_encode_concat(decimal_chars((n / 10) as nat), seq![c]);
            assert(decimal_chars(n as nat) =~= decimal_chars((n / 10) as nat) + seq![c]);
        }
    }
}

/// The text the bytes encode, when they are the encoding of `chars`.
fn text_of(bytes: Vec<u8>, Ghost(chars): Ghost<Seq<char>>) -> (r: String)
    requires
        bytes@ == encode_utf8(chars),
    ensures
        r@ == chars,
{
    proof {
        encode_utf8_valid_utf8(chars);
        encode_utf8_decode_utf8(chars);
    }
    match utf8_str(bytes.as_slice()) {
        Some(s) => {
            proof {
                encode_utf8_decode_utf8(s@);
            }
            s.to_owned()
        },
        None => String::new(),
    }
}

/// The text `a`, then `n` in decimal, then `b`.
pub fn text_with_number(a: &str, n: u64, b: &str) -> (r: String)
    ensures
        r@ == a@ + decimal_chars(n as nat) + b@,
{
    let mut out: Vec<u8> = Vec::new();
    append_bytes(&mut out, a.as_bytes());
    push_decimal(&mut out, n);
    append_bytes(&mut out, b.as_bytes());
    proof {
        let d = decimal_chars(n as nat);
        lemma_encode_concat(a@, d);
        lemma_encode_concat(a@ + d, b@);
        assert(out@ =~= encode_utf8(a@ + d + b@));
    }
    text_of(out, Ghost(a@ + decimal_chars(n as nat) + b@))
}

/// The text `a`, `n` in decimal, `b`, `m` in decimal, then `c`.
pub fn text_with_numbers(a: &str, n: u64, b: &str, m: u64, c: &str) -> (r: String)
    ensures
        r@ == a@ + decimal_chars(n as nat) + b@ + decimal_chars(m as nat) + c@,
{
    let mut out: Vec<u8> = Vec::new();
    append_bytes(&mut out, a.as_bytes());
    push_decimal(&mut out, n);
    append_bytes(&mut out, b.as_bytes());
    push_decimal(&mut out, m);
    append_bytes(&mut out, c.as_bytes());
    proof {
        let d = decimal_chars(n as nat);
        let e = decimal_chars(m as nat);
        lemma_encode_concat(a@, d);
        lemma_encode_concat(a@ + d, b@);
        lemma_encode_concat(a@ + d + b@, e);
        lemma_encode_concat(a@ + d + b@ + e, c@);
        assert(out@ =~= encode_utf8(a@ + d + b@ + e + c@));
    }
    text_of(out, Ghost(a@ + decimal_chars(n as nat) + b@ + decimal_chars(m as nat) + c@))
}

/// How a format words an item its FSPEC marks present that it cannot read.
#[derive(Debug, Clone, Copy, PartialEq, Eq, Structural)]
pub enum UnknownItemWording {
    /// "FSPEC marks unknown FRN n present".
    Unknown,
    /// "FSPEC marks unknown/unskippable FRN n present": the format skips
    /// the items it knows the length of.
    Unskippable,
    /// "FSPEC marks unknown FRN n present (edition mismatch?)".
    EditionHint,
}

/// The text of a block error of category `category`.
pub open spec fn block_error_text(category: u8, e: BlockError, wording: UnknownItemWording) -> Seq<
    char,
> {
    match e {
        BlockError::Truncated => "input ended before a complete item"@,
        BlockError::WrongCategory(got) => "expected CAT "@ + decimal_chars(category as nat)
            + ", got CAT "@ + decimal_chars(got as nat) + ""@,
        BlockError::LengthMismatch { declared, actual } => "LEN field says "@ + decimal_chars(
            declared as nat,
        ) + " bytes, but input is "@ + decimal_chars(actual as nat) + " bytes"@,
        BlockError::UnknownItem(frn) => match wording {
            UnknownItemWording::Unknown => "FSPEC marks unknown FRN "@ + decimal_chars(frn as nat)
                + " present"@,
            UnknownItemWording::Unskippable => "FSPEC marks unknown/unskippable FRN "@
                + decimal_chars(frn as nat) + " present"@,
            UnknownItemWording::EditionHint => "FSPEC marks unknown FRN "@ + decimal_chars(
                frn as nat,
            ) + " present (edition mismatch?)"@,
        },
        BlockError::MissingItem(frn) => "record is missing required FRN "@ + decimal_chars(
            frn as nat,
        ) + ""@,
        BlockError::FspecTooLong => "FSPEC FX chain exceeds the supported FRN space"@,
    }
}

/// The text of a block error of category `category`, in the given wording
/// for an unreadable item.
pub fn block_error_message(category: u8, e: BlockError, wording: UnknownItemWording) -> (r: String)
    ensures
        r@ == block_error_text(category, e, wording),
{
    match e {
        BlockError::Truncated => "input ended before a complete item".to_owned(),
        BlockError::WrongCategory(got) => text_with_numbers(
            "expected CAT ",
            category as u64,
            ", got CAT ",
            got as u64,
            "",
        ),
        BlockError::LengthMismatch { declared, actual } => text_with_numbers(
            "LEN field says ",
            declared as u64,
            " bytes, but input is ",
            actual as u64,
            " bytes",
        ),
        BlockError::UnknownItem(frn) => match wording {
            UnknownItemWording::Unknown => text_with_number(
                "FSPEC marks unknown FRN ",
                frn as u64,
                " present",
            ),
            UnknownItemWording::Unskippable => text_with_number(
                "FSPEC marks unknown/unskippable FRN ",
                frn as u64,
                " present",
            ),
            UnknownItemWording::EditionHint => text_with_number(
                "FSPEC marks unknown FRN ",
                frn as u64,
                " present (edition mismatch?)",
            ),
        },
        BlockError::MissingItem(frn) => text_with_number(
            "record is missing required FRN ",
            frn as u64,
            "",
        ),
        BlockError::FspecTooLong => "FSPEC FX chain exceeds the supported FRN space".to_owned(),
    }
}

} // verus!

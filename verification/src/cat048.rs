//! CAT048 input decode — Monoradar Target Reports.
//!
//! A CAT048 data block carries one record per detection: a polar plot
//! (RHO/THETA relative to the radar) plus optional Mode-3/A, Mode-C flight
//! level and Mode S identity. The plot-relevant items (I048/010, /140, /020,
//! /040, /070, /090, /220, /240, /250, /161) are decoded; every other standard
//! item is skipped length-correctly through the per-FRN format model
//! ([`item_format`]). A present FRN outside the UAP is a hard error, a
//! truncated or corrupt record is an error, and nothing panics on input.
//!
//! Values stay in their wire LSB counts: time in 1/128 s, RHO in 1/256 NM,
//! THETA in 360/2¹⁶ degrees, flight level in quarter flight levels (25 ft).

use vstd::prelude::*;

use crate::bds::{decode_register, field_value, merged, no_daps, register_daps, RawDaps};
use crate::fspec::{chain_len_from, fspec_extent_at, frn_present, has_fx, MAX_FSPEC_OCTETS};
use crate::octets::{as_signed, be16, be16_at, be24, be24_at};
use crate::plot::Callsign;
use crate::wire::{
    explicit_len, extended_len, fixed_len, repetitive_len, take_explicit, take_extended,
    take_fixed, take_repetitive, walk, WalkError,
};

use crate::describe::{block_error_message, block_error_text, UnknownItemWording};
use crate::record::BlockError;

verus! {

/// The ASTERIX category number for monoradar target reports.
pub const CATEGORY: u8 = 48;

/// I048/010 — Data Source Identifier (SAC/SIC).
pub const FRN_DATA_SOURCE: u8 = 1;
/// I048/140 — Time of Day.
pub const FRN_TIME_OF_DAY: u8 = 2;
/// I048/020 — Target Report Descriptor.
pub const FRN_TARGET_REPORT_DESCRIPTOR: u8 = 3;
/// I048/040 — Measured Position in Polar Coordinates.
pub const FRN_MEASURED_POSITION_POLAR: u8 = 4;
/// I048/070 — Mode-3/A Code in Octal.
pub const FRN_MODE_3A_CODE: u8 = 5;
/// I048/090 — Flight Level in Binary.
pub const FRN_FLIGHT_LEVEL: u8 = 6;
/// I048/130 — Radar Plot Characteristics (compound).
pub const FRN_RADAR_PLOT_CHARACTERISTICS: u8 = 7;
/// I048/220 — Aircraft Address.
pub const FRN_AIRCRAFT_ADDRESS: u8 = 8;
/// I048/240 — Aircraft Identification.
pub const FRN_AIRCRAFT_IDENTIFICATION: u8 = 9;
/// I048/250 — Mode S MB Data (repetitive).
pub const FRN_MODE_S_MB_DATA: u8 = 10;
/// I048/161 — Track Number.
pub const FRN_TRACK_NUMBER: u8 = 11;
/// I048/120 — Radial Doppler Speed (compound).
pub const FRN_RADIAL_DOPPLER_SPEED: u8 = 20;
/// I048/SP — Special Purpose Field.
pub const FRN_SPECIAL_PURPOSE: u8 = 27;
/// I048/RE — Reserved Expansion Field.
pub const FRN_RESERVED_EXPANSION: u8 = 28;

/// I048/070 carries the Mode 3/A reply in its low 12 bits.
pub const MODE_3A_CODE_MASK: u16 = 0x0FFF;
/// I048/161 carries the track number in its low 12 bits.
pub const TRACK_NUMBER_MASK: u16 = 0x0FFF;
/// I048/090 level field: the low 14 bits (bits 16/15 are V/G).
pub const FLIGHT_LEVEL_MASK: u16 = 0x3FFF;
/// I048/020 octet 1, bit 3: SPI — Special Position Identification.
pub const TRD_SPI: u8 = 0x04;

/// How a CAT048 data item is laid out on the wire.
#[derive(Debug, Clone, Copy, PartialEq, Eq, Structural)]
pub enum ItemFormat {
    /// A fixed number of octets.
    Fixed(usize),
    /// An FX-chained sequence of octets.
    Extended,
    /// A one-octet repetition factor `REP`, then `REP × n` octets.
    Repetitive(usize),
    /// I048/130: an FX-chained primary subfield, then one octet per set
    /// presence bit.
    Compound130,
    /// I048/120: a one-octet primary subfield — CAL (2 octets) if bit 8 is
    /// set, then RDS (a `REP`-octet repetition of 6-octet groups) if bit 7 is
    /// set.
    Compound120,
    /// A one-octet length indicator giving the item's total length.
    Explicit,
}

/// The wire layout of each CAT048 UAP item (FRN 1 to 28).
pub open spec fn format_of(frn: u8) -> Option<ItemFormat> {
    if frn == 1 || frn == 5 || frn == 6 || frn == 11 || frn == 17 || frn == 19 || frn == 21 || frn
        == 24 || frn == 26 {
        Some(ItemFormat::Fixed(2))
    } else if frn == 2 || frn == 8 {
        Some(ItemFormat::Fixed(3))
    } else if frn == 4 || frn == 12 || frn == 13 || frn == 15 || frn == 18 {
        Some(ItemFormat::Fixed(4))
    } else if frn == 9 {
        Some(ItemFormat::Fixed(6))
    } else if frn == 22 {
        Some(ItemFormat::Fixed(7))
    } else if frn == 23 || frn == 25 {
        Some(ItemFormat::Fixed(1))
    } else if frn == 3 || frn == 14 || frn == 16 {
        Some(ItemFormat::Extended)
    } else if frn == 7 {
        Some(ItemFormat::Compound130)
    } else if frn == 10 {
        Some(ItemFormat::Repetitive(8))
    } else if frn == 20 {
        Some(ItemFormat::Compound120)
    } else if frn == 27 || frn == 28 {
        Some(ItemFormat::Explicit)
    } else {
        None
    }
}

/// The wire layout of each CAT048 UAP item; `None` for an FRN outside the
/// UAP, which cannot be skipped safely.
pub fn item_format(frn: u8) -> (r: Option<ItemFormat>)
    ensures
        r == format_of(frn),
{
    if frn == 1 || frn == 5 || frn == 6 || frn == 11 || frn == 17 || frn == 19 || frn == 21 || frn
        == 24 || frn == 26 {
        Some(ItemFormat::Fixed(2))
    } else if frn == 2 || frn == 8 {
        Some(ItemFormat::Fixed(3))
    } else if frn == 4 || frn == 12 || frn == 13 || frn == 15 || frn == 18 {
        Some(ItemFormat::Fixed(4))
    } else if frn == 9 {
        Some(ItemFormat::Fixed(6))
    } else if frn == 22 {
        Some(ItemFormat::Fixed(7))
    } else if frn == 23 || frn == 25 {
        Some(ItemFormat::Fixed(1))
    } else if frn == 3 || frn == 14 || frn == 16 {
        Some(ItemFormat::Extended)
    } else if frn == 7 {
        Some(ItemFormat::Compound130)
    } else if frn == 10 {
        Some(ItemFormat::Repetitive(8))
    } else if frn == 20 {
        Some(ItemFormat::Compound120)
    } else if frn == 27 || frn == 28 {
        Some(ItemFormat::Explicit)
    } else {
        None
    }
}

/// Exactly the FRNs of the UAP, 1 to 28, have a format.
pub proof fn lemma_uap_formats(frn: u8)
    ensures
        format_of(frn) is Some <==> 1 <= frn <= 28,
{
}

/// The kind of detection a CAT048 record reports, from I048/020's TYP field.
#[derive(Debug, Clone, Copy, PartialEq, Eq, Structural)]
pub enum Detection {
    /// TYP=000 — no detection.
    NoDetection,
    /// TYP=001 — single PSR.
    Psr,
    /// TYP=010 — single SSR.
    Ssr,
    /// TYP=011 — combined SSR + PSR.
    SsrPsr,
    /// TYP=100 — Mode S All-Call.
    ModeSAllCall,
    /// TYP=101 — Mode S Roll-Call.
    ModeSRollCall,
    /// TYP=110 — Mode S All-Call + PSR.
    ModeSAllCallPsr,
    /// TYP=111 — Mode S Roll-Call + PSR.
    ModeSRollCallPsr,
}

/// The detection a 3-bit TYP value names (only its low three bits count).
pub open spec fn detection_of(typ: u8) -> Detection {
    let t = typ % 8;
    if t == 0 {
        Detection::NoDetection
    } else if t == 1 {
        Detection::Psr
    } else if t == 2 {
        Detection::Ssr
    } else if t == 3 {
        Detection::SsrPsr
    } else if t == 4 {
        Detection::ModeSAllCall
    } else if t == 5 {
        Detection::ModeSRollCall
    } else if t == 6 {
        Detection::ModeSAllCallPsr
    } else {
        Detection::ModeSRollCallPsr
    }
}

/// Whether a detection's dwell included a primary (PSR) detection: TYP's
/// low bit.
pub open spec fn primary_in(d: Detection) -> bool {
    d == Detection::Psr || d == Detection::SsrPsr || d == Detection::ModeSAllCallPsr || d
        == Detection::ModeSRollCallPsr
}

/// Whether a detection's dwell included a Mode S reply: TYP's high bit.
pub open spec fn mode_s_in(d: Detection) -> bool {
    d == Detection::ModeSAllCall || d == Detection::ModeSRollCall || d
        == Detection::ModeSAllCallPsr || d == Detection::ModeSRollCallPsr
}

impl Detection {
    /// Decode the 3-bit TYP field (the top three bits of I048/020 octet 1).
    pub fn from_typ(typ: u8) -> (r: Self)
        ensures
            r == detection_of(typ),
    {
        let t = typ % 8;
        if t == 0 {
            Detection::NoDetection
        } else if t == 1 {
            Detection::Psr
        } else if t == 2 {
            Detection::Ssr
        } else if t == 3 {
            Detection::SsrPsr
        } else if t == 4 {
            Detection::ModeSAllCall
        } else if t == 5 {
            Detection::ModeSRollCall
        } else if t == 6 {
            Detection::ModeSAllCallPsr
        } else {
            Detection::ModeSRollCallPsr
        }
    }

    /// Whether the dwell included a primary (PSR) detection.
    pub fn has_primary(self) -> (r: bool)
        ensures
            r == primary_in(self),
    {
        match self {
            Detection::Psr | Detection::SsrPsr | Detection::ModeSAllCallPsr
            | Detection::ModeSRollCallPsr => true,
            _ => false,
        }
    }

    /// Whether the dwell included a secondary (SSR / Mode S) reply.
    pub fn has_secondary(self) -> (r: bool)
        ensures
            r == !(self == Detection::NoDetection || self == Detection::Psr),
    {
        match self {
            Detection::NoDetection | Detection::Psr => false,
            _ => true,
        }
    }

    /// Whether the reply was a Mode S selective interrogation.
    pub fn is_mode_s(self) -> (r: bool)
        ensures
            r == mode_s_in(self),
    {
        match self {
            Detection::ModeSAllCall | Detection::ModeSRollCall | Detection::ModeSAllCallPsr
            | Detection::ModeSRollCallPsr => true,
            _ => false,
        }
    }
}

/// Which TYP values carry which channel: a primary detection for 001, 011,
/// 110 and 111; a Mode S reply exactly when TYP's high bit is set; a
/// secondary reply for every TYP from 010 up, so every Mode S reply is a
/// secondary one.
pub proof fn lemma_typ_bits(typ: u8)
    requires
        typ < 8,
    ensures
        primary_in(detection_of(typ)) <==> (typ == 1 || typ == 3 || typ == 6 || typ == 7),
        mode_s_in(detection_of(typ)) <==> typ >= 4,
        !(detection_of(typ) == Detection::NoDetection || detection_of(typ) == Detection::Psr)
            <==> typ >= 2,
        mode_s_in(detection_of(typ)) ==> !(detection_of(typ) == Detection::NoDetection
            || detection_of(typ) == Detection::Psr),
{
    if typ == 0 {
        assert(detection_of(typ) == Detection::NoDetection);
    } else if typ == 1 {
        assert(detection_of(typ) == Detection::Psr);
    } else if typ == 2 {
        assert(detection_of(typ) == Detection::Ssr);
    } else if typ == 3 {
        assert(detection_of(typ) == Detection::SsrPsr);
    } else if typ == 4 {
        assert(detection_of(typ) == Detection::ModeSAllCall);
    } else if typ == 5 {
        assert(detection_of(typ) == Detection::ModeSRollCall);
    } else if typ == 6 {
        assert(detection_of(typ) == Detection::ModeSAllCallPsr);
    } else {
        assert(detection_of(typ) == Detection::ModeSRollCallPsr);
    }
}

/// I048/040 — measured position, in wire counts: RHO in 1/256 NM, THETA in
/// 360/2¹⁶ degrees clockwise from north.
#[derive(Debug, Clone, Copy, PartialEq, Eq, Structural)]
pub struct PolarPosition {
    /// Slant range, 1/256 NM.
    pub rho: u32,
    /// Azimuth, 360/2¹⁶ degrees.
    pub theta: u16,
}

/// One decoded CAT048 target report: the plot-relevant items of a record.
#[derive(Debug, Clone, Copy)]
pub struct DecodedTargetReport {
    /// I048/010 — System Area Code of the reporting radar.
    pub sac: u8,
    /// I048/010 — System Identification Code of the reporting radar.
    pub sic: u8,
    /// I048/140 — time of day, 1/128-second ticks since UTC midnight.
    pub time_ticks: Option<u32>,
    /// I048/020 — the detection kind (TYP); `NoDetection` when absent.
    pub detection: Detection,
    /// I048/040 — measured position.
    pub position: Option<PolarPosition>,
    /// I048/070 — Mode-3/A code (octal, low 12 bits).
    pub mode_3a: Option<u16>,
    /// I048/090 — Mode-C flight level in quarter flight levels (25 ft).
    pub flight_level: Option<i32>,
    /// I048/220 — 24-bit ICAO aircraft address.
    pub icao_address: Option<u32>,
    /// I048/240 — aircraft identification.
    pub callsign: Option<Callsign>,
    /// I048/161 — radar track number.
    pub track_number: Option<u16>,
    /// I048/020 SPI — present in this report; `false` when I048/020 is absent.
    pub spi: bool,
    /// I048/250 — the Mode S EHS parameters of the report, merged register
    /// by register in order.
    pub daps: RawDaps,
}

/// Errors that can occur while decoding a CAT048 data block.
#[derive(Debug, Clone, Copy, PartialEq, Eq, Structural)]
pub enum Cat048DecodeError {
    /// The input ended before a complete block/record/item could be read.
    Truncated,
    /// The first octet was not 48.
    WrongCategory(u8),
    /// The `LEN` field did not match the actual input length.
    LengthMismatch { declared: usize, actual: usize },
    /// The FSPEC marked an FRN present that this decoder cannot length.
    UnknownItem(u8),
    /// A record's FSPEC was missing an item this decoder requires (I048/010).
    MissingItem(u8),
    /// The FSPEC's FX chain ran past the supported FRN space.
    FspecTooLong,
}

impl Cat048DecodeError {
    /// The error in the terms every record format shares.
    pub open spec fn kind(self) -> BlockError {
        match self {
            Cat048DecodeError::Truncated => BlockError::Truncated,
            Cat048DecodeError::WrongCategory(c) => BlockError::WrongCategory(c),
            Cat048DecodeError::LengthMismatch { declared, actual } => BlockError::LengthMismatch {
                declared,
                actual,
            },
            Cat048DecodeError::UnknownItem(frn) => BlockError::UnknownItem(frn),
            Cat048DecodeError::MissingItem(frn) => BlockError::MissingItem(frn),
            Cat048DecodeError::FspecTooLong => BlockError::FspecTooLong,
        }
    }

    /// A human-readable description of the error.
    pub fn message(&self) -> (r: String)
        ensures
            r@ == block_error_text(48, self.kind(), UnknownItemWording::Unknown),
    {
        let kind = match *self {
            Cat048DecodeError::Truncated => BlockError::Truncated,
            Cat048DecodeError::WrongCategory(c) => BlockError::WrongCategory(c),
            Cat048DecodeError::LengthMismatch { declared, actual } => BlockError::LengthMismatch {
                declared,
                actual,
            },
            Cat048DecodeError::UnknownItem(frn) => BlockError::UnknownItem(frn),
            Cat048DecodeError::MissingItem(frn) => BlockError::MissingItem(frn),
            Cat048DecodeError::FspecTooLong => BlockError::FspecTooLong,
        };
        block_error_message(48, kind, UnknownItemWording::Unknown)
    }
}

// ---------------------------------------------------------------------------
// Item lengths.
// ---------------------------------------------------------------------------

/// How many of the seven presence bits (bits 8..2) of `b` are set.
pub open spec fn presence_count(b: u8) -> int {
    ((b >> 7u8) & 1u8) as int + ((b >> 6u8) & 1u8) as int + ((b >> 5u8) & 1u8) as int + ((b
        >> 4u8) & 1u8) as int + ((b >> 3u8) & 1u8) as int + ((b >> 2u8) & 1u8) as int + ((b
        >> 1u8) & 1u8) as int
}

/// The subfields announced by the first `i` primary octets at `pos`.
pub open spec fn subfield_count(data: Seq<u8>, pos: int, i: int) -> int
    decreases i,
{
    if i <= 0 {
        0
    } else {
        subfield_count(data, pos, i - 1) + presence_count(data[pos + i - 1])
    }
}

/// I048/130 at `pos`: the FX-chained primary subfield, then one octet per
/// set presence bit.
pub open spec fn compound130_len(data: Seq<u8>, pos: int) -> Result<int, WalkError> {
    match extended_len(data, pos) {
        Err(e) => Err(e),
        Ok(c) => if pos + c + subfield_count(data, pos, c) <= data.len() {
            Ok(c + subfield_count(data, pos, c))
        } else {
            Err(WalkError::Truncated)
        },
    }
}

/// I048/120 at `pos`: the primary octet, CAL when bit 8 is set, RDS when
/// bit 7 is set.
pub open spec fn compound120_len(data: Seq<u8>, pos: int) -> Result<int, WalkError> {
    if pos < 0 || pos + 1 > data.len() {
        Err(WalkError::Truncated)
    } else {
        let primary = data[pos];
        let cal: int = if primary & 0x80u8 != 0u8 {
            2
        } else {
            0
        };
        if pos + 1 + cal > data.len() {
            Err(WalkError::Truncated)
        } else if primary & 0x40u8 == 0u8 {
            Ok(1 + cal)
        } else {
            match repetitive_len(data, pos + 1 + cal, 6) {
                Err(e) => Err(e),
                Ok(rds) => Ok(1 + cal + rds),
            }
        }
    }
}

/// How many octets an item of format `f` at `pos` occupies.
pub open spec fn format_len(data: Seq<u8>, pos: int, f: ItemFormat) -> Result<int, WalkError> {
    match f {
        ItemFormat::Fixed(n) => fixed_len(data, pos, n as int),
        ItemFormat::Extended => extended_len(data, pos),
        ItemFormat::Repetitive(per) => repetitive_len(data, pos, per as int),
        ItemFormat::Compound130 => compound130_len(data, pos),
        ItemFormat::Compound120 => compound120_len(data, pos),
        ItemFormat::Explicit => explicit_len(data, pos),
    }
}

/// How many octets the item `frn` at `pos` occupies.
pub open spec fn item_len(data: Seq<u8>, frn: u8, pos: int) -> Result<int, WalkError> {
    match format_of(frn) {
        None => Err(WalkError::UnknownItem(frn)),
        Some(f) => format_len(data, pos, f),
    }
}

/// The item-length model of one block's octets.
pub open spec fn item_lens(data: Seq<u8>) -> spec_fn(u8, int) -> Result<int, WalkError> {
    |frn: u8, pos: int| item_len(data, frn, pos)
}

fn presence_bits(b: u8) -> (r: usize)
    ensures
        r == presence_count(b),
        r <= 7,
{
    assert((b >> 7u8) & 1u8 <= 1u8) by (bit_vector);
    assert((b >> 6u8) & 1u8 <= 1u8) by (bit_vector);
    assert((b >> 5u8) & 1u8 <= 1u8) by (bit_vector);
    assert((b >> 4u8) & 1u8 <= 1u8) by (bit_vector);
    assert((b >> 3u8) & 1u8 <= 1u8) by (bit_vector);
    assert((b >> 2u8) & 1u8 <= 1u8) by (bit_vector);
    assert((b >> 1u8) & 1u8 <= 1u8) by (bit_vector);
    ((b >> 7u8) & 1u8) as usize + ((b >> 6u8) & 1u8) as usize + ((b >> 5u8) & 1u8) as usize + ((b
        >> 4u8) & 1u8) as usize + ((b >> 3u8) & 1u8) as usize + ((b >> 2u8) & 1u8) as usize + ((b
        >> 1u8) & 1u8) as usize
}

pub(crate) fn take_compound_130(data: &[u8], pos: usize) -> (r: Result<usize, WalkError>)
    requires
        pos <= data.len(),
    ensures
        crate::wire::as_int_len(r) == compound130_len(data@, pos as int),
{
    let c = match take_extended(data, pos) {
        Ok(c) => c,
        Err(e) => return Err(e),
    };
    let mut count: usize = 0;
    let mut i: usize = 0;
    while i < c
        invariant
            i <= c,
            pos + c <= data.len(),
            count == subfield_count(data@, pos as int, i as int),
            count <= data.len(),
            extended_len(data@, pos as int) == Ok::<int, WalkError>(c as int),
        decreases c - i,
    {
        let add = presence_bits(data[pos + i]);
        if add > data.len() - count {
            proof {
                lemma_subfield_count_monotone(data@, pos as int, i + 1, c as int);
            }
            return Err(WalkError::Truncated);
        }
        count = count + add;
        i = i + 1;
    }
    if count > data.len() - pos - c {
        return Err(WalkError::Truncated);
    }
    Ok(c + count)
}

fn take_compound_120(data: &[u8], pos: usize) -> (r: Result<usize, WalkError>)
    requires
        pos <= data.len(),
    ensures
        crate::wire::as_int_len(r) == compound120_len(data@, pos as int),
{
    if pos >= data.len() {
        return Err(WalkError::Truncated);
    }
    let primary = data[pos];
    let cal: usize = if primary & 0x80u8 != 0u8 {
        2
    } else {
        0
    };
    if 1 + cal > data.len() - pos {
        return Err(WalkError::Truncated);
    }
    if primary & 0x40u8 == 0u8 {
        return Ok(1 + cal);
    }
    match take_repetitive(data, pos + 1 + cal, 6) {
        Ok(rds) => Ok(1 + cal + rds),
        Err(e) => Err(e),
    }
}

fn take_item(data: &[u8], pos: usize, frn: u8) -> (r: Result<usize, WalkError>)
    requires
        pos <= data.len(),
    ensures
        crate::wire::as_int_len(r) == item_len(data@, frn, pos as int),
        r matches Ok(l) ==> pos + l <= data.len(),
{
    let r = match item_format(frn) {
        None => Err(WalkError::UnknownItem(frn)),
        Some(ItemFormat::Fixed(n)) => take_fixed(data, pos, n),
        Some(ItemFormat::Extended) => take_extended(data, pos),
        Some(ItemFormat::Repetitive(per)) => take_repetitive(data, pos, per),
        Some(ItemFormat::Compound130) => take_compound_130(data, pos),
        Some(ItemFormat::Compound120) => take_compound_120(data, pos),
        Some(ItemFormat::Explicit) => take_explicit(data, pos),
    };
    proof {
        lemma_item_len_fits(data@, frn, pos as int);
    }
    r
}

proof fn lemma_item_len_fits(data: Seq<u8>, frn: u8, pos: int)
    requires
        0 <= pos <= data.len(),
    ensures
        item_len(data, frn, pos) matches Ok(l) ==> 0 <= l && pos + l <= data.len(),
{
    if let Some(f) = format_of(frn) {
        match f {
            ItemFormat::Compound130 => {
                if let Ok(c) = extended_len(data, pos) {
                    lemma_subfield_count_nonneg(data, pos, c);
                }
            },
            _ => {},
        }
    }
}

proof fn lemma_subfield_count_monotone(data: Seq<u8>, pos: int, i: int, j: int)
    requires
        0 <= i <= j,
    ensures
        subfield_count(data, pos, i) <= subfield_count(data, pos, j),
    decreases j - i,
{
    if i < j {
        lemma_subfield_count_monotone(data, pos, i, j - 1);
        let b = data[pos + j - 1];
        assert((b >> 7u8) & 1u8 <= 1u8) by (bit_vector);
    }
}

pub proof fn lemma_subfield_count_nonneg(data: Seq<u8>, pos: int, i: int)
    ensures
        subfield_count(data, pos, i) >= 0,
    decreases i,
{
    if i > 0 {
        lemma_subfield_count_nonneg(data, pos, i - 1);
        let b = data[pos + i - 1];
        assert((b >> 7u8) & 1u8 <= 1u8) by (bit_vector);
    }
}

// ---------------------------------------------------------------------------
// Item contents.
// ---------------------------------------------------------------------------

/// Decode one 6-bit ASTERIX IA-5 code to ASCII; undefined codes map to
/// space.
pub open spec fn ia5_char(code: int) -> u8 {
    if 1 <= code <= 26 {
        (0x41 + (code - 1)) as u8
    } else if 48 <= code <= 57 {
        (0x30 + (code - 48)) as u8
    } else {
        0x20u8
    }
}

/// The eight characters packed as 6-bit IA-5 codes into the six octets `b`.
pub open spec fn aircraft_id_chars(b: Seq<u8>) -> Seq<u8> {
    Seq::new(8, |i: int| ia5_char(field_value(b, 6 * i + 1, 6)))
}

/// The callsign whose characters are `chars`.
pub open spec fn callsign_of(chars: Seq<u8>) -> Callsign {
    choose|c: Callsign| c.0@ == chars
}

/// I048/090: the 14-bit two's-complement level field of two octets, in
/// quarter flight levels.
pub open spec fn flight_level_of(hi: u8, lo: u8) -> int {
    let raw = be16(hi, lo) % 16384;
    if raw >= 8192 {
        raw - 16384
    } else {
        raw
    }
}

/// The parameters of the I048/250 entries `j` onwards of the item octets
/// `b` (`[REP]` then 8-octet entries: a 7-octet MB field and its BDS
/// register number), merged in order into `acc`.
pub open spec fn mb_fold(b: Seq<u8>, j: int, acc: RawDaps) -> RawDaps
    decreases (b.len() - 1) / 8 - j,
{
    if j < 0 || j >= (b.len() - 1) / 8 {
        acc
    } else {
        mb_fold(
            b,
            j + 1,
            merged(acc, register_daps(b[1 + 8 * j + 7], b.subrange(1 + 8 * j, 1 + 8 * j + 7))),
        )
    }
}

/// The items of one record decoded so far.
#[derive(Debug, Clone, Copy)]
pub struct ReportFields {
    /// I048/010.
    pub source: Option<(u8, u8)>,
    /// I048/140.
    pub time_ticks: Option<u32>,
    /// I048/020 TYP.
    pub detection: Option<Detection>,
    /// I048/040.
    pub position: Option<PolarPosition>,
    /// I048/070.
    pub mode_3a: Option<u16>,
    /// I048/090.
    pub flight_level: Option<i32>,
    /// I048/220.
    pub icao_address: Option<u32>,
    /// I048/240.
    pub callsign: Option<Callsign>,
    /// I048/161.
    pub track_number: Option<u16>,
    /// I048/020 SPI.
    pub spi: bool,
    /// I048/250.
    pub daps: RawDaps,
}

/// No item decoded yet.
pub open spec fn no_fields() -> ReportFields {
    ReportFields {
        source: None,
        time_ticks: None,
        detection: None,
        position: None,
        mode_3a: None,
        flight_level: None,
        icao_address: None,
        callsign: None,
        track_number: None,
        spi: false,
        daps: no_daps(),
    }
}

/// Fold the octets `b` of item `frn` into the fields decoded so far; items
/// that are not plot-relevant leave them unchanged.
#[verifier::opaque]
pub open spec fn apply_item(frn: u8, b: Seq<u8>, acc: ReportFields) -> ReportFields {
    if frn == FRN_DATA_SOURCE {
        ReportFields { source: Some((b[0], b[1])), ..acc }
    } else if frn == FRN_TIME_OF_DAY {
        ReportFields { time_ticks: Some(be24(b[0], b[1], b[2]) as u32), ..acc }
    } else if frn == FRN_TARGET_REPORT_DESCRIPTOR {
        ReportFields {
            detection: Some(detection_of(b[0] >> 5u8)),
            spi: b[0] & TRD_SPI != 0u8,
            ..acc
        }
    } else if frn == FRN_MEASURED_POSITION_POLAR {
        ReportFields {
            position: Some(
                PolarPosition { rho: be16(b[0], b[1]) as u32, theta: be16(b[2], b[3]) as u16 },
            ),
            ..acc
        }
    } else if frn == FRN_MODE_3A_CODE {
        ReportFields { mode_3a: Some((be16(b[0], b[1]) % 4096) as u16), ..acc }
    } else if frn == FRN_FLIGHT_LEVEL {
        ReportFields { flight_level: Some(flight_level_of(b[0], b[1]) as i32), ..acc }
    } else if frn == FRN_AIRCRAFT_ADDRESS {
        ReportFields { icao_address: Some(be24(b[0], b[1], b[2]) as u32), ..acc }
    } else if frn == FRN_AIRCRAFT_IDENTIFICATION {
        ReportFields { callsign: Some(callsign_of(aircraft_id_chars(b))), ..acc }
    } else if frn == FRN_TRACK_NUMBER {
        ReportFields { track_number: Some((be16(b[0], b[1]) % 4096) as u16), ..acc }
    } else if frn == FRN_MODE_S_MB_DATA {
        ReportFields { daps: mb_fold(b, 0, acc.daps), ..acc }
    } else {
        acc
    }
}

/// The item fold as a value.
pub open spec fn item_apply() -> spec_fn(u8, Seq<u8>, ReportFields) -> ReportFields {
    |frn: u8, b: Seq<u8>, acc: ReportFields| apply_item(frn, b, acc)
}

/// The report the decoded items describe; I048/010 is required, a missing
/// I048/020 means no detection.
pub open spec fn finish_fields(f: ReportFields) -> Result<DecodedTargetReport, Cat048DecodeError> {
    match f.source {
        None => Err(Cat048DecodeError::MissingItem(FRN_DATA_SOURCE)),
        Some((sac, sic)) => Ok(
            DecodedTargetReport {
                sac,
                sic,
                time_ticks: f.time_ticks,
                detection: match f.detection {
                    Some(d) => d,
                    None => Detection::NoDetection,
                },
                position: f.position,
                mode_3a: f.mode_3a,
                flight_level: f.flight_level,
                icao_address: f.icao_address,
                callsign: f.callsign,
                track_number: f.track_number,
                spi: f.spi,
                daps: f.daps,
            },
        ),
    }
}

/// The walk's error as a CAT048 error.
pub open spec fn walk_error(e: WalkError) -> Cat048DecodeError {
    match e {
        WalkError::Truncated => Cat048DecodeError::Truncated,
        WalkError::UnknownItem(f) => Cat048DecodeError::UnknownItem(f),
    }
}

/// Decoding the record that starts at `pos`: the FSPEC must end within the
/// input with its FX bit clear, then the present items follow in UAP order.
pub open spec fn decode_record_at(data: Seq<u8>, pos: int) -> Result<
    (DecodedTargetReport, int),
    Cat048DecodeError,
> {
    let n = chain_len_from(data, pos);
    if n > MAX_FSPEC_OCTETS {
        Err(Cat048DecodeError::FspecTooLong)
    } else if n == 0 || has_fx(data[pos + n - 1]) {
        Err(Cat048DecodeError::Truncated)
    } else {
        match walk(
            data,
            data.subrange(pos, pos + n),
            n,
            1,
            pos + n,
            no_fields(),
            item_lens(data),
            item_apply(),
        ) {
            Err(e) => Err(walk_error(e)),
            Ok((fields, end)) => match finish_fields(fields) {
                Err(e) => Err(e),
                Ok(r) => Ok((r, end)),
            },
        }
    }
}

/// Decoding every record from `pos` to the end of `data`.
pub open spec fn decode_records_from(data: Seq<u8>, pos: int) -> Result<
    Seq<DecodedTargetReport>,
    Cat048DecodeError,
>
    decreases data.len() - pos,
{
    if pos < 0 || pos >= data.len() {
        Ok(Seq::empty())
    } else {
        match decode_record_at(data, pos) {
            Err(e) => Err(e),
            Ok((r, end)) => if end <= pos || end > data.len() {
                Err(Cat048DecodeError::Truncated)
            } else {
                match decode_records_from(data, end) {
                    Err(e) => Err(e),
                    Ok(rest) => Ok(seq![r] + rest),
                }
            },
        }
    }
}

/// Decoding a whole CAT048 data block: `LEN` must equal the input length.
pub open spec fn decode_block(bytes: Seq<u8>) -> Result<Seq<DecodedTargetReport>, Cat048DecodeError> {
    if bytes.len() < 3 {
        Err(Cat048DecodeError::Truncated)
    } else if bytes[0] != CATEGORY {
        Err(Cat048DecodeError::WrongCategory(bytes[0]))
    } else if be16(bytes[1], bytes[2]) != bytes.len() {
        Err(
            Cat048DecodeError::LengthMismatch {
                declared: be16(bytes[1], bytes[2]) as usize,
                actual: bytes.len() as usize,
            },
        )
    } else {
        decode_records_from(bytes, 3)
    }
}


// ---------------------------------------------------------------------------
// Decoding.
// ---------------------------------------------------------------------------

/// Decode one 6-bit ASTERIX IA-5 code to ASCII; undefined codes map to
/// space (a garbled datagram must not panic).
pub fn ia5_decode(code: u8) -> (c: u8)
    ensures
        c == ia5_char(code as int),
{
    if 1 <= code && code <= 26 {
        0x41u8 + (code - 1)
    } else if 48 <= code && code <= 57 {
        0x30u8 + (code - 48)
    } else {
        0x20u8
    }
}

fn ia5_at(bytes: &[u8], i: usize) -> (c: u8)
    requires
        bytes.len() >= 6,
        i < 8,
    ensures
        c == ia5_char(field_value(bytes@, 6 * i + 1, 6)),
{
    let code = crate::bds::bit_field(bytes, 6 * i + 1, 6);
    proof {
        crate::bds::lemma_field_value_range(bytes@, 6 * i + 1, 6);
        reveal_with_fuel(crate::bds::p2, 7);
    }
    ia5_decode(code as u8)
}

/// I048/240 — six octets packing eight 6-bit IA-5 codes.
pub fn decode_aircraft_id(bytes: &[u8]) -> (r: Callsign)
    requires
        bytes.len() >= 6,
    ensures
        r.0@ == aircraft_id_chars(bytes@),
        r == callsign_of(aircraft_id_chars(bytes@)),
{
    let chars = [
        ia5_at(bytes, 0),
        ia5_at(bytes, 1),
        ia5_at(bytes, 2),
        ia5_at(bytes, 3),
        ia5_at(bytes, 4),
        ia5_at(bytes, 5),
        ia5_at(bytes, 6),
        ia5_at(bytes, 7),
    ];
    proof {
        assert(chars@ =~= aircraft_id_chars(bytes@));
        let c = Callsign(chars);
        assert(c.0@ == aircraft_id_chars(bytes@));
        assert(exists|x: Callsign| x.0@ == aircraft_id_chars(bytes@));
        let d = callsign_of(aircraft_id_chars(bytes@));
        broadcast use vstd::array::group_array_axioms;
        assert(d.0 == chars);
    }
    Callsign(chars)
}

/// I048/090 — the 14-bit two's-complement flight level of two octets, in
/// quarter flight levels (V/G bits masked off, sign extended).
pub fn decode_flight_level(bytes: &[u8]) -> (r: i32)
    requires
        bytes.len() >= 2,
    ensures
        r == flight_level_of(bytes@[0], bytes@[1]),
{
    let word = be16_at(bytes, 0);
    let raw = word & FLIGHT_LEVEL_MASK;
    assert(word & 0x3FFFu16 == word % 16384) by (bit_vector);
    if raw >= 8192 {
        raw as i32 - 16384
    } else {
        raw as i32
    }
}

fn decode_mb_data(data: &[u8], pos: usize, len: usize, acc: RawDaps) -> (r: RawDaps)
    requires
        pos + len <= data.len(),
        len >= 1,
    ensures
        r == mb_fold(data@.subrange(pos as int, pos + len), 0, acc),
{
    let ghost b = data@.subrange(pos as int, pos + len);
    let count = (len - 1) / 8;
    let mut daps = acc;
    let mut j: usize = 0;
    while j < count
        invariant
            pos + len <= data.len(),
            len >= 1,
            count == (len - 1) / 8,
            b == data@.subrange(pos as int, pos + len),
            j <= count,
            mb_fold(b, 0, acc) == mb_fold(b, j as int, daps),
        decreases count - j,
    {
        let s = pos + 1 + 8 * j;
        assert(8 * j + 8 <= len - 1) by (nonlinear_arith)
            requires
                j < count,
                count == (len - 1) / 8,
        ;
        let mb = [
            data[s],
            data[s + 1],
            data[s + 2],
            data[s + 3],
            data[s + 4],
            data[s + 5],
            data[s + 6],
        ];
        let ghost entry = b.subrange(1 + 8 * j, 1 + 8 * j + 7);
        assert(mb@ =~= entry);
        assert(b[1 + 8 * j + 7] == data@[s + 7]);
        let reg = decode_register(data[s + 7], &mb);
        daps.merge_from(&reg);
        j = j + 1;
    }
    daps
}

fn decode_item(data: &[u8], pos: usize, frn: u8, acc: ReportFields) -> (r: Result<
    (ReportFields, usize),
    WalkError,
>)
    requires
        pos <= data.len(),
    ensures
        match r {
            Ok((fields, end)) => {
                &&& item_len(data@, frn, pos as int) == Ok::<int, WalkError>(end - pos)
                &&& pos <= end <= data.len()
                &&& fields == apply_item(frn, data@.subrange(pos as int, end as int), acc)
            },
            Err(e) => item_len(data@, frn, pos as int) == Err::<int, WalkError>(e),
        },
{
    reveal(apply_item);
    let l = match take_item(data, pos, frn) {
        Ok(l) => l,
        Err(e) => return Err(e),
    };
    let end = pos + l;
    let ghost b = data@.subrange(pos as int, end as int);
    let mut fields = acc;
    if frn == FRN_DATA_SOURCE {
        fields.source = Some((data[pos], data[pos + 1]));
    } else if frn == FRN_TIME_OF_DAY {
        fields.time_ticks = Some(be24_at(data, pos));
    } else if frn == FRN_TARGET_REPORT_DESCRIPTOR {
        assert(l >= 1) by {
            crate::fspec::lemma_chain_len_bound(data@, pos as int);
        }
        fields.detection = Some(Detection::from_typ(data[pos] >> 5u8));
        fields.spi = data[pos] & TRD_SPI != 0u8;
    } else if frn == FRN_MEASURED_POSITION_POLAR {
        fields.position = Some(
            PolarPosition { rho: be16_at(data, pos) as u32, theta: be16_at(data, pos + 2) },
        );
    } else if frn == FRN_MODE_3A_CODE {
        let word = be16_at(data, pos);
        assert(word & 0x0FFFu16 == word % 4096) by (bit_vector);
        fields.mode_3a = Some(word & MODE_3A_CODE_MASK);
    } else if frn == FRN_FLIGHT_LEVEL {
        let level = decode_flight_level(vstd::slice::slice_subrange(data, pos, end));
        fields.flight_level = Some(level);
    } else if frn == FRN_AIRCRAFT_ADDRESS {
        fields.icao_address = Some(be24_at(data, pos));
    } else if frn == FRN_AIRCRAFT_IDENTIFICATION {
        let id = decode_aircraft_id(vstd::slice::slice_subrange(data, pos, end));
        fields.callsign = Some(id);
    } else if frn == FRN_TRACK_NUMBER {
        let word = be16_at(data, pos);
        assert(word & 0x0FFFu16 == word % 4096) by (bit_vector);
        fields.track_number = Some(word & TRACK_NUMBER_MASK);
    } else if frn == FRN_MODE_S_MB_DATA {
        fields.daps = decode_mb_data(data, pos, l, acc.daps);
    }
    Ok((fields, end))
}

fn finish(f: ReportFields) -> (r: Result<DecodedTargetReport, Cat048DecodeError>)
    ensures
        r == finish_fields(f),
{
    let (sac, sic) = match f.source {
        Some(s) => s,
        None => return Err(Cat048DecodeError::MissingItem(FRN_DATA_SOURCE)),
    };
    let detection = match f.detection {
        Some(d) => d,
        None => Detection::NoDetection,
    };
    Ok(
        DecodedTargetReport {
            sac,
            sic,
            time_ticks: f.time_ticks,
            detection,
            position: f.position,
            mode_3a: f.mode_3a,
            flight_level: f.flight_level,
            icao_address: f.icao_address,
            callsign: f.callsign,
            track_number: f.track_number,
            spi: f.spi,
            daps: f.daps,
        },
    )
}

fn walk_error_of(e: WalkError) -> (r: Cat048DecodeError)
    ensures
        r == walk_error(e),
{
    match e {
        WalkError::Truncated => Cat048DecodeError::Truncated,
        WalkError::UnknownItem(f) => Cat048DecodeError::UnknownItem(f),
    }
}

fn decode_record(data: &[u8], pos: usize) -> (r: Result<
    (DecodedTargetReport, usize),
    Cat048DecodeError,
>)
    requires
        pos < data.len(),
    ensures
        match r {
            Ok((rec, end)) => decode_record_at(data@, pos as int) == Ok::<
                (DecodedTargetReport, int),
                Cat048DecodeError,
            >((rec, end as int)) && pos < end <= data.len(),
            Err(e) => decode_record_at(data@, pos as int) == Err::<
                (DecodedTargetReport, int),
                Cat048DecodeError,
            >(e),
        },
{
    let n = match fspec_extent_at(data, pos) {
        Ok(n) => n,
        Err(_) => return Err(Cat048DecodeError::FspecTooLong),
    };
    if n == 0 || data[pos + n - 1] & 1u8 != 0u8 {
        return Err(Cat048DecodeError::Truncated);
    }
    let ghost fs = data@.subrange(pos as int, pos + n);
    let ghost lens = item_lens(data@);
    let ghost app = item_apply();
    let mut cur = pos + n;
    let mut acc = ReportFields {
        source: None,
        time_ticks: None,
        detection: None,
        position: None,
        mode_3a: None,
        flight_level: None,
        icao_address: None,
        callsign: None,
        track_number: None,
        spi: false,
        daps: RawDaps::empty(),
    };
    let mut k: usize = 1;
    while k <= 7 * n
        invariant
            1 <= n <= MAX_FSPEC_OCTETS,
            pos + n <= data.len(),
            n == chain_len_from(data@, pos as int),
            !has_fx(data@[pos + n - 1]),
            1 <= k <= 7 * n + 1,
            pos + n <= cur <= data.len(),
            fs == data@.subrange(pos as int, pos + n),
            lens == item_lens(data@),
            app == item_apply(),
            walk(data@, fs, n as int, 1, pos + n, no_fields(), lens, app) == walk(
                data@,
                fs,
                n as int,
                k as int,
                cur as int,
                acc,
                lens,
                app,
            ),
        decreases 7 * n + 1 - k,
    {
        let octet = data[pos + (k - 1) / 7];
        let position = ((k - 1) % 7) as u8;
        assert(fs[(k - 1) / 7] == octet);
        if octet & (0x80u8 >> position) != 0u8 {
            assert(frn_present(fs, n as int, k as int));
            match decode_item(data, cur, k as u8, acc) {
                Ok((fields, end)) => {
                    assert(lens(k as u8, cur as int) == Ok::<int, WalkError>(end - cur));
                    assert(app(k as u8, data@.subrange(cur as int, end as int), acc) == fields);
                    acc = fields;
                    cur = end;
                },
                Err(e) => {
                    assert(lens(k as u8, cur as int) == Err::<int, WalkError>(e));
                    assert(walk(data@, fs, n as int, k as int, cur as int, acc, lens, app) == Err::<
                        (ReportFields, int),
                        WalkError,
                    >(e));
                    return Err(walk_error_of(e));
                },
            }
        } else {
            assert(!frn_present(fs, n as int, k as int));
        }
        k = k + 1;
    }
    match finish(acc) {
        Ok(rec) => Ok((rec, cur)),
        Err(e) => Err(e),
    }
}

/// The reports still to decode, after the ones already decoded.
pub open spec fn after(
    done: Seq<DecodedTargetReport>,
    rest: Result<Seq<DecodedTargetReport>, Cat048DecodeError>,
) -> Result<Seq<DecodedTargetReport>, Cat048DecodeError> {
    match rest {
        Ok(rs) => Ok(done + rs),
        Err(e) => Err(e),
    }
}

/// Decode a CAT048 data block (`[CAT=48][LEN][record…]`) into one report
/// per record. Returns an error (and decodes nothing) on a wrong category,
/// a length mismatch, a truncation or an unknown present item; never panics
/// on input.
pub fn decode_target_reports(bytes: &[u8]) -> (r: Result<
    Vec<DecodedTargetReport>,
    Cat048DecodeError,
>)
    ensures
        match r {
            Ok(reports) => decode_block(bytes@) == Ok::<
                Seq<DecodedTargetReport>,
                Cat048DecodeError,
            >(reports@),
            Err(e) => decode_block(bytes@) == Err::<Seq<DecodedTargetReport>, Cat048DecodeError>(
                e,
            ),
        },
{
    if bytes.len() < 3 {
        return Err(Cat048DecodeError::Truncated);
    }
    if bytes[0] != CATEGORY {
        return Err(Cat048DecodeError::WrongCategory(bytes[0]));
    }
    let declared = be16_at(bytes, 1) as usize;
    if declared != bytes.len() {
        return Err(Cat048DecodeError::LengthMismatch { declared, actual: bytes.len() });
    }
    let mut reports: Vec<DecodedTargetReport> = Vec::new();
    let mut pos: usize = 3;
    while pos < bytes.len()
        invariant
            3 <= pos <= bytes.len(),
            declared == be16(bytes@[1], bytes@[2]),
            declared == bytes.len(),
            bytes@[0] == CATEGORY,
            decode_block(bytes@) == after(reports@, decode_records_from(bytes@, pos as int)),
        decreases bytes.len() - pos,
    {
        match decode_record(bytes, pos) {
            Ok((rec, end)) => {
                proof {
                    assert(reports@.push(rec) + decode_records_from(bytes@, end as int)->Ok_0
                        =~= reports@ + (seq![rec] + decode_records_from(bytes@, end as int)->Ok_0));
                }
                reports.push(rec);
                pos = end;
            },
            Err(e) => {
                return Err(e);
            },
        }
    }
    assert(reports@ + Seq::<DecodedTargetReport>::empty() =~= reports@);
    Ok(reports)
}

/// Whether every item of `items`, wherever it lies in `data`, reads as an
/// item of exactly its own octets under the UAP's item formats.
pub open spec fn items_delimit(data: Seq<u8>, items: Map<u8, Seq<u8>>) -> bool {
    forall|f: u8, p: int|
        items.contains_key(f) && crate::wire::holds_at(data, p, items[f]) ==> #[trigger] item_len(
            data,
            f,
            p,
        ) == Ok::<int, WalkError>(items[f].len() as int)
}

/// Folding the items from FRN `k` on leaves the identity and time fields
/// as `acc` had them, except that each item present among them sets its
/// own field from its own octets.
proof fn lemma_fold_keeps_fields(items: Map<u8, Seq<u8>>, k: int, acc: ReportFields)
    requires
        1 <= k,
    ensures
        ({
            let f = crate::wire::apply_from(items, k, acc, item_apply());
            &&& f.source == (if k <= 1 && items.contains_key(1) {
                Some((items[1u8][0], items[1u8][1]))
            } else {
                acc.source
            })
            &&& f.time_ticks == (if k <= 2 && items.contains_key(2) {
                Some((items[2u8][0] * 65536 + items[2u8][1] * 256 + items[2u8][2]) as u32)
            } else {
                acc.time_ticks
            })
            &&& f.mode_3a == (if k <= 5 && items.contains_key(5) {
                Some(((items[5u8][0] * 256 + items[5u8][1]) % 4096) as u16)
            } else {
                acc.mode_3a
            })
            &&& f.icao_address == (if k <= 8 && items.contains_key(8) {
                Some((items[8u8][0] * 65536 + items[8u8][1] * 256 + items[8u8][2]) as u32)
            } else {
                acc.icao_address
            })
            &&& f.track_number == (if k <= 11 && items.contains_key(11) {
                Some(((items[11u8][0] * 256 + items[11u8][1]) % 4096) as u16)
            } else {
                acc.track_number
            })
            &&& f.position == (if k <= 4 && items.contains_key(4) {
                Some(PolarPosition { rho: (items[4u8][0] * 256 + items[4u8][1]) as u32, theta: (items[4u8][2] * 256 + items[4u8][3]) as u16 })
            } else {
                acc.position
            })
            &&& f.flight_level == (if k <= 6 && items.contains_key(6) {
                Some(as_signed((items[6u8][0] * 256 + items[6u8][1]) % 16384, 8192) as i32)
            } else {
                acc.flight_level
            })
        }),
    decreases 256 - k,
{
    if k <= 255 {
        if items.contains_key(k as u8) {
            let next = apply_item(k as u8, items[k as u8], acc);
            lemma_fold_keeps_fields(items, k + 1, next);
            reveal(apply_item);
        } else {
            lemma_fold_keeps_fields(items, k + 1, acc);
        }
    }
}

/// Decoding a record laid out as an FSPEC followed by its items in FRN
/// order (what `RecordBuilder` writes) ends right after it and reports what
/// the octets say: SAC and SIC from I048/010; the time of day as the full
/// 24-bit big-endian count of I048/140's three octets; the Mode 3/A code as
/// the low 12 bits of I048/070; the aircraft address as the 24 bits of
/// I048/220; the track number as the low 12 bits of I048/161; RHO and THETA
/// as the two 16-bit counts of I048/040; the flight level as the 14-bit
/// two's-complement field of I048/090. An absent item leaves its field
/// empty. The record must carry I048/010, and each
/// item must read as exactly its own octets.
pub proof fn lemma_record_reports_its_octets(data: Seq<u8>, pos: int, items: Map<u8, Seq<u8>>)
    requires
        crate::wire::frns_in_uap_range(items),
        items.contains_key(FRN_DATA_SOURCE),
        crate::wire::holds_at(data, pos, crate::fspec::record_bytes(items)),
        items_delimit(data, items),
    ensures
        decode_record_at(data, pos) matches Ok((r, end)) && {
            &&& end == pos + crate::fspec::record_bytes(items).len()
            &&& r.sac == items[FRN_DATA_SOURCE][0] && r.sic == items[FRN_DATA_SOURCE][1]
            &&& r.time_ticks == (if items.contains_key(FRN_TIME_OF_DAY) {
                let b = items[FRN_TIME_OF_DAY];
                Some((b[0] * 65536 + b[1] * 256 + b[2]) as u32)
            } else {
                None
            })
            &&& r.mode_3a == (if items.contains_key(FRN_MODE_3A_CODE) {
                let b = items[FRN_MODE_3A_CODE];
                Some(((b[0] * 256 + b[1]) % 4096) as u16)
            } else {
                None
            })
            &&& r.icao_address == (if items.contains_key(FRN_AIRCRAFT_ADDRESS) {
                let b = items[FRN_AIRCRAFT_ADDRESS];
                Some((b[0] * 65536 + b[1] * 256 + b[2]) as u32)
            } else {
                None
            })
            &&& r.track_number == (if items.contains_key(FRN_TRACK_NUMBER) {
                let b = items[FRN_TRACK_NUMBER];
                Some(((b[0] * 256 + b[1]) % 4096) as u16)
            } else {
                None
            })
            &&& r.position == (if items.contains_key(FRN_MEASURED_POSITION_POLAR) {
                let b = items[FRN_MEASURED_POSITION_POLAR];
                Some(PolarPosition { rho: (b[0] * 256 + b[1]) as u32, theta: (b[2] * 256 + b[3]) as u16 })
            } else {
                None
            })
            &&& r.flight_level == (if items.contains_key(FRN_FLIGHT_LEVEL) {
                let b = items[FRN_FLIGHT_LEVEL];
                Some(as_signed((b[0] * 256 + b[1]) % 16384, 8192) as i32)
            } else {
                None
            })
        },
{
    let fs = crate::fspec::encoded_fspec(items.dom());
    let n = fs.len() as int;
    crate::wire::lemma_record_layout(data, pos, items);
    crate::wire::lemma_fspec_shape(items);
    assert(data[pos + n - 1] == fs[n - 1]);
    assert forall|f: u8, p: int|
        items.contains_key(f) && crate::wire::holds_at(data, p, items[f]) implies #[trigger] item_lens(
        data,
    )(f, p) == Ok::<int, WalkError>(items[f].len() as int) by {
        assert(item_len(data, f, p) == Ok::<int, WalkError>(items[f].len() as int));
    }
    crate::wire::lemma_walk_encoded(
        data,
        items,
        1,
        pos + n,
        no_fields(),
        item_lens(data),
        item_apply(),
    );
    lemma_fold_keeps_fields(items, 1, no_fields());
}

} // verus!

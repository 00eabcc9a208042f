//! CAT021 input decode — ADS-B Target Reports (edition 2.x UAP).
//!
//! The plot-relevant items are decoded: identity (I021/010), target report
//! descriptor flags (I021/040), the three times (I021/071, /073, /077),
//! position (I021/130 and the high-resolution I021/131), address
//! (I021/080), geometric height (I021/140), quality (I021/090 NACp), Mode 3/A
//! (I021/070), flight level (I021/145) and identification (I021/170). Every
//! other standard item is skipped length-correctly by its format; a spare
//! FRN is a hard error, as is a missing I021/010.
//!
//! Values stay in wire counts: times in 1/128 s, positions in 180/2³⁰
//! degrees (the standard-resolution item's 180/2²³ count is scaled up
//! exactly), geometric height in 6.25 ft, flight level in 25 ft.

use vstd::prelude::*;

use crate::cat048::{
    aircraft_id_chars, callsign_of, compound130_len, decode_aircraft_id, take_compound_130,
};
use crate::octets::{as_signed, be16, be16_at, be24, be24_at, be32};
use crate::plot::Callsign;
use crate::record::{
    as_block_len, block, decode_records, failure_of, fold_of, items_delimit, lemma_record_at_encoded,
    record_at, BlockError, RecordFormat,
};
use crate::wire::{
    explicit_len, extended_len, fixed_len, repetitive_len, take_explicit, take_extended,
    take_fixed, take_repetitive, WalkError,
};

use crate::describe::{block_error_message, block_error_text, UnknownItemWording};

verus! {

/// The ASTERIX category number for ADS-B target reports.
pub const CATEGORY: u8 = 21;

/// I021/010 — Data Source Identification.
pub const FRN_DATA_SOURCE: u8 = 1;
/// I021/040 — Target Report Descriptor.
pub const FRN_TARGET_REPORT_DESCRIPTOR: u8 = 2;
/// I021/071 — Time of Applicability for Position.
pub const FRN_TIME_OF_APPLICABILITY_POSITION: u8 = 5;
/// I021/130 — Position in WGS-84 co-ordinates.
pub const FRN_POSITION_WGS84: u8 = 6;
/// I021/131 — High-Resolution Position in WGS-84 co-ordinates.
pub const FRN_POSITION_WGS84_HIRES: u8 = 7;
/// I021/080 — Target Address.
pub const FRN_TARGET_ADDRESS: u8 = 11;
/// I021/073 — Time of Message Reception for Position.
pub const FRN_TIME_OF_RECEPTION_POSITION: u8 = 12;
/// I021/140 — Geometric Height.
pub const FRN_GEOMETRIC_HEIGHT: u8 = 16;
/// I021/090 — Quality Indicators.
pub const FRN_QUALITY_INDICATORS: u8 = 17;
/// I021/070 — Mode 3/A Code.
pub const FRN_MODE_3A_CODE: u8 = 19;
/// I021/145 — Flight Level.
pub const FRN_FLIGHT_LEVEL: u8 = 21;
/// I021/077 — Time of Report Transmission.
pub const FRN_TIME_OF_REPORT_TRANSMISSION: u8 = 28;
/// I021/170 — Target Identification.
pub const FRN_TARGET_IDENTIFICATION: u8 = 29;

/// I021/040 first extension: GBS — ground bit set.
pub const TRD_GBS: u8 = 0x40;
/// I021/040 first extension: SIM — simulated target.
pub const TRD_SIM: u8 = 0x20;
/// I021/040 first extension: TST — test target.
pub const TRD_TST: u8 = 0x10;
/// I021/090 first extension: NACp (bits 5–2).
pub const QI_NACP_MASK: u8 = 0x3C;

/// How a CAT021 data item is laid out on the wire.
#[derive(Debug, Clone, Copy, PartialEq, Eq, Structural)]
pub enum ItemFormat {
    /// A fixed number of octets.
    Fixed(usize),
    /// An FX-chained sequence of octets.
    Extended,
    /// A one-octet repetition factor, then that many groups of `n` octets.
    Repetitive(usize),
    /// I021/220 Met Information: a primary octet whose bits 8..5 mark WS(2),
    /// WD(2), TMP(2), TRB(1).
    CompoundMet,
    /// I021/110 Trajectory Intent: a primary octet — TIS (bit 8, FX-chained)
    /// and TID (bit 7, 15-octet repetitive).
    CompoundTrajectory,
    /// I021/295 Data Ages: at most four FX-chained primary octets, then one
    /// octet per set presence bit.
    CompoundAges,
    /// A one-octet length indicator giving the item's total length.
    Explicit,
}

/// The wire layout of each CAT021 UAP item; spare FRNs (43–47) and FRNs
/// beyond the UAP have none.
pub open spec fn format_of(frn: u8) -> Option<ItemFormat> {
    if frn == 1 || frn == 3 || frn == 9 || frn == 10 || frn == 16 || frn == 19 || frn == 20 || frn
        == 21 || frn == 22 || frn == 24 || frn == 25 || frn == 27 || frn == 32 || frn == 33 {
        Some(ItemFormat::Fixed(2))
    } else if frn == 5 || frn == 8 || frn == 11 || frn == 12 || frn == 14 || frn == 28 {
        Some(ItemFormat::Fixed(3))
    } else if frn == 13 || frn == 15 || frn == 26 {
        Some(ItemFormat::Fixed(4))
    } else if frn == 6 || frn == 29 {
        Some(ItemFormat::Fixed(6))
    } else if frn == 40 {
        Some(ItemFormat::Fixed(7))
    } else if frn == 7 {
        Some(ItemFormat::Fixed(8))
    } else if frn == 4 || frn == 18 || frn == 23 || frn == 30 || frn == 35 || frn == 36 || frn
        == 38 || frn == 41 {
        Some(ItemFormat::Fixed(1))
    } else if frn == 2 || frn == 17 || frn == 37 {
        Some(ItemFormat::Extended)
    } else if frn == 31 {
        Some(ItemFormat::CompoundMet)
    } else if frn == 34 {
        Some(ItemFormat::CompoundTrajectory)
    } else if frn == 39 {
        Some(ItemFormat::Repetitive(8))
    } else if frn == 42 {
        Some(ItemFormat::CompoundAges)
    } else if frn == 48 || frn == 49 {
        Some(ItemFormat::Explicit)
    } else {
        None
    }
}

/// The wire layout of each CAT021 UAP item.
pub fn item_format(frn: u8) -> (r: Option<ItemFormat>)
    ensures
        r == format_of(frn),
{
    if frn == 1 || frn == 3 || frn == 9 || frn == 10 || frn == 16 || frn == 19 || frn == 20 || frn
        == 21 || frn == 22 || frn == 24 || frn == 25 || frn == 27 || frn == 32 || frn == 33 {
        Some(ItemFormat::Fixed(2))
    } else if frn == 5 || frn == 8 || frn == 11 || frn == 12 || frn == 14 || frn == 28 {
        Some(ItemFormat::Fixed(3))
    } else if frn == 13 || frn == 15 || frn == 26 {
        Some(ItemFormat::Fixed(4))
    } else if frn == 6 || frn == 29 {
        Some(ItemFormat::Fixed(6))
    } else if frn == 40 {
        Some(ItemFormat::Fixed(7))
    } else if frn == 7 {
        Some(ItemFormat::Fixed(8))
    } else if frn == 4 || frn == 18 || frn == 23 || frn == 30 || frn == 35 || frn == 36 || frn
        == 38 || frn == 41 {
        Some(ItemFormat::Fixed(1))
    } else if frn == 2 || frn == 17 || frn == 37 {
        Some(ItemFormat::Extended)
    } else if frn == 31 {
        Some(ItemFormat::CompoundMet)
    } else if frn == 34 {
        Some(ItemFormat::CompoundTrajectory)
    } else if frn == 39 {
        Some(ItemFormat::Repetitive(8))
    } else if frn == 42 {
        Some(ItemFormat::CompoundAges)
    } else if frn == 48 || frn == 49 {
        Some(ItemFormat::Explicit)
    } else {
        None
    }
}

/// Exactly the FRNs of the UAP have a format: 1 to 42, and the two
/// explicit fields 48 and 49 — never a spare one.
pub proof fn lemma_uap_formats(frn: u8)
    ensures
        format_of(frn) is Some <==> (1 <= frn <= 42 || frn == 48 || frn == 49),
{
}

/// I021/220 at `pos`: the primary octet and its announced subfields.
pub open spec fn met_len(data: Seq<u8>, pos: int) -> Result<int, WalkError> {
    if pos < 0 || pos + 1 > data.len() {
        Err(WalkError::Truncated)
    } else {
        let p = data[pos];
        let l: int = (if p & 0x80u8 != 0u8 {
            2int
        } else {
            0int
        }) + (if p & 0x40u8 != 0u8 {
            2int
        } else {
            0int
        }) + (if p & 0x20u8 != 0u8 {
            2int
        } else {
            0int
        }) + (if p & 0x10u8 != 0u8 {
            1int
        } else {
            0int
        });
        if pos + 1 + l <= data.len() {
            Ok(1 + l)
        } else {
            Err(WalkError::Truncated)
        }
    }
}

/// I021/110 at `pos`: the primary octet, TIS when bit 8 is set, TID when
/// bit 7 is set.
pub open spec fn trajectory_len(data: Seq<u8>, pos: int) -> Result<int, WalkError> {
    if pos < 0 || pos + 1 > data.len() {
        Err(WalkError::Truncated)
    } else {
        let p = data[pos];
        let tis: Result<int, WalkError> = if p & 0x80u8 != 0u8 {
            extended_len(data, pos + 1)
        } else {
            Ok(0)
        };
        match tis {
            Err(e) => Err(e),
            Ok(t) => if p & 0x40u8 == 0u8 {
                Ok(1 + t)
            } else {
                match repetitive_len(data, pos + 1 + t, 15) {
                    Err(e) => Err(e),
                    Ok(r) => Ok(1 + t + r),
                }
            },
        }
    }
}

/// I021/295 at `pos`: at most four FX-chained primary octets, then one
/// octet per set presence bit.
pub open spec fn ages_len(data: Seq<u8>, pos: int) -> Result<int, WalkError> {
    match extended_len(data, pos) {
        Ok(c) => if c > 4 {
            Err(WalkError::Truncated)
        } else {
            compound130_len(data, pos)
        },
        Err(e) => Err(e),
    }
}

/// How many octets an item of format `f` at `pos` occupies.
pub open spec fn format_len(data: Seq<u8>, pos: int, f: ItemFormat) -> Result<int, WalkError> {
    match f {
        ItemFormat::Fixed(n) => fixed_len(data, pos, n as int),
        ItemFormat::Extended => extended_len(data, pos),
        ItemFormat::Repetitive(per) => repetitive_len(data, pos, per as int),
        ItemFormat::CompoundMet => met_len(data, pos),
        ItemFormat::CompoundTrajectory => trajectory_len(data, pos),
        ItemFormat::CompoundAges => ages_len(data, pos),
        ItemFormat::Explicit => explicit_len(data, pos),
    }
}

/// How many octets the item `frn` at `pos` occupies.
pub open spec fn item_len(data: Seq<u8>, frn: u8, pos: int) -> Result<int, WalkError> {
    match format_of(frn) {
        None => Err(WalkError::UnknownItem(frn)),
        Some(f) => format_len(data, pos, f),
    }
}

fn take_met(data: &[u8], pos: usize) -> (r: Result<usize, WalkError>)
    requires
        pos <= data.len(),
    ensures
        crate::wire::as_int_len(r) == met_len(data@, pos as int),
{
    if pos >= data.len() {
        return Err(WalkError::Truncated);
    }
    let p = data[pos];
    let mut l: usize = 0;
    if p & 0x80u8 != 0u8 {
        l = l + 2;
    }
    if p & 0x40u8 != 0u8 {
        l = l + 2;
    }
    if p & 0x20u8 != 0u8 {
        l = l + 2;
    }
    if p & 0x10u8 != 0u8 {
        l = l + 1;
    }
    if l > data.len() - pos - 1 {
        return Err(WalkError::Truncated);
    }
    Ok(1 + l)
}

fn take_trajectory(data: &[u8], pos: usize) -> (r: Result<usize, WalkError>)
    requires
        pos <= data.len(),
    ensures
        crate::wire::as_int_len(r) == trajectory_len(data@, pos as int),
{
    if pos >= data.len() {
        return Err(WalkError::Truncated);
    }
    let p = data[pos];
    let mut t: usize = 0;
    if p & 0x80u8 != 0u8 {
        t = match take_extended(data, pos + 1) {
            Ok(t) => t,
            Err(e) => return Err(e),
        };
        proof {
            crate::fspec::lemma_chain_len_bound(data@, pos + 1);
        }
    }
    if p & 0x40u8 == 0u8 {
        return Ok(1 + t);
    }
    match take_repetitive(data, pos + 1 + t, 15) {
        Ok(r) => Ok(1 + t + r),
        Err(e) => Err(e),
    }
}

fn take_ages(data: &[u8], pos: usize) -> (r: Result<usize, WalkError>)
    requires
        pos <= data.len(),
    ensures
        crate::wire::as_int_len(r) == ages_len(data@, pos as int),
{
    match take_extended(data, pos) {
        Ok(c) => if c > 4 {
            Err(WalkError::Truncated)
        } else {
            take_compound_130(data, pos)
        },
        Err(e) => Err(e),
    }
}

fn take_item(data: &[u8], pos: usize, frn: u8) -> (r: Result<usize, WalkError>)
    requires
        pos <= data.len(),
    ensures
        crate::wire::as_int_len(r) == item_len(data@, frn, pos as int),
{
    match item_format(frn) {
        None => Err(WalkError::UnknownItem(frn)),
        Some(ItemFormat::Fixed(n)) => take_fixed(data, pos, n),
        Some(ItemFormat::Extended) => take_extended(data, pos),
        Some(ItemFormat::Repetitive(per)) => take_repetitive(data, pos, per),
        Some(ItemFormat::CompoundMet) => take_met(data, pos),
        Some(ItemFormat::CompoundTrajectory) => take_trajectory(data, pos),
        Some(ItemFormat::CompoundAges) => take_ages(data, pos),
        Some(ItemFormat::Explicit) => take_explicit(data, pos),
    }
}

proof fn lemma_item_len_fits(data: Seq<u8>, frn: u8, pos: int)
    requires
        0 <= pos <= data.len(),
    ensures
        item_len(data, frn, pos) matches Ok(l) ==> 0 <= l && pos + l <= data.len(),
{
    crate::fspec::lemma_chain_len_bound(data, pos);
    crate::fspec::lemma_chain_len_bound(data, pos + 1);
    if format_of(frn) == Some(ItemFormat::CompoundAges) || format_of(frn) == Some(
        ItemFormat::CompoundTrajectory,
    ) {
        if let Ok(c) = extended_len(data, pos) {
            crate::cat048::lemma_subfield_count_nonneg(data, pos, c);
        }
    }
}

// ---------------------------------------------------------------------------
// Item contents.
// ---------------------------------------------------------------------------

/// A 24-bit two's-complement number.
pub open spec fn i24(b0: u8, b1: u8, b2: u8) -> int {
    let raw = be24(b0, b1, b2);
    if raw >= 0x80_0000 {
        raw - 0x100_0000
    } else {
        raw
    }
}

/// A 32-bit two's-complement number.
pub open spec fn i32_of(b0: u8, b1: u8, b2: u8, b3: u8) -> int {
    let raw = be32(b0, b1, b2, b3);
    if raw >= 0x8000_0000 {
        raw - 0x1_0000_0000
    } else {
        raw
    }
}

/// A 16-bit two's-complement number.
pub open spec fn i16_of(hi: u8, lo: u8) -> int {
    let raw = be16(hi, lo);
    if raw >= 0x8000 {
        raw - 0x1_0000
    } else {
        raw
    }
}

/// One decoded CAT021 ADS-B target report.
#[derive(Debug, Clone, Copy)]
pub struct DecodedAdsbReport {
    /// I021/010 — System Area Code of the reporting ground station.
    pub sac: u8,
    /// I021/010 — System Identification Code of the reporting ground station.
    pub sic: u8,
    /// The report's data time in 1/128-second ticks: I021/073 preferred,
    /// falling back to I021/071 and then I021/077.
    pub time_ticks: Option<u32>,
    /// WGS-84 `(lat, lon)` in 180/2³⁰-degree steps: I021/131 preferred over
    /// I021/130.
    pub position: Option<(i32, i32)>,
    /// I021/140 — geometric height, 6.25 ft steps.
    pub geometric_height: Option<i16>,
    /// I021/145 — flight level, 25 ft steps.
    pub flight_level: Option<i16>,
    /// I021/080 — 24-bit ICAO aircraft address.
    pub icao_address: Option<u32>,
    /// I021/170 — target identification.
    pub callsign: Option<Callsign>,
    /// I021/070 — Mode 3/A code (low 12 bits).
    pub mode_3a: Option<u16>,
    /// I021/090 — NACp from the first extension octet, when present.
    pub nacp: Option<u8>,
    /// I021/040 first extension GBS — the target reports itself on the ground.
    pub ground_bit: bool,
    /// I021/040 first extension SIM/TST — simulated or test target.
    pub simulated_or_test: bool,
}

impl DecodedAdsbReport {
    /// The data time (in 1/128 s) and position (in 180/2³⁰ degrees) a plot
    /// is made from: none for a target on the ground or a simulated or test
    /// target, and none without both a time and a position.
    pub fn plot_fix(&self) -> (r: Option<(u32, (i32, i32))>)
        ensures
            r == (if self.ground_bit || self.simulated_or_test {
                None
            } else {
                match (self.time_ticks, self.position) {
                    (Some(t), Some(p)) => Some((t, p)),
                    _ => None,
                }
            }),
    {
        if self.ground_bit || self.simulated_or_test {
            return None;
        }
        match (self.time_ticks, self.position) {
            (Some(t), Some(p)) => Some((t, p)),
            _ => None,
        }
    }
}

/// The items of one CAT021 record decoded so far.
#[derive(Debug, Clone, Copy)]
pub struct AdsbFields {
    /// I021/010.
    pub source: Option<(u8, u8)>,
    /// I021/073.
    pub time_reception: Option<u32>,
    /// I021/071.
    pub time_applicability: Option<u32>,
    /// I021/077.
    pub time_transmission: Option<u32>,
    /// I021/130, scaled to 180/2³⁰ degrees.
    pub position: Option<(i32, i32)>,
    /// I021/131.
    pub position_hires: Option<(i32, i32)>,
    /// I021/140.
    pub geometric_height: Option<i16>,
    /// I021/145.
    pub flight_level: Option<i16>,
    /// I021/080.
    pub icao_address: Option<u32>,
    /// I021/170.
    pub callsign: Option<Callsign>,
    /// I021/070.
    pub mode_3a: Option<u16>,
    /// I021/090 NACp.
    pub nacp: Option<u8>,
    /// I021/040 GBS.
    pub ground_bit: bool,
    /// I021/040 SIM/TST.
    pub simulated_or_test: bool,
}

/// The CAT021 record model.
pub struct Cat021Format;

/// Fold the octets `b` of item `frn` into the fields decoded so far.
#[verifier::opaque]
pub open spec fn apply_item(frn: u8, b: Seq<u8>, acc: AdsbFields) -> AdsbFields {
    if frn == FRN_DATA_SOURCE {
        AdsbFields { source: Some((b[0], b[1])), ..acc }
    } else if frn == FRN_TARGET_REPORT_DESCRIPTOR {
        if b.len() >= 2 {
            AdsbFields {
                ground_bit: b[1] & TRD_GBS != 0u8,
                simulated_or_test: b[1] & (TRD_SIM | TRD_TST) != 0u8,
                ..acc
            }
        } else {
            acc
        }
    } else if frn == FRN_TIME_OF_APPLICABILITY_POSITION {
        AdsbFields { time_applicability: Some(be24(b[0], b[1], b[2]) as u32), ..acc }
    } else if frn == FRN_POSITION_WGS84 {
        AdsbFields {
            position: Some(
                ((i24(b[0], b[1], b[2]) * 128) as i32, (i24(b[3], b[4], b[5]) * 128) as i32),
            ),
            ..acc
        }
    } else if frn == FRN_POSITION_WGS84_HIRES {
        AdsbFields {
            position_hires: Some(
                (i32_of(b[0], b[1], b[2], b[3]) as i32, i32_of(b[4], b[5], b[6], b[7]) as i32),
            ),
            ..acc
        }
    } else if frn == FRN_TARGET_ADDRESS {
        AdsbFields { icao_address: Some(be24(b[0], b[1], b[2]) as u32), ..acc }
    } else if frn == FRN_TIME_OF_RECEPTION_POSITION {
        AdsbFields { time_reception: Some(be24(b[0], b[1], b[2]) as u32), ..acc }
    } else if frn == FRN_GEOMETRIC_HEIGHT {
        AdsbFields { geometric_height: Some(i16_of(b[0], b[1]) as i16), ..acc }
    } else if frn == FRN_QUALITY_INDICATORS {
        if b.len() >= 2 {
            AdsbFields { nacp: Some(((b[1] & QI_NACP_MASK) >> 2u8) as u8), ..acc }
        } else {
            acc
        }
    } else if frn == FRN_MODE_3A_CODE {
        AdsbFields { mode_3a: Some((be16(b[0], b[1]) % 4096) as u16), ..acc }
    } else if frn == FRN_FLIGHT_LEVEL {
        AdsbFields { flight_level: Some(i16_of(b[0], b[1]) as i16), ..acc }
    } else if frn == FRN_TIME_OF_REPORT_TRANSMISSION {
        AdsbFields { time_transmission: Some(be24(b[0], b[1], b[2]) as u32), ..acc }
    } else if frn == FRN_TARGET_IDENTIFICATION {
        AdsbFields { callsign: Some(callsign_of(aircraft_id_chars(b))), ..acc }
    } else {
        acc
    }
}

/// The first of two optional values that is present.
pub open spec fn first_of<T>(a: Option<T>, b: Option<T>) -> Option<T> {
    if a is Some {
        a
    } else {
        b
    }
}

/// The report the decoded items describe; I021/010 is required.
pub open spec fn finish_fields(f: AdsbFields) -> Result<DecodedAdsbReport, u8> {
    match f.source {
        None => Err(FRN_DATA_SOURCE),
        Some((sac, sic)) => Ok(
            DecodedAdsbReport {
                sac,
                sic,
                time_ticks: first_of(
                    f.time_reception,
                    first_of(f.time_applicability, f.time_transmission),
                ),
                position: first_of(f.position_hires, f.position),
                geometric_height: f.geometric_height,
                flight_level: f.flight_level,
                icao_address: f.icao_address,
                callsign: f.callsign,
                mode_3a: f.mode_3a,
                nacp: f.nacp,
                ground_bit: f.ground_bit,
                simulated_or_test: f.simulated_or_test,
            },
        ),
    }
}

/// No item decoded yet.
pub open spec fn no_fields() -> AdsbFields {
    AdsbFields {
        source: None,
        time_reception: None,
        time_applicability: None,
        time_transmission: None,
        position: None,
        position_hires: None,
        geometric_height: None,
        flight_level: None,
        icao_address: None,
        callsign: None,
        mode_3a: None,
        nacp: None,
        ground_bit: false,
        simulated_or_test: false,
    }
}

pub(crate) fn i24_at(data: &[u8], i: usize) -> (r: i32)
    requires
        i + 3 <= data.len(),
    ensures
        r == i24(data@[i as int], data@[i + 1], data@[i + 2]),
{
    let raw = be24_at(data, i) as i32;
    if raw >= 0x80_0000 {
        raw - 0x100_0000
    } else {
        raw
    }
}

pub(crate) fn i32_at(data: &[u8], i: usize) -> (r: i32)
    requires
        i + 4 <= data.len(),
    ensures
        r == i32_of(data@[i as int], data@[i + 1], data@[i + 2], data@[i + 3]),
{
    let raw = crate::octets::be32_at(data, i) as i64;
    if raw >= 0x8000_0000 {
        (raw - 0x1_0000_0000) as i32
    } else {
        raw as i32
    }
}

pub(crate) fn i16_at(data: &[u8], i: usize) -> (r: i16)
    requires
        i + 2 <= data.len(),
    ensures
        r == i16_of(data@[i as int], data@[i + 1]),
{
    let raw = be16_at(data, i) as i32;
    if raw >= 0x8000 {
        (raw - 0x1_0000) as i16
    } else {
        raw as i16
    }
}

impl RecordFormat for Cat021Format {
    type Fields = AdsbFields;

    type Report = DecodedAdsbReport;

    open spec fn category() -> u8 {
        CATEGORY
    }

    open spec fn item_len(data: Seq<u8>, frn: u8, pos: int, acc: AdsbFields) -> Result<
        int,
        BlockError,
    > {
        as_block_len(item_len(data, frn, pos))
    }

    open spec fn apply(frn: u8, b: Seq<u8>, acc: AdsbFields) -> AdsbFields {
        apply_item(frn, b, acc)
    }

    open spec fn initial() -> AdsbFields {
        no_fields()
    }

    open spec fn finish_spec(f: AdsbFields) -> Result<DecodedAdsbReport, u8> {
        finish_fields(f)
    }

    fn category_octet() -> (c: u8) {
        CATEGORY
    }

    fn initial_fields() -> (f: AdsbFields) {
        AdsbFields {
            source: None,
            time_reception: None,
            time_applicability: None,
            time_transmission: None,
            position: None,
            position_hires: None,
            geometric_height: None,
            flight_level: None,
            icao_address: None,
            callsign: None,
            mode_3a: None,
            nacp: None,
            ground_bit: false,
            simulated_or_test: false,
        }
    }

    fn decode_item(data: &[u8], pos: usize, frn: u8, acc: AdsbFields) -> (r: Result<
        (AdsbFields, usize),
        BlockError,
    >) {
        reveal(apply_item);
        let l = match take_item(data, pos, frn) {
            Ok(l) => l,
            Err(e) => return Err(failure_of(e)),
        };
        proof {
            lemma_item_len_fits(data@, frn, pos as int);
        }
        let end = pos + l;
        let ghost b = data@.subrange(pos as int, end as int);
        let mut fields = acc;
        if frn == FRN_DATA_SOURCE {
            fields.source = Some((data[pos], data[pos + 1]));
        } else if frn == FRN_TARGET_REPORT_DESCRIPTOR {
            if l >= 2 {
                let ext1 = data[pos + 1];
                fields.ground_bit = ext1 & TRD_GBS != 0u8;
                fields.simulated_or_test = ext1 & (TRD_SIM | TRD_TST) != 0u8;
            }
        } else if frn == FRN_TIME_OF_APPLICABILITY_POSITION {
            fields.time_applicability = Some(be24_at(data, pos));
        } else if frn == FRN_POSITION_WGS84 {
            let lat = i24_at(data, pos);
            let lon = i24_at(data, pos + 3);
            fields.position = Some((lat * 128, lon * 128));
        } else if frn == FRN_POSITION_WGS84_HIRES {
            fields.position_hires = Some((i32_at(data, pos), i32_at(data, pos + 4)));
        } else if frn == FRN_TARGET_ADDRESS {
            fields.icao_address = Some(be24_at(data, pos));
        } else if frn == FRN_TIME_OF_RECEPTION_POSITION {
            fields.time_reception = Some(be24_at(data, pos));
        } else if frn == FRN_GEOMETRIC_HEIGHT {
            fields.geometric_height = Some(i16_at(data, pos));
        } else if frn == FRN_QUALITY_INDICATORS {
            if l >= 2 {
                fields.nacp = Some((data[pos + 1] & QI_NACP_MASK) >> 2u8);
            }
        } else if frn == FRN_MODE_3A_CODE {
            let word = be16_at(data, pos);
            assert(word & 0x0FFFu16 == word % 4096) by (bit_vector);
            fields.mode_3a = Some(word & 0x0FFFu16);
        } else if frn == FRN_FLIGHT_LEVEL {
            fields.flight_level = Some(i16_at(data, pos));
        } else if frn == FRN_TIME_OF_REPORT_TRANSMISSION {
            fields.time_transmission = Some(be24_at(data, pos));
        } else if frn == FRN_TARGET_IDENTIFICATION {
            let id = decode_aircraft_id(vstd::slice::slice_subrange(data, pos, end));
            fields.callsign = Some(id);
        }
        Ok((fields, end))
    }

    fn finish(f: AdsbFields) -> (r: Result<DecodedAdsbReport, u8>) {
        let (sac, sic) = match f.source {
            Some(s) => s,
            None => return Err(FRN_DATA_SOURCE),
        };
        let time_ticks = if f.time_reception.is_some() {
            f.time_reception
        } else if f.time_applicability.is_some() {
            f.time_applicability
        } else {
            f.time_transmission
        };
        let position = if f.position_hires.is_some() {
            f.position_hires
        } else {
            f.position
        };
        Ok(
            DecodedAdsbReport {
                sac,
                sic,
                time_ticks,
                position,
                geometric_height: f.geometric_height,
                flight_level: f.flight_level,
                icao_address: f.icao_address,
                callsign: f.callsign,
                mode_3a: f.mode_3a,
                nacp: f.nacp,
                ground_bit: f.ground_bit,
                simulated_or_test: f.simulated_or_test,
            },
        )
    }
}

/// Errors that can occur while decoding a CAT021 data block.
#[derive(Debug, Clone, Copy, PartialEq, Eq, Structural)]
pub enum Cat021DecodeError {
    /// The input ended before a complete block/record/item could be read.
    Truncated,
    /// The first octet was not 21.
    WrongCategory(u8),
    /// The `LEN` field did not match the actual input length.
    LengthMismatch { declared: usize, actual: usize },
    /// The FSPEC marked an FRN present that this decoder cannot length — a
    /// spare FRN, or a station speaking a legacy UAP.
    UnknownItem(u8),
    /// A record was missing the mandatory I021/010.
    MissingItem(u8),
    /// The FSPEC's FX chain ran past the supported FRN space.
    FspecTooLong,
}

impl Cat021DecodeError {
    /// The error in the terms every record format shares.
    pub open spec fn kind(self) -> BlockError {
        match self {
            Cat021DecodeError::Truncated => BlockError::Truncated,
            Cat021DecodeError::WrongCategory(c) => BlockError::WrongCategory(c),
            Cat021DecodeError::LengthMismatch { declared, actual } => BlockError::LengthMismatch {
                declared,
                actual,
            },
            Cat021DecodeError::UnknownItem(frn) => BlockError::UnknownItem(frn),
            Cat021DecodeError::MissingItem(frn) => BlockError::MissingItem(frn),
            Cat021DecodeError::FspecTooLong => BlockError::FspecTooLong,
        }
    }

    /// A human-readable description of the error.
    pub fn message(&self) -> (r: String)
        ensures
            r@ == block_error_text(21, self.kind(), UnknownItemWording::EditionHint),
    {
        let kind = match *self {
            Cat021DecodeError::Truncated => BlockError::Truncated,
            Cat021DecodeError::WrongCategory(c) => BlockError::WrongCategory(c),
            Cat021DecodeError::LengthMismatch { declared, actual } => BlockError::LengthMismatch {
                declared,
                actual,
            },
            Cat021DecodeError::UnknownItem(frn) => BlockError::UnknownItem(frn),
            Cat021DecodeError::MissingItem(frn) => BlockError::MissingItem(frn),
            Cat021DecodeError::FspecTooLong => BlockError::FspecTooLong,
        };
        block_error_message(21, kind, UnknownItemWording::EditionHint)
    }
}

/// A block error as a CAT021 error.
pub open spec fn cat021_error(e: BlockError) -> Cat021DecodeError {
    match e {
        BlockError::Truncated => Cat021DecodeError::Truncated,
        BlockError::WrongCategory(c) => Cat021DecodeError::WrongCategory(c),
        BlockError::LengthMismatch { declared, actual } => Cat021DecodeError::LengthMismatch {
            declared,
            actual,
        },
        BlockError::UnknownItem(f) => Cat021DecodeError::UnknownItem(f),
        BlockError::MissingItem(f) => Cat021DecodeError::MissingItem(f),
        BlockError::FspecTooLong => Cat021DecodeError::FspecTooLong,
    }
}

fn error_of(e: BlockError) -> (r: Cat021DecodeError)
    ensures
        r == cat021_error(e),
{
    match e {
        BlockError::Truncated => Cat021DecodeError::Truncated,
        BlockError::WrongCategory(c) => Cat021DecodeError::WrongCategory(c),
        BlockError::LengthMismatch { declared, actual } => Cat021DecodeError::LengthMismatch {
            declared,
            actual,
        },
        BlockError::UnknownItem(f) => Cat021DecodeError::UnknownItem(f),
        BlockError::MissingItem(f) => Cat021DecodeError::MissingItem(f),
        BlockError::FspecTooLong => Cat021DecodeError::FspecTooLong,
    }
}

/// Decode a CAT021 data block into one report per record. Returns an error
/// (and decodes nothing) on a wrong category, a length mismatch, a
/// truncation, a spare FRN or a missing I021/010; never panics on input.
pub fn decode_adsb_reports(bytes: &[u8]) -> (r: Result<Vec<DecodedAdsbReport>, Cat021DecodeError>)
    ensures
        match r {
            Ok(reports) => block::<Cat021Format>(bytes@) == Ok::<
                Seq<DecodedAdsbReport>,
                BlockError,
            >(reports@),
            Err(e) => block::<Cat021Format>(bytes@) is Err && e == cat021_error(
                block::<Cat021Format>(bytes@)->Err_0,
            ),
        },
{
    match decode_records::<Cat021Format>(bytes) {
        Ok(reports) => Ok(reports),
        Err(f) => Err(error_of(f)),
    }
}

/// Folding the items from FRN `k` on leaves the identity and time fields
/// as `acc` had them, except that each item present among them sets its
/// own field from its own octets.
proof fn lemma_fold_keeps_fields(items: Map<u8, Seq<u8>>, k: int, acc: AdsbFields)
    requires
        1 <= k,
    ensures
        ({
            let f = crate::wire::apply_from(items, k, acc, fold_of::<Cat021Format>());
            &&& f.source == (if k <= 1 && items.contains_key(1) {
                Some((items[1u8][0], items[1u8][1]))
            } else {
                acc.source
            })
            &&& f.time_applicability == (if k <= 5 && items.contains_key(5) {
                Some((items[5u8][0] * 65536 + items[5u8][1] * 256 + items[5u8][2]) as u32)
            } else {
                acc.time_applicability
            })
            &&& f.icao_address == (if k <= 11 && items.contains_key(11) {
                Some((items[11u8][0] * 65536 + items[11u8][1] * 256 + items[11u8][2]) as u32)
            } else {
                acc.icao_address
            })
            &&& f.time_reception == (if k <= 12 && items.contains_key(12) {
                Some((items[12u8][0] * 65536 + items[12u8][1] * 256 + items[12u8][2]) as u32)
            } else {
                acc.time_reception
            })
            &&& f.mode_3a == (if k <= 19 && items.contains_key(19) {
                Some(((items[19u8][0] * 256 + items[19u8][1]) % 4096) as u16)
            } else {
                acc.mode_3a
            })
            &&& f.time_transmission == (if k <= 28 && items.contains_key(28) {
                Some((items[28u8][0] * 65536 + items[28u8][1] * 256 + items[28u8][2]) as u32)
            } else {
                acc.time_transmission
            })
            &&& f.position == (if k <= 6 && items.contains_key(6) {
                Some(((as_signed(items[6u8][0] * 65536 + items[6u8][1] * 256 + items[6u8][2], 0x80_0000) * 128) as i32, (as_signed(items[6u8][3] * 65536 + items[6u8][4] * 256 + items[6u8][5], 0x80_0000) * 128) as i32))
            } else {
                acc.position
            })
            &&& f.position_hires == (if k <= 7 && items.contains_key(7) {
                Some((as_signed(items[7u8][0] * 16777216 + items[7u8][1] * 65536 + items[7u8][2] * 256 + items[7u8][3], 0x8000_0000) as i32, as_signed(items[7u8][4] * 16777216 + items[7u8][5] * 65536 + items[7u8][6] * 256 + items[7u8][7], 0x8000_0000) as i32))
            } else {
                acc.position_hires
            })
            &&& f.geometric_height == (if k <= 16 && items.contains_key(16) {
                Some(as_signed((items[16u8][0] * 256 + items[16u8][1]), 0x8000) as i16)
            } else {
                acc.geometric_height
            })
            &&& f.flight_level == (if k <= 21 && items.contains_key(21) {
                Some(as_signed((items[21u8][0] * 256 + items[21u8][1]), 0x8000) as i16)
            } else {
                acc.flight_level
            })
        }),
    decreases 256 - k,
{
    if k <= 255 {
        if items.contains_key(k as u8) {
            let next = apply_item(k as u8, items[k as u8], acc);
            lemma_fold_keeps_fields(items, k + 1, next);
            reveal(apply_item);
        } else {
            lemma_fold_keeps_fields(items, k + 1, acc);
        }
    }
}

/// Three octets read as one 24-bit big-endian count.
pub open spec fn three_octet_value(b: Seq<u8>) -> u32 {
    (b[0] * 65536 + b[1] * 256 + b[2]) as u32
}

/// Decoding a record laid out as an FSPEC followed by its items in FRN
/// order (what `RecordBuilder` writes) ends right after it and reports what
/// the octets say: SAC and SIC from I021/010; the Mode 3/A code as the low
/// 12 bits of I021/070's two octets (all four octal digits); the target
/// address as the 24 bits of I021/080; the time as the 24-bit count of
/// I021/073, else I021/071, else I021/077; the position from I021/131 (two
/// 32-bit two's-complement counts), else from I021/130 (two 24-bit ones,
/// scaled to the finer step by 128); the geometric height and the flight
/// level as the 16-bit two's-complement counts of I021/140 and I021/145. An
/// absent item leaves its field empty. The record must carry I021/010, and each item must read as exactly
/// its own octets.
pub proof fn lemma_record_reports_its_octets(data: Seq<u8>, pos: int, items: Map<u8, Seq<u8>>)
    requires
        crate::wire::frns_in_uap_range(items),
        items.contains_key(FRN_DATA_SOURCE),
        crate::wire::holds_at(data, pos, crate::fspec::record_bytes(items)),
        items_delimit::<Cat021Format>(data, items),
    ensures
        record_at::<Cat021Format>(data, pos) matches Ok((r, end)) && {
            &&& end == pos + crate::fspec::record_bytes(items).len()
            &&& r.sac == items[FRN_DATA_SOURCE][0] && r.sic == items[FRN_DATA_SOURCE][1]
            &&& r.mode_3a == (if items.contains_key(FRN_MODE_3A_CODE) {
                let b = items[FRN_MODE_3A_CODE];
                Some(((b[0] * 256 + b[1]) % 4096) as u16)
            } else {
                None
            })
            &&& r.icao_address == (if items.contains_key(FRN_TARGET_ADDRESS) {
                Some(three_octet_value(items[FRN_TARGET_ADDRESS]))
            } else {
                None
            })
            &&& r.time_ticks == (if items.contains_key(FRN_TIME_OF_RECEPTION_POSITION) {
                Some(three_octet_value(items[FRN_TIME_OF_RECEPTION_POSITION]))
            } else if items.contains_key(FRN_TIME_OF_APPLICABILITY_POSITION) {
                Some(three_octet_value(items[FRN_TIME_OF_APPLICABILITY_POSITION]))
            } else if items.contains_key(FRN_TIME_OF_REPORT_TRANSMISSION) {
                Some(three_octet_value(items[FRN_TIME_OF_REPORT_TRANSMISSION]))
            } else {
                None
            })
            &&& r.position == (if items.contains_key(FRN_POSITION_WGS84_HIRES) {
                let b = items[FRN_POSITION_WGS84_HIRES];
                Some((as_signed(b[0] * 16777216 + b[1] * 65536 + b[2] * 256 + b[3], 0x8000_0000) as i32, as_signed(b[4] * 16777216 + b[5] * 65536 + b[6] * 256 + b[7], 0x8000_0000) as i32))
            } else if items.contains_key(FRN_POSITION_WGS84) {
                let b = items[FRN_POSITION_WGS84];
                Some(((as_signed(b[0] * 65536 + b[1] * 256 + b[2], 0x80_0000) * 128) as i32, (as_signed(b[3] * 65536 + b[4] * 256 + b[5], 0x80_0000) * 128) as i32))
            } else {
                None
            })
            &&& r.geometric_height == (if items.contains_key(FRN_GEOMETRIC_HEIGHT) {
                let b = items[FRN_GEOMETRIC_HEIGHT];
                Some(as_signed((b[0] * 256 + b[1]), 0x8000) as i16)
            } else {
                None
            })
            &&& r.flight_level == (if items.contains_key(FRN_FLIGHT_LEVEL) {
                let b = items[FRN_FLIGHT_LEVEL];
                Some(as_signed((b[0] * 256 + b[1]), 0x8000) as i16)
            } else {
                None
            })
        },
{
    assert(items.contains_key(FRN_DATA_SOURCE));
    lemma_record_at_encoded::<Cat021Format>(data, pos, items);
    lemma_fold_keeps_fields(items, 1, no_fields());
}

} // verus!

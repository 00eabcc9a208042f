//! CAT020 input decode — Multilateration (MLAT / WAM) Target Reports.
//!
//! The track-relevant items are decoded: identity (I020/010), descriptor
//! flags (I020/020), time of day (I020/140), WGS-84 position (I020/041),
//! track number (I020/161), Mode 3/A (I020/070), flight level (I020/090),
//! address (I020/220), identification (I020/245), geometric height
//! (I020/105) and position accuracy (I020/500 SDP). Every other standard
//! item is skipped length-correctly; an FRN outside the UAP, or a spare bit
//! in the accuracy item's subfield spec, is a hard error.
//!
//! Values stay in wire counts: time in 1/128 s, position in 180/2²⁵
//! degrees, flight level in quarter flight levels, geometric height in
//! 6.25 ft, accuracy in 0.25 m.

use vstd::prelude::*;

use crate::cat021::{i16_at, i16_of, i32_at, i32_of};
use crate::cat048::{aircraft_id_chars, callsign_of, decode_aircraft_id, flight_level_of};
use crate::octets::{as_signed, be16, be16_at, be24, be24_at};
use crate::plot::Callsign;
use crate::record::{
    as_block_len, block, decode_records, failure_of, fold_of, items_delimit, lemma_record_at_encoded,
    record_at, BlockError, RecordFormat,
};
use crate::wire::{
    explicit_len, extended_len, fixed_len, repetitive_len, take_explicit, take_extended,
    take_fixed, take_repetitive, WalkError,
};

use crate::describe::{block_error_message, block_error_text, UnknownItemWording};

verus! {

/// The ASTERIX category number for multilateration target reports.
pub const CATEGORY: u8 = 20;

/// I020/010 — Data Source Identifier.
pub const FRN_DATA_SOURCE: u8 = 1;
/// I020/020 — Target Report Descriptor.
pub const FRN_TARGET_REPORT_DESCRIPTOR: u8 = 2;
/// I020/140 — Time of Day.
pub const FRN_TIME_OF_DAY: u8 = 3;
/// I020/041 — Position in WGS-84 co-ordinates.
pub const FRN_POSITION_WGS84: u8 = 4;
/// I020/161 — Track Number.
pub const FRN_TRACK_NUMBER: u8 = 6;
/// I020/070 — Mode-3/A Code.
pub const FRN_MODE_3A_CODE: u8 = 8;
/// I020/090 — Flight Level.
pub const FRN_FLIGHT_LEVEL: u8 = 10;
/// I020/220 — Target Address.
pub const FRN_TARGET_ADDRESS: u8 = 12;
/// I020/245 — Target Identification.
pub const FRN_TARGET_IDENTIFICATION: u8 = 13;
/// I020/105 — Geometric Height.
pub const FRN_GEOMETRIC_HEIGHT: u8 = 15;
/// I020/500 — Position Accuracy.
pub const FRN_POSITION_ACCURACY: u8 = 19;

/// I020/020 first extension: RAB — field monitor.
pub const TRD_EXT_RAB: u8 = 0x80;
/// I020/020 first extension: SPI.
pub const TRD_EXT_SPI: u8 = 0x40;
/// I020/020 first extension: GBS — ground bit.
pub const TRD_EXT_GBS: u8 = 0x10;
/// I020/020 first extension: SIM — simulated target.
pub const TRD_EXT_SIM: u8 = 0x04;
/// I020/020 first extension: TST — test target.
pub const TRD_EXT_TST: u8 = 0x02;
/// I020/500 subfield: DOP (6 octets).
pub const ACC_DOP: u8 = 0x80;
/// I020/500 subfield: SDP (6 octets).
pub const ACC_SDP: u8 = 0x40;
/// I020/500 subfield: SDH (2 octets).
pub const ACC_SDH: u8 = 0x20;

/// How a CAT020 data item is laid out on the wire.
#[derive(Debug, Clone, Copy, PartialEq, Eq, Structural)]
pub enum ItemFormat {
    /// A fixed number of octets.
    Fixed(usize),
    /// An FX-chained sequence of octets.
    Extended,
    /// A one-octet repetition factor, then that many groups of `n` octets.
    Repetitive(usize),
    /// I020/500: one subfield-spec octet (DOP 6, SDP 6, SDH 2 octets); a set
    /// spare or FX bit cannot be lengthed.
    CompoundAccuracy,
    /// A one-octet length indicator giving the item's total length.
    Explicit,
}

/// The wire layout of each CAT020 UAP item (FRN 1 to 28).
pub open spec fn format_of(frn: u8) -> Option<ItemFormat> {
    if frn == 1 || frn == 6 || frn == 8 || frn == 10 || frn == 14 || frn == 15 || frn == 16 || frn
        == 22 || frn == 26 {
        Some(ItemFormat::Fixed(2))
    } else if frn == 3 || frn == 12 {
        Some(ItemFormat::Fixed(3))
    } else if frn == 9 || frn == 11 {
        Some(ItemFormat::Fixed(4))
    } else if frn == 5 {
        Some(ItemFormat::Fixed(6))
    } else if frn == 13 || frn == 23 {
        Some(ItemFormat::Fixed(7))
    } else if frn == 4 {
        Some(ItemFormat::Fixed(8))
    } else if frn == 17 || frn == 18 || frn == 25 {
        Some(ItemFormat::Fixed(1))
    } else if frn == 2 || frn == 7 || frn == 24 {
        Some(ItemFormat::Extended)
    } else if frn == 19 {
        Some(ItemFormat::CompoundAccuracy)
    } else if frn == 20 {
        Some(ItemFormat::Repetitive(1))
    } else if frn == 21 {
        Some(ItemFormat::Repetitive(8))
    } else if frn == 27 || frn == 28 {
        Some(ItemFormat::Explicit)
    } else {
        None
    }
}

/// The wire layout of each CAT020 UAP item.
pub fn item_format(frn: u8) -> (r: Option<ItemFormat>)
    ensures
        r == format_of(frn),
{
    if frn == 1 || frn == 6 || frn == 8 || frn == 10 || frn == 14 || frn == 15 || frn == 16 || frn
        == 22 || frn == 26 {
        Some(ItemFormat::Fixed(2))
    } else if frn == 3 || frn == 12 {
        Some(ItemFormat::Fixed(3))
    } else if frn == 9 || frn == 11 {
        Some(ItemFormat::Fixed(4))
    } else if frn == 5 {
        Some(ItemFormat::Fixed(6))
    } else if frn == 13 || frn == 23 {
        Some(ItemFormat::Fixed(7))
    } else if frn == 4 {
        Some(ItemFormat::Fixed(8))
    } else if frn == 17 || frn == 18 || frn == 25 {
        Some(ItemFormat::Fixed(1))
    } else if frn == 2 || frn == 7 || frn == 24 {
        Some(ItemFormat::Extended)
    } else if frn == 19 {
        Some(ItemFormat::CompoundAccuracy)
    } else if frn == 20 {
        Some(ItemFormat::Repetitive(1))
    } else if frn == 21 {
        Some(ItemFormat::Repetitive(8))
    } else if frn == 27 || frn == 28 {
        Some(ItemFormat::Explicit)
    } else {
        None
    }
}

/// Exactly the FRNs of the UAP, 1 to 28, have a format.
pub proof fn lemma_uap_formats(frn: u8)
    ensures
        format_of(frn) is Some <==> 1 <= frn <= 28,
{
}

/// I020/500 at `pos`: the subfield-spec octet and the subfields it marks.
pub open spec fn accuracy_len(data: Seq<u8>, pos: int) -> Result<int, WalkError> {
    if pos < 0 || pos + 1 > data.len() {
        Err(WalkError::Truncated)
    } else if data[pos] & 0x1Fu8 != 0u8 {
        Err(WalkError::UnknownItem(FRN_POSITION_ACCURACY))
    } else {
        let s = data[pos];
        let l: int = (if s & ACC_DOP != 0u8 {
            6int
        } else {
            0int
        }) + (if s & ACC_SDP != 0u8 {
            6int
        } else {
            0int
        }) + (if s & ACC_SDH != 0u8 {
            2int
        } else {
            0int
        });
        if pos + 1 + l <= data.len() {
            Ok(1 + l)
        } else {
            Err(WalkError::Truncated)
        }
    }
}

/// How many octets the item `frn` at `pos` occupies.
pub open spec fn item_len(data: Seq<u8>, frn: u8, pos: int) -> Result<int, WalkError> {
    match format_of(frn) {
        None => Err(WalkError::UnknownItem(frn)),
        Some(ItemFormat::Fixed(n)) => fixed_len(data, pos, n as int),
        Some(ItemFormat::Extended) => extended_len(data, pos),
        Some(ItemFormat::Repetitive(per)) => repetitive_len(data, pos, per as int),
        Some(ItemFormat::CompoundAccuracy) => accuracy_len(data, pos),
        Some(ItemFormat::Explicit) => explicit_len(data, pos),
    }
}

fn take_accuracy(data: &[u8], pos: usize) -> (r: Result<usize, WalkError>)
    requires
        pos <= data.len(),
    ensures
        crate::wire::as_int_len(r) == accuracy_len(data@, pos as int),
{
    if pos >= data.len() {
        return Err(WalkError::Truncated);
    }
    let s = data[pos];
    if s & 0x1Fu8 != 0u8 {
        return Err(WalkError::UnknownItem(FRN_POSITION_ACCURACY));
    }
    let mut l: usize = 0;
    if s & ACC_DOP != 0u8 {
        l = l + 6;
    }
    if s & ACC_SDP != 0u8 {
        l = l + 6;
    }
    if s & ACC_SDH != 0u8 {
        l = l + 2;
    }
    if l > data.len() - pos - 1 {
        return Err(WalkError::Truncated);
    }
    Ok(1 + l)
}

fn take_item(data: &[u8], pos: usize, frn: u8) -> (r: Result<usize, WalkError>)
    requires
        pos <= data.len(),
    ensures
        crate::wire::as_int_len(r) == item_len(data@, frn, pos as int),
        r matches Ok(l) ==> pos + l <= data.len(),
{
    let r = match item_format(frn) {
        None => Err(WalkError::UnknownItem(frn)),
        Some(ItemFormat::Fixed(n)) => take_fixed(data, pos, n),
        Some(ItemFormat::Extended) => take_extended(data, pos),
        Some(ItemFormat::Repetitive(per)) => take_repetitive(data, pos, per),
        Some(ItemFormat::CompoundAccuracy) => take_accuracy(data, pos),
        Some(ItemFormat::Explicit) => take_explicit(data, pos),
    };
    proof {
        crate::fspec::lemma_chain_len_bound(data@, pos as int);
    }
    r
}

/// The position accuracy an I020/500 item `b` reports: the larger of the
/// SDP subfield's σx and σy (0.25 m steps), or none without SDP.
pub open spec fn accuracy_sigma(b: Seq<u8>) -> Option<u16> {
    let p: int = if b[0] & ACC_DOP != 0u8 {
        7
    } else {
        1
    };
    if b[0] & ACC_SDP != 0u8 {
        let x = be16(b[p], b[p + 1]);
        let y = be16(b[p + 2], b[p + 3]);
        Some(
            (if x >= y {
                x
            } else {
                y
            }) as u16,
        )
    } else {
        None
    }
}

/// One decoded CAT020 multilateration target report.
#[derive(Debug, Clone, Copy)]
pub struct DecodedMlatReport {
    /// I020/010 — System Area Code.
    pub sac: u8,
    /// I020/010 — System Identification Code.
    pub sic: u8,
    /// I020/140 — time of day, 1/128-second ticks.
    pub time_ticks: Option<u32>,
    /// I020/041 — WGS-84 `(lat, lon)` in 180/2²⁵-degree steps.
    pub position: Option<(i32, i32)>,
    /// I020/090 — flight level, quarter flight levels.
    pub flight_level: Option<i32>,
    /// I020/105 — geometric height, 6.25 ft steps.
    pub geometric_height: Option<i16>,
    /// I020/070 — Mode 3/A code (low 12 bits).
    pub mode_3a: Option<u16>,
    /// I020/220 — 24-bit ICAO address.
    pub icao_address: Option<u32>,
    /// I020/245 — target identification.
    pub callsign: Option<Callsign>,
    /// I020/161 — track number (low 12 bits).
    pub track_number: Option<u16>,
    /// I020/500 SDP — conservative 1σ position accuracy, 0.25 m steps.
    pub sigma_pos: Option<u16>,
    /// I020/020 RAB — a field monitor (fixed transponder).
    pub field_monitor: bool,
    /// I020/020 SIM/TST — simulated or test target.
    pub simulated_or_test: bool,
    /// I020/020 GBS — on the ground.
    pub ground_bit: bool,
    /// I020/020 SPI — ident pulse.
    pub spi: bool,
}

/// The items of one CAT020 record decoded so far.
#[derive(Debug, Clone, Copy)]
pub struct MlatFields {
    /// I020/010.
    pub source: Option<(u8, u8)>,
    /// The report as decoded so far (its identity fields unused).
    pub report: DecodedMlatReport,
}

/// No item decoded yet.
pub open spec fn no_fields() -> MlatFields {
    MlatFields {
        source: None,
        report: DecodedMlatReport {
            sac: 0,
            sic: 0,
            time_ticks: None,
            position: None,
            flight_level: None,
            geometric_height: None,
            mode_3a: None,
            icao_address: None,
            callsign: None,
            track_number: None,
            sigma_pos: None,
            field_monitor: false,
            simulated_or_test: false,
            ground_bit: false,
            spi: false,
        },
    }
}

/// Fold the octets `b` of item `frn` into the report decoded so far.
#[verifier::opaque]
pub open spec fn apply_report(frn: u8, b: Seq<u8>, r: DecodedMlatReport) -> DecodedMlatReport {
    if frn == FRN_TARGET_REPORT_DESCRIPTOR {
        if b.len() >= 2 {
            DecodedMlatReport {
                field_monitor: b[1] & TRD_EXT_RAB != 0u8,
                spi: b[1] & TRD_EXT_SPI != 0u8,
                ground_bit: b[1] & TRD_EXT_GBS != 0u8,
                simulated_or_test: b[1] & (TRD_EXT_SIM | TRD_EXT_TST) != 0u8,
                ..r
            }
        } else {
            r
        }
    } else if frn == FRN_TIME_OF_DAY {
        DecodedMlatReport { time_ticks: Some(be24(b[0], b[1], b[2]) as u32), ..r }
    } else if frn == FRN_POSITION_WGS84 {
        DecodedMlatReport {
            position: Some(
                (i32_of(b[0], b[1], b[2], b[3]) as i32, i32_of(b[4], b[5], b[6], b[7]) as i32),
            ),
            ..r
        }
    } else if frn == FRN_MODE_3A_CODE {
        DecodedMlatReport { mode_3a: Some((be16(b[0], b[1]) % 4096) as u16), ..r }
    } else if frn == FRN_FLIGHT_LEVEL {
        DecodedMlatReport { flight_level: Some(flight_level_of(b[0], b[1]) as i32), ..r }
    } else if frn == FRN_GEOMETRIC_HEIGHT {
        DecodedMlatReport { geometric_height: Some(i16_of(b[0], b[1]) as i16), ..r }
    } else if frn == FRN_TARGET_ADDRESS {
        DecodedMlatReport { icao_address: Some(be24(b[0], b[1], b[2]) as u32), ..r }
    } else if frn == FRN_TARGET_IDENTIFICATION {
        DecodedMlatReport {
            callsign: Some(callsign_of(aircraft_id_chars(b.subrange(1, 7)))),
            ..r
        }
    } else if frn == FRN_TRACK_NUMBER {
        DecodedMlatReport { track_number: Some((be16(b[0], b[1]) % 4096) as u16), ..r }
    } else if frn == FRN_POSITION_ACCURACY {
        DecodedMlatReport { sigma_pos: accuracy_sigma(b), ..r }
    } else {
        r
    }
}

/// Fold the octets `b` of item `frn` into the fields decoded so far.
pub open spec fn apply_item(frn: u8, b: Seq<u8>, acc: MlatFields) -> MlatFields {
    if frn == FRN_DATA_SOURCE {
        MlatFields { source: Some((b[0], b[1])), ..acc }
    } else {
        MlatFields { report: apply_report(frn, b, acc.report), ..acc }
    }
}

/// The report the decoded items describe; I020/010 is required.
pub open spec fn finish_fields(f: MlatFields) -> Result<DecodedMlatReport, u8> {
    match f.source {
        None => Err(FRN_DATA_SOURCE),
        Some((sac, sic)) => Ok(DecodedMlatReport { sac, sic, ..f.report }),
    }
}

fn decode_accuracy_sigma(data: &[u8], pos: usize, l: usize) -> (r: Option<u16>)
    requires
        pos + l <= data.len(),
        accuracy_len(data@, pos as int) == Ok::<int, WalkError>(l as int),
    ensures
        r == accuracy_sigma(data@.subrange(pos as int, pos + l)),
{
    let ghost b = data@.subrange(pos as int, pos + l);
    let s = data[pos];
    let p: usize = if s & ACC_DOP != 0u8 {
        7
    } else {
        1
    };
    if s & ACC_SDP != 0u8 {
        assert(p + 4 <= l);
        let x = be16_at(data, pos + p);
        let y = be16_at(data, pos + p + 2);
        assert(b[p as int] == data@[pos + p]);
        assert(b[p + 1] == data@[pos + p + 1]);
        assert(b[p + 2] == data@[pos + p + 2]);
        assert(b[p + 3] == data@[pos + p + 3]);
        Some(
            if x >= y {
                x
            } else {
                y
            },
        )
    } else {
        None
    }
}

/// The CAT020 record model.
pub struct Cat020Format;

impl RecordFormat for Cat020Format {
    type Fields = MlatFields;

    type Report = DecodedMlatReport;

    open spec fn category() -> u8 {
        CATEGORY
    }

    open spec fn item_len(data: Seq<u8>, frn: u8, pos: int, acc: MlatFields) -> Result<
        int,
        BlockError,
    > {
        as_block_len(item_len(data, frn, pos))
    }

    open spec fn apply(frn: u8, b: Seq<u8>, acc: MlatFields) -> MlatFields {
        apply_item(frn, b, acc)
    }

    open spec fn initial() -> MlatFields {
        no_fields()
    }

    open spec fn finish_spec(f: MlatFields) -> Result<DecodedMlatReport, u8> {
        finish_fields(f)
    }

    fn category_octet() -> (c: u8) {
        CATEGORY
    }

    fn initial_fields() -> (f: MlatFields) {
        MlatFields {
            source: None,
            report: DecodedMlatReport {
                sac: 0,
                sic: 0,
                time_ticks: None,
                position: None,
                flight_level: None,
                geometric_height: None,
                mode_3a: None,
                icao_address: None,
                callsign: None,
                track_number: None,
                sigma_pos: None,
                field_monitor: false,
                simulated_or_test: false,
                ground_bit: false,
                spi: false,
            },
        }
    }

    fn decode_item(data: &[u8], pos: usize, frn: u8, acc: MlatFields) -> (r: Result<
        (MlatFields, usize),
        BlockError,
    >) {
        reveal(apply_report);
        let l = match take_item(data, pos, frn) {
            Ok(l) => l,
            Err(e) => return Err(failure_of(e)),
        };
        let end = pos + l;
        let ghost b = data@.subrange(pos as int, end as int);
        let mut fields = acc;
        if frn == FRN_DATA_SOURCE {
            fields.source = Some((data[pos], data[pos + 1]));
        } else if frn == FRN_TARGET_REPORT_DESCRIPTOR {
            if l >= 2 {
                let ext1 = data[pos + 1];
                fields.report.field_monitor = ext1 & TRD_EXT_RAB != 0u8;
                fields.report.spi = ext1 & TRD_EXT_SPI != 0u8;
                fields.report.ground_bit = ext1 & TRD_EXT_GBS != 0u8;
                fields.report.simulated_or_test = ext1 & (TRD_EXT_SIM | TRD_EXT_TST) != 0u8;
            }
        } else if frn == FRN_TIME_OF_DAY {
            fields.report.time_ticks = Some(be24_at(data, pos));
        } else if frn == FRN_POSITION_WGS84 {
            fields.report.position = Some((i32_at(data, pos), i32_at(data, pos + 4)));
        } else if frn == FRN_MODE_3A_CODE {
            let word = be16_at(data, pos);
            assert(word & 0x0FFFu16 == word % 4096) by (bit_vector);
            fields.report.mode_3a = Some(word & 0x0FFFu16);
        } else if frn == FRN_FLIGHT_LEVEL {
            let level = crate::cat048::decode_flight_level(
                vstd::slice::slice_subrange(data, pos, end),
            );
            fields.report.flight_level = Some(level);
        } else if frn == FRN_GEOMETRIC_HEIGHT {
            fields.report.geometric_height = Some(i16_at(data, pos));
        } else if frn == FRN_TARGET_ADDRESS {
            fields.report.icao_address = Some(be24_at(data, pos));
        } else if frn == FRN_TARGET_IDENTIFICATION {
            let chars = vstd::slice::slice_subrange(data, pos + 1, pos + 7);
            assert(chars@ =~= b.subrange(1, 7));
            fields.report.callsign = Some(decode_aircraft_id(chars));
        } else if frn == FRN_TRACK_NUMBER {
            let word = be16_at(data, pos);
            assert(word & 0x0FFFu16 == word % 4096) by (bit_vector);
            fields.report.track_number = Some(word & 0x0FFFu16);
        } else if frn == FRN_POSITION_ACCURACY {
            fields.report.sigma_pos = decode_accuracy_sigma(data, pos, l);
        }
        Ok((fields, end))
    }

    fn finish(f: MlatFields) -> (r: Result<DecodedMlatReport, u8>) {
        match f.source {
            None => Err(FRN_DATA_SOURCE),
            Some((sac, sic)) => {
                let mut report = f.report;
                report.sac = sac;
                report.sic = sic;
                Ok(report)
            },
        }
    }
}

/// Errors that can occur while decoding a CAT020 data block.
#[derive(Debug, Clone, Copy, PartialEq, Eq, Structural)]
pub enum Cat020DecodeError {
    /// The input ended before a complete block/record/item could be read.
    Truncated,
    /// The first octet was not 20.
    WrongCategory(u8),
    /// The `LEN` field did not match the actual input length.
    LengthMismatch { declared: usize, actual: usize },
    /// The FSPEC marked an FRN present that this decoder cannot length.
    UnknownItem(u8),
    /// A record was missing the mandatory I020/010.
    MissingItem(u8),
    /// The FSPEC's FX chain ran past the supported FRN space.
    FspecTooLong,
}

impl Cat020DecodeError {
    /// The error in the terms every record format shares.
    pub open spec fn kind(self) -> BlockError {
        match self {
            Cat020DecodeError::Truncated => BlockError::Truncated,
            Cat020DecodeError::WrongCategory(c) => BlockError::WrongCategory(c),
            Cat020DecodeError::LengthMismatch { declared, actual } => BlockError::LengthMismatch {
                declared,
                actual,
            },
            Cat020DecodeError::UnknownItem(frn) => BlockError::UnknownItem(frn),
            Cat020DecodeError::MissingItem(frn) => BlockError::MissingItem(frn),
            Cat020DecodeError::FspecTooLong => BlockError::FspecTooLong,
        }
    }

    /// A human-readable description of the error.
    pub fn message(&self) -> (r: String)
        ensures
            r@ == block_error_text(20, self.kind(), UnknownItemWording::Unskippable),
    {
        let kind = match *self {
            Cat020DecodeError::Truncated => BlockError::Truncated,
            Cat020DecodeError::WrongCategory(c) => BlockError::WrongCategory(c),
            Cat020DecodeError::LengthMismatch { declared, actual } => BlockError::LengthMismatch {
                declared,
                actual,
            },
            Cat020DecodeError::UnknownItem(frn) => BlockError::UnknownItem(frn),
            Cat020DecodeError::MissingItem(frn) => BlockError::MissingItem(frn),
            Cat020DecodeError::FspecTooLong => BlockError::FspecTooLong,
        };
        block_error_message(20, kind, UnknownItemWording::Unskippable)
    }
}

/// A block error as a CAT020 error.
pub open spec fn cat020_error(e: BlockError) -> Cat020DecodeError {
    match e {
        BlockError::Truncated => Cat020DecodeError::Truncated,
        BlockError::WrongCategory(c) => Cat020DecodeError::WrongCategory(c),
        BlockError::LengthMismatch { declared, actual } => Cat020DecodeError::LengthMismatch {
            declared,
            actual,
        },
        BlockError::UnknownItem(f) => Cat020DecodeError::UnknownItem(f),
        BlockError::MissingItem(f) => Cat020DecodeError::MissingItem(f),
        BlockError::FspecTooLong => Cat020DecodeError::FspecTooLong,
    }
}

fn error_of(e: BlockError) -> (r: Cat020DecodeError)
    ensures
        r == cat020_error(e),
{
    match e {
        BlockError::Truncated => Cat020DecodeError::Truncated,
        BlockError::WrongCategory(c) => Cat020DecodeError::WrongCategory(c),
        BlockError::LengthMismatch { declared, actual } => Cat020DecodeError::LengthMismatch {
            declared,
            actual,
        },
        BlockError::UnknownItem(f) => Cat020DecodeError::UnknownItem(f),
        BlockError::MissingItem(f) => Cat020DecodeError::MissingItem(f),
        BlockError::FspecTooLong => Cat020DecodeError::FspecTooLong,
    }
}

/// Decode a CAT020 data block into one report per record; never panics on
/// input.
pub fn decode_mlat_reports(bytes: &[u8]) -> (r: Result<Vec<DecodedMlatReport>, Cat020DecodeError>)
    ensures
        match r {
            Ok(reports) => block::<Cat020Format>(bytes@) == Ok::<
                Seq<DecodedMlatReport>,
                BlockError,
            >(reports@),
            Err(e) => block::<Cat020Format>(bytes@) is Err && e == cat020_error(
                block::<Cat020Format>(bytes@)->Err_0,
            ),
        },
{
    match decode_records::<Cat020Format>(bytes) {
        Ok(reports) => Ok(reports),
        Err(f) => Err(error_of(f)),
    }
}

/// Folding the items from FRN `k` on leaves the identity, time and
/// accuracy fields as `acc` had them, except that each item present among
/// them sets its own field from its own octets.
proof fn lemma_fold_keeps_fields(items: Map<u8, Seq<u8>>, k: int, acc: MlatFields)
    requires
        1 <= k,
    ensures
        ({
            let f = crate::wire::apply_from(items, k, acc, fold_of::<Cat020Format>());
            &&& f.source == (if k <= 1 && items.contains_key(1) {
                Some((items[1u8][0], items[1u8][1]))
            } else {
                acc.source
            })
            &&& f.report.time_ticks == (if k <= 3 && items.contains_key(3) {
                Some((items[3u8][0] * 65536 + items[3u8][1] * 256 + items[3u8][2]) as u32)
            } else {
                acc.report.time_ticks
            })
            &&& f.report.track_number == (if k <= 6 && items.contains_key(6) {
                Some(((items[6u8][0] * 256 + items[6u8][1]) % 4096) as u16)
            } else {
                acc.report.track_number
            })
            &&& f.report.mode_3a == (if k <= 8 && items.contains_key(8) {
                Some(((items[8u8][0] * 256 + items[8u8][1]) % 4096) as u16)
            } else {
                acc.report.mode_3a
            })
            &&& f.report.icao_address == (if k <= 12 && items.contains_key(12) {
                Some((items[12u8][0] * 65536 + items[12u8][1] * 256 + items[12u8][2]) as u32)
            } else {
                acc.report.icao_address
            })
            &&& f.report.sigma_pos == (if k <= 19 && items.contains_key(19) {
                accuracy_sigma(items[19u8])
            } else {
                acc.report.sigma_pos
            })
            &&& f.report.position == (if k <= 4 && items.contains_key(4) {
                Some((as_signed(items[4u8][0] * 16777216 + items[4u8][1] * 65536 + items[4u8][2] * 256 + items[4u8][3], 0x8000_0000) as i32, as_signed(items[4u8][4] * 16777216 + items[4u8][5] * 65536 + items[4u8][6] * 256 + items[4u8][7], 0x8000_0000) as i32))
            } else {
                acc.report.position
            })
            &&& f.report.flight_level == (if k <= 10 && items.contains_key(10) {
                Some(as_signed((items[10u8][0] * 256 + items[10u8][1]) % 16384, 8192) as i32)
            } else {
                acc.report.flight_level
            })
            &&& f.report.geometric_height == (if k <= 15 && items.contains_key(15) {
                Some(as_signed((items[15u8][0] * 256 + items[15u8][1]), 0x8000) as i16)
            } else {
                acc.report.geometric_height
            })
        }),
    decreases 256 - k,
{
    if k <= 255 {
        if items.contains_key(k as u8) {
            let next = apply_item(k as u8, items[k as u8], acc);
            lemma_fold_keeps_fields(items, k + 1, next);
            reveal(apply_report);
        } else {
            lemma_fold_keeps_fields(items, k + 1, acc);
        }
    }
}

/// Where the SDP subfield of an I020/500 item starts: after the DOP
/// subfield when that is present.
pub open spec fn sdp_start(b: Seq<u8>) -> int {
    if b[0] & ACC_DOP != 0u8 {
        7
    } else {
        1
    }
}

/// The position accuracy of an I020/500 item with an SDP subfield is the
/// larger of its σx and σy (each two octets, big-endian): never less than
/// either, and one of them. Without SDP there is none.
pub proof fn lemma_accuracy_is_the_larger_sigma(b: Seq<u8>)
    requires
        b.len() >= sdp_start(b) + 4,
    ensures
        b[0] & ACC_SDP != 0u8 ==> {
            let p = sdp_start(b);
            let x = b[p] * 256 + b[p + 1];
            let y = b[p + 2] * 256 + b[p + 3];
            accuracy_sigma(b) matches Some(s) && s >= x && s >= y && (s == x || s == y)
        },
        b[0] & ACC_SDP == 0u8 ==> accuracy_sigma(b) is None,
{
}

/// Decoding a record laid out as an FSPEC followed by its items in FRN
/// order (what `RecordBuilder` writes) ends right after it and reports what
/// the octets say: SAC and SIC from I020/010; the time of day as the 24-bit
/// count of I020/140; the track number and the Mode 3/A code as the low 12
/// bits of I020/161 and I020/070; the target address as the 24 bits of
/// I020/220; and, from an I020/500 with an SDP subfield, the larger of σx
/// and σy; the position as the two 32-bit two's-complement counts of
/// I020/041; the flight level as the 14-bit two's-complement field of
/// I020/090; the geometric height as the 16-bit two's-complement count of
/// I020/105. An absent item leaves its field empty. The record must carry
/// I020/010, and each item must read as exactly its own octets.
pub proof fn lemma_record_reports_its_octets(data: Seq<u8>, pos: int, items: Map<u8, Seq<u8>>)
    requires
        crate::wire::frns_in_uap_range(items),
        items.contains_key(FRN_DATA_SOURCE),
        crate::wire::holds_at(data, pos, crate::fspec::record_bytes(items)),
        items_delimit::<Cat020Format>(data, items),
    ensures
        record_at::<Cat020Format>(data, pos) matches Ok((r, end)) && {
            &&& end == pos + crate::fspec::record_bytes(items).len()
            &&& r.sac == items[FRN_DATA_SOURCE][0] && r.sic == items[FRN_DATA_SOURCE][1]
            &&& r.time_ticks == (if items.contains_key(FRN_TIME_OF_DAY) {
                let b = items[FRN_TIME_OF_DAY];
                Some((b[0] * 65536 + b[1] * 256 + b[2]) as u32)
            } else {
                None
            })
            &&& r.track_number == (if items.contains_key(FRN_TRACK_NUMBER) {
                let b = items[FRN_TRACK_NUMBER];
                Some(((b[0] * 256 + b[1]) % 4096) as u16)
            } else {
                None
            })
            &&& r.mode_3a == (if items.contains_key(FRN_MODE_3A_CODE) {
                let b = items[FRN_MODE_3A_CODE];
                Some(((b[0] * 256 + b[1]) % 4096) as u16)
            } else {
                None
            })
            &&& r.icao_address == (if items.contains_key(FRN_TARGET_ADDRESS) {
                let b = items[FRN_TARGET_ADDRESS];
                Some((b[0] * 65536 + b[1] * 256 + b[2]) as u32)
            } else {
                None
            })
            &&& (items.contains_key(FRN_POSITION_ACCURACY) && items[FRN_POSITION_ACCURACY][0]
                & ACC_SDP != 0u8 ==> {
                let b = items[FRN_POSITION_ACCURACY];
                let p = sdp_start(b);
                let x = b[p] * 256 + b[p + 1];
                let y = b[p + 2] * 256 + b[p + 3];
                r.sigma_pos matches Some(s) && s >= x && s >= y && (s == x || s == y)
            })
            &&& (!items.contains_key(FRN_POSITION_ACCURACY) || items[FRN_POSITION_ACCURACY][0]
                & ACC_SDP == 0u8 ==> r.sigma_pos is None)
            &&& r.position == (if items.contains_key(FRN_POSITION_WGS84) {
                let b = items[FRN_POSITION_WGS84];
                Some((as_signed(b[0] * 16777216 + b[1] * 65536 + b[2] * 256 + b[3], 0x8000_0000) as i32, as_signed(b[4] * 16777216 + b[5] * 65536 + b[6] * 256 + b[7], 0x8000_0000) as i32))
            } else {
                None
            })
            &&& r.flight_level == (if items.contains_key(FRN_FLIGHT_LEVEL) {
                let b = items[FRN_FLIGHT_LEVEL];
                Some(as_signed((b[0] * 256 + b[1]) % 16384, 8192) as i32)
            } else {
                None
            })
            &&& r.geometric_height == (if items.contains_key(FRN_GEOMETRIC_HEIGHT) {
                let b = items[FRN_GEOMETRIC_HEIGHT];
                Some(as_signed((b[0] * 256 + b[1]), 0x8000) as i16)
            } else {
                None
            })
        },
{
    assert(items.contains_key(FRN_DATA_SOURCE));
    lemma_record_at_encoded::<Cat020Format>(data, pos, items);
    lemma_fold_keeps_fields(items, 1, no_fields());
}

} // verus!

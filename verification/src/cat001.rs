//! CAT001 input decode — legacy Monoradar Target Reports.
//!
//! The predecessor of CAT048, still spoken by older radar heads. Its records
//! come in two UAPs: I001/020's TYP bit selects the plot or the track UAP,
//! and every FRN from 3 on means a different item in each. FRNs 1 and 2
//! (identity and descriptor) are shared; an item beyond them without a
//! descriptor cannot be interpreted and is rejected, as are the spare and
//! RFS FRNs of either UAP.
//!
//! Values stay in wire counts: RHO in 1/128 NM, THETA in 360/2¹⁶ degrees,
//! flight level in quarter flight levels, truncated time in 1/128 s within
//! a 512-second cycle.

use vstd::prelude::*;

use crate::bds::{no_daps, RawDaps};
use crate::cat048::{flight_level_of, DecodedTargetReport, Detection, PolarPosition};
use crate::octets::{be16, be16_at};
use crate::record::{as_block_len, block, decode_records, failure_of, BlockError, RecordFormat};
use crate::wire::{explicit_len, extended_len, fixed_len, take_explicit, take_extended, take_fixed, WalkError};

use crate::describe::{block_error_message, block_error_text, UnknownItemWording};

verus! {

/// The ASTERIX category number for legacy monoradar target reports.
pub const CATEGORY: u8 = 1;

/// I001/010 — Data Source Identifier (both UAPs).
pub const FRN_DATA_SOURCE: u8 = 1;
/// I001/020 — Target Report Descriptor (both UAPs).
pub const FRN_TARGET_REPORT_DESCRIPTOR: u8 = 2;

/// I001/020: TYP — 1 selects the track UAP.
pub const TRD_TYP: u8 = 0x80;
/// I001/020: SIM — simulated target.
pub const TRD_SIM: u8 = 0x40;
/// I001/020: SPI.
pub const TRD_SPI: u8 = 0x04;

/// How a CAT001 data item is laid out on the wire.
#[derive(Debug, Clone, Copy, PartialEq, Eq, Structural)]
pub enum ItemFormat {
    /// A fixed number of octets.
    Fixed(usize),
    /// An FX-chained sequence of octets.
    Extended,
    /// A one-octet length indicator giving the item's total length.
    Explicit,
}

/// The wire layout of each FRN of the plot UAP; 16–19 are spare and 21 is
/// the RFS indicator.
pub open spec fn plot_format_of(frn: u8) -> Option<ItemFormat> {
    if frn == 1 || frn == 4 || frn == 5 || frn == 7 || frn == 8 || frn == 11 || frn == 13 {
        Some(ItemFormat::Fixed(2))
    } else if frn == 3 || frn == 12 {
        Some(ItemFormat::Fixed(4))
    } else if frn == 9 || frn == 10 || frn == 15 {
        Some(ItemFormat::Fixed(1))
    } else if frn == 2 || frn == 6 || frn == 14 {
        Some(ItemFormat::Extended)
    } else if frn == 20 {
        Some(ItemFormat::Explicit)
    } else {
        None
    }
}

/// The wire layout of each FRN of the track UAP; 21 is the RFS indicator.
pub open spec fn track_format_of(frn: u8) -> Option<ItemFormat> {
    if frn == 1 || frn == 3 || frn == 7 || frn == 8 || frn == 9 || frn == 15 || frn == 16 || frn
        == 18 {
        Some(ItemFormat::Fixed(2))
    } else if frn == 4 || frn == 5 || frn == 6 || frn == 17 {
        Some(ItemFormat::Fixed(4))
    } else if frn == 11 || frn == 12 || frn == 22 {
        Some(ItemFormat::Fixed(1))
    } else if frn == 2 || frn == 10 || frn == 13 || frn == 14 || frn == 19 {
        Some(ItemFormat::Extended)
    } else if frn == 20 {
        Some(ItemFormat::Explicit)
    } else {
        None
    }
}

/// The wire layout of each FRN of the plot UAP.
pub fn plot_item_format(frn: u8) -> (r: Option<ItemFormat>)
    ensures
        r == plot_format_of(frn),
{
    if frn == 1 || frn == 4 || frn == 5 || frn == 7 || frn == 8 || frn == 11 || frn == 13 {
        Some(ItemFormat::Fixed(2))
    } else if frn == 3 || frn == 12 {
        Some(ItemFormat::Fixed(4))
    } else if frn == 9 || frn == 10 || frn == 15 {
        Some(ItemFormat::Fixed(1))
    } else if frn == 2 || frn == 6 || frn == 14 {
        Some(ItemFormat::Extended)
    } else if frn == 20 {
        Some(ItemFormat::Explicit)
    } else {
        None
    }
}

/// The wire layout of each FRN of the track UAP.
pub fn track_item_format(frn: u8) -> (r: Option<ItemFormat>)
    ensures
        r == track_format_of(frn),
{
    if frn == 1 || frn == 3 || frn == 7 || frn == 8 || frn == 9 || frn == 15 || frn == 16 || frn
        == 18 {
        Some(ItemFormat::Fixed(2))
    } else if frn == 4 || frn == 5 || frn == 6 || frn == 17 {
        Some(ItemFormat::Fixed(4))
    } else if frn == 11 || frn == 12 || frn == 22 {
        Some(ItemFormat::Fixed(1))
    } else if frn == 2 || frn == 10 || frn == 13 || frn == 14 || frn == 19 {
        Some(ItemFormat::Extended)
    } else if frn == 20 {
        Some(ItemFormat::Explicit)
    } else {
        None
    }
}

/// The two UAPs: the plot UAP has formats for FRNs 1–15 and 20, the track
/// UAP for FRNs 1–20 and 22; both share the shape of FRNs 1 and 2.
pub proof fn lemma_uap_formats(frn: u8)
    ensures
        plot_format_of(frn) is Some <==> (1 <= frn <= 15 || frn == 20),
        track_format_of(frn) is Some <==> (1 <= frn <= 20 || frn == 22),
        plot_format_of(1) == track_format_of(1),
        plot_format_of(2) == track_format_of(2),
{
}

/// How many octets an item of format `f` at `pos` occupies.
pub open spec fn format_len(data: Seq<u8>, pos: int, f: ItemFormat) -> Result<int, WalkError> {
    match f {
        ItemFormat::Fixed(n) => fixed_len(data, pos, n as int),
        ItemFormat::Extended => extended_len(data, pos),
        ItemFormat::Explicit => explicit_len(data, pos),
    }
}

/// I001/040 — measured position in wire counts: RHO in 1/128 NM, THETA in
/// 360/2¹⁶ degrees.
#[derive(Debug, Clone, Copy, PartialEq, Eq, Structural)]
pub struct LegacyPolar {
    /// Slant range, 1/128 NM.
    pub rho: u16,
    /// Azimuth, 360/2¹⁶ degrees.
    pub theta: u16,
}

/// One decoded CAT001 target report.
#[derive(Debug, Clone, Copy, PartialEq, Eq, Structural)]
pub struct DecodedLegacyReport {
    /// I001/010 — System Area Code.
    pub sac: u8,
    /// I001/010 — System Identification Code.
    pub sic: u8,
    /// I001/141 — truncated time of day, 1/128-second ticks within a
    /// 512-second cycle.
    pub truncated_time_ticks: Option<u16>,
    /// I001/020 SSR/PSR — the detection kind.
    pub detection: Detection,
    /// I001/020 SIM — simulated target.
    pub simulated: bool,
    /// I001/040 — measured position.
    pub position: Option<LegacyPolar>,
    /// I001/070 — Mode 3/A code (low 12 bits).
    pub mode_3a: Option<u16>,
    /// I001/090 — flight level, quarter flight levels.
    pub flight_level: Option<i32>,
    /// I001/161 — track number (track UAP only).
    pub track_number: Option<u16>,
    /// I001/020 SPI.
    pub spi: bool,
}

/// The CAT048-shaped report a legacy report becomes once the adapter has
/// expanded its truncated time: range scaled from 1/128 to 1/256 NM, no
/// address, identification or Mode S parameters.
pub open spec fn target_report_of(r: DecodedLegacyReport, time_ticks: Option<u32>) -> DecodedTargetReport {
    DecodedTargetReport {
        sac: r.sac,
        sic: r.sic,
        time_ticks,
        detection: r.detection,
        position: match r.position {
            Some(p) => Some(PolarPosition { rho: (p.rho * 2) as u32, theta: p.theta }),
            None => None,
        },
        mode_3a: r.mode_3a,
        flight_level: r.flight_level,
        icao_address: None,
        callsign: None,
        track_number: r.track_number,
        spi: r.spi,
        daps: no_daps(),
    }
}

impl DecodedLegacyReport {
    /// The CAT048-shaped report for this legacy report, stamped with the
    /// time the adapter expanded from the truncated time.
    pub fn into_target_report(self, time_ticks: Option<u32>) -> (r: DecodedTargetReport)
        ensures
            r == target_report_of(self, time_ticks),
    {
        DecodedTargetReport {
            sac: self.sac,
            sic: self.sic,
            time_ticks,
            detection: self.detection,
            position: match self.position {
                Some(p) => Some(PolarPosition { rho: p.rho as u32 * 2, theta: p.theta }),
                None => None,
            },
            mode_3a: self.mode_3a,
            flight_level: self.flight_level,
            icao_address: None,
            callsign: None,
            track_number: self.track_number,
            spi: self.spi,
            daps: RawDaps::empty(),
        }
    }
}

/// The items of one CAT001 record decoded so far.
#[derive(Debug, Clone, Copy)]
pub struct LegacyFields {
    /// I001/010.
    pub source: Option<(u8, u8)>,
    /// I001/020 TYP: `Some(true)` for the track UAP, `Some(false)` for the
    /// plot UAP, `None` before the descriptor.
    pub track_uap: Option<bool>,
    /// The report as decoded so far (its identity fields unused).
    pub report: DecodedLegacyReport,
}

/// The detection an I001/020 octet's SSR/PSR bits name.
pub open spec fn legacy_detection(b: u8) -> Detection {
    let bits = (b >> 4u8) & 3u8;
    if bits == 0 {
        Detection::NoDetection
    } else if bits == 1 {
        Detection::Psr
    } else if bits == 2 {
        Detection::Ssr
    } else {
        Detection::SsrPsr
    }
}

/// How many octets the item `frn` at `pos` occupies given the UAP the
/// record's descriptor selected.
pub open spec fn item_len(data: Seq<u8>, frn: u8, pos: int, track_uap: Option<bool>) -> Result<
    int,
    BlockError,
> {
    if frn == FRN_DATA_SOURCE {
        as_block_len(fixed_len(data, pos, 2))
    } else if frn == FRN_TARGET_REPORT_DESCRIPTOR {
        as_block_len(extended_len(data, pos))
    } else {
        match track_uap {
            None => Err(BlockError::MissingItem(FRN_TARGET_REPORT_DESCRIPTOR)),
            Some(track) => match (if track {
                track_format_of(frn)
            } else {
                plot_format_of(frn)
            }) {
                None => Err(BlockError::UnknownItem(frn)),
                Some(f) => as_block_len(format_len(data, pos, f)),
            },
        }
    }
}

/// Fold the octets `b` of item `frn` into the report decoded so far, by
/// the UAP selected.
pub open spec fn apply_report(frn: u8, b: Seq<u8>, track: bool, r: DecodedLegacyReport) -> DecodedLegacyReport {
    if (!track && frn == 3) || (track && frn == 4) {
        DecodedLegacyReport {
            position: Some(
                LegacyPolar { rho: be16(b[0], b[1]) as u16, theta: be16(b[2], b[3]) as u16 },
            ),
            ..r
        }
    } else if (!track && frn == 4) || (track && frn == 7) {
        DecodedLegacyReport { mode_3a: Some((be16(b[0], b[1]) % 4096) as u16), ..r }
    } else if (!track && frn == 5) || (track && frn == 8) {
        DecodedLegacyReport { flight_level: Some(flight_level_of(b[0], b[1]) as i32), ..r }
    } else if (!track && frn == 7) || (track && frn == 9) {
        DecodedLegacyReport { truncated_time_ticks: Some(be16(b[0], b[1]) as u16), ..r }
    } else if track && frn == 3 {
        DecodedLegacyReport { track_number: Some((be16(b[0], b[1]) % 4096) as u16), ..r }
    } else {
        r
    }
}

/// Fold the octets `b` of item `frn` into the fields decoded so far.
pub open spec fn apply_item(frn: u8, b: Seq<u8>, acc: LegacyFields) -> LegacyFields {
    if frn == FRN_DATA_SOURCE {
        LegacyFields { source: Some((b[0], b[1])), ..acc }
    } else if frn == FRN_TARGET_REPORT_DESCRIPTOR {
        LegacyFields {
            track_uap: Some(b[0] & TRD_TYP != 0u8),
            report: DecodedLegacyReport {
                simulated: b[0] & TRD_SIM != 0u8,
                spi: b[0] & TRD_SPI != 0u8,
                detection: legacy_detection(b[0]),
                ..acc.report
            },
            ..acc
        }
    } else {
        match acc.track_uap {
            None => acc,
            Some(track) => LegacyFields { report: apply_report(frn, b, track, acc.report), ..acc },
        }
    }
}

/// The report the decoded items describe; I001/010 is required.
pub open spec fn finish_fields(f: LegacyFields) -> Result<DecodedLegacyReport, u8> {
    match f.source {
        None => Err(FRN_DATA_SOURCE),
        Some((sac, sic)) => Ok(DecodedLegacyReport { sac, sic, ..f.report }),
    }
}

/// Nothing decoded yet.
pub open spec fn no_fields() -> LegacyFields {
    LegacyFields {
        source: None,
        track_uap: None,
        report: DecodedLegacyReport {
            sac: 0,
            sic: 0,
            truncated_time_ticks: None,
            detection: Detection::NoDetection,
            simulated: false,
            position: None,
            mode_3a: None,
            flight_level: None,
            track_number: None,
            spi: false,
        },
    }
}

fn take_format(data: &[u8], pos: usize, f: ItemFormat) -> (r: Result<usize, WalkError>)
    requires
        pos <= data.len(),
    ensures
        crate::wire::as_int_len(r) == format_len(data@, pos as int, f),
        r matches Ok(l) ==> pos + l <= data.len(),
{
    let r = match f {
        ItemFormat::Fixed(n) => take_fixed(data, pos, n),
        ItemFormat::Extended => take_extended(data, pos),
        ItemFormat::Explicit => take_explicit(data, pos),
    };
    proof {
        crate::fspec::lemma_chain_len_bound(data@, pos as int);
    }
    r
}

/// The CAT001 record model.
pub struct Cat001Format;

impl RecordFormat for Cat001Format {
    type Fields = LegacyFields;

    type Report = DecodedLegacyReport;

    open spec fn category() -> u8 {
        CATEGORY
    }

    open spec fn item_len(data: Seq<u8>, frn: u8, pos: int, acc: LegacyFields) -> Result<
        int,
        BlockError,
    > {
        item_len(data, frn, pos, acc.track_uap)
    }

    open spec fn apply(frn: u8, b: Seq<u8>, acc: LegacyFields) -> LegacyFields {
        apply_item(frn, b, acc)
    }

    open spec fn initial() -> LegacyFields {
        no_fields()
    }

    open spec fn finish_spec(f: LegacyFields) -> Result<DecodedLegacyReport, u8> {
        finish_fields(f)
    }

    fn category_octet() -> (c: u8) {
        CATEGORY
    }

    fn initial_fields() -> (f: LegacyFields) {
        LegacyFields {
            source: None,
            track_uap: None,
            report: DecodedLegacyReport {
                sac: 0,
                sic: 0,
                truncated_time_ticks: None,
                detection: Detection::NoDetection,
                simulated: false,
                position: None,
                mode_3a: None,
                flight_level: None,
                track_number: None,
                spi: false,
            },
        }
    }

    fn decode_item(data: &[u8], pos: usize, frn: u8, acc: LegacyFields) -> (r: Result<
        (LegacyFields, usize),
        BlockError,
    >) {
        let fmt = if frn == FRN_DATA_SOURCE {
            ItemFormat::Fixed(2)
        } else if frn == FRN_TARGET_REPORT_DESCRIPTOR {
            ItemFormat::Extended
        } else {
            let found = match acc.track_uap {
                None => return Err(BlockError::MissingItem(FRN_TARGET_REPORT_DESCRIPTOR)),
                Some(true) => track_item_format(frn),
                Some(false) => plot_item_format(frn),
            };
            match found {
                None => return Err(BlockError::UnknownItem(frn)),
                Some(f) => f,
            }
        };
        let l = match take_format(data, pos, fmt) {
            Ok(l) => l,
            Err(e) => return Err(failure_of(e)),
        };
        let end = pos + l;
        let mut fields = acc;
        if frn == FRN_DATA_SOURCE {
            fields.source = Some((data[pos], data[pos + 1]));
        } else if frn == FRN_TARGET_REPORT_DESCRIPTOR {
            assert(l >= 1) by {
                crate::fspec::lemma_chain_len_bound(data@, pos as int);
            }
            let b = data[pos];
            fields.track_uap = Some(b & TRD_TYP != 0u8);
            fields.report.simulated = b & TRD_SIM != 0u8;
            fields.report.spi = b & TRD_SPI != 0u8;
            let bits = (b >> 4u8) & 3u8;
            fields.report.detection = if bits == 0 {
                Detection::NoDetection
            } else if bits == 1 {
                Detection::Psr
            } else if bits == 2 {
                Detection::Ssr
            } else {
                Detection::SsrPsr
            };
        } else {
            let track = match acc.track_uap {
                Some(t) => t,
                None => false,
            };
            if (!track && frn == 3) || (track && frn == 4) {
                fields.report.position = Some(
                    LegacyPolar { rho: be16_at(data, pos), theta: be16_at(data, pos + 2) },
                );
            } else if (!track && frn == 4) || (track && frn == 7) {
                let word = be16_at(data, pos);
                assert(word & 0x0FFFu16 == word % 4096) by (bit_vector);
                fields.report.mode_3a = Some(word & 0x0FFFu16);
            } else if (!track && frn == 5) || (track && frn == 8) {
                let level = crate::cat048::decode_flight_level(
                    vstd::slice::slice_subrange(data, pos, end),
                );
                fields.report.flight_level = Some(level);
            } else if (!track && frn == 7) || (track && frn == 9) {
                fields.report.truncated_time_ticks = Some(be16_at(data, pos));
            } else if track && frn == 3 {
                let word = be16_at(data, pos);
                assert(word & 0x0FFFu16 == word % 4096) by (bit_vector);
                fields.report.track_number = Some(word & 0x0FFFu16);
            }
        }
        Ok((fields, end))
    }

    fn finish(f: LegacyFields) -> (r: Result<DecodedLegacyReport, u8>) {
        match f.source {
            None => Err(FRN_DATA_SOURCE),
            Some((sac, sic)) => {
                let mut report = f.report;
                report.sac = sac;
                report.sic = sic;
                Ok(report)
            },
        }
    }
}

/// Errors that can occur while decoding a CAT001 data block.
#[derive(Debug, Clone, Copy, PartialEq, Eq, Structural)]
pub enum Cat001DecodeError {
    /// The input ended before a complete block/record/item could be read.
    Truncated,
    /// The first octet was not 1.
    WrongCategory(u8),
    /// The `LEN` field did not match the actual input length.
    LengthMismatch { declared: usize, actual: usize },
    /// The FSPEC marked a spare or RFS FRN of the selected UAP present.
    UnknownItem(u8),
    /// A record was missing I001/010, or marked a UAP-dependent item without I001/020.
    MissingItem(u8),
    /// The FSPEC's FX chain ran past the supported FRN space.
    FspecTooLong,
}

impl Cat001DecodeError {
    /// The error in the terms every record format shares.
    pub open spec fn kind(self) -> BlockError {
        match self {
            Cat001DecodeError::Truncated => BlockError::Truncated,
            Cat001DecodeError::WrongCategory(c) => BlockError::WrongCategory(c),
            Cat001DecodeError::LengthMismatch { declared, actual } => BlockError::LengthMismatch {
                declared,
                actual,
            },
            Cat001DecodeError::UnknownItem(frn) => BlockError::UnknownItem(frn),
            Cat001DecodeError::MissingItem(frn) => BlockError::MissingItem(frn),
            Cat001DecodeError::FspecTooLong => BlockError::FspecTooLong,
        }
    }

    /// A human-readable description of the error.
    pub fn message(&self) -> (r: String)
        ensures
            r@ == block_error_text(1, self.kind(), UnknownItemWording::Unskippable),
    {
        let kind = match *self {
            Cat001DecodeError::Truncated => BlockError::Truncated,
            Cat001DecodeError::WrongCategory(c) => BlockError::WrongCategory(c),
            Cat001DecodeError::LengthMismatch { declared, actual } => BlockError::LengthMismatch {
                declared,
                actual,
            },
            Cat001DecodeError::UnknownItem(frn) => BlockError::UnknownItem(frn),
            Cat001DecodeError::MissingItem(frn) => BlockError::MissingItem(frn),
            Cat001DecodeError::FspecTooLong => BlockError::FspecTooLong,
        };
        block_error_message(1, kind, UnknownItemWording::Unskippable)
    }
}

/// A block error as a CAT001 error.
pub open spec fn cat001_error(e: BlockError) -> Cat001DecodeError {
    match e {
        BlockError::Truncated => Cat001DecodeError::Truncated,
        BlockError::WrongCategory(c) => Cat001DecodeError::WrongCategory(c),
        BlockError::LengthMismatch { declared, actual } => Cat001DecodeError::LengthMismatch {
            declared,
            actual,
        },
        BlockError::UnknownItem(f) => Cat001DecodeError::UnknownItem(f),
        BlockError::MissingItem(f) => Cat001DecodeError::MissingItem(f),
        BlockError::FspecTooLong => Cat001DecodeError::FspecTooLong,
    }
}

fn error_of(e: BlockError) -> (r: Cat001DecodeError)
    ensures
        r == cat001_error(e),
{
    match e {
        BlockError::Truncated => Cat001DecodeError::Truncated,
        BlockError::WrongCategory(c) => Cat001DecodeError::WrongCategory(c),
        BlockError::LengthMismatch { declared, actual } => Cat001DecodeError::LengthMismatch {
            declared,
            actual,
        },
        BlockError::UnknownItem(f) => Cat001DecodeError::UnknownItem(f),
        BlockError::MissingItem(f) => Cat001DecodeError::MissingItem(f),
        BlockError::FspecTooLong => Cat001DecodeError::FspecTooLong,
    }
}

/// Decode a CAT001 data block into one report per record; never
/// panics on input.
pub fn decode_legacy_reports(bytes: &[u8]) -> (r: Result<
    Vec<DecodedLegacyReport>,
    Cat001DecodeError,
>)
    ensures
        match r {
            Ok(reports) => block::<Cat001Format>(bytes@) == Ok::<
                Seq<DecodedLegacyReport>,
                BlockError,
            >(reports@),
            Err(e) => block::<Cat001Format>(bytes@) is Err && e == cat001_error(
                block::<Cat001Format>(bytes@)->Err_0,
            ),
        },
{
    match decode_records::<Cat001Format>(bytes) {
        Ok(reports) => Ok(reports),
        Err(f) => Err(error_of(f)),
    }
}

} // verus!

//! CAT002 input decode — legacy Monoradar Service Messages.
//!
//! The predecessor of CAT034: north marker and sector crossing messages of
//! older radar heads. Decoded into the same [`DecodedServiceMessage`] as
//! CAT034, with CAT002's own message-type table (type 3 is the south marker
//! here and stays `Other`). Identity (I002/010) and message type (I002/000)
//! are required; FRN 12 (spare) and FRN 14 (RFS) cannot be lengthed.

use vstd::prelude::*;

use crate::cat034::{DecodedServiceMessage, ServiceMessageType};
use crate::octets::{be16, be16_at, be24, be24_at};
use crate::record::{
    as_block_len, block, decode_records, failure_of, fold_of, items_delimit, lemma_record_at_encoded,
    record_at, BlockError, RecordFormat,
};
use crate::wire::{
    explicit_len, extended_len, fixed_len, repetitive_len, take_explicit, take_extended,
    take_fixed, take_repetitive, WalkError,
};

use crate::describe::{block_error_message, block_error_text, UnknownItemWording};

verus! {

/// The ASTERIX category number for legacy monoradar service messages.
pub const CATEGORY: u8 = 2;

/// I002/010 — Data Source Identifier.
pub const FRN_DATA_SOURCE: u8 = 1;
/// I002/000 — Message Type.
pub const FRN_MESSAGE_TYPE: u8 = 2;
/// I002/020 — Sector Number.
pub const FRN_SECTOR_NUMBER: u8 = 3;
/// I002/030 — Time of Day.
pub const FRN_TIME_OF_DAY: u8 = 4;
/// I002/041 — Antenna Rotation Period.
pub const FRN_ANTENNA_ROTATION_PERIOD: u8 = 5;

/// I002/000 message type: north marker.
pub const MSG_NORTH_MARKER: u8 = 1;
/// I002/000 message type: sector crossing.
pub const MSG_SECTOR_CROSSING: u8 = 2;

/// How a CAT002 data item is laid out on the wire.
#[derive(Debug, Clone, Copy, PartialEq, Eq, Structural)]
pub enum ItemFormat {
    /// A fixed number of octets.
    Fixed(usize),
    /// An FX-chained sequence of octets.
    Extended,
    /// A one-octet repetition factor, then that many groups of `n` octets.
    Repetitive(usize),
    /// A one-octet length indicator giving the item's total length.
    Explicit,
}

/// The wire layout of each CAT002 UAP item; FRN 12 (spare) and FRN 14 (RFS)
/// have none.
pub open spec fn format_of(frn: u8) -> Option<ItemFormat> {
    if frn == 1 || frn == 5 || frn == 10 {
        Some(ItemFormat::Fixed(2))
    } else if frn == 2 || frn == 3 {
        Some(ItemFormat::Fixed(1))
    } else if frn == 4 {
        Some(ItemFormat::Fixed(3))
    } else if frn == 9 {
        Some(ItemFormat::Fixed(8))
    } else if frn == 6 || frn == 7 || frn == 11 {
        Some(ItemFormat::Extended)
    } else if frn == 8 {
        Some(ItemFormat::Repetitive(2))
    } else if frn == 13 {
        Some(ItemFormat::Explicit)
    } else {
        None
    }
}

/// The wire layout of each CAT002 UAP item.
pub fn item_format(frn: u8) -> (r: Option<ItemFormat>)
    ensures
        r == format_of(frn),
{
    if frn == 1 || frn == 5 || frn == 10 {
        Some(ItemFormat::Fixed(2))
    } else if frn == 2 || frn == 3 {
        Some(ItemFormat::Fixed(1))
    } else if frn == 4 {
        Some(ItemFormat::Fixed(3))
    } else if frn == 9 {
        Some(ItemFormat::Fixed(8))
    } else if frn == 6 || frn == 7 || frn == 11 {
        Some(ItemFormat::Extended)
    } else if frn == 8 {
        Some(ItemFormat::Repetitive(2))
    } else if frn == 13 {
        Some(ItemFormat::Explicit)
    } else {
        None
    }
}

/// Exactly the defined FRNs 1 to 11 and 13 have a format.
pub proof fn lemma_uap_formats(frn: u8)
    ensures
        format_of(frn) is Some <==> (1 <= frn <= 11 || frn == 13),
{
}

/// How many octets the item `frn` at `pos` occupies.
pub open spec fn item_len(data: Seq<u8>, frn: u8, pos: int) -> Result<int, WalkError> {
    match format_of(frn) {
        None => Err(WalkError::UnknownItem(frn)),
        Some(ItemFormat::Fixed(n)) => fixed_len(data, pos, n as int),
        Some(ItemFormat::Extended) => extended_len(data, pos),
        Some(ItemFormat::Repetitive(per)) => repetitive_len(data, pos, per as int),
        Some(ItemFormat::Explicit) => explicit_len(data, pos),
    }
}

/// CAT002's message-type table: only north marker and sector crossing are
/// named; every other code (the south marker among them) stays `Other`.
pub open spec fn legacy_message_type(code: u8) -> ServiceMessageType {
    if code == MSG_NORTH_MARKER {
        ServiceMessageType::NorthMarker
    } else if code == MSG_SECTOR_CROSSING {
        ServiceMessageType::SectorCrossing
    } else {
        ServiceMessageType::Other(code)
    }
}

/// The items of one CAT002 record decoded so far.
#[derive(Debug, Clone, Copy)]
pub struct LegacyServiceFields {
    /// I002/010.
    pub source: Option<(u8, u8)>,
    /// I002/000.
    pub message_type: Option<ServiceMessageType>,
    /// I002/030.
    pub time_ticks: Option<u32>,
    /// I002/020.
    pub sector: Option<u8>,
    /// I002/041.
    pub antenna_rotation: Option<u16>,
}

/// Fold the octets `b` of item `frn` into the fields decoded so far.
pub open spec fn apply_item(frn: u8, b: Seq<u8>, acc: LegacyServiceFields) -> LegacyServiceFields {
    if frn == FRN_DATA_SOURCE {
        LegacyServiceFields { source: Some((b[0], b[1])), ..acc }
    } else if frn == FRN_MESSAGE_TYPE {
        LegacyServiceFields { message_type: Some(legacy_message_type(b[0])), ..acc }
    } else if frn == FRN_SECTOR_NUMBER {
        LegacyServiceFields { sector: Some(b[0]), ..acc }
    } else if frn == FRN_TIME_OF_DAY {
        LegacyServiceFields { time_ticks: Some(be24(b[0], b[1], b[2]) as u32), ..acc }
    } else if frn == FRN_ANTENNA_ROTATION_PERIOD {
        LegacyServiceFields { antenna_rotation: Some(be16(b[0], b[1]) as u16), ..acc }
    } else {
        acc
    }
}

/// The message the decoded items describe; identity and type are required.
pub open spec fn finish_fields(f: LegacyServiceFields) -> Result<DecodedServiceMessage, u8> {
    match (f.source, f.message_type) {
        (None, _) => Err(FRN_DATA_SOURCE),
        (Some(_), None) => Err(FRN_MESSAGE_TYPE),
        (Some((sac, sic)), Some(message_type)) => Ok(
            DecodedServiceMessage {
                sac,
                sic,
                message_type,
                time_ticks: f.time_ticks,
                sector: f.sector,
                antenna_rotation: f.antenna_rotation,
            },
        ),
    }
}

fn take_item(data: &[u8], pos: usize, frn: u8) -> (r: Result<usize, WalkError>)
    requires
        pos <= data.len(),
    ensures
        crate::wire::as_int_len(r) == item_len(data@, frn, pos as int),
        r matches Ok(l) ==> pos + l <= data.len(),
{
    let r = match item_format(frn) {
        None => Err(WalkError::UnknownItem(frn)),
        Some(ItemFormat::Fixed(n)) => take_fixed(data, pos, n),
        Some(ItemFormat::Extended) => take_extended(data, pos),
        Some(ItemFormat::Repetitive(per)) => take_repetitive(data, pos, per),
        Some(ItemFormat::Explicit) => take_explicit(data, pos),
    };
    proof {
        crate::fspec::lemma_chain_len_bound(data@, pos as int);
    }
    r
}

/// The CAT002 record model.
pub struct Cat002Format;

impl RecordFormat for Cat002Format {
    type Fields = LegacyServiceFields;

    type Report = DecodedServiceMessage;

    open spec fn category() -> u8 {
        CATEGORY
    }

    open spec fn item_len(data: Seq<u8>, frn: u8, pos: int, acc: LegacyServiceFields) -> Result<
        int,
        BlockError,
    > {
        as_block_len(item_len(data, frn, pos))
    }

    open spec fn apply(frn: u8, b: Seq<u8>, acc: LegacyServiceFields) -> LegacyServiceFields {
        apply_item(frn, b, acc)
    }

    open spec fn initial() -> LegacyServiceFields {
        LegacyServiceFields {
            source: None,
            message_type: None,
            time_ticks: None,
            sector: None,
            antenna_rotation: None,
        }
    }

    open spec fn finish_spec(f: LegacyServiceFields) -> Result<DecodedServiceMessage, u8> {
        finish_fields(f)
    }

    fn category_octet() -> (c: u8) {
        CATEGORY
    }

    fn initial_fields() -> (f: LegacyServiceFields) {
        LegacyServiceFields {
            source: None,
            message_type: None,
            time_ticks: None,
            sector: None,
            antenna_rotation: None,
        }
    }

    fn decode_item(data: &[u8], pos: usize, frn: u8, acc: LegacyServiceFields) -> (r: Result<
        (LegacyServiceFields, usize),
        BlockError,
    >) {
        let l = match take_item(data, pos, frn) {
            Ok(l) => l,
            Err(e) => return Err(failure_of(e)),
        };
        let end = pos + l;
        let mut fields = acc;
        if frn == FRN_DATA_SOURCE {
            fields.source = Some((data[pos], data[pos + 1]));
        } else if frn == FRN_MESSAGE_TYPE {
            let code = data[pos];
            fields.message_type = Some(
                if code == MSG_NORTH_MARKER {
                    ServiceMessageType::NorthMarker
                } else if code == MSG_SECTOR_CROSSING {
                    ServiceMessageType::SectorCrossing
                } else {
                    ServiceMessageType::Other(code)
                },
            );
        } else if frn == FRN_SECTOR_NUMBER {
            fields.sector = Some(data[pos]);
        } else if frn == FRN_TIME_OF_DAY {
            fields.time_ticks = Some(be24_at(data, pos));
        } else if frn == FRN_ANTENNA_ROTATION_PERIOD {
            fields.antenna_rotation = Some(be16_at(data, pos));
        }
        Ok((fields, end))
    }

    fn finish(f: LegacyServiceFields) -> (r: Result<DecodedServiceMessage, u8>) {
        let (sac, sic) = match f.source {
            Some(s) => s,
            None => return Err(FRN_DATA_SOURCE),
        };
        let message_type = match f.message_type {
            Some(t) => t,
            None => return Err(FRN_MESSAGE_TYPE),
        };
        Ok(
            DecodedServiceMessage {
                sac,
                sic,
                message_type,
                time_ticks: f.time_ticks,
                sector: f.sector,
                antenna_rotation: f.antenna_rotation,
            },
        )
    }
}

/// Errors that can occur while decoding a CAT002 data block.
#[derive(Debug, Clone, Copy, PartialEq, Eq, Structural)]
pub enum Cat002DecodeError {
    /// The input ended before a complete block/record/item could be read.
    Truncated,
    /// The first octet was not 2.
    WrongCategory(u8),
    /// The `LEN` field did not match the actual input length.
    LengthMismatch { declared: usize, actual: usize },
    /// The FSPEC marked a spare or RFS FRN present.
    UnknownItem(u8),
    /// A record was missing I002/010 or I002/000.
    MissingItem(u8),
    /// The FSPEC's FX chain ran past the supported FRN space.
    FspecTooLong,
}

impl Cat002DecodeError {
    /// The error in the terms every record format shares.
    pub open spec fn kind(self) -> BlockError {
        match self {
            Cat002DecodeError::Truncated => BlockError::Truncated,
            Cat002DecodeError::WrongCategory(c) => BlockError::WrongCategory(c),
            Cat002DecodeError::LengthMismatch { declared, actual } => BlockError::LengthMismatch {
                declared,
                actual,
            },
            Cat002DecodeError::UnknownItem(frn) => BlockError::UnknownItem(frn),
            Cat002DecodeError::MissingItem(frn) => BlockError::MissingItem(frn),
            Cat002DecodeError::FspecTooLong => BlockError::FspecTooLong,
        }
    }

    /// A human-readable description of the error.
    pub fn message(&self) -> (r: String)
        ensures
            r@ == block_error_text(2, self.kind(), UnknownItemWording::Unskippable),
    {
        let kind = match *self {
            Cat002DecodeError::Truncated => BlockError::Truncated,
            Cat002DecodeError::WrongCategory(c) => BlockError::WrongCategory(c),
            Cat002DecodeError::LengthMismatch { declared, actual } => BlockError::LengthMismatch {
                declared,
                actual,
            },
            Cat002DecodeError::UnknownItem(frn) => BlockError::UnknownItem(frn),
            Cat002DecodeError::MissingItem(frn) => BlockError::MissingItem(frn),
            Cat002DecodeError::FspecTooLong => BlockError::FspecTooLong,
        };
        block_error_message(2, kind, UnknownItemWording::Unskippable)
    }
}

/// A block error as a CAT002 error.
pub open spec fn cat002_error(e: BlockError) -> Cat002DecodeError {
    match e {
        BlockError::Truncated => Cat002DecodeError::Truncated,
        BlockError::WrongCategory(c) => Cat002DecodeError::WrongCategory(c),
        BlockError::LengthMismatch { declared, actual } => Cat002DecodeError::LengthMismatch {
            declared,
            actual,
        },
        BlockError::UnknownItem(f) => Cat002DecodeError::UnknownItem(f),
        BlockError::MissingItem(f) => Cat002DecodeError::MissingItem(f),
        BlockError::FspecTooLong => Cat002DecodeError::FspecTooLong,
    }
}

fn error_of(e: BlockError) -> (r: Cat002DecodeError)
    ensures
        r == cat002_error(e),
{
    match e {
        BlockError::Truncated => Cat002DecodeError::Truncated,
        BlockError::WrongCategory(c) => Cat002DecodeError::WrongCategory(c),
        BlockError::LengthMismatch { declared, actual } => Cat002DecodeError::LengthMismatch {
            declared,
            actual,
        },
        BlockError::UnknownItem(f) => Cat002DecodeError::UnknownItem(f),
        BlockError::MissingItem(f) => Cat002DecodeError::MissingItem(f),
        BlockError::FspecTooLong => Cat002DecodeError::FspecTooLong,
    }
}

/// Decode a CAT002 data block into one service message per record; never
/// panics on input.
pub fn decode_legacy_service_messages(bytes: &[u8]) -> (r: Result<
    Vec<DecodedServiceMessage>,
    Cat002DecodeError,
>)
    ensures
        match r {
            Ok(messages) => block::<Cat002Format>(bytes@) == Ok::<
                Seq<DecodedServiceMessage>,
                BlockError,
            >(messages@),
            Err(e) => block::<Cat002Format>(bytes@) is Err && e == cat002_error(
                block::<Cat002Format>(bytes@)->Err_0,
            ),
        },
{
    match decode_records::<Cat002Format>(bytes) {
        Ok(messages) => Ok(messages),
        Err(f) => Err(error_of(f)),
    }
}

/// Folding the items from FRN `k` on leaves the identity and time fields
/// as `acc` had them, except that each item present among them sets its
/// own field from its own octets.
proof fn lemma_fold_keeps_fields(items: Map<u8, Seq<u8>>, k: int, acc: LegacyServiceFields)
    requires
        1 <= k,
    ensures
        ({
            let f = crate::wire::apply_from(items, k, acc, fold_of::<Cat002Format>());
            &&& f.source == (if k <= 1 && items.contains_key(1) {
                Some((items[1u8][0], items[1u8][1]))
            } else {
                acc.source
            })
            &&& (f.message_type is Some <==> (k <= 2 && items.contains_key(2)) || acc.message_type is Some)
            &&& f.time_ticks == (if k <= 4 && items.contains_key(4) {
                Some((items[4u8][0] * 65536 + items[4u8][1] * 256 + items[4u8][2]) as u32)
            } else {
                acc.time_ticks
            })
            &&& f.sector == (if k <= 3 && items.contains_key(3) {
                Some(items[3u8][0])
            } else {
                acc.sector
            })
            &&& f.antenna_rotation == (if k <= 5 && items.contains_key(5) {
                Some((items[5u8][0] * 256 + items[5u8][1]) as u16)
            } else {
                acc.antenna_rotation
            })
        }),
    decreases 256 - k,
{
    if k <= 255 {
        if items.contains_key(k as u8) {
            let next = apply_item(k as u8, items[k as u8], acc);
            lemma_fold_keeps_fields(items, k + 1, next);
        } else {
            lemma_fold_keeps_fields(items, k + 1, acc);
        }
    }
}

/// Decoding a record laid out as an FSPEC followed by its items in FRN
/// order (what `RecordBuilder` writes) ends right after it and reports what
/// the octets say: SAC and SIC from I002/010; the time of day as the 24-bit
/// count of I002/030; the sector as
/// the octet of I002/020; the antenna rotation period as the
/// 16-bit count of I002/041. An absent item
/// leaves its field empty. The record must carry I002/010 and I002/000, and
/// each item must read as exactly its own octets.
pub proof fn lemma_record_reports_its_octets(data: Seq<u8>, pos: int, items: Map<u8, Seq<u8>>)
    requires
        crate::wire::frns_in_uap_range(items),
        items.contains_key(FRN_DATA_SOURCE),
        items.contains_key(FRN_MESSAGE_TYPE),
        crate::wire::holds_at(data, pos, crate::fspec::record_bytes(items)),
        items_delimit::<Cat002Format>(data, items),
    ensures
        record_at::<Cat002Format>(data, pos) matches Ok((r, end)) && {
            &&& end == pos + crate::fspec::record_bytes(items).len()
            &&& r.sac == items[FRN_DATA_SOURCE][0] && r.sic == items[FRN_DATA_SOURCE][1]
            &&& r.time_ticks == (if items.contains_key(FRN_TIME_OF_DAY) {
                let b = items[FRN_TIME_OF_DAY];
                Some((b[0] * 65536 + b[1] * 256 + b[2]) as u32)
            } else {
                None
            })
            &&& r.sector == (if items.contains_key(FRN_SECTOR_NUMBER) {
                Some(items[FRN_SECTOR_NUMBER][0])
            } else {
                None
            })
            &&& r.antenna_rotation == (if items.contains_key(FRN_ANTENNA_ROTATION_PERIOD) {
                let b = items[FRN_ANTENNA_ROTATION_PERIOD];
                Some((b[0] * 256 + b[1]) as u16)
            } else {
                None
            })
        },
{
    assert(items.contains_key(FRN_DATA_SOURCE));
    lemma_record_at_encoded::<Cat002Format>(data, pos, items);
    lemma_fold_keeps_fields(items, 1, Cat002Format::initial());
}

} // verus!

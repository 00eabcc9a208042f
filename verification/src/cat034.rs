//! CAT034 input decode — Monoradar Service Messages: north marker, sector
//! crossing and the rest of the radar's housekeeping stream.
//!
//! Identity (I034/010), message type (I034/000), time of day (I034/030),
//! sector number (I034/020) and antenna rotation period (I034/041) are
//! decoded; the compound configuration items (I034/050, I034/060) and the
//! other standard items are skipped length-correctly. A compound item that
//! sets a spare subfield bit cannot be lengthed and is a hard error, as is a
//! missing identity or message type.
//!
//! Values stay in wire counts: time in 1/128 s, sector in 360/256 degrees,
//! rotation period in 1/128 s.

use vstd::prelude::*;

use crate::fspec::has_fx;
use crate::octets::{be16, be16_at, be24, be24_at};
use crate::record::{
    as_block_len, block, decode_records, failure_of, fold_of, items_delimit, lemma_record_at_encoded,
    record_at, BlockError, RecordFormat,
};
use crate::wire::{explicit_len, fixed_len, repetitive_len, take_explicit, take_fixed, take_repetitive, WalkError};

use crate::describe::{block_error_message, block_error_text, UnknownItemWording};

verus! {

/// The ASTERIX category number for monoradar service messages.
pub const CATEGORY: u8 = 34;

/// I034/010 — Data Source Identifier.
pub const FRN_DATA_SOURCE: u8 = 1;
/// I034/000 — Message Type.
pub const FRN_MESSAGE_TYPE: u8 = 2;
/// I034/030 — Time of Day.
pub const FRN_TIME_OF_DAY: u8 = 3;
/// I034/020 — Sector Number.
pub const FRN_SECTOR_NUMBER: u8 = 4;
/// I034/041 — Antenna Rotation Period.
pub const FRN_ANTENNA_ROTATION_PERIOD: u8 = 5;
/// I034/050 — System Configuration and Status (compound).
pub const FRN_SYSTEM_CONFIGURATION: u8 = 6;
/// I034/060 — System Processing Mode (compound).
pub const FRN_SYSTEM_PROCESSING_MODE: u8 = 7;

/// The kind of a CAT034 service message (I034/000).
#[derive(Debug, Clone, Copy, PartialEq, Eq, Structural)]
pub enum ServiceMessageType {
    /// 1 — North marker: the antenna passed north.
    NorthMarker,
    /// 2 — Sector crossing.
    SectorCrossing,
    /// 3 — Geographical filtering.
    GeographicalFiltering,
    /// 4 — Jamming strobe.
    JammingStrobe,
    /// Any other code, kept rather than rejected.
    Other(u8),
}

/// The message type a code names.
pub open spec fn message_type_of(code: u8) -> ServiceMessageType {
    if code == 1 {
        ServiceMessageType::NorthMarker
    } else if code == 2 {
        ServiceMessageType::SectorCrossing
    } else if code == 3 {
        ServiceMessageType::GeographicalFiltering
    } else if code == 4 {
        ServiceMessageType::JammingStrobe
    } else {
        ServiceMessageType::Other(code)
    }
}

impl ServiceMessageType {
    /// The message type a code names; unknown codes are kept as `Other`.
    pub fn from_code(code: u8) -> (r: Self)
        ensures
            r == message_type_of(code),
    {
        if code == 1 {
            ServiceMessageType::NorthMarker
        } else if code == 2 {
            ServiceMessageType::SectorCrossing
        } else if code == 3 {
            ServiceMessageType::GeographicalFiltering
        } else if code == 4 {
            ServiceMessageType::JammingStrobe
        } else {
            ServiceMessageType::Other(code)
        }
    }
}

/// Every code is kept: the type names its code back.
pub proof fn lemma_message_type_keeps_code(code: u8)
    ensures
        match message_type_of(code) {
            ServiceMessageType::NorthMarker => code == 1,
            ServiceMessageType::SectorCrossing => code == 2,
            ServiceMessageType::GeographicalFiltering => code == 3,
            ServiceMessageType::JammingStrobe => code == 4,
            ServiceMessageType::Other(c) => c == code && (code < 1 || code > 4),
        },
{
}

/// How a CAT034 data item is laid out on the wire.
#[derive(Debug, Clone, Copy, PartialEq, Eq, Structural)]
pub enum ItemFormat {
    /// A fixed number of octets.
    Fixed(usize),
    /// A one-octet repetition factor, then that many groups of `n` octets.
    Repetitive(usize),
    /// A compound item with subfields COM (1 octet), PSR (1), SSR (1) and
    /// MDS (the given number of octets) at presence positions 1, 4, 5 and 6;
    /// the other positions are spare.
    Compound(usize),
    /// A one-octet length indicator giving the item's total length.
    Explicit,
}

/// The wire layout of each CAT034 UAP item (FRN 1 to 14).
pub open spec fn format_of(frn: u8) -> Option<ItemFormat> {
    if frn == 1 || frn == 5 || frn == 12 {
        Some(ItemFormat::Fixed(2))
    } else if frn == 2 || frn == 4 || frn == 10 {
        Some(ItemFormat::Fixed(1))
    } else if frn == 3 {
        Some(ItemFormat::Fixed(3))
    } else if frn == 9 || frn == 11 {
        Some(ItemFormat::Fixed(8))
    } else if frn == 6 {
        Some(ItemFormat::Compound(2))
    } else if frn == 7 {
        Some(ItemFormat::Compound(1))
    } else if frn == 8 {
        Some(ItemFormat::Repetitive(2))
    } else if frn == 13 || frn == 14 {
        Some(ItemFormat::Explicit)
    } else {
        None
    }
}

/// The wire layout of each CAT034 UAP item.
pub fn item_format(frn: u8) -> (r: Option<ItemFormat>)
    ensures
        r == format_of(frn),
{
    if frn == 1 || frn == 5 || frn == 12 {
        Some(ItemFormat::Fixed(2))
    } else if frn == 2 || frn == 4 || frn == 10 {
        Some(ItemFormat::Fixed(1))
    } else if frn == 3 {
        Some(ItemFormat::Fixed(3))
    } else if frn == 9 || frn == 11 {
        Some(ItemFormat::Fixed(8))
    } else if frn == 6 {
        Some(ItemFormat::Compound(2))
    } else if frn == 7 {
        Some(ItemFormat::Compound(1))
    } else if frn == 8 {
        Some(ItemFormat::Repetitive(2))
    } else if frn == 13 || frn == 14 {
        Some(ItemFormat::Explicit)
    } else {
        None
    }
}

/// Exactly the FRNs of the UAP, 1 to 14, have a format.
pub proof fn lemma_uap_formats(frn: u8)
    ensures
        format_of(frn) is Some <==> 1 <= frn <= 14,
{
}

/// The spare presence positions of the first subfield-spec octet (2, 3, 7).
pub const COMPOUND_SPARE_BITS: u8 = 0x62;

/// The subfield octets the first subfield-spec octet `b` announces.
pub open spec fn first_octet_subfields(b: u8, mds: int) -> int {
    (if b & 0x80u8 != 0u8 {
        1int
    } else {
        0int
    }) + (if b & 0x10u8 != 0u8 {
        1int
    } else {
        0int
    }) + (if b & 0x08u8 != 0u8 {
        1int
    } else {
        0int
    }) + (if b & 0x04u8 != 0u8 {
        mds
    } else {
        0int
    })
}

/// Scan the subfield-spec octets of a compound item from octet `i`: the
/// number of spec octets and of subfield octets, or why it cannot be
/// lengthed. Presence positions past the first octet are all spare.
pub open spec fn compound_scan(data: Seq<u8>, pos: int, frn: u8, mds: int, i: int) -> Result<
    (int, int),
    WalkError,
>
    decreases data.len() - (pos + i),
{
    if i < 0 || pos < 0 || pos + i >= data.len() {
        Err(WalkError::Truncated)
    } else {
        let b = data[pos + i];
        let bad = if i == 0 {
            b & COMPOUND_SPARE_BITS != 0u8
        } else {
            b & 0xFEu8 != 0u8
        };
        let here: int = if i == 0 {
            first_octet_subfields(b, mds)
        } else {
            0
        };
        if bad {
            Err(WalkError::UnknownItem(frn))
        } else if !has_fx(b) {
            Ok((i + 1, here))
        } else {
            match compound_scan(data, pos, frn, mds, i + 1) {
                Err(e) => Err(e),
                Ok((n, l)) => Ok((n, here + l)),
            }
        }
    }
}

/// A compound item at `pos`: its spec octets, then its subfields.
pub open spec fn compound_len(data: Seq<u8>, pos: int, frn: u8, mds: int) -> Result<
    int,
    WalkError,
> {
    match compound_scan(data, pos, frn, mds, 0) {
        Err(e) => Err(e),
        Ok((n, l)) => if pos + n + l <= data.len() {
            Ok(n + l)
        } else {
            Err(WalkError::Truncated)
        },
    }
}

/// How many octets the item `frn` at `pos` occupies.
pub open spec fn item_len(data: Seq<u8>, frn: u8, pos: int) -> Result<int, WalkError> {
    match format_of(frn) {
        None => Err(WalkError::UnknownItem(frn)),
        Some(ItemFormat::Fixed(n)) => fixed_len(data, pos, n as int),
        Some(ItemFormat::Repetitive(per)) => repetitive_len(data, pos, per as int),
        Some(ItemFormat::Compound(mds)) => compound_len(data, pos, frn, mds as int),
        Some(ItemFormat::Explicit) => explicit_len(data, pos),
    }
}

proof fn lemma_scan_bounds(data: Seq<u8>, pos: int, frn: u8, mds: int, i: int)
    requires
        0 <= i,
        0 <= mds <= 2,
    ensures
        compound_scan(data, pos, frn, mds, i) matches Ok((n, l)) ==> i < n && pos + n <= data.len()
            && 0 <= l <= 5,
    decreases data.len() - (pos + i),
{
    if !(i < 0 || pos < 0 || pos + i >= data.len()) {
        let b = data[pos + i];
        if has_fx(b) {
            lemma_scan_bounds(data, pos, frn, mds, i + 1);
            lemma_scan_tail_zero(data, pos, frn, mds, i + 1);
        }
    }
}

proof fn lemma_scan_tail_zero(data: Seq<u8>, pos: int, frn: u8, mds: int, i: int)
    requires
        1 <= i,
    ensures
        compound_scan(data, pos, frn, mds, i) matches Ok((n, l)) ==> l == 0,
    decreases data.len() - (pos + i),
{
    if !(pos < 0 || pos + i >= data.len()) {
        lemma_scan_tail_zero(data, pos, frn, mds, i + 1);
    }
}

fn take_compound(data: &[u8], pos: usize, frn: u8, mds: usize) -> (r: Result<usize, WalkError>)
    requires
        pos <= data.len(),
        mds <= 2,
    ensures
        crate::wire::as_int_len(r) == compound_len(data@, pos as int, frn, mds as int),
{
    if pos >= data.len() {
        return Err(WalkError::Truncated);
    }
    let first = data[pos];
    if first & COMPOUND_SPARE_BITS != 0u8 {
        return Err(WalkError::UnknownItem(frn));
    }
    let mut subfields: usize = 0;
    if first & 0x80u8 != 0u8 {
        subfields = subfields + 1;
    }
    if first & 0x10u8 != 0u8 {
        subfields = subfields + 1;
    }
    if first & 0x08u8 != 0u8 {
        subfields = subfields + 1;
    }
    if first & 0x04u8 != 0u8 {
        subfields = subfields + mds;
    }
    assert(subfields == first_octet_subfields(first, mds as int));
    let mut i: usize = 0;
    let mut octet = first;
    while octet & 1u8 != 0u8
        invariant
            pos + i < data.len(),
            octet == data@[pos + i],
            mds <= 2,
            subfields == first_octet_subfields(first, mds as int),
            first == data@[pos as int],
            first & COMPOUND_SPARE_BITS == 0u8,
            compound_len(data@, pos as int, frn, mds as int) == (match compound_scan(
                data@,
                pos as int,
                frn,
                mds as int,
                i as int,
            ) {
                Err(e) => Err(e),
                Ok((n, l)) => if i == 0 {
                    if pos + n + l <= data.len() {
                        Ok::<int, WalkError>(n + l)
                    } else {
                        Err(WalkError::Truncated)
                    }
                } else if pos + n + l + subfields <= data.len() {
                    Ok::<int, WalkError>(n + l + subfields)
                } else {
                    Err(WalkError::Truncated)
                },
            }),
            i == 0 || octet & 0xFEu8 == 0u8,
        decreases data.len() - (pos + i),
    {
        proof {
            assert(has_fx(octet));
            lemma_scan_tail_zero(data@, pos as int, frn, mds as int, i + 1);
        }
        if i + 1 >= data.len() - pos {
            return Err(WalkError::Truncated);
        }
        i = i + 1;
        octet = data[pos + i];
        if octet & 0xFEu8 != 0u8 {
            return Err(WalkError::UnknownItem(frn));
        }
    }
    proof {
        assert(!has_fx(octet));
    }
    if subfields > data.len() - pos - i - 1 {
        return Err(WalkError::Truncated);
    }
    Ok(i + 1 + subfields)
}

fn take_item(data: &[u8], pos: usize, frn: u8) -> (r: Result<usize, WalkError>)
    requires
        pos <= data.len(),
    ensures
        crate::wire::as_int_len(r) == item_len(data@, frn, pos as int),
        r matches Ok(l) ==> pos + l <= data.len(),
{
    let r = match item_format(frn) {
        None => Err(WalkError::UnknownItem(frn)),
        Some(ItemFormat::Fixed(n)) => take_fixed(data, pos, n),
        Some(ItemFormat::Repetitive(per)) => take_repetitive(data, pos, per),
        Some(ItemFormat::Compound(mds)) => take_compound(data, pos, frn, mds),
        Some(ItemFormat::Explicit) => take_explicit(data, pos),
    };
    proof {
        if let Some(ItemFormat::Compound(mds)) = format_of(frn) {
            lemma_scan_bounds(data@, pos as int, frn, mds as int, 0);
        }
    }
    r
}

/// One decoded CAT034 service message.
#[derive(Debug, Clone, Copy, PartialEq, Eq, Structural)]
pub struct DecodedServiceMessage {
    /// I034/010 — System Area Code.
    pub sac: u8,
    /// I034/010 — System Identification Code.
    pub sic: u8,
    /// I034/000 — message type.
    pub message_type: ServiceMessageType,
    /// I034/030 — time of day, 1/128-second ticks.
    pub time_ticks: Option<u32>,
    /// I034/020 — sector number, 360/256-degree steps.
    pub sector: Option<u8>,
    /// I034/041 — antenna rotation period, 1/128-second steps.
    pub antenna_rotation: Option<u16>,
}

/// The items of one CAT034 record decoded so far.
#[derive(Debug, Clone, Copy)]
pub struct ServiceFields {
    /// I034/010.
    pub source: Option<(u8, u8)>,
    /// I034/000.
    pub message_type: Option<ServiceMessageType>,
    /// I034/030.
    pub time_ticks: Option<u32>,
    /// I034/020.
    pub sector: Option<u8>,
    /// I034/041.
    pub antenna_rotation: Option<u16>,
}

/// Fold the octets `b` of item `frn` into the fields decoded so far.
pub open spec fn apply_item(frn: u8, b: Seq<u8>, acc: ServiceFields) -> ServiceFields {
    if frn == FRN_DATA_SOURCE {
        ServiceFields { source: Some((b[0], b[1])), ..acc }
    } else if frn == FRN_MESSAGE_TYPE {
        ServiceFields { message_type: Some(message_type_of(b[0])), ..acc }
    } else if frn == FRN_TIME_OF_DAY {
        ServiceFields { time_ticks: Some(be24(b[0], b[1], b[2]) as u32), ..acc }
    } else if frn == FRN_SECTOR_NUMBER {
        ServiceFields { sector: Some(b[0]), ..acc }
    } else if frn == FRN_ANTENNA_ROTATION_PERIOD {
        ServiceFields { antenna_rotation: Some(be16(b[0], b[1]) as u16), ..acc }
    } else {
        acc
    }
}

/// The message the decoded items describe; identity and type are required.
pub open spec fn finish_fields(f: ServiceFields) -> Result<DecodedServiceMessage, u8> {
    match (f.source, f.message_type) {
        (None, _) => Err(FRN_DATA_SOURCE),
        (Some(_), None) => Err(FRN_MESSAGE_TYPE),
        (Some((sac, sic)), Some(message_type)) => Ok(
            DecodedServiceMessage {
                sac,
                sic,
                message_type,
                time_ticks: f.time_ticks,
                sector: f.sector,
                antenna_rotation: f.antenna_rotation,
            },
        ),
    }
}

/// The CAT034 record model.
pub struct Cat034Format;

impl RecordFormat for Cat034Format {
    type Fields = ServiceFields;

    type Report = DecodedServiceMessage;

    open spec fn category() -> u8 {
        CATEGORY
    }

    open spec fn item_len(data: Seq<u8>, frn: u8, pos: int, acc: ServiceFields) -> Result<
        int,
        BlockError,
    > {
        as_block_len(item_len(data, frn, pos))
    }

    open spec fn apply(frn: u8, b: Seq<u8>, acc: ServiceFields) -> ServiceFields {
        apply_item(frn, b, acc)
    }

    open spec fn initial() -> ServiceFields {
        ServiceFields {
            source: None,
            message_type: None,
            time_ticks: None,
            sector: None,
            antenna_rotation: None,
        }
    }

    open spec fn finish_spec(f: ServiceFields) -> Result<DecodedServiceMessage, u8> {
        finish_fields(f)
    }

    fn category_octet() -> (c: u8) {
        CATEGORY
    }

    fn initial_fields() -> (f: ServiceFields) {
        ServiceFields {
            source: None,
            message_type: None,
            time_ticks: None,
            sector: None,
            antenna_rotation: None,
        }
    }

    fn decode_item(data: &[u8], pos: usize, frn: u8, acc: ServiceFields) -> (r: Result<
        (ServiceFields, usize),
        BlockError,
    >) {
        let l = match take_item(data, pos, frn) {
            Ok(l) => l,
            Err(e) => return Err(failure_of(e)),
        };
        let end = pos + l;
        let mut fields = acc;
        if frn == FRN_DATA_SOURCE {
            fields.source = Some((data[pos], data[pos + 1]));
        } else if frn == FRN_MESSAGE_TYPE {
            fields.message_type = Some(ServiceMessageType::from_code(data[pos]));
        } else if frn == FRN_TIME_OF_DAY {
            fields.time_ticks = Some(be24_at(data, pos));
        } else if frn == FRN_SECTOR_NUMBER {
            fields.sector = Some(data[pos]);
        } else if frn == FRN_ANTENNA_ROTATION_PERIOD {
            fields.antenna_rotation = Some(be16_at(data, pos));
        }
        Ok((fields, end))
    }

    fn finish(f: ServiceFields) -> (r: Result<DecodedServiceMessage, u8>) {
        let (sac, sic) = match f.source {
            Some(s) => s,
            None => return Err(FRN_DATA_SOURCE),
        };
        let message_type = match f.message_type {
            Some(t) => t,
            None => return Err(FRN_MESSAGE_TYPE),
        };
        Ok(
            DecodedServiceMessage {
                sac,
                sic,
                message_type,
                time_ticks: f.time_ticks,
                sector: f.sector,
                antenna_rotation: f.antenna_rotation,
            },
        )
    }
}

/// Errors that can occur while decoding a CAT034 data block.
#[derive(Debug, Clone, Copy, PartialEq, Eq, Structural)]
pub enum Cat034DecodeError {
    /// The input ended before a complete block/record/item could be read.
    Truncated,
    /// The first octet was not 34.
    WrongCategory(u8),
    /// The `LEN` field did not match the actual input length.
    LengthMismatch { declared: usize, actual: usize },
    /// The FSPEC marked an FRN present that this decoder cannot length, or a
    /// compound item set a spare subfield bit.
    UnknownItem(u8),
    /// A record was missing I034/010 or I034/000.
    MissingItem(u8),
    /// The FSPEC's FX chain ran past the supported FRN space.
    FspecTooLong,
}

impl Cat034DecodeError {
    /// The error in the terms every record format shares.
    pub open spec fn kind(self) -> BlockError {
        match self {
            Cat034DecodeError::Truncated => BlockError::Truncated,
            Cat034DecodeError::WrongCategory(c) => BlockError::WrongCategory(c),
            Cat034DecodeError::LengthMismatch { declared, actual } => BlockError::LengthMismatch {
                declared,
                actual,
            },
            Cat034DecodeError::UnknownItem(frn) => BlockError::UnknownItem(frn),
            Cat034DecodeError::MissingItem(frn) => BlockError::MissingItem(frn),
            Cat034DecodeError::FspecTooLong => BlockError::FspecTooLong,
        }
    }

    /// A human-readable description of the error.
    pub fn message(&self) -> (r: String)
        ensures
            r@ == block_error_text(34, self.kind(), UnknownItemWording::Unskippable),
    {
        let kind = match *self {
            Cat034DecodeError::Truncated => BlockError::Truncated,
            Cat034DecodeError::WrongCategory(c) => BlockError::WrongCategory(c),
            Cat034DecodeError::LengthMismatch { declared, actual } => BlockError::LengthMismatch {
                declared,
                actual,
            },
            Cat034DecodeError::UnknownItem(frn) => BlockError::UnknownItem(frn),
            Cat034DecodeError::MissingItem(frn) => BlockError::MissingItem(frn),
            Cat034DecodeError::FspecTooLong => BlockError::FspecTooLong,
        };
        block_error_message(34, kind, UnknownItemWording::Unskippable)
    }
}

/// A block error as a CAT034 error.
pub open spec fn cat034_error(e: BlockError) -> Cat034DecodeError {
    match e {
        BlockError::Truncated => Cat034DecodeError::Truncated,
        BlockError::WrongCategory(c) => Cat034DecodeError::WrongCategory(c),
        BlockError::LengthMismatch { declared, actual } => Cat034DecodeError::LengthMismatch {
            declared,
            actual,
        },
        BlockError::UnknownItem(f) => Cat034DecodeError::UnknownItem(f),
        BlockError::MissingItem(f) => Cat034DecodeError::MissingItem(f),
        BlockError::FspecTooLong => Cat034DecodeError::FspecTooLong,
    }
}

fn error_of(e: BlockError) -> (r: Cat034DecodeError)
    ensures
        r == cat034_error(e),
{
    match e {
        BlockError::Truncated => Cat034DecodeError::Truncated,
        BlockError::WrongCategory(c) => Cat034DecodeError::WrongCategory(c),
        BlockError::LengthMismatch { declared, actual } => Cat034DecodeError::LengthMismatch {
            declared,
            actual,
        },
        BlockError::UnknownItem(f) => Cat034DecodeError::UnknownItem(f),
        BlockError::MissingItem(f) => Cat034DecodeError::MissingItem(f),
        BlockError::FspecTooLong => Cat034DecodeError::FspecTooLong,
    }
}

/// Decode a CAT034 data block into one service message per record; never
/// panics on input.
pub fn decode_service_messages(bytes: &[u8]) -> (r: Result<
    Vec<DecodedServiceMessage>,
    Cat034DecodeError,
>)
    ensures
        match r {
            Ok(messages) => block::<Cat034Format>(bytes@) == Ok::<
                Seq<DecodedServiceMessage>,
                BlockError,
            >(messages@),
            Err(e) => block::<Cat034Format>(bytes@) is Err && e == cat034_error(
                block::<Cat034Format>(bytes@)->Err_0,
            ),
        },
{
    match decode_records::<Cat034Format>(bytes) {
        Ok(messages) => Ok(messages),
        Err(f) => Err(error_of(f)),
    }
}

/// Folding the items from FRN `k` on leaves the identity and time fields
/// as `acc` had them, except that each item present among them sets its
/// own field from its own octets.
proof fn lemma_fold_keeps_fields(items: Map<u8, Seq<u8>>, k: int, acc: ServiceFields)
    requires
        1 <= k,
    ensures
        ({
            let f = crate::wire::apply_from(items, k, acc, fold_of::<Cat034Format>());
            &&& f.source == (if k <= 1 && items.contains_key(1) {
                Some((items[1u8][0], items[1u8][1]))
            } else {
                acc.source
            })
            &&& (f.message_type is Some <==> (k <= 2 && items.contains_key(2)) || acc.message_type is Some)
            &&& f.time_ticks == (if k <= 3 && items.contains_key(3) {
                Some((items[3u8][0] * 65536 + items[3u8][1] * 256 + items[3u8][2]) as u32)
            } else {
                acc.time_ticks
            })
            &&& f.sector == (if k <= 4 && items.contains_key(4) {
                Some(items[4u8][0])
            } else {
                acc.sector
            })
            &&& f.antenna_rotation == (if k <= 5 && items.contains_key(5) {
                Some((items[5u8][0] * 256 + items[5u8][1]) as u16)
            } else {
                acc.antenna_rotation
            })
        }),
    decreases 256 - k,
{
    if k <= 255 {
        if items.contains_key(k as u8) {
            let next = apply_item(k as u8, items[k as u8], acc);
            lemma_fold_keeps_fields(items, k + 1, next);
        } else {
            lemma_fold_keeps_fields(items, k + 1, acc);
        }
    }
}

/// Decoding a record laid out as an FSPEC followed by its items in FRN
/// order (what `RecordBuilder` writes) ends right after it and reports what
/// the octets say: SAC and SIC from I034/010; the time of day as the 24-bit
/// count of I034/030; the sector as
/// the octet of I034/020; the antenna rotation period as the
/// 16-bit count of I034/041. An absent item
/// leaves its field empty. The record must carry I034/010 and I034/000, and
/// each item must read as exactly its own octets.
pub proof fn lemma_record_reports_its_octets(data: Seq<u8>, pos: int, items: Map<u8, Seq<u8>>)
    requires
        crate::wire::frns_in_uap_range(items),
        items.contains_key(FRN_DATA_SOURCE),
        items.contains_key(FRN_MESSAGE_TYPE),
        crate::wire::holds_at(data, pos, crate::fspec::record_bytes(items)),
        items_delimit::<Cat034Format>(data, items),
    ensures
        record_at::<Cat034Format>(data, pos) matches Ok((r, end)) && {
            &&& end == pos + crate::fspec::record_bytes(items).len()
            &&& r.sac == items[FRN_DATA_SOURCE][0] && r.sic == items[FRN_DATA_SOURCE][1]
            &&& r.time_ticks == (if items.contains_key(FRN_TIME_OF_DAY) {
                let b = items[FRN_TIME_OF_DAY];
                Some((b[0] * 65536 + b[1] * 256 + b[2]) as u32)
            } else {
                None
            })
            &&& r.sector == (if items.contains_key(FRN_SECTOR_NUMBER) {
                Some(items[FRN_SECTOR_NUMBER][0])
            } else {
                None
            })
            &&& r.antenna_rotation == (if items.contains_key(FRN_ANTENNA_ROTATION_PERIOD) {
                let b = items[FRN_ANTENNA_ROTATION_PERIOD];
                Some((b[0] * 256 + b[1]) as u16)
            } else {
                None
            })
        },
{
    assert(items.contains_key(FRN_DATA_SOURCE));
    lemma_record_at_encoded::<Cat034Format>(data, pos, items);
    lemma_fold_keeps_fields(items, 1, Cat034Format::initial());
}

} // verus!

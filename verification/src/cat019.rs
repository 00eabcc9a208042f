//! CAT019 input decode — Multilateration System Status Messages.
//!
//! The MLAT system's own health: identity (I019/010), message type
//! (I019/000), time of day (I019/140) and the NOGO field of the system
//! status (I019/550). Identity and message type are required; FRNs 11 and
//! 12 (spare) cannot be lengthed.

use vstd::prelude::*;

use crate::octets::{be24, be24_at};
use crate::record::{
    as_block_len, block, decode_records, failure_of, fold_of, items_delimit, lemma_record_at_encoded,
    record_at, BlockError, RecordFormat,
};
use crate::wire::{
    explicit_len, extended_len, fixed_len, repetitive_len, take_explicit, take_extended,
    take_fixed, take_repetitive, WalkError,
};

use crate::describe::{block_error_message, block_error_text, UnknownItemWording};

verus! {

/// The ASTERIX category number for multilateration system status messages.
pub const CATEGORY: u8 = 19;

/// I019/010 — Data Source Identifier.
pub const FRN_DATA_SOURCE: u8 = 1;
/// I019/000 — Message Type.
pub const FRN_MESSAGE_TYPE: u8 = 2;
/// I019/140 — Time of Day.
pub const FRN_TIME_OF_DAY: u8 = 3;
/// I019/550 — System Status.
pub const FRN_SYSTEM_STATUS: u8 = 4;

/// The kind of a CAT019 status message (I019/000).
#[derive(Debug, Clone, Copy, PartialEq, Eq, Structural)]
pub enum MlatStatusType {
    /// 1 — start of update cycle.
    StartOfUpdateCycle,
    /// 2 — periodic status message.
    Periodic,
    /// 3 — event-triggered status message.
    Event,
    /// Any other code, kept rather than rejected.
    Other(u8),
}

/// The message type a code names.
pub open spec fn status_type_of(code: u8) -> MlatStatusType {
    if code == 1 {
        MlatStatusType::StartOfUpdateCycle
    } else if code == 2 {
        MlatStatusType::Periodic
    } else if code == 3 {
        MlatStatusType::Event
    } else {
        MlatStatusType::Other(code)
    }
}

impl MlatStatusType {
    /// The message type a code names; unknown codes are kept as `Other`.
    pub fn from_code(code: u8) -> (r: Self)
        ensures
            r == status_type_of(code),
    {
        if code == 1 {
            MlatStatusType::StartOfUpdateCycle
        } else if code == 2 {
            MlatStatusType::Periodic
        } else if code == 3 {
            MlatStatusType::Event
        } else {
            MlatStatusType::Other(code)
        }
    }
}

/// How a CAT019 data item is laid out on the wire.
#[derive(Debug, Clone, Copy, PartialEq, Eq, Structural)]
pub enum ItemFormat {
    /// A fixed number of octets.
    Fixed(usize),
    /// An FX-chained sequence of octets.
    Extended,
    /// A one-octet repetition factor, then that many groups of `n` octets.
    Repetitive(usize),
    /// A one-octet length indicator giving the item's total length.
    Explicit,
}

/// The wire layout of each CAT019 UAP item; FRNs 11 and 12 are spare.
pub open spec fn format_of(frn: u8) -> Option<ItemFormat> {
    if frn == 1 || frn == 9 {
        Some(ItemFormat::Fixed(2))
    } else if frn == 2 || frn == 4 || frn == 5 || frn == 10 {
        Some(ItemFormat::Fixed(1))
    } else if frn == 3 {
        Some(ItemFormat::Fixed(3))
    } else if frn == 8 {
        Some(ItemFormat::Fixed(8))
    } else if frn == 6 {
        Some(ItemFormat::Repetitive(2))
    } else if frn == 7 {
        Some(ItemFormat::Extended)
    } else if frn == 13 || frn == 14 {
        Some(ItemFormat::Explicit)
    } else {
        None
    }
}

/// The wire layout of each CAT019 UAP item.
pub fn item_format(frn: u8) -> (r: Option<ItemFormat>)
    ensures
        r == format_of(frn),
{
    if frn == 1 || frn == 9 {
        Some(ItemFormat::Fixed(2))
    } else if frn == 2 || frn == 4 || frn == 5 || frn == 10 {
        Some(ItemFormat::Fixed(1))
    } else if frn == 3 {
        Some(ItemFormat::Fixed(3))
    } else if frn == 8 {
        Some(ItemFormat::Fixed(8))
    } else if frn == 6 {
        Some(ItemFormat::Repetitive(2))
    } else if frn == 7 {
        Some(ItemFormat::Extended)
    } else if frn == 13 || frn == 14 {
        Some(ItemFormat::Explicit)
    } else {
        None
    }
}

/// Exactly the defined FRNs 1 to 10, 13 and 14 have a format.
pub proof fn lemma_uap_formats(frn: u8)
    ensures
        format_of(frn) is Some <==> (1 <= frn <= 10 || frn == 13 || frn == 14),
{
}

/// How many octets the item `frn` at `pos` occupies.
pub open spec fn item_len(data: Seq<u8>, frn: u8, pos: int) -> Result<int, WalkError> {
    match format_of(frn) {
        None => Err(WalkError::UnknownItem(frn)),
        Some(ItemFormat::Fixed(n)) => fixed_len(data, pos, n as int),
        Some(ItemFormat::Extended) => extended_len(data, pos),
        Some(ItemFormat::Repetitive(per)) => repetitive_len(data, pos, per as int),
        Some(ItemFormat::Explicit) => explicit_len(data, pos),
    }
}

/// I019/550 NOGO: only the value 0 (operational) is an operational claim;
/// degraded, NOGO and undefined are not.
pub open spec fn nogo_operational(status: u8) -> bool {
    (status >> 6u8) & 3u8 == 0u8
}

/// One decoded CAT019 status message.
#[derive(Debug, Clone, Copy, PartialEq, Eq, Structural)]
pub struct DecodedMlatStatus {
    /// I019/010 — System Area Code.
    pub sac: u8,
    /// I019/010 — System Identification Code.
    pub sic: u8,
    /// I019/000 — message type.
    pub message_type: MlatStatusType,
    /// I019/140 — time of day, 1/128-second ticks.
    pub time_ticks: Option<u32>,
    /// I019/550 NOGO — whether the system reports itself operational.
    pub operational: Option<bool>,
}

/// The items of one CAT019 record decoded so far.
#[derive(Debug, Clone, Copy)]
pub struct MlatStatusFields {
    /// I019/010.
    pub source: Option<(u8, u8)>,
    /// I019/000.
    pub message_type: Option<MlatStatusType>,
    /// I019/140.
    pub time_ticks: Option<u32>,
    /// I019/550.
    pub operational: Option<bool>,
}

/// Fold the octets `b` of item `frn` into the fields decoded so far.
pub open spec fn apply_item(frn: u8, b: Seq<u8>, acc: MlatStatusFields) -> MlatStatusFields {
    if frn == FRN_DATA_SOURCE {
        MlatStatusFields { source: Some((b[0], b[1])), ..acc }
    } else if frn == FRN_MESSAGE_TYPE {
        MlatStatusFields { message_type: Some(status_type_of(b[0])), ..acc }
    } else if frn == FRN_TIME_OF_DAY {
        MlatStatusFields { time_ticks: Some(be24(b[0], b[1], b[2]) as u32), ..acc }
    } else if frn == FRN_SYSTEM_STATUS {
        MlatStatusFields { operational: Some(nogo_operational(b[0])), ..acc }
    } else {
        acc
    }
}

/// The message the decoded items describe; identity and type are required.
pub open spec fn finish_fields(f: MlatStatusFields) -> Result<DecodedMlatStatus, u8> {
    match (f.source, f.message_type) {
        (None, _) => Err(FRN_DATA_SOURCE),
        (Some(_), None) => Err(FRN_MESSAGE_TYPE),
        (Some((sac, sic)), Some(message_type)) => Ok(
            DecodedMlatStatus {
                sac,
                sic,
                message_type,
                time_ticks: f.time_ticks,
                operational: f.operational,
            },
        ),
    }
}

fn take_item(data: &[u8], pos: usize, frn: u8) -> (r: Result<usize, WalkError>)
    requires
        pos <= data.len(),
    ensures
        crate::wire::as_int_len(r) == item_len(data@, frn, pos as int),
        r matches Ok(l) ==> pos + l <= data.len(),
{
    let r = match item_format(frn) {
        None => Err(WalkError::UnknownItem(frn)),
        Some(ItemFormat::Fixed(n)) => take_fixed(data, pos, n),
        Some(ItemFormat::Extended) => take_extended(data, pos),
        Some(ItemFormat::Repetitive(per)) => take_repetitive(data, pos, per),
        Some(ItemFormat::Explicit) => take_explicit(data, pos),
    };
    proof {
        crate::fspec::lemma_chain_len_bound(data@, pos as int);
    }
    r
}

/// The CAT019 record model.
pub struct Cat019Format;

impl RecordFormat for Cat019Format {
    type Fields = MlatStatusFields;

    type Report = DecodedMlatStatus;

    open spec fn category() -> u8 {
        CATEGORY
    }

    open spec fn item_len(data: Seq<u8>, frn: u8, pos: int, acc: MlatStatusFields) -> Result<
        int,
        BlockError,
    > {
        as_block_len(item_len(data, frn, pos))
    }

    open spec fn apply(frn: u8, b: Seq<u8>, acc: MlatStatusFields) -> MlatStatusFields {
        apply_item(frn, b, acc)
    }

    open spec fn initial() -> MlatStatusFields {
        MlatStatusFields { source: None, message_type: None, time_ticks: None, operational: None }
    }

    open spec fn finish_spec(f: MlatStatusFields) -> Result<DecodedMlatStatus, u8> {
        finish_fields(f)
    }

    fn category_octet() -> (c: u8) {
        CATEGORY
    }

    fn initial_fields() -> (f: MlatStatusFields) {
        MlatStatusFields { source: None, message_type: None, time_ticks: None, operational: None }
    }

    fn decode_item(data: &[u8], pos: usize, frn: u8, acc: MlatStatusFields) -> (r: Result<
        (MlatStatusFields, usize),
        BlockError,
    >) {
        let l = match take_item(data, pos, frn) {
            Ok(l) => l,
            Err(e) => return Err(failure_of(e)),
        };
        let end = pos + l;
        let mut fields = acc;
        if frn == FRN_DATA_SOURCE {
            fields.source = Some((data[pos], data[pos + 1]));
        } else if frn == FRN_MESSAGE_TYPE {
            fields.message_type = Some(MlatStatusType::from_code(data[pos]));
        } else if frn == FRN_TIME_OF_DAY {
            fields.time_ticks = Some(be24_at(data, pos));
        } else if frn == FRN_SYSTEM_STATUS {
            fields.operational = Some((data[pos] >> 6u8) & 3u8 == 0u8);
        }
        Ok((fields, end))
    }

    fn finish(f: MlatStatusFields) -> (r: Result<DecodedMlatStatus, u8>) {
        let (sac, sic) = match f.source {
            Some(s) => s,
            None => return Err(FRN_DATA_SOURCE),
        };
        let message_type = match f.message_type {
            Some(t) => t,
            None => return Err(FRN_MESSAGE_TYPE),
        };
        Ok(
            DecodedMlatStatus {
                sac,
                sic,
                message_type,
                time_ticks: f.time_ticks,
                operational: f.operational,
            },
        )
    }
}

/// Errors that can occur while decoding a CAT019 data block.
#[derive(Debug, Clone, Copy, PartialEq, Eq, Structural)]
pub enum Cat019DecodeError {
    /// The input ended before a complete block/record/item could be read.
    Truncated,
    /// The first octet was not 19.
    WrongCategory(u8),
    /// The `LEN` field did not match the actual input length.
    LengthMismatch { declared: usize, actual: usize },
    /// The FSPEC marked a spare FRN present.
    UnknownItem(u8),
    /// A record was missing I019/010 or I019/000.
    MissingItem(u8),
    /// The FSPEC's FX chain ran past the supported FRN space.
    FspecTooLong,
}

impl Cat019DecodeError {
    /// The error in the terms every record format shares.
    pub open spec fn kind(self) -> BlockError {
        match self {
            Cat019DecodeError::Truncated => BlockError::Truncated,
            Cat019DecodeError::WrongCategory(c) => BlockError::WrongCategory(c),
            Cat019DecodeError::LengthMismatch { declared, actual } => BlockError::LengthMismatch {
                declared,
                actual,
            },
            Cat019DecodeError::UnknownItem(frn) => BlockError::UnknownItem(frn),
            Cat019DecodeError::MissingItem(frn) => BlockError::MissingItem(frn),
            Cat019DecodeError::FspecTooLong => BlockError::FspecTooLong,
        }
    }

    /// A human-readable description of the error.
    pub fn message(&self) -> (r: String)
        ensures
            r@ == block_error_text(19, self.kind(), UnknownItemWording::Unskippable),
    {
        let kind = match *self {
            Cat019DecodeError::Truncated => BlockError::Truncated,
            Cat019DecodeError::WrongCategory(c) => BlockError::WrongCategory(c),
            Cat019DecodeError::LengthMismatch { declared, actual } => BlockError::LengthMismatch {
                declared,
                actual,
            },
            Cat019DecodeError::UnknownItem(frn) => BlockError::UnknownItem(frn),
            Cat019DecodeError::MissingItem(frn) => BlockError::MissingItem(frn),
            Cat019DecodeError::FspecTooLong => BlockError::FspecTooLong,
        };
        block_error_message(19, kind, UnknownItemWording::Unskippable)
    }
}

/// A block error as a CAT019 error.
pub open spec fn cat019_error(e: BlockError) -> Cat019DecodeError {
    match e {
        BlockError::Truncated => Cat019DecodeError::Truncated,
        BlockError::WrongCategory(c) => Cat019DecodeError::WrongCategory(c),
        BlockError::LengthMismatch { declared, actual } => Cat019DecodeError::LengthMismatch {
            declared,
            actual,
        },
        BlockError::UnknownItem(f) => Cat019DecodeError::UnknownItem(f),
        BlockError::MissingItem(f) => Cat019DecodeError::MissingItem(f),
        BlockError::FspecTooLong => Cat019DecodeError::FspecTooLong,
    }
}

fn error_of(e: BlockError) -> (r: Cat019DecodeError)
    ensures
        r == cat019_error(e),
{
    match e {
        BlockError::Truncated => Cat019DecodeError::Truncated,
        BlockError::WrongCategory(c) => Cat019DecodeError::WrongCategory(c),
        BlockError::LengthMismatch { declared, actual } => Cat019DecodeError::LengthMismatch {
            declared,
            actual,
        },
        BlockError::UnknownItem(f) => Cat019DecodeError::UnknownItem(f),
        BlockError::MissingItem(f) => Cat019DecodeError::MissingItem(f),
        BlockError::FspecTooLong => Cat019DecodeError::FspecTooLong,
    }
}

/// Decode a CAT019 data block into one status message per record; never
/// panics on input.
pub fn decode_mlat_status(bytes: &[u8]) -> (r: Result<
    Vec<DecodedMlatStatus>,
    Cat019DecodeError,
>)
    ensures
        match r {
            Ok(messages) => block::<Cat019Format>(bytes@) == Ok::<
                Seq<DecodedMlatStatus>,
                BlockError,
            >(messages@),
            Err(e) => block::<Cat019Format>(bytes@) is Err && e == cat019_error(
                block::<Cat019Format>(bytes@)->Err_0,
            ),
        },
{
    match decode_records::<Cat019Format>(bytes) {
        Ok(messages) => Ok(messages),
        Err(f) => Err(error_of(f)),
    }
}

/// Folding the items from FRN `k` on leaves the identity and time fields
/// as `acc` had them, except that each item present among them sets its
/// own field from its own octets.
proof fn lemma_fold_keeps_fields(items: Map<u8, Seq<u8>>, k: int, acc: MlatStatusFields)
    requires
        1 <= k,
    ensures
        ({
            let f = crate::wire::apply_from(items, k, acc, fold_of::<Cat019Format>());
            &&& f.source == (if k <= 1 && items.contains_key(1) {
                Some((items[1u8][0], items[1u8][1]))
            } else {
                acc.source
            })
            &&& (f.message_type is Some <==> (k <= 2 && items.contains_key(2)) || acc.message_type is Some)
            &&& f.time_ticks == (if k <= 3 && items.contains_key(3) {
                Some((items[3u8][0] * 65536 + items[3u8][1] * 256 + items[3u8][2]) as u32)
            } else {
                acc.time_ticks
            })
        }),
    decreases 256 - k,
{
    if k <= 255 {
        if items.contains_key(k as u8) {
            let next = apply_item(k as u8, items[k as u8], acc);
            lemma_fold_keeps_fields(items, k + 1, next);
        } else {
            lemma_fold_keeps_fields(items, k + 1, acc);
        }
    }
}

/// Decoding a record laid out as an FSPEC followed by its items in FRN
/// order (what `RecordBuilder` writes) ends right after it and reports what
/// the octets say: SAC and SIC from I019/010; the time of day as the 24-bit
/// count of I019/140. An absent item
/// leaves its field empty. The record must carry I019/010 and I019/000, and
/// each item must read as exactly its own octets.
pub proof fn lemma_record_reports_its_octets(data: Seq<u8>, pos: int, items: Map<u8, Seq<u8>>)
    requires
        crate::wire::frns_in_uap_range(items),
        items.contains_key(FRN_DATA_SOURCE),
        items.contains_key(FRN_MESSAGE_TYPE),
        crate::wire::holds_at(data, pos, crate::fspec::record_bytes(items)),
        items_delimit::<Cat019Format>(data, items),
    ensures
        record_at::<Cat019Format>(data, pos) matches Ok((r, end)) && {
            &&& end == pos + crate::fspec::record_bytes(items).len()
            &&& r.sac == items[FRN_DATA_SOURCE][0] && r.sic == items[FRN_DATA_SOURCE][1]
            &&& r.time_ticks == (if items.contains_key(FRN_TIME_OF_DAY) {
                let b = items[FRN_TIME_OF_DAY];
                Some((b[0] * 65536 + b[1] * 256 + b[2]) as u32)
            } else {
                None
            })
        },
{
    assert(items.contains_key(FRN_DATA_SOURCE));
    lemma_record_at_encoded::<Cat019Format>(data, pos, items);
    lemma_fold_keeps_fields(items, 1, Cat019Format::initial());
}

} // verus!

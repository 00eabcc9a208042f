//! CAT065 framing and data items — SDPS Service Status Messages, the feed
//! heartbeat.
//!
//! A [`Cat065Encoder`] turns one status report into a single CAT065 data
//! block `[CAT=65][LEN][record]`: data source (I065/010), message type
//! (I065/000 = SDPS Status), service identification (I065/015), time of day
//! (I065/030) and the SDPS configuration/status octet (I065/040), whose NOGO
//! field reports operational vs. degraded. [`decode_status_block`] is its
//! inverse ([`lemma_decode_inverts_encode_status`]).

use vstd::prelude::*;

use crate::cat062::{time_item, DataSourceId};
use crate::fspec::{
    chain_len_from, encoded_fspec, fspec_extent_at, frn_present, payload_from, record_bytes,
    RecordBuilder, MAX_FSPEC_OCTETS,
};
use crate::octets::{
    be16, be16_at, be24, be24_at, block_header, data_block, lemma_be16_roundtrip,
    lemma_be24_roundtrip, one_octet, push_u24, two_octets, u16_octets, u24_octets,
};
use crate::wire::{
    apply_from, fixed_len, frns_in_uap_range, holds_at, lemma_apply_skip, lemma_walk_encoded,
    take_fixed, walk, WalkError,
};

use crate::describe::{block_error_message, block_error_text, UnknownItemWording};
use crate::record::BlockError;

verus! {

/// The ASTERIX category number for SDPS service status messages.
pub const CATEGORY: u8 = 65;

/// I065/010 — Data Source Identifier.
pub const FRN_DATA_SOURCE: u8 = 1;
/// I065/000 — Message Type.
pub const FRN_MESSAGE_TYPE: u8 = 2;
/// I065/015 — Service Identification.
pub const FRN_SERVICE_IDENTIFICATION: u8 = 3;
/// I065/030 — Time of Day.
pub const FRN_TIME_OF_DAY: u8 = 4;
/// I065/020 — Batch Number (decoded but not emitted).
pub const FRN_BATCH_NUMBER: u8 = 5;
/// I065/040 — SDPS Configuration and Status.
pub const FRN_SDPS_STATUS: u8 = 6;
/// I065/050 — Service Status Report (decoded but not emitted).
pub const FRN_SERVICE_STATUS_REPORT: u8 = 7;

/// I065/000 message type: a periodic SDPS status report — the heartbeat.
pub const MESSAGE_TYPE_SDPS_STATUS: u8 = 1;

/// I065/040 NOGO field mask (bits 8/7).
pub const SDPS_STATUS_NOGO_MASK: u8 = 0xC0;
/// I065/040 NOGO = operational.
pub const SDPS_STATUS_OPERATIONAL: u8 = 0x00;
/// I065/040 NOGO = degraded.
pub const SDPS_STATUS_DEGRADED: u8 = 0x40;

/// Encodes SDPS service status reports into CAT065 data blocks: who is
/// reporting (I065/010) and which service (I065/015).
#[derive(Debug, Clone, Copy)]
pub struct Cat065Encoder {
    /// I065/010 stamped on every block.
    pub source: DataSourceId,
    /// I065/015 stamped on every block.
    pub service_id: u8,
}

/// One decoded CAT065 SDPS status report.
#[derive(Debug, Clone, Copy, PartialEq, Eq, Structural)]
pub struct DecodedStatus {
    /// I065/010 — the data source that produced this status.
    pub source: DataSourceId,
    /// I065/000 — message type.
    pub message_type: u8,
    /// I065/015 — service identification.
    pub service_id: u8,
    /// I065/030 — time of day, 1/128-second ticks since midnight.
    pub time_ticks: u32,
    /// I065/040 NOGO — `true` when the SDPS reports itself operational.
    pub operational: bool,
}

/// Errors that can occur while decoding a CAT065 data block.
#[derive(Debug, Clone, Copy, PartialEq, Eq, Structural)]
pub enum Cat065DecodeError {
    /// The input ended before a complete block/record/item could be read.
    Truncated,
    /// The first octet was not 65.
    WrongCategory(u8),
    /// The `LEN` field did not match the length of the input.
    LengthMismatch { declared: usize, actual: usize },
    /// The FSPEC marked an FRN present that this decoder doesn't know.
    UnknownItem(u8),
    /// A record's FSPEC was missing an item a status report requires.
    MissingItem(u8),
    /// The FSPEC's FX chain ran past the supported FRN space.
    FspecTooLong,
}

impl Cat065DecodeError {
    /// The error in the terms every record format shares.
    pub open spec fn kind(self) -> BlockError {
        match self {
            Cat065DecodeError::Truncated => BlockError::Truncated,
            Cat065DecodeError::WrongCategory(c) => BlockError::WrongCategory(c),
            Cat065DecodeError::LengthMismatch { declared, actual } => BlockError::LengthMismatch {
                declared,
                actual,
            },
            Cat065DecodeError::UnknownItem(frn) => BlockError::UnknownItem(frn),
            Cat065DecodeError::MissingItem(frn) => BlockError::MissingItem(frn),
            Cat065DecodeError::FspecTooLong => BlockError::FspecTooLong,
        }
    }

    /// A human-readable description of the error.
    pub fn message(&self) -> (r: String)
        ensures
            r@ == block_error_text(65, self.kind(), UnknownItemWording::Unknown),
    {
        let kind = match *self {
            Cat065DecodeError::Truncated => BlockError::Truncated,
            Cat065DecodeError::WrongCategory(c) => BlockError::WrongCategory(c),
            Cat065DecodeError::LengthMismatch { declared, actual } => BlockError::LengthMismatch {
                declared,
                actual,
            },
            Cat065DecodeError::UnknownItem(frn) => BlockError::UnknownItem(frn),
            Cat065DecodeError::MissingItem(frn) => BlockError::MissingItem(frn),
            Cat065DecodeError::FspecTooLong => BlockError::FspecTooLong,
        };
        block_error_message(65, kind, UnknownItemWording::Unknown)
    }
}

/// I065/040: NOGO operational (`0x00`) or degraded (`0x40`).
pub open spec fn sdps_status_octet(operational: bool) -> u8 {
    if operational {
        SDPS_STATUS_OPERATIONAL
    } else {
        SDPS_STATUS_DEGRADED
    }
}

/// The items of one SDPS Status record.
#[verifier::opaque]
pub open spec fn status_items(
    source: DataSourceId,
    service_id: u8,
    time_ticks: u32,
    operational: bool,
) -> Map<u8, Seq<u8>> {
    map![
        FRN_DATA_SOURCE => seq![source.sac, source.sic],
        FRN_MESSAGE_TYPE => seq![MESSAGE_TYPE_SDPS_STATUS],
        FRN_SERVICE_IDENTIFICATION => seq![service_id],
        FRN_TIME_OF_DAY => time_item(time_ticks),
        FRN_SDPS_STATUS => seq![sdps_status_octet(operational)],
    ]
}

/// The whole heartbeat block.
pub open spec fn encoded_status_block(
    source: DataSourceId,
    service_id: u8,
    time_ticks: u32,
    operational: bool,
) -> Seq<u8> {
    let record = record_bytes(status_items(source, service_id, time_ticks, operational));
    block_header(CATEGORY, record.len() as int) + record
}

impl Cat065Encoder {
    /// An encoder that stamps every status block with `source` as the data
    /// source and `service_id` as I065/015.
    pub fn new(source: DataSourceId, service_id: u8) -> (r: Self)
        ensures
            r.source == source,
            r.service_id == service_id,
    {
        Cat065Encoder { source, service_id }
    }

    /// Encode one periodic SDPS Status message (the heartbeat), stamped with
    /// `time_ticks` (1/128-second ticks since UTC midnight; the low 24 bits
    /// are sent) and an `operational` flag for the NOGO field of I065/040.
    pub fn encode_status(&self, time_ticks: u32, operational: bool) -> (out: Vec<u8>)
        ensures
            out@ == encoded_status_block(self.source, self.service_id, time_ticks, operational),
    {
        let record = RecordBuilder::new().item(
            FRN_DATA_SOURCE,
            two_octets(self.source.sac, self.source.sic),
        ).item(FRN_MESSAGE_TYPE, one_octet(MESSAGE_TYPE_SDPS_STATUS)).item(
            FRN_SERVICE_IDENTIFICATION,
            one_octet(self.service_id),
        ).item(FRN_TIME_OF_DAY, crate::cat062::encode_time_of_track(time_ticks)).item(
            FRN_SDPS_STATUS,
            one_octet(encode_sdps_status(operational)),
        );
        proof {
            reveal(status_items);
        }
        assert(record.items() =~= status_items(
            self.source,
            self.service_id,
            time_ticks,
            operational,
        ));
        let bytes = record.finish();
        data_block(CATEGORY, bytes.as_slice())
    }
}

/// I065/040 — SDPS Configuration and Status: NOGO operational/degraded.
pub fn encode_sdps_status(operational: bool) -> (r: u8)
    ensures
        r == sdps_status_octet(operational),
{
    if operational {
        SDPS_STATUS_OPERATIONAL
    } else {
        SDPS_STATUS_DEGRADED
    }
}

// ---------------------------------------------------------------------------
// What decoding means.
// ---------------------------------------------------------------------------

/// The items of one status record decoded so far.
#[derive(Debug, Clone, Copy)]
pub struct StatusFields {
    /// I065/010.
    pub source: Option<DataSourceId>,
    /// I065/000.
    pub message_type: Option<u8>,
    /// I065/015.
    pub service_id: Option<u8>,
    /// I065/030.
    pub time_ticks: Option<u32>,
    /// I065/040 NOGO operational.
    pub operational: Option<bool>,
}

/// No item decoded yet.
pub open spec fn no_fields() -> StatusFields {
    StatusFields {
        source: None,
        message_type: None,
        service_id: None,
        time_ticks: None,
        operational: None,
    }
}

/// How many octets the item `frn` at `pos` occupies.
#[verifier::opaque]
pub open spec fn item_len(data: Seq<u8>, frn: u8, pos: int) -> Result<int, WalkError> {
    if frn == FRN_DATA_SOURCE {
        fixed_len(data, pos, 2)
    } else if frn == FRN_MESSAGE_TYPE || frn == FRN_SERVICE_IDENTIFICATION || frn
        == FRN_BATCH_NUMBER || frn == FRN_SDPS_STATUS || frn == FRN_SERVICE_STATUS_REPORT {
        fixed_len(data, pos, 1)
    } else if frn == FRN_TIME_OF_DAY {
        fixed_len(data, pos, 3)
    } else {
        Err(WalkError::UnknownItem(frn))
    }
}

/// The item-length model of one block's octets.
pub open spec fn item_lens(data: Seq<u8>) -> spec_fn(u8, int) -> Result<int, WalkError> {
    |frn: u8, pos: int| item_len(data, frn, pos)
}

/// Fold the octets `b` of item `frn` into the fields decoded so far (batch
/// number and service status report are read past and ignored).
#[verifier::opaque]
pub open spec fn apply_item(frn: u8, b: Seq<u8>, acc: StatusFields) -> StatusFields {
    if frn == FRN_DATA_SOURCE {
        StatusFields { source: Some(DataSourceId { sac: b[0], sic: b[1] }), ..acc }
    } else if frn == FRN_MESSAGE_TYPE {
        StatusFields { message_type: Some(b[0]), ..acc }
    } else if frn == FRN_SERVICE_IDENTIFICATION {
        StatusFields { service_id: Some(b[0]), ..acc }
    } else if frn == FRN_TIME_OF_DAY {
        StatusFields { time_ticks: Some(be24(b[0], b[1], b[2]) as u32), ..acc }
    } else if frn == FRN_SDPS_STATUS {
        StatusFields {
            operational: Some(b[0] & SDPS_STATUS_NOGO_MASK == SDPS_STATUS_OPERATIONAL),
            ..acc
        }
    } else {
        acc
    }
}

/// The item fold as a value.
pub open spec fn item_apply() -> spec_fn(u8, Seq<u8>, StatusFields) -> StatusFields {
    |frn: u8, b: Seq<u8>, acc: StatusFields| apply_item(frn, b, acc)
}

/// The status the decoded items describe, or the first missing required item
/// (source, message type, service, time, status — in that order).
pub open spec fn finish_fields(f: StatusFields) -> Result<DecodedStatus, Cat065DecodeError> {
    if f.source is None {
        Err(Cat065DecodeError::MissingItem(FRN_DATA_SOURCE))
    } else if f.message_type is None {
        Err(Cat065DecodeError::MissingItem(FRN_MESSAGE_TYPE))
    } else if f.service_id is None {
        Err(Cat065DecodeError::MissingItem(FRN_SERVICE_IDENTIFICATION))
    } else if f.time_ticks is None {
        Err(Cat065DecodeError::MissingItem(FRN_TIME_OF_DAY))
    } else if f.operational is None {
        Err(Cat065DecodeError::MissingItem(FRN_SDPS_STATUS))
    } else {
        Ok(
            DecodedStatus {
                source: f.source->Some_0,
                message_type: f.message_type->Some_0,
                service_id: f.service_id->Some_0,
                time_ticks: f.time_ticks->Some_0,
                operational: f.operational->Some_0,
            },
        )
    }
}

/// The walk's error as a CAT065 error.
pub open spec fn walk_error(e: WalkError) -> Cat065DecodeError {
    match e {
        WalkError::Truncated => Cat065DecodeError::Truncated,
        WalkError::UnknownItem(f) => Cat065DecodeError::UnknownItem(f),
    }
}

/// Decoding the record that starts at `pos` of the block's declared octets
/// `data`: the record and the offset just past it.
pub open spec fn decode_record_at(data: Seq<u8>, pos: int) -> Result<
    (DecodedStatus, int),
    Cat065DecodeError,
> {
    let n = chain_len_from(data, pos);
    if n > MAX_FSPEC_OCTETS {
        Err(Cat065DecodeError::FspecTooLong)
    } else if n == 0 {
        Err(Cat065DecodeError::Truncated)
    } else {
        match walk(
            data,
            data.subrange(pos, pos + n),
            n,
            1,
            pos + n,
            no_fields(),
            item_lens(data),
            item_apply(),
        ) {
            Err(e) => Err(walk_error(e)),
            Ok((fields, end)) => match finish_fields(fields) {
                Err(e) => Err(e),
                Ok(r) => Ok((r, end)),
            },
        }
    }
}

/// Decoding every record from `pos` to the end of `data`.
pub open spec fn decode_records_from(data: Seq<u8>, pos: int) -> Result<
    Seq<DecodedStatus>,
    Cat065DecodeError,
>
    decreases data.len() - pos,
{
    if pos < 0 || pos >= data.len() {
        Ok(Seq::empty())
    } else {
        match decode_record_at(data, pos) {
            Err(e) => Err(e),
            Ok((r, end)) => if end <= pos || end > data.len() {
                Err(Cat065DecodeError::Truncated)
            } else {
                match decode_records_from(data, end) {
                    Err(e) => Err(e),
                    Ok(rest) => Ok(seq![r] + rest),
                }
            },
        }
    }
}

/// Decoding a whole CAT065 data block: its LEN field must give the block's
/// length exactly.
pub open spec fn decode_block(bytes: Seq<u8>) -> Result<Seq<DecodedStatus>, Cat065DecodeError> {
    if bytes.len() < 3 {
        Err(Cat065DecodeError::Truncated)
    } else if bytes[0] != CATEGORY {
        Err(Cat065DecodeError::WrongCategory(bytes[0]))
    } else if be16(bytes[1], bytes[2]) != bytes.len() {
        Err(
            Cat065DecodeError::LengthMismatch {
                declared: be16(bytes[1], bytes[2]) as usize,
                actual: bytes.len() as usize,
            },
        )
    } else {
        decode_records_from(bytes.subrange(0, be16(bytes[1], bytes[2])), 3)
    }
}

// ---------------------------------------------------------------------------
// Decoding.
// ---------------------------------------------------------------------------

fn decode_item(data: &[u8], pos: usize, frn: u8, acc: StatusFields) -> (r: Result<
    (StatusFields, usize),
    WalkError,
>)
    requires
        pos <= data.len(),
    ensures
        match r {
            Ok((fields, end)) => {
                &&& item_len(data@, frn, pos as int) == Ok::<int, WalkError>(end - pos)
                &&& pos <= end <= data.len()
                &&& fields == apply_item(frn, data@.subrange(pos as int, end as int), acc)
            },
            Err(e) => item_len(data@, frn, pos as int) == Err::<int, WalkError>(e),
        },
{
    reveal(item_len);
    reveal(apply_item);
    let l = if frn == FRN_DATA_SOURCE {
        take_fixed(data, pos, 2)
    } else if frn == FRN_MESSAGE_TYPE || frn == FRN_SERVICE_IDENTIFICATION || frn
        == FRN_BATCH_NUMBER || frn == FRN_SDPS_STATUS || frn == FRN_SERVICE_STATUS_REPORT {
        take_fixed(data, pos, 1)
    } else if frn == FRN_TIME_OF_DAY {
        take_fixed(data, pos, 3)
    } else {
        Err(WalkError::UnknownItem(frn))
    };
    let l = match l {
        Ok(l) => l,
        Err(e) => return Err(e),
    };
    let end = pos + l;
    let mut fields = acc;
    if frn == FRN_DATA_SOURCE {
        fields.source = Some(DataSourceId { sac: data[pos], sic: data[pos + 1] });
    } else if frn == FRN_MESSAGE_TYPE {
        fields.message_type = Some(data[pos]);
    } else if frn == FRN_SERVICE_IDENTIFICATION {
        fields.service_id = Some(data[pos]);
    } else if frn == FRN_TIME_OF_DAY {
        fields.time_ticks = Some(be24_at(data, pos));
    } else if frn == FRN_SDPS_STATUS {
        fields.operational = Some(data[pos] & SDPS_STATUS_NOGO_MASK == SDPS_STATUS_OPERATIONAL);
    }
    Ok((fields, end))
}

fn finish(f: StatusFields) -> (r: Result<DecodedStatus, Cat065DecodeError>)
    ensures
        r == finish_fields(f),
{
    let source = match f.source {
        Some(s) => s,
        None => return Err(Cat065DecodeError::MissingItem(FRN_DATA_SOURCE)),
    };
    let message_type = match f.message_type {
        Some(m) => m,
        None => return Err(Cat065DecodeError::MissingItem(FRN_MESSAGE_TYPE)),
    };
    let service_id = match f.service_id {
        Some(s) => s,
        None => return Err(Cat065DecodeError::MissingItem(FRN_SERVICE_IDENTIFICATION)),
    };
    let time_ticks = match f.time_ticks {
        Some(t) => t,
        None => return Err(Cat065DecodeError::MissingItem(FRN_TIME_OF_DAY)),
    };
    let operational = match f.operational {
        Some(o) => o,
        None => return Err(Cat065DecodeError::MissingItem(FRN_SDPS_STATUS)),
    };
    Ok(DecodedStatus { source, message_type, service_id, time_ticks, operational })
}

fn walk_error_of(e: WalkError) -> (r: Cat065DecodeError)
    ensures
        r == walk_error(e),
{
    match e {
        WalkError::Truncated => Cat065DecodeError::Truncated,
        WalkError::UnknownItem(f) => Cat065DecodeError::UnknownItem(f),
    }
}

proof fn lemma_item_lens_fit(data: Seq<u8>)
    ensures
        forall|f: u8, p: int|
            0 <= p <= data.len() && (#[trigger] item_lens(data)(f, p)) is Ok ==> 0 <= item_lens(
                data,
            )(f, p)->Ok_0 && p + item_lens(data)(f, p)->Ok_0 <= data.len(),
{
    reveal(item_len);
}

fn decode_record(data: &[u8], pos: usize) -> (r: Result<(DecodedStatus, usize), Cat065DecodeError>)
    requires
        pos < data.len(),
    ensures
        match r {
            Ok((rec, end)) => decode_record_at(data@, pos as int) == Ok::<
                (DecodedStatus, int),
                Cat065DecodeError,
            >((rec, end as int)) && pos < end <= data.len(),
            Err(e) => decode_record_at(data@, pos as int) == Err::<
                (DecodedStatus, int),
                Cat065DecodeError,
            >(e),
        },
{
    let n = match fspec_extent_at(data, pos) {
        Ok(n) => n,
        Err(_) => return Err(Cat065DecodeError::FspecTooLong),
    };
    if n == 0 {
        return Err(Cat065DecodeError::Truncated);
    }
    let ghost fs = data@.subrange(pos as int, pos + n);
    let ghost lens = item_lens(data@);
    let ghost app = item_apply();
    let mut cur = pos + n;
    let mut acc = StatusFields {
        source: None,
        message_type: None,
        service_id: None,
        time_ticks: None,
        operational: None,
    };
    let mut k: usize = 1;
    proof {
        lemma_item_lens_fit(data@);
    }
    while k <= 7 * n
        invariant
            1 <= n <= MAX_FSPEC_OCTETS,
            pos + n <= data.len(),
            n == chain_len_from(data@, pos as int),
            1 <= k <= 7 * n + 1,
            pos + n <= cur <= data.len(),
            fs == data@.subrange(pos as int, pos + n),
            lens == item_lens(data@),
            app == item_apply(),
            walk(data@, fs, n as int, 1, pos + n, no_fields(), lens, app) == walk(
                data@,
                fs,
                n as int,
                k as int,
                cur as int,
                acc,
                lens,
                app,
            ),
        decreases 7 * n + 1 - k,
    {
        let octet = data[pos + (k - 1) / 7];
        let position = ((k - 1) % 7) as u8;
        assert(fs[(k - 1) / 7] == octet);
        if octet & (0x80u8 >> position) != 0u8 {
            assert(frn_present(fs, n as int, k as int));
            match decode_item(data, cur, k as u8, acc) {
                Ok((fields, end)) => {
                    assert(lens(k as u8, cur as int) == Ok::<int, WalkError>(end - cur));
                    assert(app(k as u8, data@.subrange(cur as int, end as int), acc) == fields);
                    acc = fields;
                    cur = end;
                },
                Err(e) => {
                    assert(lens(k as u8, cur as int) == Err::<int, WalkError>(e));
                    assert(walk(data@, fs, n as int, k as int, cur as int, acc, lens, app) == Err::<
                        (StatusFields, int),
                        WalkError,
                    >(e));
                    return Err(walk_error_of(e));
                },
            }
        } else {
            assert(!frn_present(fs, n as int, k as int));
        }
        k = k + 1;
    }
    match finish(acc) {
        Ok(rec) => Ok((rec, cur)),
        Err(e) => Err(e),
    }
}

/// The records still to decode, after the ones already decoded.
pub open spec fn after(
    done: Seq<DecodedStatus>,
    rest: Result<Seq<DecodedStatus>, Cat065DecodeError>,
) -> Result<Seq<DecodedStatus>, Cat065DecodeError> {
    match rest {
        Ok(rs) => Ok(done + rs),
        Err(e) => Err(e),
    }
}

/// Decode a CAT065 data block into its status reports — the inverse of
/// [`Cat065Encoder::encode_status`]. Never panics on malformed input.
pub fn decode_status_block(bytes: &[u8]) -> (r: Result<Vec<DecodedStatus>, Cat065DecodeError>)
    ensures
        match r {
            Ok(reports) => decode_block(bytes@) == Ok::<Seq<DecodedStatus>, Cat065DecodeError>(
                reports@,
            ),
            Err(e) => decode_block(bytes@) == Err::<Seq<DecodedStatus>, Cat065DecodeError>(e),
        },
{
    if bytes.len() < 3 {
        return Err(Cat065DecodeError::Truncated);
    }
    if bytes[0] != CATEGORY {
        return Err(Cat065DecodeError::WrongCategory(bytes[0]));
    }
    let declared = be16_at(bytes, 1) as usize;
    if declared != bytes.len() {
        return Err(Cat065DecodeError::LengthMismatch { declared, actual: bytes.len() });
    }
    let data = vstd::slice::slice_subrange(bytes, 0, declared);
    let mut reports: Vec<DecodedStatus> = Vec::new();
    let mut pos: usize = 3;
    while pos < data.len()
        invariant
            3 <= pos <= data.len(),
            data@ == bytes@.subrange(0, declared as int),
            declared == be16(bytes@[1], bytes@[2]),
            decode_block(bytes@) == after(reports@, decode_records_from(data@, pos as int)),
        decreases data.len() - pos,
    {
        match decode_record(data, pos) {
            Ok((rec, end)) => {
                proof {
                    assert(reports@.push(rec) + decode_records_from(data@, end as int)->Ok_0
                        =~= reports@ + (seq![rec] + decode_records_from(data@, end as int)->Ok_0));
                }
                reports.push(rec);
                pos = end;
            },
            Err(e) => {
                return Err(e);
            },
        }
    }
    assert(reports@ + Seq::<DecodedStatus>::empty() =~= reports@);
    Ok(reports)
}


// ---------------------------------------------------------------------------
// Decoding inverts encoding.
// ---------------------------------------------------------------------------

/// The status report the heartbeat encoder writes.
pub open spec fn heartbeat(
    source: DataSourceId,
    service_id: u8,
    time_ticks: u32,
    operational: bool,
) -> DecodedStatus {
    DecodedStatus {
        source,
        message_type: MESSAGE_TYPE_SDPS_STATUS,
        service_id,
        time_ticks,
        operational,
    }
}

proof fn lemma_status_items_shape(source: DataSourceId, service_id: u8, time_ticks: u32, operational: bool)
    ensures
        ({
            let items = status_items(source, service_id, time_ticks, operational);
            &&& forall|f: u8|
                #[trigger] items.contains_key(f) <==> (f == 1 || f == 2 || f == 3 || f == 4 || f
                    == 6)
            &&& items[1] == seq![source.sac, source.sic]
            &&& items[2] == seq![MESSAGE_TYPE_SDPS_STATUS]
            &&& items[3] == seq![service_id]
            &&& items[4] == time_item(time_ticks)
            &&& items[6] == seq![sdps_status_octet(operational)]
        }),
{
    reveal(status_items);
}

/// The heartbeat's record is nine octets: one FSPEC octet and eight payload
/// octets.
proof fn lemma_status_record_len(source: DataSourceId, service_id: u8, time_ticks: u32, operational: bool)
    ensures
        record_bytes(status_items(source, service_id, time_ticks, operational)).len() == 9,
{
    let items = status_items(source, service_id, time_ticks, operational);
    lemma_status_items_shape(source, service_id, time_ticks, operational);
    assert(exists|f: u8| #[trigger] items.contains_key(f)) by {
        assert(items.contains_key(1u8));
    }
    crate::wire::lemma_fspec_shape(items);
    crate::fspec::lemma_max_frn(items.dom(), 255);
    assert(items.dom().contains(6u8));
    assert(crate::fspec::max_frn_upto(items.dom(), 255) == 6) by {
        crate::fspec::lemma_max_frn(items.dom(), 255);
        assert(crate::fspec::has_frn(items.dom(), 6));
        let m = crate::fspec::max_frn_upto(items.dom(), 255);
        if m > 6 {
            assert(items.dom().contains(m as u8));
        }
    }
    crate::fspec::lemma_payload_skip(items, 5, 6);
    crate::fspec::lemma_payload_skip(items, 7, 256);
    assert(payload_from(items, 7) == Seq::<u8>::empty());
    assert(payload_from(items, 6) == items[6] + payload_from(items, 7));
    assert(payload_from(items, 4) == items[4] + payload_from(items, 5));
    assert(payload_from(items, 3) == items[3] + payload_from(items, 4));
    assert(payload_from(items, 2) == items[2] + payload_from(items, 3));
    assert(payload_from(items, 1) == items[1] + payload_from(items, 2));
    assert(payload_from(items, 1).len() == 8);
}

proof fn lemma_status_self_delimiting(data: Seq<u8>, items: Map<u8, Seq<u8>>, source: DataSourceId, service_id: u8, time_ticks: u32, operational: bool)
    requires
        items == status_items(source, service_id, time_ticks, operational),
    ensures
        forall|f: u8, p: int|
            items.contains_key(f) && holds_at(data, p, items[f]) ==> #[trigger] item_lens(data)(
                f,
                p,
            ) == Ok::<int, WalkError>(items[f].len() as int),
{
    lemma_status_items_shape(source, service_id, time_ticks, operational);
    assert forall|f: u8, p: int|
        items.contains_key(f) && holds_at(data, p, items[f]) implies #[trigger] item_lens(data)(
        f,
        p,
    ) == Ok::<int, WalkError>(items[f].len() as int) by {
        reveal(item_len);
    }
}

proof fn lemma_status_fields(source: DataSourceId, service_id: u8, time_ticks: u32, operational: bool)
    requires
        time_ticks < 16777216,
    ensures
        finish_fields(
            apply_from(
                status_items(source, service_id, time_ticks, operational),
                1,
                no_fields(),
                item_apply(),
            ),
        ) == Ok::<DecodedStatus, Cat065DecodeError>(
            heartbeat(source, service_id, time_ticks, operational),
        ),
{
    let items = status_items(source, service_id, time_ticks, operational);
    let ap = item_apply();
    lemma_status_items_shape(source, service_id, time_ticks, operational);
    lemma_be24_roundtrip(time_ticks as int);
    assert(0x00u8 & 0xC0u8 == 0x00u8) by (bit_vector);
    assert(0x40u8 & 0xC0u8 != 0x00u8) by (bit_vector);
    reveal(apply_item);
    let a0 = no_fields();
    let a1 = StatusFields { source: Some(source), ..a0 };
    let a2 = StatusFields { message_type: Some(MESSAGE_TYPE_SDPS_STATUS), ..a1 };
    let a3 = StatusFields { service_id: Some(service_id), ..a2 };
    let a4 = StatusFields { time_ticks: Some(time_ticks), ..a3 };
    let a6 = StatusFields { operational: Some(operational), ..a4 };
    assert(apply_item(1, items[1], a0) == a1);
    assert(apply_item(2, items[2], a1) == a2);
    assert(apply_item(3, items[3], a2) == a3);
    assert(apply_item(4, items[4], a3) == a4);
    assert(apply_item(6, items[6], a4) == a6);
    assert(apply_from(items, 1, a0, ap) == apply_from(items, 2, a1, ap));
    assert(apply_from(items, 2, a1, ap) == apply_from(items, 3, a2, ap));
    assert(apply_from(items, 3, a2, ap) == apply_from(items, 4, a3, ap));
    assert(apply_from(items, 4, a3, ap) == apply_from(items, 5, a4, ap));
    lemma_apply_skip(items, 5, 6, a4, ap);
    assert(apply_from(items, 6, a4, ap) == apply_from(items, 7, a6, ap));
    lemma_apply_skip(items, 7, 256, a6, ap);
}

/// Decoding a heartbeat block gives back exactly the status that was
/// encoded: the source, the SDPS-Status message type, the service, the time
/// (when it fits the 24-bit field) and the operational flag.
pub proof fn lemma_decode_inverts_encode_status(
    source: DataSourceId,
    service_id: u8,
    time_ticks: u32,
    operational: bool,
)
    requires
        time_ticks < 16777216,
    ensures
        decode_block(encoded_status_block(source, service_id, time_ticks, operational)) == Ok::<
            Seq<DecodedStatus>,
            Cat065DecodeError,
        >(seq![heartbeat(source, service_id, time_ticks, operational)]),
{
    let items = status_items(source, service_id, time_ticks, operational);
    let record = record_bytes(items);
    let bytes = encoded_status_block(source, service_id, time_ticks, operational);
    lemma_status_record_len(source, service_id, time_ticks, operational);
    lemma_be16_roundtrip(12);
    assert(bytes.len() == 12);
    assert(bytes[1] == u16_octets(12)[0]);
    assert(bytes[2] == u16_octets(12)[1]);
    let data = bytes.subrange(0, 12);
    assert(data =~= bytes);
    assert(data.subrange(3, 12) =~= record);
    lemma_status_items_shape(source, service_id, time_ticks, operational);
    assert(frns_in_uap_range(items));
    assert(exists|f: u8| #[trigger] items.contains_key(f)) by {
        assert(items.contains_key(1u8));
    }
    crate::wire::lemma_record_layout(data, 3, items);
    let n = encoded_fspec(items.dom()).len() as int;
    lemma_status_self_delimiting(data, items, source, service_id, time_ticks, operational);
    lemma_walk_encoded(data, items, 1, 3 + n, no_fields(), item_lens(data), item_apply());
    lemma_status_fields(source, service_id, time_ticks, operational);
    assert(decode_record_at(data, 3) == Ok::<(DecodedStatus, int), Cat065DecodeError>(
        (heartbeat(source, service_id, time_ticks, operational), 12),
    ));
    assert(decode_records_from(data, 12) == Ok::<Seq<DecodedStatus>, Cat065DecodeError>(
        Seq::empty(),
    ));
    assert(seq![heartbeat(source, service_id, time_ticks, operational)] + Seq::<
        DecodedStatus,
    >::empty() =~= seq![heartbeat(source, service_id, time_ticks, operational)]);
}

} // verus!

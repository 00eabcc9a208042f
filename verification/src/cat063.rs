//! CAT063 framing and data items — Sensor Status Messages, the per-sensor
//! health signal.
//!
//! Each CAT063 data block carries one record per sensor, following the
//! standard CAT063 UAP subset: I063/010 (the SDPS that reports, FRN 1),
//! I063/030 (time of message, FRN 3), I063/050 (the sensor the record is
//! about, FRN 4) and I063/060 (CON: operational or degraded, FRN 5). A
//! degraded sensor with a known failure reason also carries it in the
//! Reserved Expansion Field I063/RE (FRN 13) as `[LEN=3][0x80][reason]`.
//! [`decode_sensor_block`] is the inverse of [`Cat063Encoder::encode`]
//! ([`lemma_decode_inverts_encode_sensors`]).

use vstd::prelude::*;

use crate::cat062::{time_item, DataSourceId};
use crate::fspec::{
    chain_len_from, encoded_fspec, fspec_extent_at, frn_present, payload_from, record_bytes,
    RecordBuilder, MAX_FSPEC_OCTETS,
};
use crate::octets::{
    append_bytes, be16, be16_at, be24, be24_at, block_header, data_block, lemma_be16_roundtrip,
    lemma_be24_roundtrip, one_octet, two_octets, u16_octets,
};
use crate::wire::{
    apply_from, explicit_len, extended_len, fixed_len, frns_in_uap_range, holds_at,
    lemma_apply_skip, lemma_walk_encoded, take_explicit, take_extended, take_fixed, walk,
    WalkError,
};

use crate::describe::{decimal_chars, text_with_number, text_with_numbers};

verus! {

/// The ASTERIX category number for Sensor Status Messages.
pub const CATEGORY: u8 = 63;

/// I063/010 — Data Source Identifier (the SDPS).
pub const FRN_DATA_SOURCE: u8 = 1;
/// I063/030 — Time of Message.
pub const FRN_TIME_OF_MESSAGE: u8 = 3;
/// I063/050 — Sensor Identifier (the sensor the record is about).
pub const FRN_SENSOR_IDENTIFIER: u8 = 4;
/// I063/060 — Sensor Configuration and Status.
pub const FRN_SENSOR_STATUS: u8 = 5;
/// I063/RE — Reserved Expansion Field (carries the failure reason).
pub const FRN_RESERVED_EXPANSION: u8 = 13;

/// I063/060 CON = operational.
pub const CON_OPERATIONAL: u8 = 0x00;
/// I063/060 CON = degraded.
pub const CON_DEGRADED: u8 = 0x40;
/// Mask selecting the 2-bit CON field.
pub const CON_MASK: u8 = 0xC0;
/// I063/RE length octet (the field is three octets long).
pub const RE_LEN: u8 = 0x03;
/// I063/RE sub-field spec: the SRC-REASON sub-field is present.
pub const RE_SUBFIELD_SPEC: u8 = 0x80;
/// Bit marking the SRC-REASON sub-field present in the RE sub-field spec.
pub const RE_SRC_REASON_BIT: u8 = 0x80;

/// Why a sensor is currently degraded — the per-source failure reason
/// carried in I063/RE.
#[derive(Debug, Clone, Copy, PartialEq, Eq, Structural)]
pub enum SensorReason {
    /// No failure recorded. Not encoded on the wire.
    NoFailure,
    /// The source could not be reached (network, timeout, 5xx).
    Unreachable,
    /// Authentication/authorisation failed (HTTP 401/403).
    Auth,
    /// The source rate-limited the request (HTTP 429).
    RateLimited,
}

/// The SRC-REASON code of a reason.
pub open spec fn reason_code(r: SensorReason) -> u8 {
    match r {
        SensorReason::NoFailure => 0,
        SensorReason::Unreachable => 1,
        SensorReason::Auth => 2,
        SensorReason::RateLimited => 3,
    }
}

/// The reason a SRC-REASON octet names; an unknown non-zero code is read as
/// `Unreachable`.
pub open spec fn reason_of_code(code: u8) -> SensorReason {
    if code == 0 {
        SensorReason::NoFailure
    } else if code == 2 {
        SensorReason::Auth
    } else if code == 3 {
        SensorReason::RateLimited
    } else {
        SensorReason::Unreachable
    }
}

impl SensorReason {
    /// The SRC-REASON code carried in the I063/RE sub-field (`Ok` is `0` and
    /// never put on the wire).
    pub fn code(self) -> (c: u8)
        ensures
            c == reason_code(self),
    {
        match self {
            SensorReason::NoFailure => 0,
            SensorReason::Unreachable => 1,
            SensorReason::Auth => 2,
            SensorReason::RateLimited => 3,
        }
    }

    /// Inverse of [`code`](Self::code); an unknown non-zero code maps to
    /// `Unreachable` rather than being rejected.
    pub fn from_code(code: u8) -> (r: Self)
        ensures
            r == reason_of_code(code),
    {
        if code == 0 {
            SensorReason::NoFailure
        } else if code == 2 {
            SensorReason::Auth
        } else if code == 3 {
            SensorReason::RateLimited
        } else {
            SensorReason::Unreachable
        }
    }
}

impl Default for SensorReason {
    fn default() -> (r: Self)
        ensures
            r == SensorReason::NoFailure,
    {
        SensorReason::NoFailure
    }
}

/// `from_code` inverts `code` for every reason.
pub proof fn lemma_reason_code_roundtrip(r: SensorReason)
    ensures
        reason_of_code(reason_code(r)) == r,
{
}

/// One sensor's status to encode: which sensor (`sic`), whether it is
/// operational and, when degraded, why.
#[derive(Debug, Clone, Copy, PartialEq, Eq, Structural)]
pub struct SensorReport {
    /// I063/050 SIC of this sensor (the SAC is the encoder's `sensor_sac`).
    pub sic: u8,
    /// I063/060 CON: `true` = operational, `false` = degraded.
    pub operational: bool,
    /// The failure reason, emitted only when degraded and not `Ok`.
    pub reason: SensorReason,
}

/// Encodes Sensor Status records into a CAT063 data block on behalf of the
/// SDPS `data_source`, stamping `sensor_sac` as the SAC of every sensor.
#[derive(Debug, Clone, Copy)]
pub struct Cat063Encoder {
    /// I063/010 of every record.
    pub data_source: DataSourceId,
    /// SAC of every sensor identity in I063/050.
    pub sensor_sac: u8,
}

/// One decoded CAT063 sensor status record.
#[derive(Debug, Clone, Copy, PartialEq, Eq, Structural)]
pub struct DecodedSensorStatus {
    /// I063/010 — the SDPS that produced this record.
    pub data_source: DataSourceId,
    /// I063/030 — time of day, 1/128-second ticks since midnight.
    pub time_ticks: u32,
    /// I063/050 — the sensor this record is about.
    pub sensor: DataSourceId,
    /// I063/060 CON — `true` when CON = 0 (operational).
    pub operational: bool,
    /// I063/RE SRC-REASON; `Ok` when no RE field is present.
    pub reason: SensorReason,
}

/// Errors that can occur while decoding a CAT063 data block.
#[derive(Debug, Clone, Copy, PartialEq, Eq, Structural)]
pub enum Cat063DecodeError {
    /// Input ended before a complete item could be read.
    Truncated,
    /// The first byte was not CAT 63.
    WrongCategory(u8),
    /// The LEN field did not match the length of the input.
    LengthMismatch { declared: usize, actual: usize },
    /// The FSPEC indicated an FRN this decoder cannot length.
    UnknownFrn(u8),
    /// A mandatory item was absent from a record.
    MissingItem(u8),
    /// The FSPEC's FX chain ran past the supported FRN space.
    FspecTooLong,
}

impl Cat063DecodeError {
    /// A human-readable description of the error.
    pub open spec fn message_text(self) -> Seq<char> {
        match self {
            Cat063DecodeError::Truncated => "input truncated"@,
            Cat063DecodeError::WrongCategory(c) => "expected CAT 63, got CAT "@ + decimal_chars(
                c as nat,
            ) + ""@,
            Cat063DecodeError::LengthMismatch { declared, actual } => "LEN="@ + decimal_chars(
                declared as nat,
            ) + " but input is "@ + decimal_chars(actual as nat) + " bytes"@,
            Cat063DecodeError::UnknownFrn(frn) => "unknown FRN "@ + decimal_chars(frn as nat)
                + ""@,
            Cat063DecodeError::MissingItem(frn) => "missing required FRN "@ + decimal_chars(
                frn as nat,
            ) + ""@,
            Cat063DecodeError::FspecTooLong => "FSPEC FX chain exceeds the supported FRN space"@,
        }
    }

    /// A human-readable description of the error.
    pub fn message(&self) -> (r: String)
        ensures
            r@ == self.message_text(),
    {
        match *self {
            Cat063DecodeError::Truncated => "input truncated".to_owned(),
            Cat063DecodeError::WrongCategory(c) => text_with_number(
                "expected CAT 63, got CAT ",
                c as u64,
                "",
            ),
            Cat063DecodeError::LengthMismatch { declared, actual } => text_with_numbers(
                "LEN=",
                declared as u64,
                " but input is ",
                actual as u64,
                " bytes",
            ),
            Cat063DecodeError::UnknownFrn(frn) => text_with_number("unknown FRN ", frn as u64, ""),
            Cat063DecodeError::MissingItem(frn) => text_with_number(
                "missing required FRN ",
                frn as u64,
                "",
            ),
            Cat063DecodeError::FspecTooLong => "FSPEC FX chain exceeds the supported FRN space".to_owned(),
        }
    }
}

/// I063/060 first octet: CON operational or degraded, GO/NOGO and FX clear.
pub open spec fn con_octet(operational: bool) -> u8 {
    if operational {
        CON_OPERATIONAL
    } else {
        CON_DEGRADED
    }
}

/// Whether a report carries the I063/RE failure reason.
pub open spec fn carries_reason(report: SensorReport) -> bool {
    !report.operational && report.reason != SensorReason::NoFailure
}

/// The items of one sensor's record.
#[verifier::opaque]
pub open spec fn sensor_items(
    data_source: DataSourceId,
    sensor_sac: u8,
    time_ticks: u32,
    report: SensorReport,
) -> Map<u8, Seq<u8>> {
    let base = map![
        FRN_DATA_SOURCE => seq![data_source.sac, data_source.sic],
        FRN_TIME_OF_MESSAGE => time_item(time_ticks),
        FRN_SENSOR_IDENTIFIER => seq![sensor_sac, report.sic],
        FRN_SENSOR_STATUS => seq![con_octet(report.operational)],
    ];
    if carries_reason(report) {
        base.insert(
            FRN_RESERVED_EXPANSION,
            seq![RE_LEN, RE_SUBFIELD_SPEC, reason_code(report.reason)],
        )
    } else {
        base
    }
}

/// The records of all sensors, one after another.
pub open spec fn encoded_sensor_records(
    data_source: DataSourceId,
    sensor_sac: u8,
    time_ticks: u32,
    sensors: Seq<SensorReport>,
) -> Seq<u8> {
    sensors.map_values(
        |r: SensorReport| record_bytes(sensor_items(data_source, sensor_sac, time_ticks, r)),
    ).flatten()
}

/// A whole CAT063 block for `sensors`.
pub open spec fn encoded_sensor_block(
    data_source: DataSourceId,
    sensor_sac: u8,
    time_ticks: u32,
    sensors: Seq<SensorReport>,
) -> Seq<u8> {
    let body = encoded_sensor_records(data_source, sensor_sac, time_ticks, sensors);
    block_header(CATEGORY, body.len() as int) + body
}

impl Cat063Encoder {
    /// An encoder reporting on behalf of the SDPS `data_source` (I063/010)
    /// and stamping `sensor_sac` as the SAC of every sensor (I063/050).
    pub fn new(data_source: DataSourceId, sensor_sac: u8) -> (r: Self)
        ensures
            r.data_source == data_source,
            r.sensor_sac == sensor_sac,
    {
        Cat063Encoder { data_source, sensor_sac }
    }

    /// One sensor's record; a degraded sensor with a known reason adds the
    /// I063/RE field.
    pub fn encode_record(&self, time_ticks: u32, report: &SensorReport) -> (out: Vec<u8>)
        ensures
            out@ == record_bytes(
                sensor_items(self.data_source, self.sensor_sac, time_ticks, *report),
            ),
    {
        let mut builder = RecordBuilder::new().item(
            FRN_DATA_SOURCE,
            two_octets(self.data_source.sac, self.data_source.sic),
        ).item(FRN_TIME_OF_MESSAGE, crate::cat062::encode_time_of_track(time_ticks)).item(
            FRN_SENSOR_IDENTIFIER,
            two_octets(self.sensor_sac, report.sic),
        ).item(FRN_SENSOR_STATUS, one_octet(encode_con(report.operational)));
        if !report.operational && report.reason != SensorReason::NoFailure {
            let mut re = two_octets(RE_LEN, RE_SUBFIELD_SPEC);
            re.push(report.reason.code());
            assert(re@ =~= seq![RE_LEN, RE_SUBFIELD_SPEC, reason_code(report.reason)]);
            builder = builder.item(FRN_RESERVED_EXPANSION, re);
        }
        proof {
            reveal(sensor_items);
        }
        assert(builder.items() =~= sensor_items(
            self.data_source,
            self.sensor_sac,
            time_ticks,
            *report,
        ));
        builder.finish()
    }

    /// Encode a CAT063 data block carrying one status record per sensor, in
    /// order, stamped with `time_ticks` (1/128-second ticks since midnight).
    /// An empty slice produces a valid, header-only block.
    pub fn encode(&self, time_ticks: u32, sensors: &[SensorReport]) -> (out: Vec<u8>)
        ensures
            out@ == encoded_sensor_block(self.data_source, self.sensor_sac, time_ticks, sensors@),
    {
        let ghost f = |r: SensorReport|
            record_bytes(sensor_items(self.data_source, self.sensor_sac, time_ticks, r));
        let mut body: Vec<u8> = Vec::new();
        let mut i: usize = 0;
        while i < sensors.len()
            invariant
                i <= sensors.len(),
                f == (|r: SensorReport|
                    record_bytes(sensor_items(self.data_source, self.sensor_sac, time_ticks, r))),
                body@ == sensors@.subrange(0, i as int).map_values(f).flatten(),
            decreases sensors.len() - i,
        {
            let rec = self.encode_record(time_ticks, &sensors[i]);
            proof {
                let prev = sensors@.subrange(0, i as int).map_values(f);
                assert(sensors@.subrange(0, i + 1).map_values(f) =~= prev.push(f(sensors@[i as int])));
                prev.lemma_flatten_push(f(sensors@[i as int]));
            }
            append_bytes(&mut body, rec.as_slice());
            i = i + 1;
        }
        assert(sensors@.subrange(0, sensors.len() as int) =~= sensors@);
        data_block(CATEGORY, body.as_slice())
    }
}

/// I063/060 first octet — CON operational or degraded.
pub fn encode_con(operational: bool) -> (r: u8)
    ensures
        r == con_octet(operational),
{
    if operational {
        CON_OPERATIONAL
    } else {
        CON_DEGRADED
    }
}

// ---------------------------------------------------------------------------
// What decoding means.
// ---------------------------------------------------------------------------

/// The items of one sensor record decoded so far.
#[derive(Debug, Clone, Copy)]
pub struct SensorFields {
    /// I063/010.
    pub data_source: Option<DataSourceId>,
    /// I063/030.
    pub time_ticks: Option<u32>,
    /// I063/050.
    pub sensor: Option<DataSourceId>,
    /// I063/060 CON operational.
    pub operational: Option<bool>,
    /// I063/RE SRC-REASON.
    pub reason: SensorReason,
}

/// No item decoded yet.
pub open spec fn no_fields() -> SensorFields {
    SensorFields {
        data_source: None,
        time_ticks: None,
        sensor: None,
        operational: None,
        reason: SensorReason::NoFailure,
    }
}

/// How many octets the item `frn` at `pos` occupies.
#[verifier::opaque]
pub open spec fn item_len(data: Seq<u8>, frn: u8, pos: int) -> Result<int, WalkError> {
    if frn == FRN_DATA_SOURCE || frn == FRN_SENSOR_IDENTIFIER {
        fixed_len(data, pos, 2)
    } else if frn == FRN_TIME_OF_MESSAGE {
        fixed_len(data, pos, 3)
    } else if frn == FRN_SENSOR_STATUS {
        extended_len(data, pos)
    } else if frn == FRN_RESERVED_EXPANSION {
        explicit_len(data, pos)
    } else {
        Err(WalkError::UnknownItem(frn))
    }
}

/// The item-length model of one block's octets.
pub open spec fn item_lens(data: Seq<u8>) -> spec_fn(u8, int) -> Result<int, WalkError> {
    |frn: u8, pos: int| item_len(data, frn, pos)
}

/// Fold the octets `b` of item `frn` into the fields decoded so far. The RE
/// field yields a reason only when its sub-field spec marks SRC-REASON and
/// the reason octet is there.
#[verifier::opaque]
pub open spec fn apply_item(frn: u8, b: Seq<u8>, acc: SensorFields) -> SensorFields {
    if frn == FRN_DATA_SOURCE {
        SensorFields { data_source: Some(DataSourceId { sac: b[0], sic: b[1] }), ..acc }
    } else if frn == FRN_TIME_OF_MESSAGE {
        SensorFields { time_ticks: Some(be24(b[0], b[1], b[2]) as u32), ..acc }
    } else if frn == FRN_SENSOR_IDENTIFIER {
        SensorFields { sensor: Some(DataSourceId { sac: b[0], sic: b[1] }), ..acc }
    } else if frn == FRN_SENSOR_STATUS {
        SensorFields { operational: Some(b[0] & CON_MASK == CON_OPERATIONAL), ..acc }
    } else if frn == FRN_RESERVED_EXPANSION {
        if b.len() >= 3 && b[1] & RE_SRC_REASON_BIT != 0u8 {
            SensorFields { reason: reason_of_code(b[2]), ..acc }
        } else {
            acc
        }
    } else {
        acc
    }
}

/// The item fold as a value.
pub open spec fn item_apply() -> spec_fn(u8, Seq<u8>, SensorFields) -> SensorFields {
    |frn: u8, b: Seq<u8>, acc: SensorFields| apply_item(frn, b, acc)
}

/// The record the decoded items describe, or the first missing required item
/// (SDPS, time, sensor, status — in that order).
pub open spec fn finish_fields(f: SensorFields) -> Result<DecodedSensorStatus, Cat063DecodeError> {
    if f.data_source is None {
        Err(Cat063DecodeError::MissingItem(FRN_DATA_SOURCE))
    } else if f.time_ticks is None {
        Err(Cat063DecodeError::MissingItem(FRN_TIME_OF_MESSAGE))
    } else if f.sensor is None {
        Err(Cat063DecodeError::MissingItem(FRN_SENSOR_IDENTIFIER))
    } else if f.operational is None {
        Err(Cat063DecodeError::MissingItem(FRN_SENSOR_STATUS))
    } else {
        Ok(
            DecodedSensorStatus {
                data_source: f.data_source->Some_0,
                time_ticks: f.time_ticks->Some_0,
                sensor: f.sensor->Some_0,
                operational: f.operational->Some_0,
                reason: f.reason,
            },
        )
    }
}

/// The walk's error as a CAT063 error.
pub open spec fn walk_error(e: WalkError) -> Cat063DecodeError {
    match e {
        WalkError::Truncated => Cat063DecodeError::Truncated,
        WalkError::UnknownItem(f) => Cat063DecodeError::UnknownFrn(f),
    }
}

/// Decoding the record that starts at `pos` of the block's declared octets.
pub open spec fn decode_record_at(data: Seq<u8>, pos: int) -> Result<
    (DecodedSensorStatus, int),
    Cat063DecodeError,
> {
    let n = chain_len_from(data, pos);
    if n > MAX_FSPEC_OCTETS {
        Err(Cat063DecodeError::FspecTooLong)
    } else if n == 0 {
        Err(Cat063DecodeError::Truncated)
    } else {
        match walk(
            data,
            data.subrange(pos, pos + n),
            n,
            1,
            pos + n,
            no_fields(),
            item_lens(data),
            item_apply(),
        ) {
            Err(e) => Err(walk_error(e)),
            Ok((fields, end)) => match finish_fields(fields) {
                Err(e) => Err(e),
                Ok(r) => Ok((r, end)),
            },
        }
    }
}

/// Decoding every record from `pos` to the end of `data`.
pub open spec fn decode_records_from(data: Seq<u8>, pos: int) -> Result<
    Seq<DecodedSensorStatus>,
    Cat063DecodeError,
>
    decreases data.len() - pos,
{
    if pos < 0 || pos >= data.len() {
        Ok(Seq::empty())
    } else {
        match decode_record_at(data, pos) {
            Err(e) => Err(e),
            Ok((r, end)) => if end <= pos || end > data.len() {
                Err(Cat063DecodeError::Truncated)
            } else {
                match decode_records_from(data, end) {
                    Err(e) => Err(e),
                    Ok(rest) => Ok(seq![r] + rest),
                }
            },
        }
    }
}

/// Decoding a whole CAT063 data block: its LEN field must give the block's
/// length exactly.
pub open spec fn decode_block(bytes: Seq<u8>) -> Result<
    Seq<DecodedSensorStatus>,
    Cat063DecodeError,
> {
    if bytes.len() < 3 {
        Err(Cat063DecodeError::Truncated)
    } else if bytes[0] != CATEGORY {
        Err(Cat063DecodeError::WrongCategory(bytes[0]))
    } else if be16(bytes[1], bytes[2]) != bytes.len() {
        Err(
            Cat063DecodeError::LengthMismatch {
                declared: be16(bytes[1], bytes[2]) as usize,
                actual: bytes.len() as usize,
            },
        )
    } else {
        decode_records_from(bytes.subrange(0, be16(bytes[1], bytes[2])), 3)
    }
}


// ---------------------------------------------------------------------------
// Decoding.
// ---------------------------------------------------------------------------

fn decode_item(data: &[u8], pos: usize, frn: u8, acc: SensorFields) -> (r: Result<
    (SensorFields, usize),
    WalkError,
>)
    requires
        pos <= data.len(),
    ensures
        match r {
            Ok((fields, end)) => {
                &&& item_len(data@, frn, pos as int) == Ok::<int, WalkError>(end - pos)
                &&& pos <= end <= data.len()
                &&& fields == apply_item(frn, data@.subrange(pos as int, end as int), acc)
            },
            Err(e) => item_len(data@, frn, pos as int) == Err::<int, WalkError>(e),
        },
{
    reveal(item_len);
    reveal(apply_item);
    let l = if frn == FRN_DATA_SOURCE || frn == FRN_SENSOR_IDENTIFIER {
        take_fixed(data, pos, 2)
    } else if frn == FRN_TIME_OF_MESSAGE {
        take_fixed(data, pos, 3)
    } else if frn == FRN_SENSOR_STATUS {
        take_extended(data, pos)
    } else if frn == FRN_RESERVED_EXPANSION {
        take_explicit(data, pos)
    } else {
        Err(WalkError::UnknownItem(frn))
    };
    let l = match l {
        Ok(l) => l,
        Err(e) => return Err(e),
    };
    let end = pos + l;
    let ghost b = data@.subrange(pos as int, end as int);
    let mut fields = acc;
    if frn == FRN_DATA_SOURCE {
        fields.data_source = Some(DataSourceId { sac: data[pos], sic: data[pos + 1] });
    } else if frn == FRN_TIME_OF_MESSAGE {
        fields.time_ticks = Some(be24_at(data, pos));
    } else if frn == FRN_SENSOR_IDENTIFIER {
        fields.sensor = Some(DataSourceId { sac: data[pos], sic: data[pos + 1] });
    } else if frn == FRN_SENSOR_STATUS {
        fields.operational = Some(data[pos] & CON_MASK == CON_OPERATIONAL);
    } else if frn == FRN_RESERVED_EXPANSION {
        if l >= 3 && data[pos + 1] & RE_SRC_REASON_BIT != 0u8 {
            assert(b[1] == data@[pos + 1]);
            assert(b[2] == data@[pos + 2]);
            fields.reason = SensorReason::from_code(data[pos + 2]);
        }
    }
    Ok((fields, end))
}

fn finish(f: SensorFields) -> (r: Result<DecodedSensorStatus, Cat063DecodeError>)
    ensures
        r == finish_fields(f),
{
    let data_source = match f.data_source {
        Some(s) => s,
        None => return Err(Cat063DecodeError::MissingItem(FRN_DATA_SOURCE)),
    };
    let time_ticks = match f.time_ticks {
        Some(t) => t,
        None => return Err(Cat063DecodeError::MissingItem(FRN_TIME_OF_MESSAGE)),
    };
    let sensor = match f.sensor {
        Some(s) => s,
        None => return Err(Cat063DecodeError::MissingItem(FRN_SENSOR_IDENTIFIER)),
    };
    let operational = match f.operational {
        Some(o) => o,
        None => return Err(Cat063DecodeError::MissingItem(FRN_SENSOR_STATUS)),
    };
    Ok(DecodedSensorStatus { data_source, time_ticks, sensor, operational, reason: f.reason })
}

fn walk_error_of(e: WalkError) -> (r: Cat063DecodeError)
    ensures
        r == walk_error(e),
{
    match e {
        WalkError::Truncated => Cat063DecodeError::Truncated,
        WalkError::UnknownItem(f) => Cat063DecodeError::UnknownFrn(f),
    }
}

fn decode_record(data: &[u8], pos: usize) -> (r: Result<
    (DecodedSensorStatus, usize),
    Cat063DecodeError,
>)
    requires
        pos < data.len(),
    ensures
        match r {
            Ok((rec, end)) => decode_record_at(data@, pos as int) == Ok::<
                (DecodedSensorStatus, int),
                Cat063DecodeError,
            >((rec, end as int)) && pos < end <= data.len(),
            Err(e) => decode_record_at(data@, pos as int) == Err::<
                (DecodedSensorStatus, int),
                Cat063DecodeError,
            >(e),
        },
{
    let n = match fspec_extent_at(data, pos) {
        Ok(n) => n,
        Err(_) => return Err(Cat063DecodeError::FspecTooLong),
    };
    if n == 0 {
        return Err(Cat063DecodeError::Truncated);
    }
    let ghost fs = data@.subrange(pos as int, pos + n);
    let ghost lens = item_lens(data@);
    let ghost app = item_apply();
    let mut cur = pos + n;
    let mut acc = SensorFields {
        data_source: None,
        time_ticks: None,
        sensor: None,
        operational: None,
        reason: SensorReason::NoFailure,
    };
    let mut k: usize = 1;
    while k <= 7 * n
        invariant
            1 <= n <= MAX_FSPEC_OCTETS,
            pos + n <= data.len(),
            n == chain_len_from(data@, pos as int),
            1 <= k <= 7 * n + 1,
            pos + n <= cur <= data.len(),
            fs == data@.subrange(pos as int, pos + n),
            lens == item_lens(data@),
            app == item_apply(),
            walk(data@, fs, n as int, 1, pos + n, no_fields(), lens, app) == walk(
                data@,
                fs,
                n as int,
                k as int,
                cur as int,
                acc,
                lens,
                app,
            ),
        decreases 7 * n + 1 - k,
    {
        let octet = data[pos + (k - 1) / 7];
        let position = ((k - 1) % 7) as u8;
        assert(fs[(k - 1) / 7] == octet);
        if octet & (0x80u8 >> position) != 0u8 {
            assert(frn_present(fs, n as int, k as int));
            match decode_item(data, cur, k as u8, acc) {
                Ok((fields, end)) => {
                    assert(lens(k as u8, cur as int) == Ok::<int, WalkError>(end - cur));
                    assert(app(k as u8, data@.subrange(cur as int, end as int), acc) == fields);
                    acc = fields;
                    cur = end;
                },
                Err(e) => {
                    assert(lens(k as u8, cur as int) == Err::<int, WalkError>(e));
                    assert(walk(data@, fs, n as int, k as int, cur as int, acc, lens, app) == Err::<
                        (SensorFields, int),
                        WalkError,
                    >(e));
                    return Err(walk_error_of(e));
                },
            }
        } else {
            assert(!frn_present(fs, n as int, k as int));
        }
        k = k + 1;
    }
    match finish(acc) {
        Ok(rec) => Ok((rec, cur)),
        Err(e) => Err(e),
    }
}

/// The records still to decode, after the ones already decoded.
pub open spec fn after(
    done: Seq<DecodedSensorStatus>,
    rest: Result<Seq<DecodedSensorStatus>, Cat063DecodeError>,
) -> Result<Seq<DecodedSensorStatus>, Cat063DecodeError> {
    match rest {
        Ok(rs) => Ok(done + rs),
        Err(e) => Err(e),
    }
}

/// Decode a CAT063 data block into its sensor status records — the inverse
/// of [`Cat063Encoder::encode`]. Never panics on malformed input.
pub fn decode_sensor_block(bytes: &[u8]) -> (r: Result<Vec<DecodedSensorStatus>, Cat063DecodeError>)
    ensures
        match r {
            Ok(records) => decode_block(bytes@) == Ok::<
                Seq<DecodedSensorStatus>,
                Cat063DecodeError,
            >(records@),
            Err(e) => decode_block(bytes@) == Err::<Seq<DecodedSensorStatus>, Cat063DecodeError>(
                e,
            ),
        },
{
    if bytes.len() < 3 {
        return Err(Cat063DecodeError::Truncated);
    }
    if bytes[0] != CATEGORY {
        return Err(Cat063DecodeError::WrongCategory(bytes[0]));
    }
    let declared = be16_at(bytes, 1) as usize;
    if declared != bytes.len() {
        return Err(Cat063DecodeError::LengthMismatch { declared, actual: bytes.len() });
    }
    let data = vstd::slice::slice_subrange(bytes, 0, declared);
    let mut records: Vec<DecodedSensorStatus> = Vec::new();
    let mut pos: usize = 3;
    while pos < data.len()
        invariant
            3 <= pos <= data.len(),
            data@ == bytes@.subrange(0, declared as int),
            declared == be16(bytes@[1], bytes@[2]),
            decode_block(bytes@) == after(records@, decode_records_from(data@, pos as int)),
        decreases data.len() - pos,
    {
        match decode_record(data, pos) {
            Ok((rec, end)) => {
                proof {
                    assert(records@.push(rec) + decode_records_from(data@, end as int)->Ok_0
                        =~= records@ + (seq![rec] + decode_records_from(data@, end as int)->Ok_0));
                }
                records.push(rec);
                pos = end;
            },
            Err(e) => {
                return Err(e);
            },
        }
    }
    assert(records@ + Seq::<DecodedSensorStatus>::empty() =~= records@);
    Ok(records)
}


// ---------------------------------------------------------------------------
// Decoding inverts encoding.
// ---------------------------------------------------------------------------

/// The record a sensor's report decodes to: the encoder's SDPS and time, the
/// sensor under the encoder's SAC, its CON flag and — only when the report
/// carried it — its failure reason.
pub open spec fn sensor_status(
    data_source: DataSourceId,
    sensor_sac: u8,
    time_ticks: u32,
    report: SensorReport,
) -> DecodedSensorStatus {
    DecodedSensorStatus {
        data_source,
        time_ticks,
        sensor: DataSourceId { sac: sensor_sac, sic: report.sic },
        operational: report.operational,
        reason: if carries_reason(report) {
            report.reason
        } else {
            SensorReason::NoFailure
        },
    }
}

proof fn lemma_sensor_items_shape(
    data_source: DataSourceId,
    sensor_sac: u8,
    time_ticks: u32,
    report: SensorReport,
)
    ensures
        ({
            let items = sensor_items(data_source, sensor_sac, time_ticks, report);
            &&& forall|f: u8|
                #[trigger] items.contains_key(f) <==> (f == 1 || f == 3 || f == 4 || f == 5 || (f
                    == 13 && carries_reason(report)))
            &&& items[1] == seq![data_source.sac, data_source.sic]
            &&& items[3] == time_item(time_ticks)
            &&& items[4] == seq![sensor_sac, report.sic]
            &&& items[5] == seq![con_octet(report.operational)]
            &&& carries_reason(report) ==> items[13] == seq![
                RE_LEN,
                RE_SUBFIELD_SPEC,
                reason_code(report.reason),
            ]
        }),
{
    reveal(sensor_items);
}

proof fn lemma_sensor_self_delimiting(
    data: Seq<u8>,
    data_source: DataSourceId,
    sensor_sac: u8,
    time_ticks: u32,
    report: SensorReport,
)
    ensures
        ({
            let items = sensor_items(data_source, sensor_sac, time_ticks, report);
            forall|f: u8, p: int|
                items.contains_key(f) && holds_at(data, p, items[f]) ==> #[trigger] item_lens(data)(
                    f,
                    p,
                ) == Ok::<int, WalkError>(items[f].len() as int)
        }),
{
    let items = sensor_items(data_source, sensor_sac, time_ticks, report);
    lemma_sensor_items_shape(data_source, sensor_sac, time_ticks, report);
    assert(0x00u8 & 1u8 == 0u8) by (bit_vector);
    assert(0x40u8 & 1u8 == 0u8) by (bit_vector);
    assert forall|f: u8, p: int|
        items.contains_key(f) && holds_at(data, p, items[f]) implies #[trigger] item_lens(data)(
        f,
        p,
    ) == Ok::<int, WalkError>(items[f].len() as int) by {
        reveal(item_len);
        assert(data.subrange(p, p + items[f].len())[0] == data[p]);
        if f == FRN_SENSOR_STATUS {
            assert(data[p] == con_octet(report.operational));
            assert(!crate::fspec::has_fx(data[p]));
            assert(chain_len_from(data, p) == 1);
        }
    }
}

proof fn lemma_sensor_fields(
    data_source: DataSourceId,
    sensor_sac: u8,
    time_ticks: u32,
    report: SensorReport,
)
    requires
        time_ticks < 16777216,
    ensures
        finish_fields(
            apply_from(
                sensor_items(data_source, sensor_sac, time_ticks, report),
                1,
                no_fields(),
                item_apply(),
            ),
        ) == Ok::<DecodedSensorStatus, Cat063DecodeError>(
            sensor_status(data_source, sensor_sac, time_ticks, report),
        ),
{
    let items = sensor_items(data_source, sensor_sac, time_ticks, report);
    let ap = item_apply();
    lemma_sensor_items_shape(data_source, sensor_sac, time_ticks, report);
    lemma_be24_roundtrip(time_ticks as int);
    assert(0x00u8 & 0xC0u8 == 0x00u8) by (bit_vector);
    assert(0x40u8 & 0xC0u8 != 0x00u8) by (bit_vector);
    assert(0x80u8 & 0x80u8 != 0x00u8) by (bit_vector);
    reveal(apply_item);
    let a0 = no_fields();
    let a1 = SensorFields { data_source: Some(data_source), ..a0 };
    let a3 = SensorFields { time_ticks: Some(time_ticks), ..a1 };
    let a4 = SensorFields { sensor: Some(DataSourceId { sac: sensor_sac, sic: report.sic }), ..a3 };
    let a5 = SensorFields { operational: Some(report.operational), ..a4 };
    assert(apply_item(1, items[1], a0) == a1);
    assert(apply_item(3, items[3], a1) == a3);
    assert(apply_item(4, items[4], a3) == a4);
    assert(apply_item(5, items[5], a4) == a5);
    assert(apply_from(items, 1, a0, ap) == apply_from(items, 2, a1, ap));
    assert(apply_from(items, 2, a1, ap) == apply_from(items, 3, a1, ap));
    assert(apply_from(items, 3, a1, ap) == apply_from(items, 4, a3, ap));
    assert(apply_from(items, 4, a3, ap) == apply_from(items, 5, a4, ap));
    assert(apply_from(items, 5, a4, ap) == apply_from(items, 6, a5, ap));
    lemma_apply_skip(items, 6, 13, a5, ap);
    if carries_reason(report) {
        let a13 = SensorFields { reason: report.reason, ..a5 };
        assert(apply_item(13, items[13], a5) == a13);
        assert(apply_from(items, 13, a5, ap) == apply_from(items, 14, a13, ap));
        lemma_apply_skip(items, 14, 256, a13, ap);
    } else {
        lemma_apply_skip(items, 13, 256, a5, ap);
    }
}

proof fn lemma_sensor_record_roundtrip(
    data: Seq<u8>,
    pos: int,
    data_source: DataSourceId,
    sensor_sac: u8,
    time_ticks: u32,
    report: SensorReport,
)
    requires
        time_ticks < 16777216,
        holds_at(data, pos, record_bytes(sensor_items(data_source, sensor_sac, time_ticks, report))),
    ensures
        decode_record_at(data, pos) == Ok::<(DecodedSensorStatus, int), Cat063DecodeError>(
            (
                sensor_status(data_source, sensor_sac, time_ticks, report),
                pos + record_bytes(sensor_items(data_source, sensor_sac, time_ticks, report)).len(),
            ),
        ),
        record_bytes(sensor_items(data_source, sensor_sac, time_ticks, report)).len() > 0,
{
    let items = sensor_items(data_source, sensor_sac, time_ticks, report);
    let n = encoded_fspec(items.dom()).len() as int;
    lemma_sensor_items_shape(data_source, sensor_sac, time_ticks, report);
    assert(frns_in_uap_range(items));
    assert(items.contains_key(FRN_DATA_SOURCE));
    crate::wire::lemma_record_layout(data, pos, items);
    lemma_sensor_self_delimiting(data, data_source, sensor_sac, time_ticks, report);
    lemma_walk_encoded(data, items, 1, pos + n, no_fields(), item_lens(data), item_apply());
    lemma_sensor_fields(data_source, sensor_sac, time_ticks, report);
}

proof fn lemma_sensor_records_roundtrip(
    bytes: Seq<u8>,
    data_source: DataSourceId,
    sensor_sac: u8,
    time_ticks: u32,
    sensors: Seq<SensorReport>,
    i: int,
    pos: int,
)
    requires
        time_ticks < 16777216,
        0 <= i <= sensors.len(),
        0 <= pos <= bytes.len(),
        bytes.subrange(pos, bytes.len() as int) == encoded_sensor_records(
            data_source,
            sensor_sac,
            time_ticks,
            sensors.subrange(i, sensors.len() as int),
        ),
    ensures
        decode_records_from(bytes, pos) == Ok::<Seq<DecodedSensorStatus>, Cat063DecodeError>(
            sensors.subrange(i, sensors.len() as int).map_values(
                |r: SensorReport| sensor_status(data_source, sensor_sac, time_ticks, r),
            ),
        ),
    decreases sensors.len() - i,
{
    let f = |r: SensorReport| record_bytes(sensor_items(data_source, sensor_sac, time_ticks, r));
    let g = |r: SensorReport| sensor_status(data_source, sensor_sac, time_ticks, r);
    let tail = sensors.subrange(i, sensors.len() as int);
    let parts = tail.map_values(f);
    if i == sensors.len() {
        assert(parts.len() == 0);
        assert(parts =~= Seq::<Seq<u8>>::empty());
        assert(bytes.subrange(pos, bytes.len() as int).len() == 0);
        assert(tail.map_values(g) =~= Seq::<DecodedSensorStatus>::empty());
    } else {
        let r = sensors[i];
        let rec = f(r);
        let rest_s = sensors.subrange(i + 1, sensors.len() as int);
        let rest = encoded_sensor_records(data_source, sensor_sac, time_ticks, rest_s);
        assert(parts.drop_first() =~= rest_s.map_values(f));
        assert(parts.first() == rec);
        assert(parts =~= seq![rec] + parts.drop_first());
        assert(parts.flatten() == rec + rest);
        let whole = bytes.subrange(pos, bytes.len() as int);
        assert(whole == rec + rest);
        assert(bytes.subrange(pos, pos + rec.len()) =~= whole.subrange(0, rec.len() as int));
        assert(whole.subrange(0, rec.len() as int) =~= rec);
        lemma_sensor_record_roundtrip(bytes, pos, data_source, sensor_sac, time_ticks, r);
        assert(bytes.subrange(pos + rec.len(), bytes.len() as int) =~= whole.subrange(
            rec.len() as int,
            whole.len() as int,
        ));
        assert(whole.subrange(rec.len() as int, whole.len() as int) =~= rest);
        lemma_sensor_records_roundtrip(
            bytes,
            data_source,
            sensor_sac,
            time_ticks,
            sensors,
            i + 1,
            pos + rec.len(),
        );
        assert(tail.map_values(g) =~= seq![g(r)] + rest_s.map_values(g));
    }
}

/// Decoding a CAT063 block recovers, in order, one record per encoded
/// sensor: the SDPS identity, the time (when it fits the 24-bit field), the
/// sensor identity, its CON flag and its failure reason — `NoFailure` where
/// no I063/RE was sent — provided the block fits the 16-bit `LEN` field.
pub proof fn lemma_decode_inverts_encode_sensors(
    data_source: DataSourceId,
    sensor_sac: u8,
    time_ticks: u32,
    sensors: Seq<SensorReport>,
)
    requires
        time_ticks < 16777216,
        encoded_sensor_records(data_source, sensor_sac, time_ticks, sensors).len() + 3 < 65536,
    ensures
        decode_block(encoded_sensor_block(data_source, sensor_sac, time_ticks, sensors)) == Ok::<
            Seq<DecodedSensorStatus>,
            Cat063DecodeError,
        >(sensors.map_values(|r: SensorReport| sensor_status(data_source, sensor_sac, time_ticks, r))),
{
    let body = encoded_sensor_records(data_source, sensor_sac, time_ticks, sensors);
    let bytes = encoded_sensor_block(data_source, sensor_sac, time_ticks, sensors);
    let total = body.len() + 3;
    lemma_be16_roundtrip(total as int);
    assert(bytes[0] == CATEGORY);
    assert(bytes[1] == u16_octets(total as int)[0]);
    assert(bytes[2] == u16_octets(total as int)[1]);
    assert(bytes.subrange(0, total as int) =~= bytes);
    assert(bytes.subrange(3, bytes.len() as int) =~= body);
    assert(sensors.subrange(0, sensors.len() as int) =~= sensors);
    lemma_sensor_records_roundtrip(bytes, data_source, sensor_sac, time_ticks, sensors, 0, 3);
}

} // verus!

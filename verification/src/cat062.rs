//! CAT062 framing and data items — System Track Data, the tracker's
//! operational output.
//!
//! One CAT062 data block is `[CAT=62][LEN][record…]` with one record per
//! track. Each record carries the data source (I062/010), time of track
//! (I062/070), WGS-84 position (I062/105), system-stereographic position
//! (I062/100), Cartesian velocity (I062/185), track number (I062/040), track
//! status (I062/080), update age (I062/290) and estimated accuracy (I062/500);
//! a track with an SSR identity adds the Mode 3/A code (I062/060) and the
//! Mode S address as the Target Address subfield of I062/380.
//!
//! Every numeric item is an integer count of its LSB; [`DecodedRecord`] holds
//! those counts, so encoding and decoding are exact inverses of each other
//! ([`lemma_decode_inverts_encode`]).

use vstd::prelude::*;

use crate::fspec::{
    chain_len_from, encoded_fspec, fspec_extent_at, frn_present, lemma_parse_inverts_fspec,
    payload_from, record_bytes, RecordBuilder, MAX_FSPEC_OCTETS,
};
use crate::octets::{
    append_bytes, be16, be16_at, be24, be24_at, be32, be32_at, block_header, data_block, lemma_be16_roundtrip,
    lemma_be24_roundtrip, lemma_be32_roundtrip, push_u16, push_u24, push_u32, u16_octets,
    u24_octets, u32_octets,
};
use crate::wire::{
    apply_from, as_int_len, extended_len, fixed_len, frns_in_uap_range, holds_at, lemma_apply_skip,
    lemma_walk_bounds, lemma_walk_encoded, take_extended, take_fixed, walk, WalkError,
};

use crate::describe::{block_error_message, block_error_text, UnknownItemWording};
use crate::record::BlockError;

verus! {

/// The ASTERIX category number for system tracks.
pub const CATEGORY: u8 = 62;

/// I062/010 — Data Source Identifier.
pub const FRN_DATA_SOURCE: u8 = 1;
/// I062/070 — Time of Track Information.
pub const FRN_TIME_OF_TRACK: u8 = 4;
/// I062/105 — Calculated Track Position (WGS-84).
pub const FRN_POSITION_WGS84: u8 = 5;
/// I062/100 — Calculated Track Position (Cartesian, system-stereographic).
pub const FRN_POSITION_CARTESIAN: u8 = 6;
/// I062/185 — Calculated Track Velocity (Cartesian).
pub const FRN_VELOCITY: u8 = 7;
/// I062/060 — Track Mode 3/A Code.
pub const FRN_MODE_3A: u8 = 9;
/// I062/380 — Aircraft Derived Data (the Target Address subfield).
pub const FRN_AIRCRAFT_DERIVED_DATA: u8 = 11;
/// I062/040 — Track Number.
pub const FRN_TRACK_NUMBER: u8 = 12;
/// I062/080 — Track Status.
pub const FRN_TRACK_STATUS: u8 = 13;
/// I062/290 — System Track Update Ages.
pub const FRN_UPDATE_AGES: u8 = 14;
/// I062/500 — Estimated Accuracies.
pub const FRN_ACCURACIES: u8 = 16;

/// I062/380 primary subfield: the Target Address subfield is present.
pub const ADR_TARGET_ADDRESS_PRESENT: u8 = 0x80;
/// I062/080 octet 1, bit 2 (CNF): the track is still tentative.
pub const STATUS_CNF_TENTATIVE: u8 = 0x02;
/// I062/080 octet 4, bit 8 (CST): the track is coasting.
pub const STATUS_CST_COASTING: u8 = 0x80;
/// I062/290 primary subfield: the PSR-age subfield is present.
pub const AGE_PSR_PRESENT: u8 = 0x40;
/// I062/500 primary subfield: the APC subfield is present.
pub const ACCURACY_APC_PRESENT: u8 = 0x80;

/// Smallest value of a 24-bit two's-complement field.
pub const I24_MIN: i32 = -8388608;
/// Largest value of a 24-bit two's-complement field.
pub const I24_MAX: i32 = 8388607;

/// The originator of the tracks, as it appears in I062/010: System Area Code
/// and System Identification Code.
#[derive(Debug, Clone, Copy, PartialEq, Eq, Structural)]
pub struct DataSourceId {
    /// System Area Code.
    pub sac: u8,
    /// System Identification Code.
    pub sic: u8,
}

impl DataSourceId {
    /// A data source identifier from its two octets.
    pub fn new(sac: u8, sic: u8) -> (r: Self)
        ensures
            r == (DataSourceId { sac, sic }),
    {
        DataSourceId { sac, sic }
    }
}

/// The content of one CAT062 record, every number in its item's LSB: what
/// [`decode_data_block`] returns and what [`encode_record`] writes.
#[derive(Debug, Clone, Copy, PartialEq, Eq, Structural)]
pub struct DecodedRecord {
    /// I062/010 — the data source that produced this track.
    pub source: DataSourceId,
    /// I062/070 — time of track, 1/128-second ticks since midnight.
    pub time_ticks: u32,
    /// I062/105 — latitude, signed count of 180/2²⁵ degrees.
    pub latitude: i32,
    /// I062/105 — longitude, signed count of 180/2²⁵ degrees.
    pub longitude: i32,
    /// I062/100 — system-stereographic X, signed count of 0.5 m (24-bit).
    pub x: i32,
    /// I062/100 — system-stereographic Y, signed count of 0.5 m (24-bit).
    pub y: i32,
    /// I062/185 — eastward velocity, signed count of 0.25 m/s.
    pub v_east: i16,
    /// I062/185 — northward velocity, signed count of 0.25 m/s.
    pub v_north: i16,
    /// I062/040 — track number.
    pub track_number: u16,
    /// I062/080 CNF — `true` unless the track is still tentative.
    pub confirmed: bool,
    /// I062/080 CST — `true` while the track is coasting.
    pub coasting: bool,
    /// I062/290 PSR age, quarter seconds.
    pub update_age: u8,
    /// I062/500 APC, 1σ position uncertainty in half metres.
    pub position_uncertainty: u16,
    /// I062/060, if the track carries an SSR identity (12-bit octal reply).
    pub mode_3a: Option<u16>,
    /// I062/380 Target Address, if the track carries a Mode S address.
    pub icao_address: Option<u32>,
}

/// Errors that can occur while decoding a CAT062 data block.
#[derive(Debug, Clone, Copy, PartialEq, Eq, Structural)]
pub enum DecodeError {
    /// The input ended before a complete block/record/item could be read.
    Truncated,
    /// The first octet was not 62.
    WrongCategory(u8),
    /// The `LEN` field did not match the actual input length.
    LengthMismatch { declared: usize, actual: usize },
    /// The FSPEC marked an FRN present that this decoder doesn't know.
    UnknownItem(u8),
    /// A record's FSPEC was missing an item this decoder requires.
    MissingItem(u8),
    /// The FSPEC's FX chain ran past the supported FRN space.
    FspecTooLong,
}

impl DecodeError {
    /// The error in the terms every record format shares.
    pub open spec fn kind(self) -> BlockError {
        match self {
            DecodeError::Truncated => BlockError::Truncated,
            DecodeError::WrongCategory(c) => BlockError::WrongCategory(c),
            DecodeError::LengthMismatch { declared, actual } => BlockError::LengthMismatch {
                declared,
                actual,
            },
            DecodeError::UnknownItem(frn) => BlockError::UnknownItem(frn),
            DecodeError::MissingItem(frn) => BlockError::MissingItem(frn),
            DecodeError::FspecTooLong => BlockError::FspecTooLong,
        }
    }

    /// A human-readable description of the error.
    pub fn message(&self) -> (r: String)
        ensures
            r@ == block_error_text(62, self.kind(), UnknownItemWording::Unknown),
    {
        let kind = match *self {
            DecodeError::Truncated => BlockError::Truncated,
            DecodeError::WrongCategory(c) => BlockError::WrongCategory(c),
            DecodeError::LengthMismatch { declared, actual } => BlockError::LengthMismatch {
                declared,
                actual,
            },
            DecodeError::UnknownItem(frn) => BlockError::UnknownItem(frn),
            DecodeError::MissingItem(frn) => BlockError::MissingItem(frn),
            DecodeError::FspecTooLong => BlockError::FspecTooLong,
        };
        block_error_message(62, kind, UnknownItemWording::Unknown)
    }
}

// ---------------------------------------------------------------------------
// What the items are on the wire.
// ---------------------------------------------------------------------------

/// A signed value as its `modulus`-bit two's complement (as an unsigned count).
pub open spec fn twos(v: int, modulus: int) -> int {
    if v < 0 {
        v + modulus
    } else {
        v
    }
}

/// An unsigned count read back as a two's-complement signed value.
pub open spec fn signed(u: int, modulus: int) -> int {
    if u >= modulus / 2 {
        u - modulus
    } else {
        u
    }
}

/// A value clamped to the 24-bit two's-complement range.
pub open spec fn clamp_i24(v: int) -> int {
    if v < I24_MIN {
        I24_MIN as int
    } else if v > I24_MAX {
        I24_MAX as int
    } else {
        v
    }
}

/// I062/010: `[SAC, SIC]`.
pub open spec fn data_source_item(s: DataSourceId) -> Seq<u8> {
    seq![s.sac, s.sic]
}

/// I062/070: the low 24 bits of the tick count, big-endian.
pub open spec fn time_item(ticks: u32) -> Seq<u8> {
    u24_octets(ticks as int % 16777216)
}

/// One I062/105 angle: a 32-bit two's-complement count, big-endian.
pub open spec fn wgs84_angle_item(v: i32) -> Seq<u8> {
    u32_octets(twos(v as int, 4294967296))
}

/// I062/105: latitude then longitude.
pub open spec fn position_item(lat: i32, lon: i32) -> Seq<u8> {
    wgs84_angle_item(lat) + wgs84_angle_item(lon)
}

/// One I062/100 component: clamped to 24 bits, two's complement, big-endian.
pub open spec fn cartesian_component_item(v: i32) -> Seq<u8> {
    u24_octets(twos(clamp_i24(v as int), 16777216))
}

/// I062/100: X then Y.
pub open spec fn cartesian_item(x: i32, y: i32) -> Seq<u8> {
    cartesian_component_item(x) + cartesian_component_item(y)
}

/// One I062/185 component: a 16-bit two's-complement count, big-endian.
pub open spec fn velocity_component_item(v: i16) -> Seq<u8> {
    u16_octets(twos(v as int, 65536))
}

/// I062/185: east then north.
pub open spec fn velocity_item(ve: i16, vn: i16) -> Seq<u8> {
    velocity_component_item(ve) + velocity_component_item(vn)
}

/// I062/060: the 12-bit reply in the low bits, the flag bits zero.
pub open spec fn mode_3a_item(code: u16) -> Seq<u8> {
    u16_octets(code as int % 4096)
}

/// I062/380: the ADR primary subfield, then the low 24 bits of the address.
pub open spec fn target_address_item(address: u32) -> Seq<u8> {
    seq![ADR_TARGET_ADDRESS_PRESENT] + u24_octets(address as int % 16777216)
}

/// I062/040: the 16-bit track number, big-endian.
pub open spec fn track_number_item(n: u16) -> Seq<u8> {
    u16_octets(n as int)
}

/// I062/080: one octet carrying CNF, extended to four octets (the fourth
/// carrying CST) when the track is coasting.
pub open spec fn track_status_item(confirmed: bool, coasting: bool) -> Seq<u8> {
    let octet1: u8 = if confirmed {
        0u8
    } else {
        STATUS_CNF_TENTATIVE
    };
    if !coasting {
        seq![octet1]
    } else {
        seq![octet1 | 1u8, 1u8, 1u8, STATUS_CST_COASTING]
    }
}

/// I062/290: the PSR-age subfield, then the age.
pub open spec fn update_ages_item(age: u8) -> Seq<u8> {
    seq![AGE_PSR_PRESENT, age]
}

/// I062/500: the APC subfield, then the same sigma as X and as Y component.
pub open spec fn accuracies_item(sigma: u16) -> Seq<u8> {
    seq![ACCURACY_APC_PRESENT] + u16_octets(sigma as int) + u16_octets(sigma as int)
}

/// The present items of the record for `r`, keyed by FRN.
#[verifier::opaque]
pub open spec fn record_items(r: DecodedRecord) -> Map<u8, Seq<u8>> {
    let base = map![
        FRN_DATA_SOURCE => data_source_item(r.source),
        FRN_TIME_OF_TRACK => time_item(r.time_ticks),
        FRN_POSITION_WGS84 => position_item(r.latitude, r.longitude),
        FRN_POSITION_CARTESIAN => cartesian_item(r.x, r.y),
        FRN_VELOCITY => velocity_item(r.v_east, r.v_north),
        FRN_TRACK_NUMBER => track_number_item(r.track_number),
        FRN_TRACK_STATUS => track_status_item(r.confirmed, r.coasting),
        FRN_UPDATE_AGES => update_ages_item(r.update_age),
        FRN_ACCURACIES => accuracies_item(r.position_uncertainty),
    ];
    let with_mode = match r.mode_3a {
        Some(code) => base.insert(FRN_MODE_3A, mode_3a_item(code)),
        None => base,
    };
    match r.icao_address {
        Some(address) => with_mode.insert(FRN_AIRCRAFT_DERIVED_DATA, target_address_item(address)),
        None => with_mode,
    }
}

/// The octets of one record: FSPEC then the present items in UAP order.
pub open spec fn encoded_record(r: DecodedRecord) -> Seq<u8> {
    record_bytes(record_items(r))
}

/// The octets of all records, one after another.
pub open spec fn encoded_records(rs: Seq<DecodedRecord>) -> Seq<u8> {
    rs.map_values(|r: DecodedRecord| encoded_record(r)).flatten()
}

/// A whole data block carrying `rs`.
pub open spec fn encoded_block(rs: Seq<DecodedRecord>) -> Seq<u8> {
    block_header(CATEGORY, encoded_records(rs).len() as int) + encoded_records(rs)
}

// ---------------------------------------------------------------------------
// What decoding means.
// ---------------------------------------------------------------------------

/// The items of one record decoded so far.
#[derive(Debug, Clone, Copy)]
pub struct RecordFields {
    /// I062/010.
    pub source: Option<DataSourceId>,
    /// I062/070.
    pub time_ticks: Option<u32>,
    /// I062/105 (latitude, longitude).
    pub position: Option<(i32, i32)>,
    /// I062/100 (X, Y).
    pub cartesian: Option<(i32, i32)>,
    /// I062/185 (east, north).
    pub velocity: Option<(i16, i16)>,
    /// I062/040.
    pub track_number: Option<u16>,
    /// I062/080 (confirmed, coasting).
    pub status: Option<(bool, bool)>,
    /// I062/290 PSR age.
    pub update_age: Option<u8>,
    /// I062/500 APC.
    pub position_uncertainty: Option<u16>,
    /// I062/060.
    pub mode_3a: Option<u16>,
    /// I062/380 Target Address.
    pub icao_address: Option<u32>,
}

/// No item decoded yet.
pub open spec fn no_fields() -> RecordFields {
    RecordFields {
        source: None,
        time_ticks: None,
        position: None,
        cartesian: None,
        velocity: None,
        track_number: None,
        status: None,
        update_age: None,
        position_uncertainty: None,
        mode_3a: None,
        icao_address: None,
    }
}

/// How many octets the item `frn` at `pos` occupies.
#[verifier::opaque]
pub open spec fn item_len(data: Seq<u8>, frn: u8, pos: int) -> Result<int, WalkError> {
    if frn == FRN_DATA_SOURCE {
        fixed_len(data, pos, 2)
    } else if frn == FRN_TIME_OF_TRACK {
        fixed_len(data, pos, 3)
    } else if frn == FRN_POSITION_WGS84 {
        fixed_len(data, pos, 8)
    } else if frn == FRN_POSITION_CARTESIAN {
        fixed_len(data, pos, 6)
    } else if frn == FRN_VELOCITY {
        fixed_len(data, pos, 4)
    } else if frn == FRN_MODE_3A {
        fixed_len(data, pos, 2)
    } else if frn == FRN_AIRCRAFT_DERIVED_DATA {
        fixed_len(data, pos, 4)
    } else if frn == FRN_TRACK_NUMBER {
        fixed_len(data, pos, 2)
    } else if frn == FRN_TRACK_STATUS {
        extended_len(data, pos)
    } else if frn == FRN_UPDATE_AGES {
        fixed_len(data, pos, 2)
    } else if frn == FRN_ACCURACIES {
        fixed_len(data, pos, 5)
    } else {
        Err(WalkError::UnknownItem(frn))
    }
}

/// The item-length model of one block's octets.
pub open spec fn item_lens(data: Seq<u8>) -> spec_fn(u8, int) -> Result<int, WalkError> {
    |frn: u8, pos: int| item_len(data, frn, pos)
}

/// Fold the octets `b` of item `frn` into the fields decoded so far.
#[verifier::opaque]
pub open spec fn apply_item(frn: u8, b: Seq<u8>, acc: RecordFields) -> RecordFields {
    if frn == FRN_DATA_SOURCE {
        RecordFields { source: Some(DataSourceId { sac: b[0], sic: b[1] }), ..acc }
    } else if frn == FRN_TIME_OF_TRACK {
        RecordFields { time_ticks: Some(be24(b[0], b[1], b[2]) as u32), ..acc }
    } else if frn == FRN_POSITION_WGS84 {
        RecordFields {
            position: Some(
                (
                    signed(be32(b[0], b[1], b[2], b[3]), 4294967296) as i32,
                    signed(be32(b[4], b[5], b[6], b[7]), 4294967296) as i32,
                ),
            ),
            ..acc
        }
    } else if frn == FRN_POSITION_CARTESIAN {
        RecordFields {
            cartesian: Some(
                (
                    signed(be24(b[0], b[1], b[2]), 16777216) as i32,
                    signed(be24(b[3], b[4], b[5]), 16777216) as i32,
                ),
            ),
            ..acc
        }
    } else if frn == FRN_VELOCITY {
        RecordFields {
            velocity: Some(
                (
                    signed(be16(b[0], b[1]), 65536) as i16,
                    signed(be16(b[2], b[3]), 65536) as i16,
                ),
            ),
            ..acc
        }
    } else if frn == FRN_MODE_3A {
        RecordFields { mode_3a: Some((be16(b[0], b[1]) % 4096) as u16), ..acc }
    } else if frn == FRN_AIRCRAFT_DERIVED_DATA {
        RecordFields { icao_address: Some(be24(b[1], b[2], b[3]) as u32), ..acc }
    } else if frn == FRN_TRACK_NUMBER {
        RecordFields { track_number: Some(be16(b[0], b[1]) as u16), ..acc }
    } else if frn == FRN_TRACK_STATUS {
        RecordFields {
            status: Some(
                (
                    b[0] & STATUS_CNF_TENTATIVE == 0u8,
                    b.len() >= 4 && b[3] & STATUS_CST_COASTING != 0u8,
                ),
            ),
            ..acc
        }
    } else if frn == FRN_UPDATE_AGES {
        RecordFields { update_age: Some(b[1]), ..acc }
    } else if frn == FRN_ACCURACIES {
        RecordFields { position_uncertainty: Some(be16(b[1], b[2]) as u16), ..acc }
    } else {
        acc
    }
}

/// The item fold as a value.
pub open spec fn item_apply() -> spec_fn(u8, Seq<u8>, RecordFields) -> RecordFields {
    |frn: u8, b: Seq<u8>, acc: RecordFields| apply_item(frn, b, acc)
}

/// The record the decoded items describe, or the first required item that is
/// missing (checked in the order status, velocity, source, time, position,
/// Cartesian position, track number, update age, accuracy).
pub open spec fn finish_fields(f: RecordFields) -> Result<DecodedRecord, DecodeError> {
    if f.status is None {
        Err(DecodeError::MissingItem(FRN_TRACK_STATUS))
    } else if f.velocity is None {
        Err(DecodeError::MissingItem(FRN_VELOCITY))
    } else if f.source is None {
        Err(DecodeError::MissingItem(FRN_DATA_SOURCE))
    } else if f.time_ticks is None {
        Err(DecodeError::MissingItem(FRN_TIME_OF_TRACK))
    } else if f.position is None {
        Err(DecodeError::MissingItem(FRN_POSITION_WGS84))
    } else if f.cartesian is None {
        Err(DecodeError::MissingItem(FRN_POSITION_CARTESIAN))
    } else if f.track_number is None {
        Err(DecodeError::MissingItem(FRN_TRACK_NUMBER))
    } else if f.update_age is None {
        Err(DecodeError::MissingItem(FRN_UPDATE_AGES))
    } else if f.position_uncertainty is None {
        Err(DecodeError::MissingItem(FRN_ACCURACIES))
    } else {
        Ok(
            DecodedRecord {
                source: f.source->Some_0,
                time_ticks: f.time_ticks->Some_0,
                latitude: f.position->Some_0.0,
                longitude: f.position->Some_0.1,
                x: f.cartesian->Some_0.0,
                y: f.cartesian->Some_0.1,
                v_east: f.velocity->Some_0.0,
                v_north: f.velocity->Some_0.1,
                track_number: f.track_number->Some_0,
                confirmed: f.status->Some_0.0,
                coasting: f.status->Some_0.1,
                update_age: f.update_age->Some_0,
                position_uncertainty: f.position_uncertainty->Some_0,
                mode_3a: f.mode_3a,
                icao_address: f.icao_address,
            },
        )
    }
}

/// The walk's error as a CAT062 error.
pub open spec fn walk_error(e: WalkError) -> DecodeError {
    match e {
        WalkError::Truncated => DecodeError::Truncated,
        WalkError::UnknownItem(f) => DecodeError::UnknownItem(f),
    }
}

/// Decoding the record that starts at `pos`: its FSPEC, then its items; the
/// record and the offset just past it.
pub open spec fn decode_record_at(data: Seq<u8>, pos: int) -> Result<
    (DecodedRecord, int),
    DecodeError,
> {
    let n = chain_len_from(data, pos);
    if n > MAX_FSPEC_OCTETS {
        Err(DecodeError::FspecTooLong)
    } else if n == 0 {
        Err(DecodeError::Truncated)
    } else {
        match walk(
            data,
            data.subrange(pos, pos + n),
            n,
            1,
            pos + n,
            no_fields(),
            item_lens(data),
            item_apply(),
        ) {
            Err(e) => Err(walk_error(e)),
            Ok((fields, end)) => match finish_fields(fields) {
                Err(e) => Err(e),
                Ok(r) => Ok((r, end)),
            },
        }
    }
}

/// Decoding every record from `pos` to the end of `data`.
pub open spec fn decode_records_from(data: Seq<u8>, pos: int) -> Result<
    Seq<DecodedRecord>,
    DecodeError,
>
    decreases data.len() - pos,
{
    if pos < 0 || pos >= data.len() {
        Ok(Seq::empty())
    } else {
        match decode_record_at(data, pos) {
            Err(e) => Err(e),
            Ok((r, end)) => if end <= pos || end > data.len() {
                Err(DecodeError::Truncated)
            } else {
                match decode_records_from(data, end) {
                    Err(e) => Err(e),
                    Ok(rest) => Ok(seq![r] + rest),
                }
            },
        }
    }
}

/// Decoding a whole CAT062 data block.
pub open spec fn decode_block(bytes: Seq<u8>) -> Result<Seq<DecodedRecord>, DecodeError> {
    if bytes.len() < 3 {
        Err(DecodeError::Truncated)
    } else if bytes[0] != CATEGORY {
        Err(DecodeError::WrongCategory(bytes[0]))
    } else if be16(bytes[1], bytes[2]) != bytes.len() {
        Err(
            DecodeError::LengthMismatch {
                declared: be16(bytes[1], bytes[2]) as usize,
                actual: bytes.len() as usize,
            },
        )
    } else {
        decode_records_from(bytes, 3)
    }
}


// ---------------------------------------------------------------------------
// Encoding.
// ---------------------------------------------------------------------------

/// A rounded count saturated into one octet (negative counts become 0).
pub fn saturate_u8(v: i64) -> (r: u8)
    ensures
        r as int == (if v < 0 {
            0
        } else if v > 255 {
            255
        } else {
            v as int
        }),
{
    if v < 0 {
        0
    } else if v > 255 {
        255
    } else {
        v as u8
    }
}

/// A rounded count saturated into two octets (negative counts become 0).
pub fn saturate_u16(v: i64) -> (r: u16)
    ensures
        r as int == (if v < 0 {
            0
        } else if v > 65535 {
            65535
        } else {
            v as int
        }),
{
    if v < 0 {
        0
    } else if v > 65535 {
        65535
    } else {
        v as u16
    }
}

/// I062/010 — two octets, `[SAC, SIC]`, verbatim.
pub fn encode_data_source(source: &DataSourceId) -> (out: Vec<u8>)
    ensures
        out@ == data_source_item(*source),
{
    let mut out: Vec<u8> = Vec::new();
    out.push(source.sac);
    out.push(source.sic);
    assert(out@ =~= data_source_item(*source));
    out
}

/// I062/070 — time of track: the low 24 bits of the 1/128-second tick count
/// since midnight, big-endian.
pub fn encode_time_of_track(ticks: u32) -> (out: Vec<u8>)
    ensures
        out@ == time_item(ticks),
{
    let mut out: Vec<u8> = Vec::new();
    push_u24(&mut out, ticks % 16777216);
    out
}

/// One WGS-84 angle as a signed 32-bit count of position LSBs, big-endian.
pub fn encode_wgs84_angle(v: i32) -> (out: Vec<u8>)
    ensures
        out@ == wgs84_angle_item(v),
{
    let u: u32 = if v < 0 {
        (v as i64 + 4294967296i64) as u32
    } else {
        v as u32
    };
    let mut out: Vec<u8> = Vec::new();
    push_u32(&mut out, u);
    out
}

/// I062/105 — latitude then longitude, each a 32-bit signed count of
/// 180/2²⁵-degree steps, big-endian.
pub fn encode_position(latitude: i32, longitude: i32) -> (out: Vec<u8>)
    ensures
        out@ == position_item(latitude, longitude),
{
    let mut out = encode_wgs84_angle(latitude);
    let lon = encode_wgs84_angle(longitude);
    append_bytes(&mut out, lon.as_slice());
    out
}

/// One system-stereographic component as a signed 24-bit count of
/// 0.5-metre steps, clamped to the field's range.
pub fn encode_cartesian_component(v: i32) -> (out: Vec<u8>)
    ensures
        out@ == cartesian_component_item(v),
{
    let c: i32 = if v < I24_MIN {
        I24_MIN
    } else if v > I24_MAX {
        I24_MAX
    } else {
        v
    };
    let u: u32 = if c < 0 {
        (c + 16777216) as u32
    } else {
        c as u32
    };
    let mut out: Vec<u8> = Vec::new();
    push_u24(&mut out, u);
    out
}

/// I062/100 — X then Y in the system-stereographic plane.
pub fn encode_position_cartesian(x: i32, y: i32) -> (out: Vec<u8>)
    ensures
        out@ == cartesian_item(x, y),
{
    let mut out = encode_cartesian_component(x);
    let second = encode_cartesian_component(y);
    append_bytes(&mut out, second.as_slice());
    out
}

/// One velocity component as a signed 16-bit count, big-endian.
pub fn encode_velocity_component(v: i16) -> (out: Vec<u8>)
    ensures
        out@ == velocity_component_item(v),
{
    let u: u16 = if v < 0 {
        (v as i32 + 65536) as u16
    } else {
        v as u16
    };
    let mut out: Vec<u8> = Vec::new();
    push_u16(&mut out, u);
    out
}

/// I062/185 — velocity east then north.
pub fn encode_velocity(v_east: i16, v_north: i16) -> (out: Vec<u8>)
    ensures
        out@ == velocity_item(v_east, v_north),
{
    let mut out = encode_velocity_component(v_east);
    let second = encode_velocity_component(v_north);
    append_bytes(&mut out, second.as_slice());
    out
}

/// I062/060 — Track Mode 3/A Code: the 12-bit reply (four octal digits) in
/// the low bits; everything above is masked off.
pub fn encode_mode_3a(code: u16) -> (out: Vec<u8>)
    ensures
        out@ == mode_3a_item(code),
{
    let mut out: Vec<u8> = Vec::new();
    push_u16(&mut out, code % 4096);
    out
}

/// I062/380 — the Target Address subfield: the ADR primary subfield, then the
/// low 24 bits of the Mode S address, big-endian.
pub fn encode_target_address(address: u32) -> (out: Vec<u8>)
    ensures
        out@ == target_address_item(address),
{
    let mut out: Vec<u8> = Vec::new();
    out.push(ADR_TARGET_ADDRESS_PRESENT);
    push_u24(&mut out, address % 16777216);
    assert(out@ =~= target_address_item(address));
    out
}

/// I062/040 — the 16-bit track number, big-endian.
pub fn encode_track_number(number: u16) -> (out: Vec<u8>)
    ensures
        out@ == track_number_item(number),
{
    let mut out: Vec<u8> = Vec::new();
    push_u16(&mut out, number);
    out
}

/// I062/080 — Track Status: CNF in octet 1; a coasting track extends the
/// item via FX to its fourth octet, which carries CST.
pub fn encode_track_status(confirmed: bool, coasting: bool) -> (out: Vec<u8>)
    ensures
        out@ == track_status_item(confirmed, coasting),
{
    let octet1: u8 = if confirmed {
        0u8
    } else {
        STATUS_CNF_TENTATIVE
    };
    let mut out: Vec<u8> = Vec::new();
    if !coasting {
        out.push(octet1);
    } else {
        out.push(octet1 | 1u8);
        out.push(1u8);
        out.push(1u8);
        out.push(STATUS_CST_COASTING);
    }
    assert(out@ =~= track_status_item(confirmed, coasting));
    out
}

/// I062/290 — the PSR-age subfield, then the age in quarter seconds.
pub fn encode_update_ages(age: u8) -> (out: Vec<u8>)
    ensures
        out@ == update_ages_item(age),
{
    let mut out: Vec<u8> = Vec::new();
    out.push(AGE_PSR_PRESENT);
    out.push(age);
    assert(out@ =~= update_ages_item(age));
    out
}

/// I062/500 — the APC subfield, then the 1σ position uncertainty in half
/// metres as both the X and the Y component.
pub fn encode_accuracies(sigma: u16) -> (out: Vec<u8>)
    ensures
        out@ == accuracies_item(sigma),
{
    let mut out: Vec<u8> = Vec::new();
    out.push(ACCURACY_APC_PRESENT);
    push_u16(&mut out, sigma);
    push_u16(&mut out, sigma);
    assert(out@ =~= accuracies_item(sigma));
    out
}

/// One CAT062 record: FSPEC + the present items in UAP order. The identity
/// items (I062/060, I062/380) are only added when the record carries them.
pub fn encode_record(r: &DecodedRecord) -> (out: Vec<u8>)
    ensures
        out@ == encoded_record(*r),
{
    let mut builder = RecordBuilder::new().item(FRN_DATA_SOURCE, encode_data_source(&r.source)).item(
        FRN_TIME_OF_TRACK,
        encode_time_of_track(r.time_ticks),
    ).item(FRN_POSITION_WGS84, encode_position(r.latitude, r.longitude)).item(
        FRN_POSITION_CARTESIAN,
        encode_position_cartesian(r.x, r.y),
    ).item(FRN_VELOCITY, encode_velocity(r.v_east, r.v_north)).item(
        FRN_TRACK_NUMBER,
        encode_track_number(r.track_number),
    ).item(FRN_TRACK_STATUS, encode_track_status(r.confirmed, r.coasting)).item(
        FRN_UPDATE_AGES,
        encode_update_ages(r.update_age),
    ).item(FRN_ACCURACIES, encode_accuracies(r.position_uncertainty));
    match r.mode_3a {
        Some(code) => {
            builder = builder.item(FRN_MODE_3A, encode_mode_3a(code));
        },
        None => {},
    }
    match r.icao_address {
        Some(address) => {
            builder = builder.item(FRN_AIRCRAFT_DERIVED_DATA, encode_target_address(address));
        },
        None => {},
    }
    proof {
        reveal(record_items);
    }
    assert(builder.items() =~= record_items(*r));
    builder.finish()
}

/// Encode all `records` of one scan into a single CAT062 data block. With no
/// records the block is a valid, empty envelope.
pub fn encode_block(records: &[DecodedRecord]) -> (out: Vec<u8>)
    ensures
        out@ == encoded_block(records@),
{
    let mut body: Vec<u8> = Vec::new();
    let mut i: usize = 0;
    while i < records.len()
        invariant
            i <= records.len(),
            body@ == encoded_records(records@.subrange(0, i as int)),
        decreases records.len() - i,
    {
        let rec = encode_record(&records[i]);
        proof {
            let prev = records@.subrange(0, i as int).map_values(
                |r: DecodedRecord| encoded_record(r),
            );
            assert(records@.subrange(0, i + 1).map_values(|r: DecodedRecord| encoded_record(r))
                =~= prev.push(encoded_record(records@[i as int])));
            prev.lemma_flatten_push(encoded_record(records@[i as int]));
        }
        append_bytes(&mut body, rec.as_slice());
        i = i + 1;
    }
    assert(records@.subrange(0, records.len() as int) =~= records@);
    data_block(CATEGORY, body.as_slice())
}


// ---------------------------------------------------------------------------
// Decoding.
// ---------------------------------------------------------------------------

/// A 32-bit two's-complement count.
pub fn signed32(u: u32) -> (r: i32)
    ensures
        r as int == signed(u as int, 4294967296),
{
    if u >= 2147483648 {
        (u as i64 - 4294967296i64) as i32
    } else {
        u as i32
    }
}

/// A 24-bit two's-complement count, sign-extended.
pub fn signed24(u: u32) -> (r: i32)
    requires
        u < 16777216,
    ensures
        r as int == signed(u as int, 16777216),
{
    if u >= 8388608 {
        u as i32 - 16777216
    } else {
        u as i32
    }
}

/// A 16-bit two's-complement count.
pub fn signed16(u: u16) -> (r: i16)
    ensures
        r as int == signed(u as int, 65536),
{
    if u >= 32768 {
        (u as i32 - 65536) as i16
    } else {
        u as i16
    }
}

/// Read one item `frn` at `pos`: how far it extends and what it adds to the
/// fields decoded so far.
fn decode_item(data: &[u8], pos: usize, frn: u8, acc: RecordFields) -> (r: Result<
    (RecordFields, usize),
    WalkError,
>)
    requires
        pos <= data.len(),
    ensures
        match r {
            Ok((fields, end)) => {
                &&& item_len(data@, frn, pos as int) == Ok::<int, WalkError>(end - pos)
                &&& pos <= end <= data.len()
                &&& fields == apply_item(frn, data@.subrange(pos as int, end as int), acc)
            },
            Err(e) => item_len(data@, frn, pos as int) == Err::<int, WalkError>(e),
        },
{
    reveal(item_len);
    reveal(apply_item);
    let l = if frn == FRN_DATA_SOURCE {
        take_fixed(data, pos, 2)
    } else if frn == FRN_TIME_OF_TRACK {
        take_fixed(data, pos, 3)
    } else if frn == FRN_POSITION_WGS84 {
        take_fixed(data, pos, 8)
    } else if frn == FRN_POSITION_CARTESIAN {
        take_fixed(data, pos, 6)
    } else if frn == FRN_VELOCITY {
        take_fixed(data, pos, 4)
    } else if frn == FRN_MODE_3A {
        take_fixed(data, pos, 2)
    } else if frn == FRN_AIRCRAFT_DERIVED_DATA {
        take_fixed(data, pos, 4)
    } else if frn == FRN_TRACK_NUMBER {
        take_fixed(data, pos, 2)
    } else if frn == FRN_TRACK_STATUS {
        take_extended(data, pos)
    } else if frn == FRN_UPDATE_AGES {
        take_fixed(data, pos, 2)
    } else if frn == FRN_ACCURACIES {
        take_fixed(data, pos, 5)
    } else {
        Err(WalkError::UnknownItem(frn))
    };
    let l = match l {
        Ok(l) => l,
        Err(e) => return Err(e),
    };
    let end = pos + l;
    let ghost b = data@.subrange(pos as int, end as int);
    let mut fields = acc;
    if frn == FRN_DATA_SOURCE {
        fields.source = Some(DataSourceId { sac: data[pos], sic: data[pos + 1] });
    } else if frn == FRN_TIME_OF_TRACK {
        fields.time_ticks = Some(be24_at(data, pos));
    } else if frn == FRN_POSITION_WGS84 {
        fields.position = Some((signed32(be32_at(data, pos)), signed32(be32_at(data, pos + 4))));
    } else if frn == FRN_POSITION_CARTESIAN {
        fields.cartesian = Some((signed24(be24_at(data, pos)), signed24(be24_at(data, pos + 3))));
    } else if frn == FRN_VELOCITY {
        fields.velocity = Some((signed16(be16_at(data, pos)), signed16(be16_at(data, pos + 2))));
    } else if frn == FRN_MODE_3A {
        fields.mode_3a = Some(be16_at(data, pos) % 4096);
    } else if frn == FRN_AIRCRAFT_DERIVED_DATA {
        fields.icao_address = Some(be24_at(data, pos + 1));
    } else if frn == FRN_TRACK_NUMBER {
        fields.track_number = Some(be16_at(data, pos));
    } else if frn == FRN_TRACK_STATUS {
        let confirmed = data[pos] & STATUS_CNF_TENTATIVE == 0u8;
        let coasting = l >= 4 && data[pos + 3] & STATUS_CST_COASTING != 0u8;
        fields.status = Some((confirmed, coasting));
    } else if frn == FRN_UPDATE_AGES {
        fields.update_age = Some(data[pos + 1]);
    } else {
        fields.position_uncertainty = Some(be16_at(data, pos + 1));
    }
    Ok((fields, end))
}

/// The record the decoded fields describe, or the first missing required item.
fn finish(f: RecordFields) -> (r: Result<DecodedRecord, DecodeError>)
    ensures
        r == finish_fields(f),
{
    let (confirmed, coasting) = match f.status {
        Some(s) => s,
        None => return Err(DecodeError::MissingItem(FRN_TRACK_STATUS)),
    };
    let (v_east, v_north) = match f.velocity {
        Some(v) => v,
        None => return Err(DecodeError::MissingItem(FRN_VELOCITY)),
    };
    let source = match f.source {
        Some(s) => s,
        None => return Err(DecodeError::MissingItem(FRN_DATA_SOURCE)),
    };
    let time_ticks = match f.time_ticks {
        Some(t) => t,
        None => return Err(DecodeError::MissingItem(FRN_TIME_OF_TRACK)),
    };
    let (latitude, longitude) = match f.position {
        Some(p) => p,
        None => return Err(DecodeError::MissingItem(FRN_POSITION_WGS84)),
    };
    let (x, y) = match f.cartesian {
        Some(c) => c,
        None => return Err(DecodeError::MissingItem(FRN_POSITION_CARTESIAN)),
    };
    let track_number = match f.track_number {
        Some(t) => t,
        None => return Err(DecodeError::MissingItem(FRN_TRACK_NUMBER)),
    };
    let update_age = match f.update_age {
        Some(a) => a,
        None => return Err(DecodeError::MissingItem(FRN_UPDATE_AGES)),
    };
    let position_uncertainty = match f.position_uncertainty {
        Some(a) => a,
        None => return Err(DecodeError::MissingItem(FRN_ACCURACIES)),
    };
    Ok(
        DecodedRecord {
            source,
            time_ticks,
            latitude,
            longitude,
            x,
            y,
            v_east,
            v_north,
            track_number,
            confirmed,
            coasting,
            update_age,
            position_uncertainty,
            mode_3a: f.mode_3a,
            icao_address: f.icao_address,
        },
    )
}

/// An empty set of decoded fields.
fn empty_fields() -> (r: RecordFields)
    ensures
        r == no_fields(),
{
    RecordFields {
        source: None,
        time_ticks: None,
        position: None,
        cartesian: None,
        velocity: None,
        track_number: None,
        status: None,
        update_age: None,
        position_uncertainty: None,
        mode_3a: None,
        icao_address: None,
    }
}

proof fn lemma_item_lens_fit(data: Seq<u8>)
    ensures
        forall|f: u8, p: int|
            0 <= p <= data.len() && (#[trigger] item_lens(data)(f, p)) is Ok ==> 0 <= item_lens(
                data,
            )(f, p)->Ok_0 && p + item_lens(data)(f, p)->Ok_0 <= data.len(),
{
    assert forall|f: u8, p: int|
        0 <= p <= data.len() && (#[trigger] item_lens(data)(f, p)) is Ok implies 0 <= item_lens(
            data,
        )(f, p)->Ok_0 && p + item_lens(data)(f, p)->Ok_0 <= data.len() by {
        reveal(item_len);
        crate::fspec::lemma_chain_len_bound(data, p);
    }
}

/// Decode the record at `pos`: the record and the offset just past it.
fn decode_record(data: &[u8], pos: usize) -> (r: Result<(DecodedRecord, usize), DecodeError>)
    requires
        pos < data.len(),
    ensures
        match r {
            Ok((rec, end)) => decode_record_at(data@, pos as int) == Ok::<
                (DecodedRecord, int),
                DecodeError,
            >((rec, end as int)) && pos < end <= data.len(),
            Err(e) => decode_record_at(data@, pos as int) == Err::<(DecodedRecord, int), DecodeError>(
                e,
            ),
        },
{
    let n = match fspec_extent_at(data, pos) {
        Ok(n) => n,
        Err(_) => return Err(DecodeError::FspecTooLong),
    };
    if n == 0 {
        return Err(DecodeError::Truncated);
    }
    let ghost fs = data@.subrange(pos as int, pos + n);
    let ghost lens = item_lens(data@);
    let ghost app = item_apply();
    let mut cur = pos + n;
    let mut acc = empty_fields();
    let mut k: usize = 1;
    proof {
        lemma_item_lens_fit(data@);
    }
    while k <= 7 * n
        invariant
            1 <= n <= MAX_FSPEC_OCTETS,
            pos + n <= data.len(),
            n == chain_len_from(data@, pos as int),
            1 <= k <= 7 * n + 1,
            pos + n <= cur <= data.len(),
            fs == data@.subrange(pos as int, pos + n),
            lens == item_lens(data@),
            app == item_apply(),
            walk(data@, fs, n as int, 1, pos + n, no_fields(), lens, app) == walk(
                data@,
                fs,
                n as int,
                k as int,
                cur as int,
                acc,
                lens,
                app,
            ),
        decreases 7 * n + 1 - k,
    {
        let octet = data[pos + (k - 1) / 7];
        let position = ((k - 1) % 7) as u8;
        assert(fs[(k - 1) / 7] == octet);
        if octet & (0x80u8 >> position) != 0u8 {
            assert(frn_present(fs, n as int, k as int));
            match decode_item(data, cur, k as u8, acc) {
                Ok((fields, end)) => {
                    assert(lens(k as u8, cur as int) == Ok::<int, WalkError>(end - cur));
                    assert(app(k as u8, data@.subrange(cur as int, end as int), acc) == fields);
                    acc = fields;
                    cur = end;
                },
                Err(e) => {
                    assert(lens(k as u8, cur as int) == Err::<int, WalkError>(e));
                    assert(walk(data@, fs, n as int, k as int, cur as int, acc, lens, app) == Err::<
                        (RecordFields, int),
                        WalkError,
                    >(e));
                    return Err(walk_error_of(e));
                },
            }
        } else {
            assert(!frn_present(fs, n as int, k as int));
        }
        k = k + 1;
    }
    match finish(acc) {
        Ok(rec) => Ok((rec, cur)),
        Err(e) => Err(e),
    }
}

/// The walk's error as a CAT062 error.
fn walk_error_of(e: WalkError) -> (r: DecodeError)
    ensures
        r == walk_error(e),
{
    match e {
        WalkError::Truncated => DecodeError::Truncated,
        WalkError::UnknownItem(f) => DecodeError::UnknownItem(f),
    }
}

/// The records still to decode, after the ones already decoded.
pub open spec fn after(done: Seq<DecodedRecord>, rest: Result<Seq<DecodedRecord>, DecodeError>) -> Result<
    Seq<DecodedRecord>,
    DecodeError,
> {
    match rest {
        Ok(rs) => Ok(done + rs),
        Err(e) => Err(e),
    }
}

/// Decode a CAT062 data block (`[CAT][LEN][record…]`) into one record per
/// record — the inverse of [`encode_block`].
pub fn decode_data_block(bytes: &[u8]) -> (r: Result<Vec<DecodedRecord>, DecodeError>)
    ensures
        match r {
            Ok(records) => decode_block(bytes@) == Ok::<Seq<DecodedRecord>, DecodeError>(records@),
            Err(e) => decode_block(bytes@) == Err::<Seq<DecodedRecord>, DecodeError>(e),
        },
{
    if bytes.len() < 3 {
        return Err(DecodeError::Truncated);
    }
    if bytes[0] != CATEGORY {
        return Err(DecodeError::WrongCategory(bytes[0]));
    }
    let declared = be16_at(bytes, 1) as usize;
    if declared != bytes.len() {
        return Err(DecodeError::LengthMismatch { declared, actual: bytes.len() });
    }
    let mut records: Vec<DecodedRecord> = Vec::new();
    let mut pos: usize = 3;
    while pos < bytes.len()
        invariant
            3 <= pos <= bytes.len(),
            decode_block(bytes@) == after(records@, decode_records_from(bytes@, pos as int)),
        decreases bytes.len() - pos,
    {
        match decode_record(bytes, pos) {
            Ok((rec, end)) => {
                proof {
                    assert(records@.push(rec) + decode_records_from(bytes@, end as int)->Ok_0
                        =~= records@ + (seq![rec] + decode_records_from(bytes@, end as int)->Ok_0));
                }
                records.push(rec);
                pos = end;
            },
            Err(e) => {
                return Err(e);
            },
        }
    }
    assert(records@ + Seq::<DecodedRecord>::empty() =~= records@);
    Ok(records)
}


// ---------------------------------------------------------------------------
// Decoding inverts encoding.
// ---------------------------------------------------------------------------

/// A record every item of which survives the trip through the wire: the time
/// fits 24 bits, X/Y fit the 24-bit field, the Mode 3/A code fits 12 bits and
/// the address fits 24 bits.
pub open spec fn encodable(r: DecodedRecord) -> bool {
    &&& r.time_ticks < 16777216
    &&& I24_MIN <= r.x <= I24_MAX
    &&& I24_MIN <= r.y <= I24_MAX
    &&& (r.mode_3a matches Some(c) ==> c < 4096)
    &&& (r.icao_address matches Some(a) ==> a < 16777216)
}

proof fn lemma_signed_values(v: int, modulus: int)
    requires
        modulus == 65536 || modulus == 16777216 || modulus == 4294967296,
        -modulus / 2 <= v < modulus / 2,
    ensures
        0 <= twos(v, modulus) < modulus,
        signed(twos(v, modulus), modulus) == v,
{
}

proof fn lemma_status_bits()
    ensures
        0u8 & STATUS_CNF_TENTATIVE == 0u8,
        STATUS_CNF_TENTATIVE & STATUS_CNF_TENTATIVE != 0u8,
        (0u8 | 1u8) & STATUS_CNF_TENTATIVE == 0u8,
        (STATUS_CNF_TENTATIVE | 1u8) & STATUS_CNF_TENTATIVE != 0u8,
        STATUS_CST_COASTING & STATUS_CST_COASTING != 0u8,
        !crate::fspec::has_fx(0u8),
        !crate::fspec::has_fx(STATUS_CNF_TENTATIVE),
        crate::fspec::has_fx(0u8 | 1u8),
        crate::fspec::has_fx(STATUS_CNF_TENTATIVE | 1u8),
        crate::fspec::has_fx(1u8),
        !crate::fspec::has_fx(STATUS_CST_COASTING),
{
    assert(0u8 & 2u8 == 0u8) by (bit_vector);
    assert(2u8 & 2u8 != 0u8) by (bit_vector);
    assert((0u8 | 1u8) & 2u8 == 0u8) by (bit_vector);
    assert((2u8 | 1u8) & 2u8 != 0u8) by (bit_vector);
    assert(0x80u8 & 0x80u8 != 0u8) by (bit_vector);
    assert(0u8 & 1u8 == 0u8) by (bit_vector);
    assert(2u8 & 1u8 == 0u8) by (bit_vector);
    assert((0u8 | 1u8) & 1u8 != 0u8) by (bit_vector);
    assert((2u8 | 1u8) & 1u8 != 0u8) by (bit_vector);
    assert(1u8 & 1u8 != 0u8) by (bit_vector);
    assert(0x80u8 & 1u8 == 0u8) by (bit_vector);
}

/// Which items the record for `r` carries, and what each of them is.
proof fn lemma_record_items_shape(r: DecodedRecord)
    ensures
        forall|f: u8|
            #[trigger] record_items(r).contains_key(f) <==> (f == FRN_DATA_SOURCE || f
                == FRN_TIME_OF_TRACK || f == FRN_POSITION_WGS84 || f == FRN_POSITION_CARTESIAN || f
                == FRN_VELOCITY || f == FRN_TRACK_NUMBER || f == FRN_TRACK_STATUS || f
                == FRN_UPDATE_AGES || f == FRN_ACCURACIES || (f == FRN_MODE_3A && r.mode_3a is Some)
                || (f == FRN_AIRCRAFT_DERIVED_DATA && r.icao_address is Some)),
        record_items(r)[FRN_DATA_SOURCE] == data_source_item(r.source),
        record_items(r)[FRN_TIME_OF_TRACK] == time_item(r.time_ticks),
        record_items(r)[FRN_POSITION_WGS84] == position_item(r.latitude, r.longitude),
        record_items(r)[FRN_POSITION_CARTESIAN] == cartesian_item(r.x, r.y),
        record_items(r)[FRN_VELOCITY] == velocity_item(r.v_east, r.v_north),
        record_items(r)[FRN_TRACK_NUMBER] == track_number_item(r.track_number),
        record_items(r)[FRN_TRACK_STATUS] == track_status_item(r.confirmed, r.coasting),
        record_items(r)[FRN_UPDATE_AGES] == update_ages_item(r.update_age),
        record_items(r)[FRN_ACCURACIES] == accuracies_item(r.position_uncertainty),
        r.mode_3a matches Some(c) ==> record_items(r)[FRN_MODE_3A] == mode_3a_item(c),
        r.icao_address matches Some(a) ==> record_items(r)[FRN_AIRCRAFT_DERIVED_DATA]
            == target_address_item(a),
{
    reveal(record_items);
}

/// The status item is one octet, or four when coasting, and its FX chain
/// ends exactly with it.
proof fn lemma_status_item_delimits(data: Seq<u8>, p: int, confirmed: bool, coasting: bool)
    requires
        holds_at(data, p, track_status_item(confirmed, coasting)),
    ensures
        extended_len(data, p) == Ok::<int, WalkError>(
            track_status_item(confirmed, coasting).len() as int,
        ),
{
    let item = track_status_item(confirmed, coasting);
    lemma_status_bits();
    assert forall|j: int| 0 <= j < item.len() implies data[p + j] == #[trigger] item[j] by {
        assert(data.subrange(p, p + item.len())[j] == data[p + j]);
    }
    let octet1: u8 = if confirmed {
        0u8
    } else {
        STATUS_CNF_TENTATIVE
    };
    assert(!crate::fspec::has_fx(octet1));
    assert(crate::fspec::has_fx(octet1 | 1u8));
    if coasting {
        assert(item == seq![octet1 | 1u8, 1u8, 1u8, STATUS_CST_COASTING]);
        assert(data[p] == item[0]);
        assert(data[p + 1] == item[1]);
        assert(data[p + 2] == item[2]);
        assert(data[p + 3] == item[3]);
        assert(chain_len_from(data, p + 3) == 1);
        assert(chain_len_from(data, p + 2) == 2);
        assert(chain_len_from(data, p + 1) == 3);
        assert(chain_len_from(data, p) == 4);
    } else {
        assert(item == seq![octet1]);
        assert(data[p] == item[0]);
        assert(chain_len_from(data, p) == 1);
    }
}

/// Every item of an encoded record is self-delimiting under the item-length
/// model.
proof fn lemma_items_self_delimiting(data: Seq<u8>, r: DecodedRecord)
    ensures
        forall|f: u8, p: int|
            record_items(r).contains_key(f) && holds_at(data, p, record_items(r)[f])
                ==> #[trigger] item_lens(data)(f, p) == Ok::<int, WalkError>(
                record_items(r)[f].len() as int,
            ),
{
    lemma_record_items_shape(r);
    assert forall|f: u8, p: int|
        record_items(r).contains_key(f) && holds_at(data, p, record_items(r)[f]) implies #[trigger] item_lens(
        data,
    )(f, p) == Ok::<int, WalkError>(record_items(r)[f].len() as int) by {
        reveal(item_len);
        if f == FRN_TRACK_STATUS {
            lemma_status_item_delimits(data, p, r.confirmed, r.coasting);
        }
    }
}

/// Decoding one encoded record gives it back and ends right after it.
proof fn lemma_record_roundtrip(data: Seq<u8>, pos: int, r: DecodedRecord)
    requires
        encodable(r),
        holds_at(data, pos, encoded_record(r)),
    ensures
        decode_record_at(data, pos) == Ok::<(DecodedRecord, int), DecodeError>(
            (r, pos + encoded_record(r).len()),
        ),
{
    let items = record_items(r);
    let fs = encoded_fspec(items.dom());
    let n = fs.len() as int;
    lemma_record_items_shape(r);
    assert(frns_in_uap_range(items));
    assert(items.contains_key(FRN_DATA_SOURCE));
    crate::wire::lemma_record_layout(data, pos, items);
    lemma_items_self_delimiting(data, r);
    lemma_walk_encoded(data, items, 1, pos + n, no_fields(), item_lens(data), item_apply());
    lemma_fields_roundtrip(r);
}

proof fn lemma_apply_source(r: DecodedRecord, acc: RecordFields)
    ensures
        apply_item(FRN_DATA_SOURCE, data_source_item(r.source), acc) == (RecordFields {
            source: Some(r.source),
            ..acc
        }),
{
    reveal(apply_item);
    assert(DataSourceId { sac: r.source.sac, sic: r.source.sic } == r.source);
}

proof fn lemma_apply_time(r: DecodedRecord, acc: RecordFields)
    requires
        encodable(r),
    ensures
        apply_item(FRN_TIME_OF_TRACK, time_item(r.time_ticks), acc) == (RecordFields {
            time_ticks: Some(r.time_ticks),
            ..acc
        }),
{
    reveal(apply_item);
    lemma_be24_roundtrip(r.time_ticks as int);
}

proof fn lemma_apply_track_number(r: DecodedRecord, acc: RecordFields)
    ensures
        apply_item(FRN_TRACK_NUMBER, track_number_item(r.track_number), acc) == (RecordFields {
            track_number: Some(r.track_number),
            ..acc
        }),
{
    reveal(apply_item);
    lemma_be16_roundtrip(r.track_number as int);
}

proof fn lemma_apply_age(r: DecodedRecord, acc: RecordFields)
    ensures
        apply_item(FRN_UPDATE_AGES, update_ages_item(r.update_age), acc) == (RecordFields {
            update_age: Some(r.update_age),
            ..acc
        }),
{
    reveal(apply_item);
}

proof fn lemma_apply_accuracy(r: DecodedRecord, acc: RecordFields)
    ensures
        apply_item(FRN_ACCURACIES, accuracies_item(r.position_uncertainty), acc) == (RecordFields {
            position_uncertainty: Some(r.position_uncertainty),
            ..acc
        }),
{
    reveal(apply_item);
    lemma_be16_roundtrip(r.position_uncertainty as int);
    let b = accuracies_item(r.position_uncertainty);
    assert(b[1] == u16_octets(r.position_uncertainty as int)[0]);
    assert(b[2] == u16_octets(r.position_uncertainty as int)[1]);
}

proof fn lemma_apply_position_items(r: DecodedRecord, acc: RecordFields)
    requires
        encodable(r),
    ensures
        apply_item(FRN_POSITION_WGS84, position_item(r.latitude, r.longitude), acc)
            == (RecordFields { position: Some((r.latitude, r.longitude)), ..acc }),
        apply_item(FRN_POSITION_CARTESIAN, cartesian_item(r.x, r.y), acc) == (RecordFields {
            cartesian: Some((r.x, r.y)),
            ..acc
        }),
        apply_item(FRN_VELOCITY, velocity_item(r.v_east, r.v_north), acc) == (RecordFields {
            velocity: Some((r.v_east, r.v_north)),
            ..acc
        }),
{
    reveal(apply_item);
    lemma_signed_values(r.latitude as int, 4294967296);
    lemma_signed_values(r.longitude as int, 4294967296);
    lemma_be32_roundtrip(twos(r.latitude as int, 4294967296));
    lemma_be32_roundtrip(twos(r.longitude as int, 4294967296));
    lemma_signed_values(r.x as int, 16777216);
    lemma_signed_values(r.y as int, 16777216);
    lemma_be24_roundtrip(twos(r.x as int, 16777216));
    lemma_be24_roundtrip(twos(r.y as int, 16777216));
    lemma_signed_values(r.v_east as int, 65536);
    lemma_signed_values(r.v_north as int, 65536);
    lemma_be16_roundtrip(twos(r.v_east as int, 65536));
    lemma_be16_roundtrip(twos(r.v_north as int, 65536));
}

proof fn lemma_apply_status(r: DecodedRecord, acc: RecordFields)
    ensures
        apply_item(FRN_TRACK_STATUS, track_status_item(r.confirmed, r.coasting), acc) == (
        RecordFields { status: Some((r.confirmed, r.coasting)), ..acc }),
{
    reveal(apply_item);
    lemma_status_bits();
}

proof fn lemma_apply_mode_3a(r: DecodedRecord, acc: RecordFields)
    requires
        encodable(r),
    ensures
        r.mode_3a matches Some(c) ==> apply_item(FRN_MODE_3A, mode_3a_item(c), acc) == (
        RecordFields { mode_3a: Some(c), ..acc }),
{
    if let Some(c) = r.mode_3a {
        reveal(apply_item);
        lemma_be16_roundtrip(c as int);
    }
}

proof fn lemma_apply_address(r: DecodedRecord, acc: RecordFields)
    requires
        encodable(r),
    ensures
        r.icao_address matches Some(a) ==> apply_item(
            FRN_AIRCRAFT_DERIVED_DATA,
            target_address_item(a),
            acc,
        ) == (RecordFields { icao_address: Some(a), ..acc }),
{
    if let Some(a) = r.icao_address {
        reveal(apply_item);
        lemma_be24_roundtrip(a as int);
        let b = target_address_item(a);
        assert(b[1] == u24_octets(a as int)[0]);
        assert(b[2] == u24_octets(a as int)[1]);
        assert(b[3] == u24_octets(a as int)[2]);
    }
}

/// Folding the decoder over the items of an encoded record recovers it.
proof fn lemma_fields_roundtrip(r: DecodedRecord)
    requires
        encodable(r),
    ensures
        finish_fields(apply_from(record_items(r), 1, no_fields(), item_apply())) == Ok::<
            DecodedRecord,
            DecodeError,
        >(r),
{
    let items = record_items(r);
    let ap = item_apply();
    lemma_record_items_shape(r);
    let a0 = no_fields();
    let a1 = RecordFields { source: Some(r.source), ..a0 };
    lemma_apply_source(r, a0);
    assert(apply_from(items, 1, a0, ap) == apply_from(items, 2, a1, ap));
    lemma_apply_skip(items, 2, 4, a1, ap);
    let a4 = RecordFields { time_ticks: Some(r.time_ticks), ..a1 };
    lemma_apply_time(r, a1);
    assert(apply_from(items, 4, a1, ap) == apply_from(items, 5, a4, ap));
    let a5 = RecordFields { position: Some((r.latitude, r.longitude)), ..a4 };
    lemma_apply_position_items(r, a4);
    assert(apply_from(items, 5, a4, ap) == apply_from(items, 6, a5, ap));
    let a6 = RecordFields { cartesian: Some((r.x, r.y)), ..a5 };
    lemma_apply_position_items(r, a5);
    assert(apply_from(items, 6, a5, ap) == apply_from(items, 7, a6, ap));
    let a7 = RecordFields { velocity: Some((r.v_east, r.v_north)), ..a6 };
    lemma_apply_position_items(r, a6);
    assert(apply_from(items, 7, a6, ap) == apply_from(items, 8, a7, ap));
    lemma_apply_skip(items, 8, 9, a7, ap);
    let a9 = RecordFields { mode_3a: r.mode_3a, ..a7 };
    lemma_apply_mode_3a(r, a7);
    assert(apply_from(items, 9, a7, ap) == apply_from(items, 10, a9, ap));
    lemma_apply_skip(items, 10, 11, a9, ap);
    let a11 = RecordFields { icao_address: r.icao_address, ..a9 };
    lemma_apply_address(r, a9);
    assert(apply_from(items, 11, a9, ap) == apply_from(items, 12, a11, ap));
    let a12 = RecordFields { track_number: Some(r.track_number), ..a11 };
    lemma_apply_track_number(r, a11);
    assert(apply_from(items, 12, a11, ap) == apply_from(items, 13, a12, ap));
    let a13 = RecordFields { status: Some((r.confirmed, r.coasting)), ..a12 };
    lemma_apply_status(r, a12);
    assert(apply_from(items, 13, a12, ap) == apply_from(items, 14, a13, ap));
    let a14 = RecordFields { update_age: Some(r.update_age), ..a13 };
    lemma_apply_age(r, a13);
    assert(apply_from(items, 14, a13, ap) == apply_from(items, 15, a14, ap));
    lemma_apply_skip(items, 15, 16, a14, ap);
    let a16 = RecordFields { position_uncertainty: Some(r.position_uncertainty), ..a14 };
    lemma_apply_accuracy(r, a14);
    assert(apply_from(items, 16, a14, ap) == apply_from(items, 17, a16, ap));
    lemma_apply_skip(items, 17, 256, a16, ap);
    assert(finish_fields(a16) == Ok::<DecodedRecord, DecodeError>(r));
}

/// Decoding a CAT062 data block recovers exactly the records it was encoded
/// from, provided every record is [`encodable`] and the block fits the
/// 16-bit `LEN` field. For records with a wider time, Mode 3/A code or
/// address, [`lemma_decode_gives_written_records`] gives the masked result.
pub proof fn lemma_decode_inverts_encode(rs: Seq<DecodedRecord>)
    requires
        forall|i: int| 0 <= i < rs.len() ==> encodable(#[trigger] rs[i]),
        encoded_records(rs).len() + 3 < 65536,
    ensures
        decode_block(encoded_block(rs)) == Ok::<Seq<DecodedRecord>, DecodeError>(rs),
{
    let body = encoded_records(rs);
    let bytes = encoded_block(rs);
    let total = body.len() + 3;
    lemma_be16_roundtrip(total as int);
    assert(total % 65536 == total);
    assert(bytes[0] == CATEGORY);
    assert(bytes[1] == u16_octets(total as int)[0]);
    assert(bytes[2] == u16_octets(total as int)[1]);
    assert(bytes.subrange(3, bytes.len() as int) =~= body);
    assert(rs.subrange(0, rs.len() as int) =~= rs);
    lemma_records_roundtrip(bytes, rs, 0, 3);
    assert(rs.subrange(0, rs.len() as int) =~= rs);
}

proof fn lemma_records_roundtrip(bytes: Seq<u8>, rs: Seq<DecodedRecord>, i: int, pos: int)
    requires
        0 <= i <= rs.len(),
        forall|j: int| 0 <= j < rs.len() ==> encodable(#[trigger] rs[j]),
        0 <= pos <= bytes.len(),
        bytes.subrange(pos, bytes.len() as int) == encoded_records(rs.subrange(i, rs.len() as int)),
    ensures
        decode_records_from(bytes, pos) == Ok::<Seq<DecodedRecord>, DecodeError>(
            rs.subrange(i, rs.len() as int),
        ),
    decreases rs.len() - i,
{
    let tail = rs.subrange(i, rs.len() as int);
    let parts = tail.map_values(|r: DecodedRecord| encoded_record(r));
    if i == rs.len() {
        assert(parts.len() == 0);
        assert(bytes.subrange(pos, bytes.len() as int).len() == 0);
        assert(tail =~= Seq::<DecodedRecord>::empty());
    } else {
        let r = rs[i];
        let rec = encoded_record(r);
        let rest_rs = rs.subrange(i + 1, rs.len() as int);
        let rest = encoded_records(rest_rs);
        assert(parts.drop_first() =~= rest_rs.map_values(|r: DecodedRecord| encoded_record(r)));
        assert(parts.first() == rec);
        assert(encoded_records(tail) == rec + rest);
        let whole = bytes.subrange(pos, bytes.len() as int);
        assert(whole == rec + rest);
        assert(whole.len() == rec.len() + rest.len());
        assert(bytes.subrange(pos, pos + rec.len()) =~= whole.subrange(0, rec.len() as int));
        assert(whole.subrange(0, rec.len() as int) =~= rec);
        lemma_record_roundtrip(bytes, pos, r);
        lemma_record_nonempty(r);
        assert(bytes.subrange(pos + rec.len(), bytes.len() as int) =~= whole.subrange(
            rec.len() as int,
            whole.len() as int,
        ));
        assert(whole.subrange(rec.len() as int, whole.len() as int) =~= rest);
        lemma_records_roundtrip(bytes, rs, i + 1, pos + rec.len());
        assert(seq![r] + rest_rs =~= tail);
    }
}

proof fn lemma_record_nonempty(r: DecodedRecord)
    ensures
        encoded_record(r).len() > 0,
{
    let items = record_items(r);
    lemma_record_items_shape(r);
    assert(items.dom().contains(1u8));
    assert forall|f: u8| #[trigger] items.dom().contains(f) implies 1 <= f <= 252 by {}
    lemma_parse_inverts_fspec(items.dom());
    crate::fspec::lemma_max_frn_covers(items.dom());
}


/// The track-status item on its own: decoding it gives back both flags, and
/// its FX chain ends exactly with it — one octet, or four when coasting.
pub proof fn lemma_track_status_round_trip(confirmed: bool, coasting: bool, acc: RecordFields)
    ensures
        apply_item(FRN_TRACK_STATUS, track_status_item(confirmed, coasting), acc).status == Some(
            (confirmed, coasting),
        ),
        extended_len(track_status_item(confirmed, coasting), 0) == Ok::<int, WalkError>(
            track_status_item(confirmed, coasting).len() as int,
        ),
        track_status_item(confirmed, coasting).len() == (if coasting {
            4int
        } else {
            1int
        }),
{
    let item = track_status_item(confirmed, coasting);
    reveal(apply_item);
    lemma_status_bits();
    assert(item.subrange(0, item.len() as int) =~= item);
    lemma_status_item_delimits(item, 0, confirmed, coasting);
}

/// What a record decodes to once written: the time of track, the Mode 3/A
/// code and the target address are cut to the bits their items carry
/// (`time & 0xFF_FFFF`, `code & 0o7777`, `address & 0xFF_FFFF`); every other
/// field is kept.
pub open spec fn as_written(r: DecodedRecord) -> DecodedRecord {
    DecodedRecord {
        time_ticks: (r.time_ticks % 16777216) as u32,
        mode_3a: match r.mode_3a {
            Some(c) => Some((c % 4096) as u16),
            None => None,
        },
        icao_address: match r.icao_address {
            Some(a) => Some((a % 16777216) as u32),
            None => None,
        },
        ..r
    }
}

/// Decoding a block gives back every record as written, for any time,
/// code and address: the encoder keeps only the low bits of each, and the
/// decoder returns exactly those. Only the system-plane position must fit
/// its 24-bit items, and the block its 16-bit length.
pub proof fn lemma_decode_gives_written_records(rs: Seq<DecodedRecord>)
    requires
        forall|i: int|
            0 <= i < rs.len() ==> I24_MIN <= #[trigger] rs[i].x <= I24_MAX && I24_MIN <= rs[i].y
                <= I24_MAX,
        encoded_records(rs).len() + 3 < 65536,
    ensures
        decode_block(encoded_block(rs)) == Ok::<Seq<DecodedRecord>, DecodeError>(
            rs.map_values(|r: DecodedRecord| as_written(r)),
        ),
{
    let ws = rs.map_values(|r: DecodedRecord| as_written(r));
    assert forall|i: int| 0 <= i < rs.len() implies encoded_record(#[trigger] rs[i])
        == encoded_record(ws[i]) by {
        lemma_written_record_same_bytes(rs[i]);
    }
    let a = rs.map_values(|r: DecodedRecord| encoded_record(r));
    let b = ws.map_values(|r: DecodedRecord| encoded_record(r));
    assert(a =~= b);
    assert(encoded_records(rs) == encoded_records(ws));
    assert(encoded_block(rs) == encoded_block(ws));
    assert forall|i: int| 0 <= i < ws.len() implies encodable(#[trigger] ws[i]) by {
        assert(ws[i] == as_written(rs[i]));
    }
    lemma_decode_inverts_encode(ws);
}

/// A record and its written form have the same bytes.
proof fn lemma_written_record_same_bytes(r: DecodedRecord)
    ensures
        encoded_record(r) == encoded_record(as_written(r)),
{
    let w = as_written(r);
    reveal(record_items);
    assert(time_item(r.time_ticks) == time_item(w.time_ticks));
    if let Some(c) = r.mode_3a {
        assert(mode_3a_item(c) == mode_3a_item((c % 4096) as u16));
    }
    if let Some(a) = r.icao_address {
        assert(target_address_item(a) == target_address_item((a % 16777216) as u32));
    }
    assert(record_items(r) =~= record_items(w));
}

} // verus!

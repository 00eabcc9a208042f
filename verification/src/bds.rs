//! Mode S EHS BDS register decode — the 56-bit Comm-B message fields
//! delivered in CAT048 I048/250, bit-exactly per ICAO Doc 9871.
//!
//! - BDS 4,0 — selected vertical intention: the MCP/FCU selected altitude.
//! - BDS 5,0 — track and turn report: roll angle, true track angle, ground
//!   speed, true airspeed.
//! - BDS 6,0 — heading and speed report: magnetic heading, IAS, Mach,
//!   barometric altitude rate.
//!
//! Every field is prefixed by a one-bit status flag: only fields the
//! transponder marked valid are decoded, a cleared status bit yields `None`
//! and never a zero. Values are kept in the register's own LSB counts
//! ([`RawDaps`]); their scaling to feet, degrees and knots is a
//! multiplication by the constant LSB of each field. Unknown registers
//! decode to an empty [`RawDaps`].

use vstd::prelude::*;

verus! {

/// BDS register 4,0 — Selected vertical intention.
pub const BDS_4_0: u8 = 0x40;
/// BDS register 5,0 — Track and turn report.
pub const BDS_5_0: u8 = 0x50;
/// BDS register 6,0 — Heading and speed report.
pub const BDS_6_0: u8 = 0x60;

/// `2^n`.
pub open spec fn p2(n: int) -> int
    decreases n,
{
    if n <= 0 {
        1
    } else {
        2 * p2(n - 1)
    }
}

/// Bit `b` of `bytes`, numbered from 1 at the most significant bit of the
/// first octet (the ICAO register convention).
pub open spec fn bit_at(bytes: Seq<u8>, b: int) -> int {
    ((bytes[(b - 1) / 8] >> ((7 - (b - 1) % 8) as u8)) & 1u8) as int
}

/// The unsigned value of the `len` bits of `bytes` starting at bit `start`,
/// most significant first.
pub open spec fn field_value(bytes: Seq<u8>, start: int, len: int) -> int
    decreases len,
{
    if len <= 0 {
        0
    } else {
        2 * field_value(bytes, start, len - 1) + bit_at(bytes, start + len - 1)
    }
}

/// The same `len` bits read as a two's-complement number (the first bit is
/// the sign).
pub open spec fn signed_field_value(bytes: Seq<u8>, start: int, len: int) -> int {
    let raw = field_value(bytes, start, len);
    if raw >= p2(len - 1) {
        raw - p2(len)
    } else {
        raw
    }
}

proof fn lemma_bit_at_range(bytes: Seq<u8>, b: int)
    ensures
        0 <= bit_at(bytes, b) <= 1,
{
    let x = bytes[(b - 1) / 8];
    let s = (7 - (b - 1) % 8) as u8;
    assert((x >> s) & 1u8 <= 1u8) by (bit_vector);
}

/// An unsigned `len`-bit field is below `2^len`.
pub proof fn lemma_field_value_range(bytes: Seq<u8>, start: int, len: int)
    ensures
        0 <= field_value(bytes, start, len) < p2(len),
    decreases len,
{
    if len > 0 {
        lemma_field_value_range(bytes, start, len - 1);
        lemma_bit_at_range(bytes, start + len - 1);
    }
}

proof fn lemma_p2_values()
    ensures
        p2(0) == 1,
        p2(9) == 512,
        p2(10) == 1024,
        p2(11) == 2048,
        p2(12) == 4096,
        p2(31) == 0x8000_0000,
{
    reveal_with_fuel(p2, 32);
}

proof fn lemma_p2_monotone(a: int, b: int)
    requires
        0 <= a <= b,
    ensures
        1 <= p2(a) <= p2(b),
    decreases b,
{
    if b > a {
        lemma_p2_monotone(a, b - 1);
    } else if a > 0 {
        lemma_p2_monotone(a - 1, a - 1);
    }
}

/// The unsigned value of the `len` bits of `bytes` from bit `start` (bit 1
/// is the most significant bit of the first octet).
pub fn bit_field(bytes: &[u8], start: usize, len: usize) -> (v: u32)
    requires
        1 <= start,
        1 <= len <= 32,
        start + len - 1 <= 8 * bytes.len(),
        start + len <= usize::MAX,
    ensures
        v == field_value(bytes@, start as int, len as int),
{
    let mut value: u32 = 0;
    let mut i: usize = 0;
    while i < len
        invariant
            1 <= start,
            len <= 32,
            start + len - 1 <= 8 * bytes.len(),
            start + len <= usize::MAX,
            i <= len,
            value == field_value(bytes@, start as int, i as int),
        decreases len - i,
    {
        let bit = start + i;
        let byte = (bit - 1) / 8;
        let shift = (7 - (bit - 1) % 8) as u8;
        let b = (bytes[byte] >> shift) & 1u8;
        proof {
            lemma_field_value_range(bytes@, start as int, i as int);
            lemma_p2_monotone(i as int, 31);
            lemma_p2_values();
            lemma_bit_at_range(bytes@, bit as int);
            assert(b as int == bit_at(bytes@, bit as int));
        }
        value = value * 2 + b as u32;
        i = i + 1;
    }
    value
}

/// The same field as a two's-complement signed value.
pub fn signed_bit_field(bytes: &[u8], start: usize, len: usize) -> (v: i32)
    requires
        1 <= start,
        1 <= len <= 31,
        start + len - 1 <= 8 * bytes.len(),
        start + len <= usize::MAX,
    ensures
        v == signed_field_value(bytes@, start as int, len as int),
{
    let raw = bit_field(bytes, start, len);
    proof {
        lemma_field_value_range(bytes@, start as int, len as int);
        lemma_p2_monotone(len as int, 31);
        lemma_p2_values();
    }
    let half = power_of_two(len - 1);
    if raw >= half {
        let full = power_of_two(len);
        (raw as i64 - full as i64) as i32
    } else {
        raw as i32
    }
}

fn power_of_two(n: usize) -> (r: u32)
    requires
        n <= 31,
    ensures
        r == p2(n as int),
{
    let mut r: u32 = 1;
    let mut i: usize = 0;
    while i < n
        invariant
            i <= n <= 31,
            r == p2(i as int),
        decreases n - i,
    {
        proof {
            lemma_p2_monotone(i as int, 30);
            reveal_with_fuel(p2, 32);
        }
        r = r * 2;
        i = i + 1;
    }
    r
}

/// Downlink aircraft parameters from the EHS registers, each in its
/// register's LSB count; `None` where the register's status bit was clear or
/// no register carried the field.
///
/// LSBs: selected altitude 16 ft; roll 45/256°; true track and magnetic
/// heading 90/512° (signed, ±180°); ground speed and TAS 2 kt; IAS 1 kt; Mach
/// 0.004; barometric altitude rate 32 ft/min (signed).
#[derive(Debug, Clone, Copy, PartialEq, Eq, Structural)]
pub struct RawDaps {
    /// BDS 4,0 — MCP/FCU selected altitude.
    pub selected_altitude: Option<u32>,
    /// BDS 5,0 — roll angle (positive = right bank).
    pub roll_angle: Option<i32>,
    /// BDS 5,0 — true track angle.
    pub true_track: Option<i32>,
    /// BDS 5,0 — ground speed.
    pub ground_speed: Option<u32>,
    /// BDS 5,0 — true airspeed.
    pub true_airspeed: Option<u32>,
    /// BDS 6,0 — magnetic heading.
    pub magnetic_heading: Option<i32>,
    /// BDS 6,0 — indicated airspeed.
    pub ias: Option<u32>,
    /// BDS 6,0 — Mach number.
    pub mach: Option<u32>,
    /// BDS 6,0 — barometric altitude rate.
    pub barometric_vertical_rate: Option<i32>,
}

/// No parameter reported.
pub open spec fn no_daps() -> RawDaps {
    RawDaps {
        selected_altitude: None,
        roll_angle: None,
        true_track: None,
        ground_speed: None,
        true_airspeed: None,
        magnetic_heading: None,
        ias: None,
        mach: None,
        barometric_vertical_rate: None,
    }
}

/// The newer value where it has one, else the older.
pub open spec fn newer_of<T>(older: Option<T>, newer: Option<T>) -> Option<T> {
    if newer is Some {
        newer
    } else {
        older
    }
}

/// One field of a merge: the newer value where there is one, else the
/// older. The same rule serves the parameters in engineering units.
pub fn newer_value<T: Copy>(older: Option<T>, newer: Option<T>) -> (r: Option<T>)
    ensures
        r == newer_of(older, newer),
{
    match newer {
        Some(v) => Some(v),
        None => older,
    }
}

/// Per-field merge: every field `newer` carries overwrites the older one;
/// fields `newer` lacks keep their previous value.
pub open spec fn merged(older: RawDaps, newer: RawDaps) -> RawDaps {
    RawDaps {
        selected_altitude: newer_of(older.selected_altitude, newer.selected_altitude),
        roll_angle: newer_of(older.roll_angle, newer.roll_angle),
        true_track: newer_of(older.true_track, newer.true_track),
        ground_speed: newer_of(older.ground_speed, newer.ground_speed),
        true_airspeed: newer_of(older.true_airspeed, newer.true_airspeed),
        magnetic_heading: newer_of(older.magnetic_heading, newer.magnetic_heading),
        ias: newer_of(older.ias, newer.ias),
        mach: newer_of(older.mach, newer.mach),
        barometric_vertical_rate: newer_of(
            older.barometric_vertical_rate,
            newer.barometric_vertical_rate,
        ),
    }
}

/// A field of `mb` guarded by the status bit at `status`.
pub open spec fn guarded_value(mb: Seq<u8>, status: int, start: int, len: int) -> Option<u32> {
    if bit_at(mb, status) == 1 {
        Some(field_value(mb, start, len) as u32)
    } else {
        None
    }
}

/// A signed field of `mb` guarded by the status bit at `status`.
pub open spec fn guarded_signed(mb: Seq<u8>, status: int, start: int, len: int) -> Option<i32> {
    if bit_at(mb, status) == 1 {
        Some(signed_field_value(mb, start, len) as i32)
    } else {
        None
    }
}

/// What the 7-octet MB field `mb` of register `bds` reports.
pub open spec fn register_daps(bds: u8, mb: Seq<u8>) -> RawDaps {
    if bds == BDS_4_0 {
        RawDaps { selected_altitude: guarded_value(mb, 1, 2, 12), ..no_daps() }
    } else if bds == BDS_5_0 {
        RawDaps {
            roll_angle: guarded_signed(mb, 1, 2, 10),
            true_track: guarded_signed(mb, 12, 13, 11),
            ground_speed: guarded_value(mb, 24, 25, 10),
            true_airspeed: guarded_value(mb, 46, 47, 10),
            ..no_daps()
        }
    } else if bds == BDS_6_0 {
        RawDaps {
            magnetic_heading: guarded_signed(mb, 1, 2, 11),
            ias: guarded_value(mb, 13, 14, 10),
            mach: guarded_value(mb, 24, 25, 10),
            barometric_vertical_rate: guarded_signed(mb, 35, 36, 10),
            ..no_daps()
        }
    } else {
        no_daps()
    }
}

impl RawDaps {
    /// No parameter reported.
    pub fn empty() -> (r: Self)
        ensures
            r == no_daps(),
    {
        RawDaps {
            selected_altitude: None,
            roll_angle: None,
            true_track: None,
            ground_speed: None,
            true_airspeed: None,
            magnetic_heading: None,
            ias: None,
            mach: None,
            barometric_vertical_rate: None,
        }
    }

    /// True when no field carries a value.
    pub fn is_empty(&self) -> (r: bool)
        ensures
            r == (*self == no_daps()),
    {
        self.selected_altitude.is_none() && self.roll_angle.is_none()
            && self.true_track.is_none() && self.ground_speed.is_none()
            && self.true_airspeed.is_none() && self.magnetic_heading.is_none()
            && self.ias.is_none() && self.mach.is_none()
            && self.barometric_vertical_rate.is_none()
    }

    /// Per-field merge: every field `newer` carries overwrites this one's;
    /// fields `newer` lacks keep their previous value.
    pub fn merge_from(&mut self, newer: &RawDaps)
        ensures
            *final(self) == merged(*old(self), *newer),
    {
        self.selected_altitude = newer_value(self.selected_altitude, newer.selected_altitude);
        self.roll_angle = newer_value(self.roll_angle, newer.roll_angle);
        self.true_track = newer_value(self.true_track, newer.true_track);
        self.ground_speed = newer_value(self.ground_speed, newer.ground_speed);
        self.true_airspeed = newer_value(self.true_airspeed, newer.true_airspeed);
        self.magnetic_heading = newer_value(self.magnetic_heading, newer.magnetic_heading);
        self.ias = newer_value(self.ias, newer.ias);
        self.mach = newer_value(self.mach, newer.mach);
        self.barometric_vertical_rate = newer_value(
            self.barometric_vertical_rate,
            newer.barometric_vertical_rate,
        );
    }
}

/// Merging an empty set of parameters changes nothing, and merging into an
/// empty set gives the newer parameters.
pub proof fn lemma_merge_identity(d: RawDaps)
    ensures
        merged(d, no_daps()) == d,
        merged(no_daps(), d) == d,
{
}

/// Merging is idempotent, and a later merge of the same parameters leaves
/// the result unchanged.
pub proof fn lemma_merge_idempotent(d: RawDaps, e: RawDaps)
    ensures
        merged(d, d) == d,
        merged(merged(d, e), e) == merged(d, e),
{
}

fn guarded(mb: &[u8; 7], status: usize, start: usize, len: usize) -> (r: Option<u32>)
    requires
        1 <= status <= 56,
        1 <= start,
        1 <= len <= 32,
        start + len - 1 <= 56,
    ensures
        r == guarded_value(mb@, status as int, start as int, len as int),
{
    let s = mb.as_slice();
    assert(field_value(mb@, status as int, 1) == bit_at(mb@, status as int)) by {
        reveal_with_fuel(field_value, 2);
    }
    if bit_field(s, status, 1) == 1 {
        Some(bit_field(s, start, len))
    } else {
        None
    }
}

fn guarded_signed_field(mb: &[u8; 7], status: usize, start: usize, len: usize) -> (r: Option<
    i32,
>)
    requires
        1 <= status <= 56,
        1 <= start,
        1 <= len <= 31,
        start + len - 1 <= 56,
    ensures
        r == guarded_signed(mb@, status as int, start as int, len as int),
{
    let s = mb.as_slice();
    assert(field_value(mb@, status as int, 1) == bit_at(mb@, status as int)) by {
        reveal_with_fuel(field_value, 2);
    }
    if bit_field(s, status, 1) == 1 {
        Some(signed_bit_field(s, start, len))
    } else {
        None
    }
}

/// Decode one I048/250 repetition — a 7-octet MB field tagged with its BDS
/// register number. Registers other than 4,0 / 5,0 / 6,0 yield no
/// parameter.
pub fn decode_register(bds: u8, mb: &[u8; 7]) -> (r: RawDaps)
    ensures
        r == register_daps(bds, mb@),
{
    let mut d = RawDaps::empty();
    if bds == BDS_4_0 {
        d.selected_altitude = guarded(mb, 1, 2, 12);
    } else if bds == BDS_5_0 {
        d.roll_angle = guarded_signed_field(mb, 1, 2, 10);
        d.true_track = guarded_signed_field(mb, 12, 13, 11);
        d.ground_speed = guarded(mb, 24, 25, 10);
        d.true_airspeed = guarded(mb, 46, 47, 10);
    } else if bds == BDS_6_0 {
        d.magnetic_heading = guarded_signed_field(mb, 1, 2, 11);
        d.ias = guarded(mb, 13, 14, 10);
        d.mach = guarded(mb, 24, 25, 10);
        d.barometric_vertical_rate = guarded_signed_field(mb, 35, 36, 10);
    }
    d
}

/// Each bit of an octet, read by shifting, is the matching binary digit,
/// and the octet and its high and low parts are sums of those digits.
proof fn lemma_octet_bits(x: u8)
    ensures
        (x >> 0u8) & 1u8 == (x % 2),
        (x >> 1u8) & 1u8 == ((x / 2) % 2),
        (x >> 2u8) & 1u8 == ((x / 4) % 2),
        (x >> 3u8) & 1u8 == ((x / 8) % 2),
        (x >> 4u8) & 1u8 == ((x / 16) % 2),
        (x >> 5u8) & 1u8 == ((x / 32) % 2),
        (x >> 6u8) & 1u8 == ((x / 64) % 2),
        (x >> 7u8) & 1u8 == (x / 128),
        x == 1 * (x % 2) + 2 * ((x / 2) % 2) + 4 * ((x / 4) % 2) + 8 * ((x / 8) % 2) + 16 * ((x / 16) % 2) + 32 * ((x / 32) % 2) + 64 * ((x / 64) % 2) + 128 * (x / 128),
        x % 4 == 1 * (x % 2) + 2 * ((x / 2) % 2),
        x % 8 == 1 * (x % 2) + 2 * ((x / 2) % 2) + 4 * ((x / 4) % 2),
        x % 16 == 1 * (x % 2) + 2 * ((x / 2) % 2) + 4 * ((x / 4) % 2) + 8 * ((x / 8) % 2),
        x % 32 == 1 * (x % 2) + 2 * ((x / 2) % 2) + 4 * ((x / 4) % 2) + 8 * ((x / 8) % 2) + 16 * ((x / 16) % 2),
        x % 64 == 1 * (x % 2) + 2 * ((x / 2) % 2) + 4 * ((x / 4) % 2) + 8 * ((x / 8) % 2) + 16 * ((x / 16) % 2) + 32 * ((x / 32) % 2),
        x % 128 == 1 * (x % 2) + 2 * ((x / 2) % 2) + 4 * ((x / 4) % 2) + 8 * ((x / 8) % 2) + 16 * ((x / 16) % 2) + 32 * ((x / 32) % 2) + 64 * ((x / 64) % 2),
        x / 2 == 1 * ((x / 2) % 2) + 2 * ((x / 4) % 2) + 4 * ((x / 8) % 2) + 8 * ((x / 16) % 2) + 16 * ((x / 32) % 2) + 32 * ((x / 64) % 2) + 64 * (x / 128),
        x / 4 == 1 * ((x / 4) % 2) + 2 * ((x / 8) % 2) + 4 * ((x / 16) % 2) + 8 * ((x / 32) % 2) + 16 * ((x / 64) % 2) + 32 * (x / 128),
        x / 8 == 1 * ((x / 8) % 2) + 2 * ((x / 16) % 2) + 4 * ((x / 32) % 2) + 8 * ((x / 64) % 2) + 16 * (x / 128),
        x / 16 == 1 * ((x / 16) % 2) + 2 * ((x / 32) % 2) + 4 * ((x / 64) % 2) + 8 * (x / 128),
        x / 32 == 1 * ((x / 32) % 2) + 2 * ((x / 64) % 2) + 4 * (x / 128),
        x / 64 == 1 * ((x / 64) % 2) + 2 * (x / 128),
{
    assert({
        &&& (x >> 0u8) & 1u8 == (x % 2)
        &&& (x >> 1u8) & 1u8 == ((x / 2) % 2)
        &&& (x >> 2u8) & 1u8 == ((x / 4) % 2)
        &&& (x >> 3u8) & 1u8 == ((x / 8) % 2)
        &&& (x >> 4u8) & 1u8 == ((x / 16) % 2)
        &&& (x >> 5u8) & 1u8 == ((x / 32) % 2)
        &&& (x >> 6u8) & 1u8 == ((x / 64) % 2)
        &&& (x >> 7u8) & 1u8 == (x / 128)
        &&& x == 1 * (x % 2) + 2 * ((x / 2) % 2) + 4 * ((x / 4) % 2) + 8 * ((x / 8) % 2) + 16 * ((x / 16) % 2) + 32 * ((x / 32) % 2) + 64 * ((x / 64) % 2) + 128 * (x / 128)
        &&& x % 4 == 1 * (x % 2) + 2 * ((x / 2) % 2)
        &&& x % 8 == 1 * (x % 2) + 2 * ((x / 2) % 2) + 4 * ((x / 4) % 2)
        &&& x % 16 == 1 * (x % 2) + 2 * ((x / 2) % 2) + 4 * ((x / 4) % 2) + 8 * ((x / 8) % 2)
        &&& x % 32 == 1 * (x % 2) + 2 * ((x / 2) % 2) + 4 * ((x / 4) % 2) + 8 * ((x / 8) % 2) + 16 * ((x / 16) % 2)
        &&& x % 64 == 1 * (x % 2) + 2 * ((x / 2) % 2) + 4 * ((x / 4) % 2) + 8 * ((x / 8) % 2) + 16 * ((x / 16) % 2) + 32 * ((x / 32) % 2)
        &&& x % 128 == 1 * (x % 2) + 2 * ((x / 2) % 2) + 4 * ((x / 4) % 2) + 8 * ((x / 8) % 2) + 16 * ((x / 16) % 2) + 32 * ((x / 32) % 2) + 64 * ((x / 64) % 2)
        &&& x / 2 == 1 * ((x / 2) % 2) + 2 * ((x / 4) % 2) + 4 * ((x / 8) % 2) + 8 * ((x / 16) % 2) + 16 * ((x / 32) % 2) + 32 * ((x / 64) % 2) + 64 * (x / 128)
        &&& x / 4 == 1 * ((x / 4) % 2) + 2 * ((x / 8) % 2) + 4 * ((x / 16) % 2) + 8 * ((x / 32) % 2) + 16 * ((x / 64) % 2) + 32 * (x / 128)
        &&& x / 8 == 1 * ((x / 8) % 2) + 2 * ((x / 16) % 2) + 4 * ((x / 32) % 2) + 8 * ((x / 64) % 2) + 16 * (x / 128)
        &&& x / 16 == 1 * ((x / 16) % 2) + 2 * ((x / 32) % 2) + 4 * ((x / 64) % 2) + 8 * (x / 128)
        &&& x / 32 == 1 * ((x / 32) % 2) + 2 * ((x / 64) % 2) + 4 * (x / 128)
        &&& x / 64 == 1 * ((x / 64) % 2) + 2 * (x / 128)
    }) by (bit_vector);
}

/// BDS 4,0 (selected vertical intention): MB bit 1 is the status and bits 2
/// to 13 the MCP/FCU selected altitude in 16 ft steps: the low seven bits
/// of the first octet, then the high five bits of the second.
pub proof fn lemma_bds40_selected_altitude(mb: Seq<u8>)
    requires
        mb.len() == 7,
    ensures
        register_daps(BDS_4_0, mb).selected_altitude == (if (mb[0] / 128) == 1 {
            Some(((mb[0] % 128) * 32 + mb[1] / 8) as u32)
        } else {
            None
        }),
{
    lemma_octet_bits(mb[0]);
    lemma_octet_bits(mb[1]);
    assert(bit_at(mb, 1) == (mb[0] / 128));
    assert(bit_at(mb, 2) == ((mb[0] / 64) % 2));
    assert(bit_at(mb, 3) == ((mb[0] / 32) % 2));
    assert(bit_at(mb, 4) == ((mb[0] / 16) % 2));
    assert(bit_at(mb, 5) == ((mb[0] / 8) % 2));
    assert(bit_at(mb, 6) == ((mb[0] / 4) % 2));
    assert(bit_at(mb, 7) == ((mb[0] / 2) % 2));
    assert(bit_at(mb, 8) == (mb[0] % 2));
    assert(bit_at(mb, 9) == (mb[1] / 128));
    assert(bit_at(mb, 10) == ((mb[1] / 64) % 2));
    assert(bit_at(mb, 11) == ((mb[1] / 32) % 2));
    assert(bit_at(mb, 12) == ((mb[1] / 16) % 2));
    assert(bit_at(mb, 13) == ((mb[1] / 8) % 2));
    assert(field_value(mb, 2, 1) == 2 * field_value(mb, 2, 0) + bit_at(
        mb,
        2,
    ));
    assert(field_value(mb, 2, 2) == 2 * field_value(mb, 2, 1) + bit_at(
        mb,
        3,
    ));
    assert(field_value(mb, 2, 3) == 2 * field_value(mb, 2, 2) + bit_at(
        mb,
        4,
    ));
    assert(field_value(mb, 2, 4) == 2 * field_value(mb, 2, 3) + bit_at(
        mb,
        5,
    ));
    assert(field_value(mb, 2, 5) == 2 * field_value(mb, 2, 4) + bit_at(
        mb,
        6,
    ));
    assert(field_value(mb, 2, 6) == 2 * field_value(mb, 2, 5) + bit_at(
        mb,
        7,
    ));
    assert(field_value(mb, 2, 7) == 2 * field_value(mb, 2, 6) + bit_at(
        mb,
        8,
    ));
    assert(field_value(mb, 2, 8) == 2 * field_value(mb, 2, 7) + bit_at(
        mb,
        9,
    ));
    assert(field_value(mb, 2, 9) == 2 * field_value(mb, 2, 8) + bit_at(
        mb,
        10,
    ));
    assert(field_value(mb, 2, 10) == 2 * field_value(mb, 2, 9) + bit_at(
        mb,
        11,
    ));
    assert(field_value(mb, 2, 11) == 2 * field_value(mb, 2, 10) + bit_at(
        mb,
        12,
    ));
    assert(field_value(mb, 2, 12) == 2 * field_value(mb, 2, 11) + bit_at(
        mb,
        13,
    ));
    assert(field_value(mb, 2, 12) == (mb[0] % 128) * 32 + mb[1] / 8);
}

/// BDS 5,0 (track and turn report): MB bit 1 is the roll status and bits 2
/// to 11 the roll angle, two's complement: the low seven bits of the first
/// octet, then the high three bits of the second.
pub proof fn lemma_bds50_roll_angle(mb: Seq<u8>)
    requires
        mb.len() == 7,
    ensures
        register_daps(BDS_5_0, mb).roll_angle == (if (mb[0] / 128) == 1 {
            Some((if (mb[0] % 128) * 8 + mb[1] / 32 >= 512 {
                (mb[0] % 128) * 8 + mb[1] / 32 - 1024
            } else {
                (mb[0] % 128) * 8 + mb[1] / 32
            }) as i32)
        } else {
            None
        }),
{
    lemma_octet_bits(mb[0]);
    lemma_octet_bits(mb[1]);
    assert(bit_at(mb, 1) == (mb[0] / 128));
    assert(bit_at(mb, 2) == ((mb[0] / 64) % 2));
    assert(bit_at(mb, 3) == ((mb[0] / 32) % 2));
    assert(bit_at(mb, 4) == ((mb[0] / 16) % 2));
    assert(bit_at(mb, 5) == ((mb[0] / 8) % 2));
    assert(bit_at(mb, 6) == ((mb[0] / 4) % 2));
    assert(bit_at(mb, 7) == ((mb[0] / 2) % 2));
    assert(bit_at(mb, 8) == (mb[0] % 2));
    assert(bit_at(mb, 9) == (mb[1] / 128));
    assert(bit_at(mb, 10) == ((mb[1] / 64) % 2));
    assert(bit_at(mb, 11) == ((mb[1] / 32) % 2));
    assert(field_value(mb, 2, 1) == 2 * field_value(mb, 2, 0) + bit_at(
        mb,
        2,
    ));
    assert(field_value(mb, 2, 2) == 2 * field_value(mb, 2, 1) + bit_at(
        mb,
        3,
    ));
    assert(field_value(mb, 2, 3) == 2 * field_value(mb, 2, 2) + bit_at(
        mb,
        4,
    ));
    assert(field_value(mb, 2, 4) == 2 * field_value(mb, 2, 3) + bit_at(
        mb,
        5,
    ));
    assert(field_value(mb, 2, 5) == 2 * field_value(mb, 2, 4) + bit_at(
        mb,
        6,
    ));
    assert(field_value(mb, 2, 6) == 2 * field_value(mb, 2, 5) + bit_at(
        mb,
        7,
    ));
    assert(field_value(mb, 2, 7) == 2 * field_value(mb, 2, 6) + bit_at(
        mb,
        8,
    ));
    assert(field_value(mb, 2, 8) == 2 * field_value(mb, 2, 7) + bit_at(
        mb,
        9,
    ));
    assert(field_value(mb, 2, 9) == 2 * field_value(mb, 2, 8) + bit_at(
        mb,
        10,
    ));
    assert(field_value(mb, 2, 10) == 2 * field_value(mb, 2, 9) + bit_at(
        mb,
        11,
    ));
    assert(field_value(mb, 2, 10) == (mb[0] % 128) * 8 + mb[1] / 32);
    lemma_p2_values();
}

/// BDS 5,0: MB bit 12 is the track status and bits 13 to 23 the true track
/// angle, two's complement: the low four bits of the second octet, then the
/// high seven bits of the third.
pub proof fn lemma_bds50_true_track(mb: Seq<u8>)
    requires
        mb.len() == 7,
    ensures
        register_daps(BDS_5_0, mb).true_track == (if ((mb[1] / 16) % 2) == 1 {
            Some((if (mb[1] % 16) * 128 + mb[2] / 2 >= 1024 {
                (mb[1] % 16) * 128 + mb[2] / 2 - 2048
            } else {
                (mb[1] % 16) * 128 + mb[2] / 2
            }) as i32)
        } else {
            None
        }),
{
    lemma_octet_bits(mb[1]);
    lemma_octet_bits(mb[2]);
    assert(bit_at(mb, 12) == ((mb[1] / 16) % 2));
    assert(bit_at(mb, 13) == ((mb[1] / 8) % 2));
    assert(bit_at(mb, 14) == ((mb[1] / 4) % 2));
    assert(bit_at(mb, 15) == ((mb[1] / 2) % 2));
    assert(bit_at(mb, 16) == (mb[1] % 2));
    assert(bit_at(mb, 17) == (mb[2] / 128));
    assert(bit_at(mb, 18) == ((mb[2] / 64) % 2));
    assert(bit_at(mb, 19) == ((mb[2] / 32) % 2));
    assert(bit_at(mb, 20) == ((mb[2] / 16) % 2));
    assert(bit_at(mb, 21) == ((mb[2] / 8) % 2));
    assert(bit_at(mb, 22) == ((mb[2] / 4) % 2));
    assert(bit_at(mb, 23) == ((mb[2] / 2) % 2));
    assert(field_value(mb, 13, 1) == 2 * field_value(mb, 13, 0) + bit_at(
        mb,
        13,
    ));
    assert(field_value(mb, 13, 2) == 2 * field_value(mb, 13, 1) + bit_at(
        mb,
        14,
    ));
    assert(field_value(mb, 13, 3) == 2 * field_value(mb, 13, 2) + bit_at(
        mb,
        15,
    ));
    assert(field_value(mb, 13, 4) == 2 * field_value(mb, 13, 3) + bit_at(
        mb,
        16,
    ));
    assert(field_value(mb, 13, 5) == 2 * field_value(mb, 13, 4) + bit_at(
        mb,
        17,
    ));
    assert(field_value(mb, 13, 6) == 2 * field_value(mb, 13, 5) + bit_at(
        mb,
        18,
    ));
    assert(field_value(mb, 13, 7) == 2 * field_value(mb, 13, 6) + bit_at(
        mb,
        19,
    ));
    assert(field_value(mb, 13, 8) == 2 * field_value(mb, 13, 7) + bit_at(
        mb,
        20,
    ));
    assert(field_value(mb, 13, 9) == 2 * field_value(mb, 13, 8) + bit_at(
        mb,
        21,
    ));
    assert(field_value(mb, 13, 10) == 2 * field_value(mb, 13, 9) + bit_at(
        mb,
        22,
    ));
    assert(field_value(mb, 13, 11) == 2 * field_value(mb, 13, 10) + bit_at(
        mb,
        23,
    ));
    assert(field_value(mb, 13, 11) == (mb[1] % 16) * 128 + mb[2] / 2);
    lemma_p2_values();
}

/// BDS 5,0: MB bit 24 is the ground-speed status and bits 25 to 34 the
/// ground speed in 2 kt steps: the fourth octet, then the high two bits of
/// the fifth.
pub proof fn lemma_bds50_ground_speed(mb: Seq<u8>)
    requires
        mb.len() == 7,
    ensures
        register_daps(BDS_5_0, mb).ground_speed == (if (mb[2] % 2) == 1 {
            Some((mb[3] * 4 + mb[4] / 64) as u32)
        } else {
            None
        }),
{
    lemma_octet_bits(mb[2]);
    lemma_octet_bits(mb[3]);
    lemma_octet_bits(mb[4]);
    assert(bit_at(mb, 24) == (mb[2] % 2));
    assert(bit_at(mb, 25) == (mb[3] / 128));
    assert(bit_at(mb, 26) == ((mb[3] / 64) % 2));
    assert(bit_at(mb, 27) == ((mb[3] / 32) % 2));
    assert(bit_at(mb, 28) == ((mb[3] / 16) % 2));
    assert(bit_at(mb, 29) == ((mb[3] / 8) % 2));
    assert(bit_at(mb, 30) == ((mb[3] / 4) % 2));
    assert(bit_at(mb, 31) == ((mb[3] / 2) % 2));
    assert(bit_at(mb, 32) == (mb[3] % 2));
    assert(bit_at(mb, 33) == (mb[4] / 128));
    assert(bit_at(mb, 34) == ((mb[4] / 64) % 2));
    assert(field_value(mb, 25, 1) == 2 * field_value(mb, 25, 0) + bit_at(
        mb,
        25,
    ));
    assert(field_value(mb, 25, 2) == 2 * field_value(mb, 25, 1) + bit_at(
        mb,
        26,
    ));
    assert(field_value(mb, 25, 3) == 2 * field_value(mb, 25, 2) + bit_at(
        mb,
        27,
    ));
    assert(field_value(mb, 25, 4) == 2 * field_value(mb, 25, 3) + bit_at(
        mb,
        28,
    ));
    assert(field_value(mb, 25, 5) == 2 * field_value(mb, 25, 4) + bit_at(
        mb,
        29,
    ));
    assert(field_value(mb, 25, 6) == 2 * field_value(mb, 25, 5) + bit_at(
        mb,
        30,
    ));
    assert(field_value(mb, 25, 7) == 2 * field_value(mb, 25, 6) + bit_at(
        mb,
        31,
    ));
    assert(field_value(mb, 25, 8) == 2 * field_value(mb, 25, 7) + bit_at(
        mb,
        32,
    ));
    assert(field_value(mb, 25, 9) == 2 * field_value(mb, 25, 8) + bit_at(
        mb,
        33,
    ));
    assert(field_value(mb, 25, 10) == 2 * field_value(mb, 25, 9) + bit_at(
        mb,
        34,
    ));
    assert(field_value(mb, 25, 10) == mb[3] * 4 + mb[4] / 64);
}

/// BDS 5,0: MB bit 46 is the true-airspeed status and bits 47 to 56 the
/// true airspeed in 2 kt steps: the low two bits of the sixth octet, then
/// the seventh.
pub proof fn lemma_bds50_true_airspeed(mb: Seq<u8>)
    requires
        mb.len() == 7,
    ensures
        register_daps(BDS_5_0, mb).true_airspeed == (if ((mb[5] / 4) % 2) == 1 {
            Some(((mb[5] % 4) * 256 + mb[6]) as u32)
        } else {
            None
        }),
{
    lemma_octet_bits(mb[5]);
    lemma_octet_bits(mb[6]);
    assert(bit_at(mb, 46) == ((mb[5] / 4) % 2));
    assert(bit_at(mb, 47) == ((mb[5] / 2) % 2));
    assert(bit_at(mb, 48) == (mb[5] % 2));
    assert(bit_at(mb, 49) == (mb[6] / 128));
    assert(bit_at(mb, 50) == ((mb[6] / 64) % 2));
    assert(bit_at(mb, 51) == ((mb[6] / 32) % 2));
    assert(bit_at(mb, 52) == ((mb[6] / 16) % 2));
    assert(bit_at(mb, 53) == ((mb[6] / 8) % 2));
    assert(bit_at(mb, 54) == ((mb[6] / 4) % 2));
    assert(bit_at(mb, 55) == ((mb[6] / 2) % 2));
    assert(bit_at(mb, 56) == (mb[6] % 2));
    assert(field_value(mb, 47, 1) == 2 * field_value(mb, 47, 0) + bit_at(
        mb,
        47,
    ));
    assert(field_value(mb, 47, 2) == 2 * field_value(mb, 47, 1) + bit_at(
        mb,
        48,
    ));
    assert(field_value(mb, 47, 3) == 2 * field_value(mb, 47, 2) + bit_at(
        mb,
        49,
    ));
    assert(field_value(mb, 47, 4) == 2 * field_value(mb, 47, 3) + bit_at(
        mb,
        50,
    ));
    assert(field_value(mb, 47, 5) == 2 * field_value(mb, 47, 4) + bit_at(
        mb,
        51,
    ));
    assert(field_value(mb, 47, 6) == 2 * field_value(mb, 47, 5) + bit_at(
        mb,
        52,
    ));
    assert(field_value(mb, 47, 7) == 2 * field_value(mb, 47, 6) + bit_at(
        mb,
        53,
    ));
    assert(field_value(mb, 47, 8) == 2 * field_value(mb, 47, 7) + bit_at(
        mb,
        54,
    ));
    assert(field_value(mb, 47, 9) == 2 * field_value(mb, 47, 8) + bit_at(
        mb,
        55,
    ));
    assert(field_value(mb, 47, 10) == 2 * field_value(mb, 47, 9) + bit_at(
        mb,
        56,
    ));
    assert(field_value(mb, 47, 10) == (mb[5] % 4) * 256 + mb[6]);
}

/// BDS 6,0 (heading and speed report): MB bit 1 is the heading status and
/// bits 2 to 12 the magnetic heading, two's complement: the low seven bits
/// of the first octet, then the high four bits of the second.
pub proof fn lemma_bds60_magnetic_heading(mb: Seq<u8>)
    requires
        mb.len() == 7,
    ensures
        register_daps(BDS_6_0, mb).magnetic_heading == (if (mb[0] / 128) == 1 {
            Some((if (mb[0] % 128) * 16 + mb[1] / 16 >= 1024 {
                (mb[0] % 128) * 16 + mb[1] / 16 - 2048
            } else {
                (mb[0] % 128) * 16 + mb[1] / 16
            }) as i32)
        } else {
            None
        }),
{
    lemma_octet_bits(mb[0]);
    lemma_octet_bits(mb[1]);
    assert(bit_at(mb, 1) == (mb[0] / 128));
    assert(bit_at(mb, 2) == ((mb[0] / 64) % 2));
    assert(bit_at(mb, 3) == ((mb[0] / 32) % 2));
    assert(bit_at(mb, 4) == ((mb[0] / 16) % 2));
    assert(bit_at(mb, 5) == ((mb[0] / 8) % 2));
    assert(bit_at(mb, 6) == ((mb[0] / 4) % 2));
    assert(bit_at(mb, 7) == ((mb[0] / 2) % 2));
    assert(bit_at(mb, 8) == (mb[0] % 2));
    assert(bit_at(mb, 9) == (mb[1] / 128));
    assert(bit_at(mb, 10) == ((mb[1] / 64) % 2));
    assert(bit_at(mb, 11) == ((mb[1] / 32) % 2));
    assert(bit_at(mb, 12) == ((mb[1] / 16) % 2));
    assert(field_value(mb, 2, 1) == 2 * field_value(mb, 2, 0) + bit_at(
        mb,
        2,
    ));
    assert(field_value(mb, 2, 2) == 2 * field_value(mb, 2, 1) + bit_at(
        mb,
        3,
    ));
    assert(field_value(mb, 2, 3) == 2 * field_value(mb, 2, 2) + bit_at(
        mb,
        4,
    ));
    assert(field_value(mb, 2, 4) == 2 * field_value(mb, 2, 3) + bit_at(
        mb,
        5,
    ));
    assert(field_value(mb, 2, 5) == 2 * field_value(mb, 2, 4) + bit_at(
        mb,
        6,
    ));
    assert(field_value(mb, 2, 6) == 2 * field_value(mb, 2, 5) + bit_at(
        mb,
        7,
    ));
    assert(field_value(mb, 2, 7) == 2 * field_value(mb, 2, 6) + bit_at(
        mb,
        8,
    ));
    assert(field_value(mb, 2, 8) == 2 * field_value(mb, 2, 7) + bit_at(
        mb,
        9,
    ));
    assert(field_value(mb, 2, 9) == 2 * field_value(mb, 2, 8) + bit_at(
        mb,
        10,
    ));
    assert(field_value(mb, 2, 10) == 2 * field_value(mb, 2, 9) + bit_at(
        mb,
        11,
    ));
    assert(field_value(mb, 2, 11) == 2 * field_value(mb, 2, 10) + bit_at(
        mb,
        12,
    ));
    assert(field_value(mb, 2, 11) == (mb[0] % 128) * 16 + mb[1] / 16);
    lemma_p2_values();
}

/// BDS 6,0: MB bit 13 is the IAS status and bits 14 to 23 the indicated
/// airspeed in knots: the low three bits of the second octet, then the high
/// seven bits of the third.
pub proof fn lemma_bds60_ias(mb: Seq<u8>)
    requires
        mb.len() == 7,
    ensures
        register_daps(BDS_6_0, mb).ias == (if ((mb[1] / 8) % 2) == 1 {
            Some(((mb[1] % 8) * 128 + mb[2] / 2) as u32)
        } else {
            None
        }),
{
    lemma_octet_bits(mb[1]);
    lemma_octet_bits(mb[2]);
    assert(bit_at(mb, 13) == ((mb[1] / 8) % 2));
    assert(bit_at(mb, 14) == ((mb[1] / 4) % 2));
    assert(bit_at(mb, 15) == ((mb[1] / 2) % 2));
    assert(bit_at(mb, 16) == (mb[1] % 2));
    assert(bit_at(mb, 17) == (mb[2] / 128));
    assert(bit_at(mb, 18) == ((mb[2] / 64) % 2));
    assert(bit_at(mb, 19) == ((mb[2] / 32) % 2));
    assert(bit_at(mb, 20) == ((mb[2] / 16) % 2));
    assert(bit_at(mb, 21) == ((mb[2] / 8) % 2));
    assert(bit_at(mb, 22) == ((mb[2] / 4) % 2));
    assert(bit_at(mb, 23) == ((mb[2] / 2) % 2));
    assert(field_value(mb, 14, 1) == 2 * field_value(mb, 14, 0) + bit_at(
        mb,
        14,
    ));
    assert(field_value(mb, 14, 2) == 2 * field_value(mb, 14, 1) + bit_at(
        mb,
        15,
    ));
    assert(field_value(mb, 14, 3) == 2 * field_value(mb, 14, 2) + bit_at(
        mb,
        16,
    ));
    assert(field_value(mb, 14, 4) == 2 * field_value(mb, 14, 3) + bit_at(
        mb,
        17,
    ));
    assert(field_value(mb, 14, 5) == 2 * field_value(mb, 14, 4) + bit_at(
        mb,
        18,
    ));
    assert(field_value(mb, 14, 6) == 2 * field_value(mb, 14, 5) + bit_at(
        mb,
        19,
    ));
    assert(field_value(mb, 14, 7) == 2 * field_value(mb, 14, 6) + bit_at(
        mb,
        20,
    ));
    assert(field_value(mb, 14, 8) == 2 * field_value(mb, 14, 7) + bit_at(
        mb,
        21,
    ));
    assert(field_value(mb, 14, 9) == 2 * field_value(mb, 14, 8) + bit_at(
        mb,
        22,
    ));
    assert(field_value(mb, 14, 10) == 2 * field_value(mb, 14, 9) + bit_at(
        mb,
        23,
    ));
    assert(field_value(mb, 14, 10) == (mb[1] % 8) * 128 + mb[2] / 2);
}

/// BDS 6,0: MB bit 24 is the Mach status and bits 25 to 34 the Mach number
/// in steps of 0.004: the fourth octet, then the high two bits of the fifth.
pub proof fn lemma_bds60_mach(mb: Seq<u8>)
    requires
        mb.len() == 7,
    ensures
        register_daps(BDS_6_0, mb).mach == (if (mb[2] % 2) == 1 {
            Some((mb[3] * 4 + mb[4] / 64) as u32)
        } else {
            None
        }),
{
    lemma_octet_bits(mb[2]);
    lemma_octet_bits(mb[3]);
    lemma_octet_bits(mb[4]);
    assert(bit_at(mb, 24) == (mb[2] % 2));
    assert(bit_at(mb, 25) == (mb[3] / 128));
    assert(bit_at(mb, 26) == ((mb[3] / 64) % 2));
    assert(bit_at(mb, 27) == ((mb[3] / 32) % 2));
    assert(bit_at(mb, 28) == ((mb[3] / 16) % 2));
    assert(bit_at(mb, 29) == ((mb[3] / 8) % 2));
    assert(bit_at(mb, 30) == ((mb[3] / 4) % 2));
    assert(bit_at(mb, 31) == ((mb[3] / 2) % 2));
    assert(bit_at(mb, 32) == (mb[3] % 2));
    assert(bit_at(mb, 33) == (mb[4] / 128));
    assert(bit_at(mb, 34) == ((mb[4] / 64) % 2));
    assert(field_value(mb, 25, 1) == 2 * field_value(mb, 25, 0) + bit_at(
        mb,
        25,
    ));
    assert(field_value(mb, 25, 2) == 2 * field_value(mb, 25, 1) + bit_at(
        mb,
        26,
    ));
    assert(field_value(mb, 25, 3) == 2 * field_value(mb, 25, 2) + bit_at(
        mb,
        27,
    ));
    assert(field_value(mb, 25, 4) == 2 * field_value(mb, 25, 3) + bit_at(
        mb,
        28,
    ));
    assert(field_value(mb, 25, 5) == 2 * field_value(mb, 25, 4) + bit_at(
        mb,
        29,
    ));
    assert(field_value(mb, 25, 6) == 2 * field_value(mb, 25, 5) + bit_at(
        mb,
        30,
    ));
    assert(field_value(mb, 25, 7) == 2 * field_value(mb, 25, 6) + bit_at(
        mb,
        31,
    ));
    assert(field_value(mb, 25, 8) == 2 * field_value(mb, 25, 7) + bit_at(
        mb,
        32,
    ));
    assert(field_value(mb, 25, 9) == 2 * field_value(mb, 25, 8) + bit_at(
        mb,
        33,
    ));
    assert(field_value(mb, 25, 10) == 2 * field_value(mb, 25, 9) + bit_at(
        mb,
        34,
    ));
    assert(field_value(mb, 25, 10) == mb[3] * 4 + mb[4] / 64);
}

/// BDS 6,0: MB bit 35 is the barometric vertical-rate status and bits 36 to
/// 45 the rate in 32 ft/min steps, two's complement: the low five bits of
/// the fifth octet, then the high five bits of the sixth.
pub proof fn lemma_bds60_vertical_rate(mb: Seq<u8>)
    requires
        mb.len() == 7,
    ensures
        register_daps(BDS_6_0, mb).barometric_vertical_rate == (if ((mb[4] / 32) % 2) == 1 {
            Some((if (mb[4] % 32) * 32 + mb[5] / 8 >= 512 {
                (mb[4] % 32) * 32 + mb[5] / 8 - 1024
            } else {
                (mb[4] % 32) * 32 + mb[5] / 8
            }) as i32)
        } else {
            None
        }),
{
    lemma_octet_bits(mb[4]);
    lemma_octet_bits(mb[5]);
    assert(bit_at(mb, 35) == ((mb[4] / 32) % 2));
    assert(bit_at(mb, 36) == ((mb[4] / 16) % 2));
    assert(bit_at(mb, 37) == ((mb[4] / 8) % 2));
    assert(bit_at(mb, 38) == ((mb[4] / 4) % 2));
    assert(bit_at(mb, 39) == ((mb[4] / 2) % 2));
    assert(bit_at(mb, 40) == (mb[4] % 2));
    assert(bit_at(mb, 41) == (mb[5] / 128));
    assert(bit_at(mb, 42) == ((mb[5] / 64) % 2));
    assert(bit_at(mb, 43) == ((mb[5] / 32) % 2));
    assert(bit_at(mb, 44) == ((mb[5] / 16) % 2));
    assert(bit_at(mb, 45) == ((mb[5] / 8) % 2));
    assert(field_value(mb, 36, 1) == 2 * field_value(mb, 36, 0) + bit_at(
        mb,
        36,
    ));
    assert(field_value(mb, 36, 2) == 2 * field_value(mb, 36, 1) + bit_at(
        mb,
        37,
    ));
    assert(field_value(mb, 36, 3) == 2 * field_value(mb, 36, 2) + bit_at(
        mb,
        38,
    ));
    assert(field_value(mb, 36, 4) == 2 * field_value(mb, 36, 3) + bit_at(
        mb,
        39,
    ));
    assert(field_value(mb, 36, 5) == 2 * field_value(mb, 36, 4) + bit_at(
        mb,
        40,
    ));
    assert(field_value(mb, 36, 6) == 2 * field_value(mb, 36, 5) + bit_at(
        mb,
        41,
    ));
    assert(field_value(mb, 36, 7) == 2 * field_value(mb, 36, 6) + bit_at(
        mb,
        42,
    ));
    assert(field_value(mb, 36, 8) == 2 * field_value(mb, 36, 7) + bit_at(
        mb,
        43,
    ));
    assert(field_value(mb, 36, 9) == 2 * field_value(mb, 36, 8) + bit_at(
        mb,
        44,
    ));
    assert(field_value(mb, 36, 10) == 2 * field_value(mb, 36, 9) + bit_at(
        mb,
        45,
    ));
    assert(field_value(mb, 36, 10) == (mb[4] % 32) * 32 + mb[5] / 8);
    lemma_p2_values();
}

} // verus!

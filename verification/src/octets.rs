//! Small byte-level helpers shared by the ASTERIX categories: appending,
//! big-endian integers and the category block envelope.

use vstd::prelude::*;

verus! {

/// A count `v` below `2 * half` read as two's complement: counts from `half`
/// up stand for the negative numbers.
pub open spec fn as_signed(v: int, half: int) -> int {
    if v >= half {
        v - 2 * half
    } else {
        v
    }
}

/// Append all of `more` to `out`.
pub fn append_bytes(out: &mut Vec<u8>, more: &[u8])
    ensures
        final(out)@ == old(out)@ + more@,
{
    let mut i: usize = 0;
    while i < more.len()
        invariant
            i <= more.len(),
            out@ == old(out)@ + more@.subrange(0, i as int),
        decreases more.len() - i,
    {
        out.push(more[i]);
        i = i + 1;
        assert(out@ =~= old(out)@ + more@.subrange(0, i as int));
    }
    assert(more@.subrange(0, more.len() as int) =~= more@);
}

/// Two octets read as a big-endian unsigned number.
pub open spec fn be16(hi: u8, lo: u8) -> int {
    hi as int * 256 + lo as int
}

/// Three octets read as a big-endian unsigned number.
pub open spec fn be24(b0: u8, b1: u8, b2: u8) -> int {
    b0 as int * 65536 + b1 as int * 256 + b2 as int
}

/// Four octets read as a big-endian unsigned number.
pub open spec fn be32(b0: u8, b1: u8, b2: u8, b3: u8) -> int {
    b0 as int * 16777216 + b1 as int * 65536 + b2 as int * 256 + b3 as int
}

/// The two big-endian octets of a 16-bit value.
pub open spec fn u16_octets(v: int) -> Seq<u8> {
    seq![(v / 256) as u8, (v % 256) as u8]
}

/// The three big-endian octets of a 24-bit value.
pub open spec fn u24_octets(v: int) -> Seq<u8> {
    seq![(v / 65536) as u8, ((v / 256) % 256) as u8, (v % 256) as u8]
}

/// The four big-endian octets of a 32-bit value.
pub open spec fn u32_octets(v: int) -> Seq<u8> {
    seq![(v / 16777216) as u8, ((v / 65536) % 256) as u8, ((v / 256) % 256) as u8, (v % 256) as u8]
}

/// Big-endian octets of a 16-bit value.
pub fn push_u16(out: &mut Vec<u8>, v: u16)
    ensures
        final(out)@ == old(out)@ + u16_octets(v as int),
{
    out.push((v / 256) as u8);
    out.push((v % 256) as u8);
    assert(final(out)@ =~= old(out)@ + u16_octets(v as int));
}

/// Big-endian octets of a 24-bit value.
pub fn push_u24(out: &mut Vec<u8>, v: u32)
    requires
        v < 0x100_0000,
    ensures
        final(out)@ == old(out)@ + u24_octets(v as int),
{
    out.push((v / 65536) as u8);
    out.push(((v / 256) % 256) as u8);
    out.push((v % 256) as u8);
    assert(final(out)@ =~= old(out)@ + u24_octets(v as int));
}

/// Big-endian octets of a 32-bit value.
pub fn push_u32(out: &mut Vec<u8>, v: u32)
    ensures
        final(out)@ == old(out)@ + u32_octets(v as int),
{
    out.push((v / 16777216) as u8);
    out.push(((v / 65536) % 256) as u8);
    out.push(((v / 256) % 256) as u8);
    out.push((v % 256) as u8);
    assert(final(out)@ =~= old(out)@ + u32_octets(v as int));
}

/// The three-octet header `[CAT][LEN]` of a block of `body_len` record bytes;
/// `LEN` keeps the low 16 bits of the total length.
pub open spec fn block_header(category: u8, body_len: int) -> Seq<u8> {
    seq![category] + u16_octets((body_len + 3) % 65536)
}

/// Wrap record bytes in the ASTERIX envelope `[CAT][LEN][records…]`, where
/// `LEN` is the total block length (header included), big-endian, reduced to
/// its low 16 bits as the field is only two octets wide.
pub fn data_block(category: u8, records: &[u8]) -> (out: Vec<u8>)
    ensures
        out@ == block_header(category, records.len() as int) + records@,
{
    let total = (records.len() % 65536 + 3) % 65536;
    proof {
        let n = records.len() as int;
        vstd::arithmetic::div_mod::lemma_add_mod_noop(n, 3, 65536);
        assert(3int % 65536 == 3);
        assert(total == (n + 3) % 65536);
    }
    let mut out: Vec<u8> = Vec::new();
    out.push(category);
    push_u16(&mut out, total as u16);
    append_bytes(&mut out, records);
    assert(out@ =~= block_header(category, records.len() as int) + records@);
    out
}


/// Reading back the octets of a 16-bit value gives the value.
pub proof fn lemma_be16_roundtrip(v: int)
    requires
        0 <= v < 65536,
    ensures
        u16_octets(v).len() == 2,
        be16(u16_octets(v)[0], u16_octets(v)[1]) == v,
{
    assert(0 <= v / 256 < 256);
    assert(v == (v / 256) * 256 + v % 256);
}

/// Reading back the octets of a 24-bit value gives the value.
pub proof fn lemma_be24_roundtrip(v: int)
    requires
        0 <= v < 16777216,
    ensures
        u24_octets(v).len() == 3,
        be24(u24_octets(v)[0], u24_octets(v)[1], u24_octets(v)[2]) == v,
{
    let a = v / 65536;
    let r = v % 65536;
    assert(v == a * 65536 + r);
    assert(0 <= a < 256);
    assert((v / 256) % 256 == r / 256) by {
        assert(v / 256 == a * 256 + r / 256);
    }
    assert(v % 256 == r % 256) by {
        assert(v == (a * 256) * 256 + r);
    }
    assert(r == (r / 256) * 256 + r % 256);
}

/// Reading back the octets of a 32-bit value gives the value.
pub proof fn lemma_be32_roundtrip(v: int)
    requires
        0 <= v < 4294967296,
    ensures
        u32_octets(v).len() == 4,
        be32(u32_octets(v)[0], u32_octets(v)[1], u32_octets(v)[2], u32_octets(v)[3]) == v,
{
    let a = v / 16777216;
    let r = v % 16777216;
    assert(v == a * 16777216 + r);
    assert(0 <= a < 256);
    assert((v / 65536) % 256 == r / 65536) by {
        assert(v / 65536 == a * 256 + r / 65536);
    }
    assert((v / 256) % 256 == (r / 256) % 256) by {
        assert(v / 256 == (a * 256) * 256 + r / 256);
    }
    assert(v % 256 == r % 256) by {
        assert(v == (a * 65536) * 256 + r);
    }
    lemma_be24_roundtrip(r);
}

/// Two octets at `i` as a big-endian number.
pub fn be16_at(data: &[u8], i: usize) -> (r: u16)
    requires
        i + 2 <= data.len(),
    ensures
        r as int == be16(data@[i as int], data@[i + 1]),
{
    (data[i] as u16) * 256 + data[i + 1] as u16
}

/// Three octets at `i` as a big-endian number.
pub fn be24_at(data: &[u8], i: usize) -> (r: u32)
    requires
        i + 3 <= data.len(),
    ensures
        r as int == be24(data@[i as int], data@[i + 1], data@[i + 2]),
        r < 16777216,
{
    (data[i] as u32) * 65536 + (data[i + 1] as u32) * 256 + data[i + 2] as u32
}

/// Four octets at `i` as a big-endian number.
pub fn be32_at(data: &[u8], i: usize) -> (r: u32)
    requires
        i + 4 <= data.len(),
    ensures
        r as int == be32(data@[i as int], data@[i + 1], data@[i + 2], data@[i + 3]),
{
    (data[i] as u32) * 16777216 + (data[i + 1] as u32) * 65536 + (data[i + 2] as u32) * 256
        + data[i + 3] as u32
}


/// A one-octet item.
pub fn one_octet(a: u8) -> (v: Vec<u8>)
    ensures
        v@ == seq![a],
{
    let mut v: Vec<u8> = Vec::new();
    v.push(a);
    assert(v@ =~= seq![a]);
    v
}

/// A two-octet item.
pub fn two_octets(a: u8, b: u8) -> (v: Vec<u8>)
    ensures
        v@ == seq![a, b],
{
    let mut v: Vec<u8> = Vec::new();
    v.push(a);
    v.push(b);
    assert(v@ =~= seq![a, b]);
    v
}

} // verus!

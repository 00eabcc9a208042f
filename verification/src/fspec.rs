//! The FSPEC mechanism: telling a decoder which data items a record carries.
//!
//! Every ASTERIX record starts with a field specification (FSPEC): a string of
//! octets where each of the seven high bits flags one data item as present, and
//! the lowest bit (FX) says that another FSPEC octet follows. FRN 1 is the most
//! significant bit of the first octet, FRN 7 the second-least significant bit,
//! FRN 8 the most significant bit of the second octet, and so on.

use vstd::prelude::*;

use crate::octets::append_bytes;

verus! {

/// Longest FX chain [`parse`] accepts: 36 octets cover FRNs 1..=252, which
/// keeps every FRN inside `u8`.
pub const MAX_FSPEC_OCTETS: usize = 36;

/// The FX bit of an octet: another octet follows.
pub open spec fn has_fx(octet: u8) -> bool {
    octet & 1u8 != 0u8
}

/// The presence flag at `position` (0 = most significant bit … 6 = bit 2).
pub open spec fn flag(octet: u8, position: int) -> bool {
    octet & (0x80u8 >> (position as u8)) != 0u8
}

/// Length of the FX chain starting at `start`: octets up to and including the
/// first one whose FX bit is clear (or to the end of the input).
pub open spec fn chain_len_from(bytes: Seq<u8>, start: int) -> int
    decreases bytes.len() - start,
{
    if start < 0 || start >= bytes.len() {
        0
    } else if !has_fx(bytes[start]) {
        1
    } else {
        1 + chain_len_from(bytes, start + 1)
    }
}

/// Number of FSPEC octets at the start of `bytes`.
pub open spec fn chain_len(bytes: Seq<u8>) -> int {
    chain_len_from(bytes, 0)
}

/// Whether the first `octets` FSPEC octets of `bytes` mark `frn` present.
pub open spec fn frn_present(bytes: Seq<u8>, octets: int, frn: int) -> bool {
    &&& 1 <= frn <= 7 * octets
    &&& flag(bytes[(frn - 1) / 7], (frn - 1) % 7)
}

/// The set of FRNs the first `octets` FSPEC octets of `bytes` mark present.
pub open spec fn frn_set(bytes: Seq<u8>, octets: int) -> Set<u8> {
    Set::new(|f: u8| frn_present(bytes, octets, f as int))
}

/// Error: the FSPEC's FX chain ran past [`MAX_FSPEC_OCTETS`].
#[derive(Debug, Clone, Copy, PartialEq, Eq, Structural)]
pub struct FspecTooLong;

/// Number of FSPEC octets at the start of `bytes`, or [`FspecTooLong`] when the
/// FX chain runs past [`MAX_FSPEC_OCTETS`].
pub fn fspec_extent(bytes: &[u8]) -> (r: Result<usize, FspecTooLong>)
    ensures
        match r {
            Ok(n) => n == chain_len(bytes@) && n <= MAX_FSPEC_OCTETS,
            Err(_) => chain_len(bytes@) > MAX_FSPEC_OCTETS,
        },
{
    fspec_extent_at(bytes, 0)
}

/// Number of FSPEC octets starting at `start` in `bytes`, or [`FspecTooLong`]
/// when the FX chain runs past [`MAX_FSPEC_OCTETS`].
pub fn fspec_extent_at(bytes: &[u8], start: usize) -> (r: Result<usize, FspecTooLong>)
    ensures
        match r {
            Ok(n) => {
                &&& n == chain_len_from(bytes@, start as int)
                &&& n <= MAX_FSPEC_OCTETS
                &&& start + n <= bytes.len() || n == 0
            },
            Err(_) => chain_len_from(bytes@, start as int) > MAX_FSPEC_OCTETS,
        },
{
    let mut consumed: usize = 0;
    if start >= bytes.len() {
        return Ok(0);
    }
    while consumed < bytes.len() - start
        invariant
            start < bytes.len(),
            consumed <= bytes.len() - start,
            consumed <= MAX_FSPEC_OCTETS,
            forall|j: int| start <= j < start + consumed ==> has_fx(#[trigger] bytes@[j]),
        decreases bytes.len() - start - consumed,
    {
        proof {
            lemma_chain_step_from(bytes@, start as int, start + consumed);
            lemma_chain_len_bound(bytes@, start + consumed + 1);
        }
        if consumed == MAX_FSPEC_OCTETS {
            return Err(FspecTooLong);
        }
        let octet = bytes[start + consumed];
        consumed = consumed + 1;
        if octet & 1u8 == 0u8 {
            return Ok(consumed);
        }
    }
    proof {
        lemma_chain_all_fx(bytes@, start as int);
    }
    Ok(consumed)
}

pub proof fn lemma_chain_step_from(bytes: Seq<u8>, start: int, i: int)
    requires
        0 <= start <= i < bytes.len(),
        forall|j: int| start <= j < i ==> has_fx(#[trigger] bytes[j]),
    ensures
        chain_len_from(bytes, start) == (i - start) + chain_len_from(bytes, i),
    decreases i - start,
{
    if i > start {
        lemma_chain_step_from(bytes, start + 1, i);
    }
}

pub proof fn lemma_chain_all_fx(bytes: Seq<u8>, i: int)
    requires
        0 <= i <= bytes.len(),
        forall|j: int| i <= j < bytes.len() ==> has_fx(#[trigger] bytes[j]),
    ensures
        chain_len_from(bytes, i) == bytes.len() - i,
    decreases bytes.len() - i,
{
    if i < bytes.len() {
        lemma_chain_all_fx(bytes, i + 1);
    }
}

/// Parse the FSPEC at the start of `bytes`: the set of FRNs it marks present
/// and the number of FSPEC octets consumed (the inverse of [`fspec`]). An
/// empty input yields an empty set and zero octets; a chain longer than
/// [`MAX_FSPEC_OCTETS`] is rejected as [`FspecTooLong`].
pub fn parse(bytes: &[u8]) -> (r: Result<(std::collections::BTreeSet<u8>, usize), FspecTooLong>)
    ensures
        match r {
            Ok((frns, n)) => {
                &&& n == chain_len(bytes@)
                &&& n <= MAX_FSPEC_OCTETS
                &&& frns@ == frn_set(bytes@, n as int)
            },
            Err(_) => chain_len(bytes@) > MAX_FSPEC_OCTETS,
        },
{
    let n = match fspec_extent(bytes) {
        Ok(n) => n,
        Err(e) => return Err(e),
    };
    proof {
        lemma_chain_len_bound(bytes@, 0);
    }
    let mut frns = std::collections::BTreeSet::new();
    let mut k: usize = 0;
    while k < 7 * n
        invariant
            n <= MAX_FSPEC_OCTETS,
            n <= bytes.len(),
            k <= 7 * n,
            frns@ == Set::new(|f: u8| 1 <= f <= k && frn_present(bytes@, n as int, f as int)),
        decreases 7 * n - k,
    {
        let octet = bytes[k / 7];
        let position = (k % 7) as u8;
        let ghost old_set = frns@;
        if octet & (0x80u8 >> position) != 0u8 {
            insert_frn(&mut frns, (k + 1) as u8);
        }
        k = k + 1;
        assert(frns@ =~= Set::new(|f: u8| 1 <= f <= k && frn_present(bytes@, n as int, f as int)));
    }
    assert(frns@ =~= frn_set(bytes@, n as int));
    Ok((frns, n))
}

/// Add one FRN to a set.
fn insert_frn(frns: &mut std::collections::BTreeSet<u8>, frn: u8)
    ensures
        final(frns)@ == old(frns)@.insert(frn),
{
    broadcast use vstd::laws_cmp::group_laws_cmp, vstd::std_specs::btree::group_btree_axioms;

    frns.insert(frn);
}

pub proof fn lemma_chain_len_bound(bytes: Seq<u8>, i: int)
    requires
        0 <= i,
    ensures
        0 <= chain_len_from(bytes, i),
        i <= bytes.len() ==> i + chain_len_from(bytes, i) <= bytes.len(),
    decreases bytes.len() - i,
{
    if i < bytes.len() {
        lemma_chain_len_bound(bytes, i + 1);
    }
}


/// Whether a set holds one FRN.
fn contains_frn(frns: &std::collections::BTreeSet<u8>, frn: u8) -> (r: bool)
    ensures
        r == frns@.contains(frn),
{
    broadcast use vstd::laws_cmp::group_laws_cmp, vstd::std_specs::btree::group_btree_axioms;

    frns.contains(&frn)
}

/// Whether `frns` holds the FRN `f` (any integer outside `1..=255` is absent).
pub open spec fn has_frn(frns: Set<u8>, f: int) -> bool {
    1 <= f <= 255 && frns.contains(f as u8)
}

/// The largest FRN in `frns` not above `k`, or `0` when there is none.
pub open spec fn max_frn_upto(frns: Set<u8>, k: int) -> int
    decreases k,
{
    if k <= 0 {
        0
    } else if has_frn(frns, k) {
        k
    } else {
        max_frn_upto(frns, k - 1)
    }
}

/// The number of FSPEC octets needed to reach the highest FRN of `frns`.
pub open spec fn fspec_octets(frns: Set<u8>) -> int {
    (max_frn_upto(frns, 255) + 6) / 7
}

/// The presence bits of FSPEC octet `i` for the first `p` positions.
pub open spec fn presence_bits(frns: Set<u8>, i: int, p: int) -> u8
    decreases p,
{
    if p <= 0 {
        0u8
    } else {
        presence_bits(frns, i, p - 1) | (if has_frn(frns, 7 * i + p) {
            0x80u8 >> ((p - 1) as u8)
        } else {
            0u8
        })
    }
}

/// FSPEC octet `i` of `n`: its seven presence bits, and FX on all but the last.
pub open spec fn fspec_octet(frns: Set<u8>, i: int, n: int) -> u8 {
    presence_bits(frns, i, 7) | (if i + 1 < n {
        1u8
    } else {
        0u8
    })
}

/// The FSPEC for a set of present FRNs: just long enough to reach the highest
/// FRN, FX set on every octet but the last.
pub open spec fn encoded_fspec(frns: Set<u8>) -> Seq<u8> {
    Seq::new(fspec_octets(frns) as nat, |i: int| fspec_octet(frns, i, fspec_octets(frns)))
}

/// Compute the FSPEC octets for a set of present FRNs (none of them `0`).
pub fn fspec(frns: &std::collections::BTreeSet<u8>) -> (out: Vec<u8>)
    requires
        !frns@.contains(0u8),
    ensures
        out@ == encoded_fspec(frns@),
{
    let mut max: usize = 0;
    let mut k: usize = 1;
    while k <= 255
        invariant
            1 <= k <= 256,
            max == max_frn_upto(frns@, k - 1),
            max <= 255,
        decreases 256 - k,
    {
        proof {
            lemma_max_frn(frns@, k as int);
        }
        if contains_frn(frns, k as u8) {
            max = k;
        }
        k = k + 1;
    }
    let octets = (max + 6) / 7;
    let mut out: Vec<u8> = Vec::new();
    let mut i: usize = 0;
    while i < octets
        invariant
            octets == fspec_octets(frns@),
            octets <= 37,
            i <= octets,
            out@ == Seq::new(i as nat, |j: int| fspec_octet(frns@, j, octets as int)),
        decreases octets - i,
    {
        let mut bits: u8 = 0;
        let mut p: usize = 0;
        while p < 7
            invariant
                i < octets <= 37,
                p <= 7,
                bits == presence_bits(frns@, i as int, p as int),
            decreases 7 - p,
        {
            let f = 7 * i + p + 1;
            if f <= 255 && contains_frn(frns, f as u8) {
                bits = bits | (0x80u8 >> (p as u8));
            } else {
                bits = bits | 0u8;
            }
            p = p + 1;
        }
        if i + 1 < octets {
            bits = bits | 1u8;
        } else {
            bits = bits | 0u8;
        }
        out.push(bits);
        i = i + 1;
        assert(out@ =~= Seq::new(i as nat, |j: int| fspec_octet(frns@, j, octets as int)));
    }
    out
}

proof fn lemma_or_shift(x: u8, r: u8, q: u8)
    requires
        r < 7,
        q < 7,
    ensures
        ((x | (0x80u8 >> r)) & (0x80u8 >> q) != 0u8) == ((x & (0x80u8 >> q) != 0u8) || q == r),
        ((x | (0x80u8 >> r)) & 1u8 != 0u8) == (x & 1u8 != 0u8),
        ((x | 0u8) & (0x80u8 >> q) != 0u8) == (x & (0x80u8 >> q) != 0u8),
        ((x | 0u8) & 1u8 != 0u8) == (x & 1u8 != 0u8),
        ((x | 1u8) & (0x80u8 >> q) != 0u8) == (x & (0x80u8 >> q) != 0u8),
        ((x | 1u8) & 1u8 != 0u8),
        (0u8 & (0x80u8 >> q)) == 0u8,
        (0u8 & 1u8) == 0u8,
{
    assert(((x | (0x80u8 >> r)) & (0x80u8 >> q) != 0u8) == ((x & (0x80u8 >> q) != 0u8) || q
        == r)) by (bit_vector)
        requires
            r < 7,
            q < 7,
    ;
    assert(((x | (0x80u8 >> r)) & 1u8 != 0u8) == (x & 1u8 != 0u8)) by (bit_vector)
        requires
            r < 7,
    ;
    assert(((x | 0u8) & (0x80u8 >> q) != 0u8) == (x & (0x80u8 >> q) != 0u8)) by (bit_vector);
    assert(((x | 0u8) & 1u8 != 0u8) == (x & 1u8 != 0u8)) by (bit_vector);
    assert(((x | 1u8) & (0x80u8 >> q) != 0u8) == (x & (0x80u8 >> q) != 0u8)) by (bit_vector)
        requires
            q < 7,
    ;
    assert((x | 1u8) & 1u8 != 0u8) by (bit_vector);
    assert((0u8 & (0x80u8 >> q)) == 0u8) by (bit_vector);
    assert((0u8 & 1u8) == 0u8) by (bit_vector);
}

/// The presence bits hold exactly the FRNs of their octet, and never FX.
proof fn lemma_presence_bits(frns: Set<u8>, i: int, p: int, q: int)
    requires
        0 <= p <= 7,
        0 <= q < 7,
    ensures
        flag(presence_bits(frns, i, p), q) == (q < p && has_frn(frns, 7 * i + q + 1)),
        !has_fx(presence_bits(frns, i, p)),
    decreases p,
{
    if p > 0 {
        lemma_presence_bits(frns, i, p - 1, q);
        let x = presence_bits(frns, i, p - 1);
        lemma_or_shift(x, (p - 1) as u8, q as u8);
    } else {
        lemma_or_shift(0u8, 0u8, q as u8);
    }
}

pub proof fn lemma_max_frn(frns: Set<u8>, k: int)
    requires
        0 <= k,
    ensures
        0 <= max_frn_upto(frns, k) <= k,
        max_frn_upto(frns, k) == 0 || has_frn(frns, max_frn_upto(frns, k)),
        forall|f: int| 1 <= f <= k && #[trigger] has_frn(frns, f) ==> f <= max_frn_upto(frns, k),
    decreases k,
{
    if k > 0 {
        lemma_max_frn(frns, k - 1);
    }
}

proof fn lemma_chain_of_fx_prefix(bytes: Seq<u8>, i: int)
    requires
        0 <= i < bytes.len(),
        forall|j: int| 0 <= j < bytes.len() - 1 ==> has_fx(#[trigger] bytes[j]),
        !has_fx(bytes[bytes.len() - 1]),
    ensures
        chain_len_from(bytes, i) == bytes.len() - i,
    decreases bytes.len() - i,
{
    if i + 1 < bytes.len() {
        lemma_chain_of_fx_prefix(bytes, i + 1);
    }
}

/// `parse` inverts `fspec`: for every set of FRNs in `1..=252`, the FSPEC
/// built for it spans exactly its own octets (at most [`MAX_FSPEC_OCTETS`])
/// and marks exactly that set present.
pub proof fn lemma_parse_inverts_fspec(frns: Set<u8>)
    requires
        forall|f: u8| #[trigger] frns.contains(f) ==> 1 <= f <= 252,
    ensures
        chain_len(encoded_fspec(frns)) == encoded_fspec(frns).len(),
        encoded_fspec(frns).len() <= MAX_FSPEC_OCTETS,
        frn_set(encoded_fspec(frns), encoded_fspec(frns).len() as int) == frns,
        encoded_fspec(frns).len() > 0 ==> !has_fx(
            encoded_fspec(frns)[encoded_fspec(frns).len() - 1],
        ),
{
    let enc = encoded_fspec(frns);
    let n = fspec_octets(frns);
    lemma_max_frn(frns, 255);
    let max = max_frn_upto(frns, 255);
    assert(max <= 252) by {
        if max != 0 {
            assert(frns.contains(max as u8));
        }
    }
    assert forall|j: int| 0 <= j < n implies flag(#[trigger] enc[j], 0) == has_frn(frns, 7 * j + 1)
        && has_fx(enc[j]) == (j + 1 < n) by {
        lemma_fspec_octet(frns, j, n, 0);
    }
    if n > 0 {
        assert forall|j: int| 0 <= j < enc.len() - 1 implies has_fx(#[trigger] enc[j]) by {}
        lemma_chain_of_fx_prefix(enc, 0);
    }
    assert forall|f: u8| frn_set(enc, n).contains(f) == frns.contains(f) by {
        if 1 <= f <= 7 * n {
            let i = (f - 1) / 7;
            let q = (f - 1) % 7;
            lemma_fspec_octet(frns, i, n, q);
            assert(7 * i + q + 1 == f);
        } else if frns.contains(f) {
            assert(has_frn(frns, f as int));
        }
    }
    assert(frn_set(enc, n) =~= frns);
}

proof fn lemma_fspec_octet(frns: Set<u8>, i: int, n: int, q: int)
    requires
        0 <= q < 7,
    ensures
        flag(fspec_octet(frns, i, n), q) == has_frn(frns, 7 * i + q + 1),
        has_fx(fspec_octet(frns, i, n)) == (i + 1 < n),
{
    lemma_presence_bits(frns, i, 7, q);
    lemma_or_shift(presence_bits(frns, i, 7), 0u8, q as u8);
}


/// The payloads of the items in `items` with FRN `k` or above, in ascending
/// FRN (UAP) order.
pub open spec fn payload_from(items: Map<u8, Seq<u8>>, k: int) -> Seq<u8>
    decreases 256 - k,
{
    if k > 255 || k < 0 {
        Seq::empty()
    } else {
        (if items.contains_key(k as u8) {
            items[k as u8]
        } else {
            Seq::empty()
        }) + payload_from(items, k + 1)
    }
}

/// The payloads of the items with FRN in `a..b`, in ascending FRN order.
pub open spec fn payload_between(items: Map<u8, Seq<u8>>, a: int, b: int) -> Seq<u8>
    decreases b - a,
{
    if b <= a || b > 256 || a < 0 {
        Seq::empty()
    } else {
        payload_between(items, a, b - 1) + (if items.contains_key((b - 1) as u8) {
            items[(b - 1) as u8]
        } else {
            Seq::empty()
        })
    }
}

proof fn lemma_payload_split(items: Map<u8, Seq<u8>>, a: int, b: int)
    requires
        0 <= a <= b <= 256,
    ensures
        payload_from(items, a) == payload_between(items, a, b) + payload_from(items, b),
    decreases b - a,
{
    if a < b {
        lemma_payload_split(items, a + 1, b);
        lemma_between_front(items, a, b);
        assert(payload_from(items, a) =~= payload_between(items, a, b) + payload_from(items, b));
    } else {
        assert(payload_between(items, a, b) + payload_from(items, b) =~= payload_from(items, b));
    }
}

proof fn lemma_between_front(items: Map<u8, Seq<u8>>, a: int, b: int)
    requires
        0 <= a < b <= 256,
    ensures
        payload_between(items, a, b) == (if items.contains_key(a as u8) {
            items[a as u8]
        } else {
            Seq::empty()
        }) + payload_between(items, a + 1, b),
    decreases b - a,
{
    if a + 1 < b {
        lemma_between_front(items, a, b - 1);
        let x = if items.contains_key(a as u8) {
            items[a as u8]
        } else {
            Seq::<u8>::empty()
        };
        let y = if items.contains_key((b - 1) as u8) {
            items[(b - 1) as u8]
        } else {
            Seq::<u8>::empty()
        };
        assert(payload_between(items, a, b) =~= x + payload_between(items, a + 1, b - 1) + y);
    } else {
        assert(payload_between(items, a, b) =~= payload_between(items, a, a) + (
        if items.contains_key(a as u8) {
            items[a as u8]
        } else {
            Seq::empty()
        }));
    }
}

/// The bytes of one record holding `items`: the FSPEC for the present FRNs,
/// then every item's payload in ascending FRN order.
pub open spec fn record_bytes(items: Map<u8, Seq<u8>>) -> Seq<u8> {
    encoded_fspec(items.dom()) + payload_from(items, 1)
}

/// Add or replace the payload of one FRN.
fn insert_item(items: &mut std::collections::BTreeMap<u8, Vec<u8>>, frn: u8, bytes: Vec<u8>)
    ensures
        final(items)@ == old(items)@.insert(frn, bytes),
{
    broadcast use vstd::laws_cmp::group_laws_cmp, vstd::std_specs::btree::group_btree_axioms;

    items.insert(frn, bytes);
}

/// Whether an FRN holds a payload.
fn has_item(items: &std::collections::BTreeMap<u8, Vec<u8>>, frn: u8) -> (r: bool)
    ensures
        r == items@.contains_key(frn),
{
    broadcast use vstd::laws_cmp::group_laws_cmp, vstd::std_specs::btree::group_btree_axioms;

    items.contains_key(&frn)
}

/// The payload of one FRN, if it holds one.
fn item_payload(items: &std::collections::BTreeMap<u8, Vec<u8>>, frn: u8) -> (r: Option<&Vec<u8>>)
    ensures
        match r {
            Some(v) => items@.contains_key(frn) && items@[frn] == *v,
            None => !items@.contains_key(frn),
        },
{
    broadcast use vstd::laws_cmp::group_laws_cmp, vstd::std_specs::btree::group_btree_axioms;

    items.get(&frn)
}

/// Assembles one ASTERIX record: a set of present data items keyed by FRN.
/// The map keeps the items ordered by FRN, which is UAP order.
pub struct RecordBuilder {
    items: std::collections::BTreeMap<u8, Vec<u8>>,
}

impl RecordBuilder {
    /// The items added so far, keyed by FRN.
    pub closed spec fn items(self) -> Map<u8, Seq<u8>> {
        self.items@.map_values(|v: Vec<u8>| v@)
    }

    /// An empty record.
    pub fn new() -> (r: Self)
        ensures
            r.items() == Map::<u8, Seq<u8>>::empty(),
    {
        let r = RecordBuilder { items: std::collections::BTreeMap::new() };
        assert(r.items() =~= Map::<u8, Seq<u8>>::empty());
        r
    }

    /// Add one present data item: its `frn` and its already-encoded `bytes`.
    /// Adding the same FRN twice replaces it.
    pub fn item(self, frn: u8, bytes: Vec<u8>) -> (r: Self)
        ensures
            r.items() == self.items().insert(frn, bytes@),
    {
        let ghost payload = bytes@;
        let mut items = self.items;
        insert_item(&mut items, frn, bytes);
        let r = RecordBuilder { items };
        assert(r.items() =~= self.items().insert(frn, payload));
        r
    }

    /// Render the record: the FSPEC for the present items, followed by their
    /// payloads in ascending FRN (UAP) order.
    pub fn finish(self) -> (out: Vec<u8>)
        requires
            !self.items().contains_key(0u8),
        ensures
            out@ == record_bytes(self.items()),
    {
        let ghost items = self.items();
        let mut frns = std::collections::BTreeSet::new();
        let mut k: usize = 1;
        while k < 256
            invariant
                1 <= k <= 256,
                items == self.items(),
                frns@ == Set::new(|f: u8| 1 <= f < k && items.contains_key(f)),
            decreases 256 - k,
        {
            let key: u8 = k as u8;
            if has_item(&self.items, key) {
                insert_frn(&mut frns, key);
            }
            k = k + 1;
            assert(frns@ =~= Set::new(|f: u8| 1 <= f < k && items.contains_key(f)));
        }
        assert(frns@ =~= items.dom());
        let mut out = fspec(&frns);
        let ghost head = out@;
        let mut j: usize = 1;
        while j < 256
            invariant
                1 <= j <= 256,
                items == self.items(),
                out@ == head + payload_between(items, 1, j as int),
            decreases 256 - j,
        {
            let key: u8 = j as u8;
            match item_payload(&self.items, key) {
                Some(b) => {
                    append_bytes(&mut out, b.as_slice());
                },
                None => {},
            }
            j = j + 1;
            assert(out@ =~= head + payload_between(items, 1, j as int));
        }
        proof {
            lemma_payload_split(items, 1, 256);
            assert(payload_between(items, 1, 256) + payload_from(items, 256) =~= payload_between(
                items,
                1,
                256,
            ));
        }
        out
    }
}


/// Every FRN of `frns` lies within the octets of its FSPEC.
pub proof fn lemma_max_frn_covers(frns: Set<u8>)
    ensures
        forall|f: u8| #[trigger] frns.contains(f) && 1 <= f ==> f <= 7 * fspec_octets(frns),
{
    lemma_max_frn(frns, 255);
    assert forall|f: u8| #[trigger] frns.contains(f) && 1 <= f implies f <= 7 * fspec_octets(
        frns,
    ) by {
        assert(has_frn(frns, f as int));
    }
}


/// FRNs that hold no item contribute no payload.
pub proof fn lemma_payload_skip(items: Map<u8, Seq<u8>>, k: int, j: int)
    requires
        0 <= k <= j <= 256,
        forall|f: u8| k <= f < j ==> !#[trigger] items.contains_key(f),
    ensures
        payload_from(items, k) == payload_from(items, j),
    decreases j - k,
{
    if k < j {
        assert(!items.contains_key(k as u8));
        lemma_payload_skip(items, k + 1, j);
        assert(payload_from(items, k) =~= payload_from(items, k + 1));
    }
}


/// An FSPEC ending in an octet without FX keeps its length whatever follows
/// it: the chain from any of its octets stops where it stopped before.
proof fn lemma_chain_ignores_tail(enc: Seq<u8>, tail: Seq<u8>, i: int)
    requires
        0 <= i < enc.len(),
        !has_fx(enc[enc.len() - 1]),
    ensures
        chain_len_from(enc + tail, i) == chain_len_from(enc, i),
    decreases enc.len() - i,
{
    assert((enc + tail)[i] == enc[i]);
    if i + 1 < enc.len() {
        lemma_chain_ignores_tail(enc, tail, i + 1);
    }
}

/// `parse` reads exactly the FSPEC octets and nothing after them: for every
/// non-empty set of FRNs in `1..=252`, whatever bytes follow its FSPEC, the
/// parsed chain is the FSPEC's own length and marks exactly that set.
pub proof fn lemma_parse_stops_at_fspec(frns: Set<u8>, tail: Seq<u8>)
    requires
        forall|f: u8| #[trigger] frns.contains(f) ==> 1 <= f <= 252,
        exists|f: u8| frns.contains(f),
    ensures
        chain_len(encoded_fspec(frns) + tail) == encoded_fspec(frns).len(),
        frn_set(encoded_fspec(frns) + tail, encoded_fspec(frns).len() as int) == frns,
{
    let enc = encoded_fspec(frns);
    let n = enc.len() as int;
    lemma_parse_inverts_fspec(frns);
    let f = choose|f: u8| frns.contains(f);
    assert(frns.contains(f));
    assert(n > 0) by {
        lemma_max_frn_covers(frns);
        assert(f <= 7 * fspec_octets(frns));
    }
    lemma_chain_ignores_tail(enc, tail, 0);
    let both = enc + tail;
    assert forall|g: u8| frn_set(both, n).contains(g) == frn_set(enc, n).contains(g) by {
        if 1 <= g <= 7 * n {
            assert(both[(g - 1) / 7] == enc[(g - 1) / 7]);
        }
    }
    assert(frn_set(both, n) =~= frn_set(enc, n));
}

/// The items a record holds after `steps` — each an FRN and its payload —
/// are added in turn to an empty builder (`new`, then `item` per step).
pub open spec fn items_after(steps: Seq<(u8, Seq<u8>)>) -> Map<u8, Seq<u8>>
    decreases steps.len(),
{
    if steps.len() == 0 {
        Map::empty()
    } else {
        items_after(steps.drop_last()).insert(steps.last().0, steps.last().1)
    }
}

/// Whether no FRN occurs twice among `steps`.
pub open spec fn distinct_frns(steps: Seq<(u8, Seq<u8>)>) -> bool {
    forall|i: int, j: int| 0 <= i < j < steps.len() ==> steps[i].0 != steps[j].0
}

/// Adding items with distinct FRNs gives the same record in any order:
/// exactly the FRNs of the steps are present, each with its own payload.
/// So `finish` writes the minimal FSPEC of those FRNs and then their
/// payloads in ascending FRN order, whatever order they were added in.
pub proof fn lemma_items_in_any_order(steps: Seq<(u8, Seq<u8>)>)
    requires
        distinct_frns(steps),
    ensures
        forall|f: u8| #[trigger]
            items_after(steps).contains_key(f) <==> exists|i: int|
                0 <= i < steps.len() && steps[i].0 == f,
        forall|i: int|
            0 <= i < steps.len() ==> items_after(steps)[#[trigger] steps[i].0] == steps[i].1,
    decreases steps.len(),
{
    if steps.len() > 0 {
        let rest = steps.drop_last();
        assert(distinct_frns(rest)) by {
            assert forall|i: int, j: int| 0 <= i < j < rest.len() implies rest[i].0 != rest[j].0 by {
                assert(rest[i] == steps[i] && rest[j] == steps[j]);
            }
        }
        lemma_items_in_any_order(rest);
        let m = items_after(steps);
        let last = steps.last();
        assert forall|f: u8| #[trigger] m.contains_key(f) <==> exists|i: int|
            0 <= i < steps.len() && steps[i].0 == f by {
            if m.contains_key(f) && f != last.0 {
                assert(items_after(rest).contains_key(f));
                let i = choose|i: int| 0 <= i < rest.len() && rest[i].0 == f;
                assert(steps[i] == rest[i]);
            }
            if exists|i: int| 0 <= i < steps.len() && steps[i].0 == f {
                let i = choose|i: int| 0 <= i < steps.len() && steps[i].0 == f;
                if i < rest.len() {
                    assert(steps[i] == rest[i]);
                }
            }
        }
        assert forall|i: int| 0 <= i < steps.len() implies m[#[trigger] steps[i].0] == steps[i].1 by {
            if i < rest.len() {
                assert(steps[i] == rest[i]);
                assert(steps[i].0 != last.0);
            }
        }
    }
}

/// Two runs of `item` calls that add the same items, with distinct FRNs,
/// in different orders build the same record.
pub proof fn lemma_insertion_order_is_free(a: Seq<(u8, Seq<u8>)>, b: Seq<(u8, Seq<u8>)>)
    requires
        distinct_frns(a),
        distinct_frns(b),
        a.to_set() == b.to_set(),
    ensures
        items_after(a) == items_after(b),
        record_bytes(items_after(a)) == record_bytes(items_after(b)),
{
    lemma_items_in_any_order(a);
    lemma_items_in_any_order(b);
    let ma = items_after(a);
    let mb = items_after(b);
    assert forall|f: u8| #[trigger] ma.contains_key(f) implies mb.contains_key(f) && ma[f] == mb[f] by {
        let i = choose|i: int| 0 <= i < a.len() && a[i].0 == f;
        assert(a.to_set().contains(a[i]));
        assert(b.to_set().contains(a[i]));
        let j = choose|j: int| 0 <= j < b.len() && b[j] == a[i];
        assert(b[j].0 == f);
    }
    assert forall|f: u8| #[trigger] mb.contains_key(f) implies ma.contains_key(f) by {
        let j = choose|j: int| 0 <= j < b.len() && b[j].0 == f;
        assert(b.to_set().contains(b[j]));
        assert(a.to_set().contains(b[j]));
        let i = choose|i: int| 0 <= i < a.len() && a[i] == b[j];
        assert(a[i].0 == f);
    }
    assert(ma =~= mb);
}

/// Adding an FRN again replaces its payload: the earlier one is gone from
/// the record.
pub proof fn lemma_item_replaces(steps: Seq<(u8, Seq<u8>)>, frn: u8, p: Seq<u8>, q: Seq<u8>)
    ensures
        items_after(steps.push((frn, p)).push((frn, q))) == items_after(steps.push((frn, q))),
        record_bytes(items_after(steps.push((frn, p)).push((frn, q)))) == record_bytes(
            items_after(steps.push((frn, q))),
        ),
{
    let a = steps.push((frn, p)).push((frn, q));
    let b = steps.push((frn, q));
    let sp = steps.push((frn, p));
    assert(a.drop_last() =~= sp);
    assert(sp.drop_last() =~= steps);
    assert(sp.last() == (frn, p));
    assert(items_after(sp) == items_after(steps).insert(frn, p));
    assert(a.drop_last().drop_last() =~= steps);
    assert(b.drop_last() =~= steps);
    assert(a.last() == (frn, q));
    assert(a.drop_last().last() == (frn, p));
    assert(b.last() == (frn, q));
    assert(items_after(a) == items_after(steps).insert(frn, p).insert(frn, q));
    assert(items_after(b) == items_after(steps).insert(frn, q));
    assert(items_after(a) =~= items_after(b));
}

/// A record whose FRNs all lie in `1..=252` reads back: its FSPEC spans the
/// leading octets and marks exactly those FRNs, and the payloads follow in
/// ascending FRN order.
pub proof fn lemma_record_reads_back(items: Map<u8, Seq<u8>>)
    requires
        forall|f: u8| #[trigger] items.contains_key(f) ==> 1 <= f <= 252,
        exists|f: u8| items.contains_key(f),
    ensures
        chain_len(record_bytes(items)) == encoded_fspec(items.dom()).len(),
        frn_set(record_bytes(items), encoded_fspec(items.dom()).len() as int) == items.dom(),
        record_bytes(items).skip(encoded_fspec(items.dom()).len() as int) == payload_from(items, 1),
{
    let dom = items.dom();
    let f = choose|f: u8| items.contains_key(f);
    assert(dom.contains(f));
    lemma_parse_stops_at_fspec(dom, payload_from(items, 1));
    assert(record_bytes(items).skip(encoded_fspec(dom).len() as int) =~= payload_from(items, 1));
}

} // verus!

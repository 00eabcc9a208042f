//! The item walk shared by every ASTERIX category: after the FSPEC, the
//! present items follow in ascending FRN (UAP) order, each occupying a number
//! of octets fixed by the category's format model.
//!
//! [`walk`] states what decoding the items of one record means for any
//! category: it is parameterised by the category's item-length model and by
//! how each item's octets update the record being decoded.
//! [`lemma_walk_encoded`] shows that walking the items of a record built by
//! [`crate::fspec::RecordBuilder`] visits exactly the items that were added,
//! each with exactly its own octets.

use vstd::prelude::*;

use crate::fspec::{
    record_bytes, MAX_FSPEC_OCTETS,
    chain_len_from, encoded_fspec, frn_present, frn_set, has_fx, lemma_parse_inverts_fspec,
    payload_from,
};

verus! {

/// Why the item walk of a record stopped.
#[derive(Debug, Clone, Copy, PartialEq, Eq, Structural)]
pub enum WalkError {
    /// The input ended before a complete item could be read.
    Truncated,
    /// The FSPEC marked an FRN present whose length the category cannot tell.
    UnknownItem(u8),
}

/// Walk the items of one record whose FSPEC `fs` spans `n` octets, from FRN
/// `k` on, starting at `pos` in `data`. `len_of(frn, pos)` is the number of
/// octets the item at `pos` occupies (or why it cannot be read); `apply`
/// folds each item's octets into the record decoded so far.
pub open spec fn walk<A>(
    data: Seq<u8>,
    fs: Seq<u8>,
    n: int,
    k: int,
    pos: int,
    acc: A,
    len_of: spec_fn(u8, int) -> Result<int, WalkError>,
    apply: spec_fn(u8, Seq<u8>, A) -> A,
) -> Result<(A, int), WalkError>
    decreases 7 * n + 1 - k,
{
    if k < 1 || k > 7 * n {
        Ok((acc, pos))
    } else if !frn_present(fs, n, k) {
        walk(data, fs, n, k + 1, pos, acc, len_of, apply)
    } else {
        match len_of(k as u8, pos) {
            Err(e) => Err(e),
            Ok(l) => walk(
                data,
                fs,
                n,
                k + 1,
                pos + l,
                apply(k as u8, data.subrange(pos, pos + l), acc),
                len_of,
                apply,
            ),
        }
    }
}

/// Fold `apply` over the items of `items` with FRN `k` and above, in
/// ascending FRN order.
pub open spec fn apply_from<A>(
    items: Map<u8, Seq<u8>>,
    k: int,
    acc: A,
    apply: spec_fn(u8, Seq<u8>, A) -> A,
) -> A
    decreases 256 - k,
{
    if k < 0 || k > 255 {
        acc
    } else if items.contains_key(k as u8) {
        apply_from(items, k + 1, apply(k as u8, items[k as u8], acc), apply)
    } else {
        apply_from(items, k + 1, acc, apply)
    }
}

/// Whether `data` holds `s` at offset `pos`.
pub open spec fn holds_at(data: Seq<u8>, pos: int, s: Seq<u8>) -> bool {
    0 <= pos && pos + s.len() <= data.len() && data.subrange(pos, pos + s.len()) == s
}

/// Whether every FRN of `items` lies in `1..=252`.
pub open spec fn frns_in_uap_range(items: Map<u8, Seq<u8>>) -> bool {
    forall|f: u8| #[trigger] items.contains_key(f) ==> 1 <= f <= 252
}

/// Past the last FRN of `items` there is no payload, and folding changes
/// nothing.
pub proof fn lemma_tail_empty<A>(items: Map<u8, Seq<u8>>, k: int, acc: A, apply: spec_fn(u8, Seq<u8>, A) -> A)
    requires
        0 <= k,
        forall|f: u8| #[trigger] items.contains_key(f) ==> f < k,
    ensures
        payload_from(items, k) == Seq::<u8>::empty(),
        apply_from(items, k, acc, apply) == acc,
    decreases 256 - k,
{
    if k <= 255 {
        lemma_tail_empty(items, k + 1, acc, apply);
        assert(!items.contains_key(k as u8));
        assert(payload_from(items, k) =~= payload_from(items, k + 1));
    }
}

/// Walking the items of an encoded record recovers exactly the items that
/// were put in: when every present item's octets are self-delimiting under
/// `len_of`, the walk over `encoded_fspec(items.dom())` starting where the
/// payloads start folds `apply` over the items in FRN order and ends right
/// after the last payload.
pub proof fn lemma_walk_encoded<A>(
    data: Seq<u8>,
    items: Map<u8, Seq<u8>>,
    k: int,
    pos: int,
    acc: A,
    len_of: spec_fn(u8, int) -> Result<int, WalkError>,
    apply: spec_fn(u8, Seq<u8>, A) -> A,
)
    requires
        frns_in_uap_range(items),
        1 <= k,
        holds_at(data, pos, payload_from(items, k)),
        forall|f: u8, p: int|
            items.contains_key(f) && holds_at(data, p, items[f]) ==> #[trigger] len_of(f, p) == Ok::<
                int,
                WalkError,
            >(items[f].len() as int),
    ensures
        walk(
            data,
            encoded_fspec(items.dom()),
            encoded_fspec(items.dom()).len() as int,
            k,
            pos,
            acc,
            len_of,
            apply,
        ) == Ok::<(A, int), WalkError>(
            (apply_from(items, k, acc, apply), pos + payload_from(items, k).len()),
        ),
    decreases 256 - k,
{
    let fs = encoded_fspec(items.dom());
    let n = fs.len() as int;
    assert forall|f: u8| #[trigger] items.dom().contains(f) implies 1 <= f <= 252 by {}
    lemma_parse_inverts_fspec(items.dom());
    crate::fspec::lemma_max_frn_covers(items.dom());
    if k > 7 * n {
        assert forall|f: u8| #[trigger] items.contains_key(f) implies f < k by {
            assert(frn_set(fs, n).contains(f));
        }
        lemma_tail_empty(items, k, acc, apply);
    } else {
        assert(frn_set(fs, n).contains(k as u8) == items.contains_key(k as u8));
        if !items.contains_key(k as u8) {
            assert(payload_from(items, k) =~= payload_from(items, k + 1));
            lemma_walk_encoded(data, items, k + 1, pos, acc, len_of, apply);
        } else {
            let item = items[k as u8];
            let rest = payload_from(items, k + 1);
            assert(payload_from(items, k) =~= item + rest);
            let whole = data.subrange(pos, pos + item.len() + rest.len());
            assert(whole == item + rest);
            assert(data.subrange(pos, pos + item.len()) =~= whole.subrange(0, item.len() as int));
            assert(whole.subrange(0, item.len() as int) =~= item);
            assert(holds_at(data, pos, item));
            assert(len_of(k as u8, pos) == Ok::<int, WalkError>(item.len() as int));
            assert(data.subrange(pos + item.len(), pos + item.len() + rest.len()) =~= whole.subrange(
                item.len() as int,
                (item.len() + rest.len()) as int,
            ));
            assert(whole.subrange(item.len() as int, (item.len() + rest.len()) as int) =~= rest);
            lemma_walk_encoded(
                data,
                items,
                k + 1,
                pos + item.len(),
                apply(k as u8, item, acc),
                len_of,
                apply,
            );
        }
    }
}


/// A fixed-length item of `l` octets at `pos`.
pub open spec fn fixed_len(data: Seq<u8>, pos: int, l: int) -> Result<int, WalkError> {
    if pos + l <= data.len() {
        Ok(l)
    } else {
        Err(WalkError::Truncated)
    }
}

/// An FX-chained item at `pos`: octets while the FX bit stays set, at least
/// one, ending in an octet with FX clear.
pub open spec fn extended_len(data: Seq<u8>, pos: int) -> Result<int, WalkError> {
    let c = chain_len_from(data, pos);
    if 0 <= pos && c > 0 && pos + c <= data.len() && !has_fx(data[pos + c - 1]) {
        Ok(c)
    } else {
        Err(WalkError::Truncated)
    }
}

/// A length as computed by exec code, read as an integer.
pub open spec fn as_int_len(r: Result<usize, WalkError>) -> Result<int, WalkError> {
    match r {
        Ok(l) => Ok(l as int),
        Err(e) => Err(e),
    }
}

/// Length of a fixed-length item of `l` octets at `pos`.
pub fn take_fixed(data: &[u8], pos: usize, l: usize) -> (r: Result<usize, WalkError>)
    requires
        pos <= data.len(),
    ensures
        as_int_len(r) == fixed_len(data@, pos as int, l as int),
{
    if l <= data.len() - pos {
        Ok(l)
    } else {
        Err(WalkError::Truncated)
    }
}

/// Length of the FX-chained item at `pos`.
pub fn take_extended(data: &[u8], pos: usize) -> (r: Result<usize, WalkError>)
    requires
        pos <= data.len(),
    ensures
        as_int_len(r) == extended_len(data@, pos as int),
{
    let mut i = pos;
    while i < data.len()
        invariant
            pos <= i <= data.len(),
            forall|j: int| pos <= j < i ==> has_fx(#[trigger] data@[j]),
        decreases data.len() - i,
    {
        proof {
            crate::fspec::lemma_chain_step_from(data@, pos as int, i as int);
            crate::fspec::lemma_chain_len_bound(data@, i + 1);
        }
        let octet = data[i];
        i = i + 1;
        if octet & 1u8 == 0u8 {
            return Ok(i - pos);
        }
    }
    proof {
        crate::fspec::lemma_chain_all_fx(data@, pos as int);
    }
    Err(WalkError::Truncated)
}

/// Skipping FRNs that hold no item leaves the fold unchanged.
pub proof fn lemma_apply_skip<A>(
    items: Map<u8, Seq<u8>>,
    k: int,
    j: int,
    acc: A,
    apply: spec_fn(u8, Seq<u8>, A) -> A,
)
    requires
        0 <= k <= j <= 256,
        forall|f: u8| k <= f < j ==> !#[trigger] items.contains_key(f),
    ensures
        apply_from(items, k, acc, apply) == apply_from(items, j, acc, apply),
    decreases j - k,
{
    if k < j {
        assert(!items.contains_key(k as u8));
        lemma_apply_skip(items, k + 1, j, acc, apply);
    }
}

/// The walk never moves backwards and never runs past the input, when every
/// item length it is told is non-negative and fits.
pub proof fn lemma_walk_bounds<A>(
    data: Seq<u8>,
    fs: Seq<u8>,
    n: int,
    k: int,
    pos: int,
    acc: A,
    len_of: spec_fn(u8, int) -> Result<int, WalkError>,
    apply: spec_fn(u8, Seq<u8>, A) -> A,
)
    requires
        0 <= pos <= data.len(),
        forall|f: u8, p: int|
            0 <= p <= data.len() && (#[trigger] len_of(f, p)) is Ok ==> 0 <= len_of(f, p)->Ok_0
                && p + len_of(f, p)->Ok_0 <= data.len(),
    ensures
        walk(data, fs, n, k, pos, acc, len_of, apply) matches Ok((_, e)) ==> pos <= e <= data.len(),
    decreases 7 * n + 1 - k,
{
    if 1 <= k <= 7 * n {
        if !frn_present(fs, n, k) {
            lemma_walk_bounds(data, fs, n, k + 1, pos, acc, len_of, apply);
        } else {
            match len_of(k as u8, pos) {
                Err(_) => {},
                Ok(l) => {
                    lemma_walk_bounds(
                        data,
                        fs,
                        n,
                        k + 1,
                        pos + l,
                        apply(k as u8, data.subrange(pos, pos + l), acc),
                        len_of,
                        apply,
                    );
                },
            }
        }
    }
}


/// An FSPEC that spans exactly its own octets keeps doing so inside a larger
/// input.
pub proof fn lemma_chain_in_context(data: Seq<u8>, pos: int, fs: Seq<u8>)
    requires
        holds_at(data, pos, fs),
        fs.len() > 0,
        crate::fspec::chain_len(fs) == fs.len(),
        !has_fx(fs[fs.len() - 1]),
    ensures
        chain_len_from(data, pos) == fs.len(),
        data.subrange(pos, pos + fs.len()) == fs,
{
    lemma_chain_prefix(data, pos, fs, 0);
}

proof fn lemma_chain_prefix(data: Seq<u8>, pos: int, fs: Seq<u8>, i: int)
    requires
        holds_at(data, pos, fs),
        0 <= i < fs.len(),
        chain_len_from(fs, i) == fs.len() - i,
        !has_fx(fs[fs.len() - 1]),
    ensures
        chain_len_from(data, pos + i) == fs.len() - i,
    decreases fs.len() - i,
{
    assert(data[pos + i] == fs[i]) by {
        assert(data.subrange(pos, pos + fs.len())[i] == data[pos + i]);
    }
    if i + 1 < fs.len() {
        if !has_fx(fs[i]) {
            assert(chain_len_from(fs, i) == 1);
        } else {
            lemma_chain_prefix(data, pos, fs, i + 1);
        }
    } else {
        if has_fx(fs[i]) {
            assert(chain_len_from(fs, i + 1) == 0);
        }
    }
}


/// The FSPEC of a non-empty set of FRNs in `1..=252` spans between one and
/// [`MAX_FSPEC_OCTETS`] octets, its FX chain ends exactly at its last octet,
/// and it marks exactly the set present.
pub proof fn lemma_fspec_shape(items: Map<u8, Seq<u8>>)
    requires
        frns_in_uap_range(items),
        exists|f: u8| #[trigger] items.contains_key(f),
    ensures
        ({
            let fs = encoded_fspec(items.dom());
            &&& 1 <= fs.len() <= MAX_FSPEC_OCTETS
            &&& crate::fspec::chain_len(fs) == fs.len()
            &&& !has_fx(fs[fs.len() - 1])
            &&& frn_set(fs, fs.len() as int) == items.dom()
        }),
{
    assert forall|f: u8| #[trigger] items.dom().contains(f) implies 1 <= f <= 252 by {}
    lemma_parse_inverts_fspec(items.dom());
    let g = choose|f: u8| #[trigger] items.contains_key(f);
    assert(items.dom().contains(g));
    crate::fspec::lemma_max_frn_covers(items.dom());
}

/// Where the FSPEC and the payloads of an encoded record lie: the FX chain at
/// `pos` spans exactly the FSPEC, and the payloads follow it.
pub proof fn lemma_record_layout(data: Seq<u8>, pos: int, items: Map<u8, Seq<u8>>)
    requires
        frns_in_uap_range(items),
        exists|f: u8| #[trigger] items.contains_key(f),
        holds_at(data, pos, record_bytes(items)),
    ensures
        ({
            let fs = encoded_fspec(items.dom());
            let n = fs.len() as int;
            &&& 1 <= n <= MAX_FSPEC_OCTETS
            &&& chain_len_from(data, pos) == n
            &&& data.subrange(pos, pos + n) == fs
            &&& holds_at(data, pos + n, payload_from(items, 1))
            &&& record_bytes(items).len() == n + payload_from(items, 1).len()
        }),
{
    let fs = encoded_fspec(items.dom());
    let pl = payload_from(items, 1);
    lemma_fspec_shape(items);
    let n = fs.len() as int;
    let enc = fs + pl;
    assert(record_bytes(items) == enc);
    lemma_split_holds(data, pos, fs, pl);
    lemma_chain_in_context(data, pos, fs);
}

/// Two sequences held one after the other are each held at their place.
pub proof fn lemma_split_holds(data: Seq<u8>, pos: int, a: Seq<u8>, b: Seq<u8>)
    requires
        holds_at(data, pos, a + b),
    ensures
        holds_at(data, pos, a),
        holds_at(data, pos + a.len(), b),
{
    let whole = data.subrange(pos, pos + a.len() + b.len());
    assert(whole == a + b);
    assert(data.subrange(pos, pos + a.len()) =~= whole.subrange(0, a.len() as int));
    assert(whole.subrange(0, a.len() as int) =~= a);
    assert(data.subrange(pos + a.len(), pos + a.len() + b.len()) =~= whole.subrange(
        a.len() as int,
        (a.len() + b.len()) as int,
    ));
    assert(whole.subrange(a.len() as int, (a.len() + b.len()) as int) =~= b);
}


/// An explicit-length item at `pos`: its first octet gives the item's total
/// length, including that octet, which must be at least one.
pub open spec fn explicit_len(data: Seq<u8>, pos: int) -> Result<int, WalkError> {
    if pos < 0 || pos + 1 > data.len() {
        Err(WalkError::Truncated)
    } else if data[pos] < 1 {
        Err(WalkError::Truncated)
    } else if pos + data[pos] > data.len() {
        Err(WalkError::Truncated)
    } else {
        Ok(data[pos] as int)
    }
}

/// Length of the explicit-length item at `pos`.
pub fn take_explicit(data: &[u8], pos: usize) -> (r: Result<usize, WalkError>)
    requires
        pos <= data.len(),
    ensures
        as_int_len(r) == explicit_len(data@, pos as int),
{
    if pos >= data.len() {
        return Err(WalkError::Truncated);
    }
    let total = data[pos] as usize;
    if total < 1 {
        return Err(WalkError::Truncated);
    }
    if total > data.len() - pos {
        return Err(WalkError::Truncated);
    }
    Ok(total)
}


/// A repetitive item at `pos`: a one-octet repetition factor `REP`, then
/// `REP × per` octets.
pub open spec fn repetitive_len(data: Seq<u8>, pos: int, per: int) -> Result<int, WalkError> {
    if pos < 0 || pos + 1 > data.len() {
        Err(WalkError::Truncated)
    } else if pos + 1 + data[pos] * per > data.len() {
        Err(WalkError::Truncated)
    } else {
        Ok(1 + data[pos] * per)
    }
}

/// Length of the repetitive item at `pos`.
pub fn take_repetitive(data: &[u8], pos: usize, per: usize) -> (r: Result<usize, WalkError>)
    requires
        pos <= data.len(),
        per <= 256,
    ensures
        as_int_len(r) == repetitive_len(data@, pos as int, per as int),
{
    if pos >= data.len() {
        return Err(WalkError::Truncated);
    }
    let rep = data[pos] as usize;
    assert(rep * per <= 255 * 256) by (nonlinear_arith)
        requires
            rep <= 255,
            per <= 256,
    ;
    if rep * per > data.len() - pos - 1 {
        return Err(WalkError::Truncated);
    }
    Ok(1 + rep * per)
}

} // verus!

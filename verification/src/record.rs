//! Decoding whole data blocks of the input categories, for any category's
//! item model.
//!
//! A block is `[CAT][LEN][record…]` where `LEN` must equal the input length.
//! Each record is an FSPEC — which must end within the input with its FX bit
//! clear — then the present items in ascending FRN order. A category
//! supplies, through [`RecordFormat`], how long each item is, what each item
//! contributes to the record, and which items a record requires; [`block`]
//! states what decoding a block means for it and [`decode_records`] does it.

use vstd::prelude::*;

use crate::fspec::{chain_len_from, fspec_extent_at, frn_present, has_fx, MAX_FSPEC_OCTETS};
use crate::octets::{be16, be16_at};
use crate::wire::WalkError;

verus! {

/// Why a block could not be decoded.
#[derive(Debug, Clone, Copy, PartialEq, Eq, Structural)]
pub enum BlockError {
    /// The input ended before a complete block/record/item could be read.
    Truncated,
    /// The first octet was not the category's number.
    WrongCategory(u8),
    /// The `LEN` field did not match the actual input length.
    LengthMismatch { declared: usize, actual: usize },
    /// The FSPEC marked an FRN present that the category cannot length.
    UnknownItem(u8),
    /// A record lacked an item the category requires.
    MissingItem(u8),
    /// The FSPEC's FX chain ran past the supported FRN space.
    FspecTooLong,
}

/// A category's record model: item lengths, what each item contributes, and
/// how the collected items make a report.
pub trait RecordFormat {
    /// The items of one record collected so far.
    type Fields;
    /// One decoded record.
    type Report;

    /// The category number in the block header.
    spec fn category() -> u8;

    /// How many octets the item `frn` at `pos` of `data` occupies, given the
    /// items collected so far (or why it cannot be read).
    spec fn item_len(data: Seq<u8>, frn: u8, pos: int, acc: Self::Fields) -> Result<
        int,
        BlockError,
    >;

    /// Fold the octets `b` of item `frn` into `acc`.
    spec fn apply(frn: u8, b: Seq<u8>, acc: Self::Fields) -> Self::Fields;

    /// Nothing collected yet.
    spec fn initial() -> Self::Fields;

    /// The report the collected items make, or the FRN of the first missing
    /// required item.
    spec fn finish_spec(f: Self::Fields) -> Result<Self::Report, u8>;

    /// The category number.
    fn category_octet() -> (c: u8)
        ensures
            c == Self::category(),
    ;

    /// Nothing collected yet.
    fn initial_fields() -> (f: Self::Fields)
        ensures
            f == Self::initial(),
    ;

    /// Read the item `frn` at `pos` and fold it into `acc`.
    fn decode_item(data: &[u8], pos: usize, frn: u8, acc: Self::Fields) -> (r: Result<
        (Self::Fields, usize),
        BlockError,
    >)
        requires
            pos <= data.len(),
        ensures
            match r {
                Ok((f, end)) => {
                    &&& Self::item_len(data@, frn, pos as int, acc) == Ok::<int, BlockError>(
                        end - pos,
                    )
                    &&& pos <= end <= data.len()
                    &&& f == Self::apply(frn, data@.subrange(pos as int, end as int), acc)
                },
                Err(e) => Self::item_len(data@, frn, pos as int, acc) == Err::<int, BlockError>(e),
            },
    ;

    /// The report the collected items make.
    fn finish(f: Self::Fields) -> (r: Result<Self::Report, u8>)
        ensures
            r == Self::finish_spec(f),
    ;
}

/// Walk the items of one record whose FSPEC `fs` spans `n` octets, from FRN
/// `k` on, starting at `pos` in `data`: each present item is measured (its
/// length may depend on the items before it) and folded into `acc`, in
/// ascending FRN order.
pub open spec fn record_walk<F: RecordFormat>(
    data: Seq<u8>,
    fs: Seq<u8>,
    n: int,
    k: int,
    pos: int,
    acc: F::Fields,
) -> Result<(F::Fields, int), BlockError>
    decreases 7 * n + 1 - k,
{
    if k < 1 || k > 7 * n {
        Ok((acc, pos))
    } else if !frn_present(fs, n, k) {
        record_walk::<F>(data, fs, n, k + 1, pos, acc)
    } else {
        match F::item_len(data, k as u8, pos, acc) {
            Err(e) => Err(e),
            Ok(l) => record_walk::<F>(
                data,
                fs,
                n,
                k + 1,
                pos + l,
                F::apply(k as u8, data.subrange(pos, pos + l), acc),
            ),
        }
    }
}

/// The walk's error as a block error.
pub open spec fn walk_failure(e: WalkError) -> BlockError {
    match e {
        WalkError::Truncated => BlockError::Truncated,
        WalkError::UnknownItem(f) => BlockError::UnknownItem(f),
    }
}

/// An item length computed by the shared item formats, as a block result.
pub open spec fn as_block_len(r: Result<int, WalkError>) -> Result<int, BlockError> {
    match r {
        Ok(l) => Ok(l),
        Err(e) => Err(walk_failure(e)),
    }
}

/// Decoding the record that starts at `pos`: the report and the offset just
/// past it.
pub open spec fn record_at<F: RecordFormat>(data: Seq<u8>, pos: int) -> Result<
    (F::Report, int),
    BlockError,
> {
    let n = chain_len_from(data, pos);
    if n > MAX_FSPEC_OCTETS {
        Err(BlockError::FspecTooLong)
    } else if n == 0 || has_fx(data[pos + n - 1]) {
        Err(BlockError::Truncated)
    } else {
        match record_walk::<F>(data, data.subrange(pos, pos + n), n, 1, pos + n, F::initial()) {
            Err(e) => Err(e),
            Ok((fields, end)) => match F::finish_spec(fields) {
                Err(frn) => Err(BlockError::MissingItem(frn)),
                Ok(r) => Ok((r, end)),
            },
        }
    }
}

/// Decoding every record from `pos` to the end of `data`.
pub open spec fn records_from<F: RecordFormat>(data: Seq<u8>, pos: int) -> Result<
    Seq<F::Report>,
    BlockError,
>
    decreases data.len() - pos,
{
    if pos < 0 || pos >= data.len() {
        Ok(Seq::empty())
    } else {
        match record_at::<F>(data, pos) {
            Err(e) => Err(e),
            Ok((r, end)) => if end <= pos || end > data.len() {
                Err(BlockError::Truncated)
            } else {
                match records_from::<F>(data, end) {
                    Err(e) => Err(e),
                    Ok(rest) => Ok(seq![r] + rest),
                }
            },
        }
    }
}

/// Decoding a whole data block of the category.
pub open spec fn block<F: RecordFormat>(bytes: Seq<u8>) -> Result<Seq<F::Report>, BlockError> {
    if bytes.len() < 3 {
        Err(BlockError::Truncated)
    } else if bytes[0] != F::category() {
        Err(BlockError::WrongCategory(bytes[0]))
    } else if be16(bytes[1], bytes[2]) != bytes.len() {
        Err(
            BlockError::LengthMismatch {
                declared: be16(bytes[1], bytes[2]) as usize,
                actual: bytes.len() as usize,
            },
        )
    } else {
        records_from::<F>(bytes, 3)
    }
}

/// The reports still to decode, after the ones already decoded.
pub open spec fn after<R>(done: Seq<R>, rest: Result<Seq<R>, BlockError>) -> Result<
    Seq<R>,
    BlockError,
> {
    match rest {
        Ok(rs) => Ok(done + rs),
        Err(e) => Err(e),
    }
}

/// The walk's error as a block error.
pub fn failure_of(e: WalkError) -> (r: BlockError)
    ensures
        r == walk_failure(e),
{
    match e {
        WalkError::Truncated => BlockError::Truncated,
        WalkError::UnknownItem(f) => BlockError::UnknownItem(f),
    }
}

/// Decode the record that starts at `pos`.
pub fn decode_record<F: RecordFormat>(data: &[u8], pos: usize) -> (r: Result<
    (F::Report, usize),
    BlockError,
>)
    requires
        pos < data.len(),
    ensures
        match r {
            Ok((rec, end)) => record_at::<F>(data@, pos as int) == Ok::<
                (F::Report, int),
                BlockError,
            >((rec, end as int)) && pos < end <= data.len(),
            Err(e) => record_at::<F>(data@, pos as int) == Err::<(F::Report, int), BlockError>(e),
        },
{
    let n = match fspec_extent_at(data, pos) {
        Ok(n) => n,
        Err(_) => return Err(BlockError::FspecTooLong),
    };
    if n == 0 || data[pos + n - 1] & 1u8 != 0u8 {
        return Err(BlockError::Truncated);
    }
    let ghost fs = data@.subrange(pos as int, pos + n);
    let mut cur = pos + n;
    let mut acc = F::initial_fields();
    let mut k: usize = 1;
    while k <= 7 * n
        invariant
            1 <= n <= MAX_FSPEC_OCTETS,
            pos + n <= data.len(),
            n == chain_len_from(data@, pos as int),
            !has_fx(data@[pos + n - 1]),
            1 <= k <= 7 * n + 1,
            pos + n <= cur <= data.len(),
            fs == data@.subrange(pos as int, pos + n),
            record_walk::<F>(data@, fs, n as int, 1, pos + n, F::initial()) == record_walk::<F>(
                data@,
                fs,
                n as int,
                k as int,
                cur as int,
                acc,
            ),
        decreases 7 * n + 1 - k,
    {
        let octet = data[pos + (k - 1) / 7];
        let position = ((k - 1) % 7) as u8;
        assert(fs[(k - 1) / 7] == octet);
        if octet & (0x80u8 >> position) != 0u8 {
            assert(frn_present(fs, n as int, k as int));
            match F::decode_item(data, cur, k as u8, acc) {
                Ok((fields, end)) => {
                    acc = fields;
                    cur = end;
                },
                Err(e) => {
                    return Err(e);
                },
            }
        } else {
            assert(!frn_present(fs, n as int, k as int));
        }
        k = k + 1;
    }
    match F::finish(acc) {
        Ok(rec) => {
            assert(cur > pos);
            Ok((rec, cur))
        },
        Err(frn) => Err(BlockError::MissingItem(frn)),
    }
}

/// Decode a whole data block of the category into one report per record.
/// Never panics on input.
pub fn decode_records<F: RecordFormat>(bytes: &[u8]) -> (r: Result<Vec<F::Report>, BlockError>)
    ensures
        match r {
            Ok(reports) => block::<F>(bytes@) == Ok::<Seq<F::Report>, BlockError>(reports@),
            Err(e) => block::<F>(bytes@) == Err::<Seq<F::Report>, BlockError>(e),
        },
{
    if bytes.len() < 3 {
        return Err(BlockError::Truncated);
    }
    if bytes[0] != F::category_octet() {
        return Err(BlockError::WrongCategory(bytes[0]));
    }
    let declared = be16_at(bytes, 1) as usize;
    if declared != bytes.len() {
        return Err(BlockError::LengthMismatch { declared, actual: bytes.len() });
    }
    let mut reports: Vec<F::Report> = Vec::new();
    let mut pos: usize = 3;
    while pos < bytes.len()
        invariant
            3 <= pos <= bytes.len(),
            block::<F>(bytes@) == after(reports@, records_from::<F>(bytes@, pos as int)),
        decreases bytes.len() - pos,
    {
        match decode_record::<F>(bytes, pos) {
            Ok((rec, end)) => {
                proof {
                    assert(reports@.push(rec) + records_from::<F>(bytes@, end as int)->Ok_0
                        =~= reports@ + (seq![rec] + records_from::<F>(bytes@, end as int)->Ok_0));
                }
                reports.push(rec);
                pos = end;
            },
            Err(e) => {
                return Err(e);
            },
        }
    }
    assert(reports@ + Seq::<F::Report>::empty() =~= reports@);
    Ok(reports)
}

/// The category's item fold as a value.
pub open spec fn fold_of<F: RecordFormat>() -> spec_fn(u8, Seq<u8>, F::Fields) -> F::Fields {
    |frn: u8, b: Seq<u8>, acc: F::Fields| F::apply(frn, b, acc)
}

/// Whether every item of `items`, wherever it lies in `data`, reads as an
/// item of exactly its own octets, whatever was collected before it.
pub open spec fn items_delimit<F: RecordFormat>(data: Seq<u8>, items: Map<u8, Seq<u8>>) -> bool {
    forall|f: u8, p: int, acc: F::Fields|
        items.contains_key(f) && crate::wire::holds_at(data, p, items[f]) ==> #[trigger] F::item_len(
            data,
            f,
            p,
            acc,
        ) == Ok::<int, BlockError>(items[f].len() as int)
}

/// Walking the items of a record laid out as an FSPEC and its items in FRN
/// order folds each item into the fields in FRN order and ends right after
/// the last one.
pub proof fn lemma_record_walk_encoded<F: RecordFormat>(
    data: Seq<u8>,
    items: Map<u8, Seq<u8>>,
    k: int,
    pos: int,
    acc: F::Fields,
)
    requires
        crate::wire::frns_in_uap_range(items),
        1 <= k,
        crate::wire::holds_at(data, pos, crate::fspec::payload_from(items, k)),
        items_delimit::<F>(data, items),
    ensures
        record_walk::<F>(
            data,
            crate::fspec::encoded_fspec(items.dom()),
            crate::fspec::encoded_fspec(items.dom()).len() as int,
            k,
            pos,
            acc,
        ) == Ok::<(F::Fields, int), BlockError>(
            (
                crate::wire::apply_from(items, k, acc, fold_of::<F>()),
                pos + crate::fspec::payload_from(items, k).len(),
            ),
        ),
    decreases 256 - k,
{
    let fs = crate::fspec::encoded_fspec(items.dom());
    let n = fs.len() as int;
    assert forall|f: u8| #[trigger] items.dom().contains(f) implies 1 <= f <= 252 by {}
    crate::fspec::lemma_parse_inverts_fspec(items.dom());
    crate::fspec::lemma_max_frn_covers(items.dom());
    if k > 7 * n {
        assert forall|f: u8| #[trigger] items.contains_key(f) implies f < k by {
            assert(crate::fspec::frn_set(fs, n).contains(f));
        }
        crate::wire::lemma_tail_empty(items, k, acc, fold_of::<F>());
    } else {
        assert(crate::fspec::frn_set(fs, n).contains(k as u8) == items.contains_key(k as u8));
        if !items.contains_key(k as u8) {
            assert(crate::fspec::payload_from(items, k) =~= crate::fspec::payload_from(items, k + 1));
            lemma_record_walk_encoded::<F>(data, items, k + 1, pos, acc);
        } else {
            let item = items[k as u8];
            let rest = crate::fspec::payload_from(items, k + 1);
            assert(crate::fspec::payload_from(items, k) =~= item + rest);
            let whole = data.subrange(pos, pos + item.len() + rest.len());
            assert(whole == item + rest);
            assert(data.subrange(pos, pos + item.len()) =~= whole.subrange(0, item.len() as int));
            assert(whole.subrange(0, item.len() as int) =~= item);
            assert(crate::wire::holds_at(data, pos, item));
            assert(F::item_len(data, k as u8, pos, acc) == Ok::<int, BlockError>(item.len() as int));
            assert(data.subrange(pos + item.len(), pos + item.len() + rest.len()) =~= whole.subrange(
                item.len() as int,
                (item.len() + rest.len()) as int,
            ));
            assert(whole.subrange(item.len() as int, (item.len() + rest.len()) as int) =~= rest);
            lemma_record_walk_encoded::<F>(
                data,
                items,
                k + 1,
                pos + item.len(),
                F::apply(k as u8, item, acc),
            );
        }
    }
}

/// Decoding a record laid out as an FSPEC and its items in FRN order: the
/// report the folded items make, ending right after the record.
#[verifier::rlimit(50)]
pub proof fn lemma_record_at_encoded<F: RecordFormat>(data: Seq<u8>, pos: int, items: Map<u8, Seq<u8>>)
    requires
        crate::wire::frns_in_uap_range(items),
        exists|f: u8| #[trigger] items.contains_key(f),
        crate::wire::holds_at(data, pos, crate::fspec::record_bytes(items)),
        items_delimit::<F>(data, items),
    ensures
        record_at::<F>(data, pos) == (match F::finish_spec(
            crate::wire::apply_from(items, 1, F::initial(), fold_of::<F>()),
        ) {
            Err(frn) => Err::<(F::Report, int), BlockError>(BlockError::MissingItem(frn)),
            Ok(r) => Ok((r, pos + crate::fspec::record_bytes(items).len())),
        }),
{
    let fs = crate::fspec::encoded_fspec(items.dom());
    let n = fs.len() as int;
    crate::wire::lemma_record_layout(data, pos, items);
    crate::wire::lemma_fspec_shape(items);
    assert(data[pos + n - 1] == fs[n - 1]);
    assert(chain_len_from(data, pos) == n);
    assert(data.subrange(pos, pos + n) == fs);
    lemma_record_walk_encoded::<F>(data, items, 1, pos + n, F::initial());
    let folded = crate::wire::apply_from(items, 1, F::initial(), fold_of::<F>());
    let end = pos + n + crate::fspec::payload_from(items, 1).len();
    assert(record_walk::<F>(data, data.subrange(pos, pos + n), n, 1, pos + n, F::initial()) == Ok::<
        (F::Fields, int),
        BlockError,
    >((folded, end)));
    assert(end == pos + crate::fspec::record_bytes(items).len());
}

} // verus!

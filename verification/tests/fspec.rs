use std::collections::BTreeSet;

use firefly::fspec::{fspec, parse, FspecTooLong, RecordBuilder, MAX_FSPEC_OCTETS};

fn fspec_of(frns: &[u8]) -> Vec<u8> {
    fspec(&frns.iter().copied().collect())
}

/// No items → no FSPEC at all.
#[test]
fn empty_set_has_no_fspec() {
    assert!(fspec_of(&[]).is_empty());
}

/// FRN 1 is the most significant bit of the first octet.
#[test]
fn single_first_item_sets_the_top_bit() {
    assert_eq!(fspec_of(&[1]), vec![0x80]);
}

/// Several items inside the first seven share one octet, no FX.
#[test]
fn items_within_one_octet_need_no_extension() {
    assert_eq!(fspec_of(&[1, 4]), vec![0x90]);
}

/// Reaching FRN 8+ forces a second octet and sets the first octet's FX bit.
#[test]
fn crossing_into_the_second_octet_sets_fx() {
    assert_eq!(fspec_of(&[1, 4, 12]), vec![0x91, 0x08]);
}

/// FRN 7 is the last data bit of octet one; FRN 8 the first of octet two.
#[test]
fn octet_boundary_is_at_frn_seven() {
    assert_eq!(fspec_of(&[7]), vec![0x02]);
    assert_eq!(fspec_of(&[8]), vec![0x01, 0x80]);
}

/// The builder concatenates FSPEC + payloads in ascending FRN order.
#[test]
fn builder_orders_payloads_by_frn() {
    let record = RecordBuilder::new()
        .item(12, vec![0xAA, 0xBB])
        .item(1, vec![0x11, 0x22])
        .finish();
    assert_eq!(record, vec![0x81, 0x08, 0x11, 0x22, 0xAA, 0xBB]);
}

/// Adding the same FRN twice keeps only the last payload.
#[test]
fn builder_replaces_a_repeated_frn() {
    let record = RecordBuilder::new()
        .item(3, vec![0x01])
        .item(3, vec![0x02, 0x03])
        .finish();
    assert_eq!(record, vec![0x20, 0x02, 0x03]);
}

/// `parse` is the inverse of `fspec`.
#[test]
fn parse_inverts_fspec() {
    for frns in [
        vec![1u8],
        vec![1, 4],
        vec![1, 4, 12],
        vec![7],
        vec![8],
        vec![1, 4, 5, 6, 7, 12, 13, 14, 16],
    ] {
        let set: BTreeSet<u8> = frns.iter().copied().collect();
        let octets = fspec(&set);
        let (parsed, consumed) = parse(&octets).expect("well-formed FSPEC");
        assert_eq!(parsed, set, "frns = {frns:?}");
        assert_eq!(consumed, octets.len(), "frns = {frns:?}");
    }
}

/// An empty input yields an empty FRN set and consumes nothing.
#[test]
fn parse_of_empty_input_consumes_nothing() {
    let (frns, consumed) = parse(&[]).expect("empty input is not too long");
    assert!(frns.is_empty());
    assert_eq!(consumed, 0);
}

/// The longest accepted chain parses with correct FRN arithmetic at the edge.
#[test]
fn parse_accepts_maximum_chain_with_exact_frn() {
    let mut chain = vec![0x01u8; MAX_FSPEC_OCTETS - 1];
    chain.push(0x02);
    let (frns, consumed) = parse(&chain).expect("36 octets are allowed");
    assert_eq!(consumed, MAX_FSPEC_OCTETS);
    assert_eq!(frns.into_iter().collect::<Vec<_>>(), vec![252]);
}

/// A hostile FX chain running past the cap is rejected.
#[test]
fn parse_rejects_overlong_fx_chain() {
    let chain = vec![0xFFu8; MAX_FSPEC_OCTETS + 1];
    assert_eq!(parse(&chain), Err(FspecTooLong));
    assert_eq!(parse(&[0xFF; 4096]), Err(FspecTooLong));
}

/// Parsing stops after the first octet whose FX bit is clear.
#[test]
fn parse_stops_at_the_first_octet_without_fx() {
    let (frns, consumed) = parse(&[0x81, 0x40, 0xFF, 0xFF]).expect("short chain");
    assert_eq!(consumed, 2);
    assert_eq!(frns.into_iter().collect::<Vec<_>>(), vec![1, 9]);
}

/// Parsing an FSPEC followed by item data reads exactly the FSPEC octets.
#[test]
fn parse_of_fspec_with_trailing_data_reads_only_the_fspec() {
    for frns in [vec![1u8], vec![1, 4, 12], vec![8], vec![3, 20, 40]] {
        let set: BTreeSet<u8> = frns.iter().copied().collect();
        let octets = fspec(&set);
        let mut bytes = octets.clone();
        bytes.extend_from_slice(&[0xFF, 0x81, 0x00]);
        let (parsed, consumed) = parse(&bytes).expect("well-formed FSPEC");
        assert_eq!(parsed, set, "frns = {frns:?}");
        assert_eq!(consumed, octets.len(), "frns = {frns:?}");
    }
}

/// The order in which items are added does not change the record.
#[test]
fn builder_record_is_independent_of_insertion_order() {
    let a = RecordBuilder::new()
        .item(12, vec![0xAA])
        .item(1, vec![0x11])
        .item(5, vec![0x55, 0x56])
        .finish();
    let b = RecordBuilder::new()
        .item(5, vec![0x55, 0x56])
        .item(12, vec![0xAA])
        .item(1, vec![0x11])
        .finish();
    assert_eq!(a, b);
    assert_eq!(a, vec![0x89, 0x08, 0x11, 0x55, 0x56, 0xAA]);
    let (frns, n) = parse(&a).unwrap();
    assert_eq!(frns.into_iter().collect::<Vec<_>>(), vec![1, 5, 12]);
    assert_eq!(&a[n..], &[0x11, 0x55, 0x56, 0xAA]);
}

/// A repeated item gives the same record as adding only its last payload.
#[test]
fn builder_repeated_item_equals_the_last_payload_alone() {
    let twice = RecordBuilder::new()
        .item(2, vec![0x20])
        .item(9, vec![0x01, 0x02])
        .item(9, vec![0x03])
        .finish();
    let once = RecordBuilder::new().item(2, vec![0x20]).item(9, vec![0x03]).finish();
    assert_eq!(twice, once);
}

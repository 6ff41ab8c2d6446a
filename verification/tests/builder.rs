//! Tests for the cache builder: accepted line shapes, the records they
//! produce, and the errors that abort a build.

use emorand::builder::build_cache;
use emorand::errors::BuildError;
use emorand::grammar::{parse_line, Entry};

fn records_of(cache: &[u8]) -> Vec<u32> {
    assert_eq!(cache.len() % 4, 0);
    cache
        .chunks(4)
        .map(|c| u32::from_le_bytes([c[0], c[1], c[2], c[3]]))
        .collect()
}

#[test]
fn single_line_writes_one_record() {
    let body: Vec<u8> = b"1F600 ;\n".to_vec();
    let cache = build_cache(&body).unwrap();
    assert_eq!(cache.len(), 4);
    assert_eq!(cache, vec![0x00, 0xF6, 0x01, 0x00]);
    assert_eq!(records_of(&cache), vec![0x1F600]);
}

#[test]
fn range_line_writes_ascending_records() {
    let body: Vec<u8> = b"1F601..1F603 ;\n".to_vec();
    let cache = build_cache(&body).unwrap();
    assert_eq!(cache.len(), 12);
    assert_eq!(records_of(&cache), vec![0x1F601, 0x1F602, 0x1F603]);
}

#[test]
fn equal_bounds_range_writes_one_record() {
    let body: Vec<u8> = b"0041..0041 ;\n".to_vec();
    let cache = build_cache(&body).unwrap();
    assert_eq!(records_of(&cache), vec![0x41]);
}

#[test]
fn reversed_range_aborts_build() {
    let body: Vec<u8> = b"1F602..1F601 ;\n".to_vec();
    assert_eq!(build_cache(&body), Err(BuildError::ReversedRange));
}

#[test]
fn oversized_field_aborts_build() {
    let body: Vec<u8> = b"FFFFFFFFF ;\n".to_vec();
    assert_eq!(build_cache(&body), Err(BuildError::InvalidCodePoint));
}

#[test]
fn oversized_bound_reported_before_reversal() {
    // Both bounds are read before they are compared, so the oversized lower
    // bound is the error even though the range is also reversed.
    let body: Vec<u8> = b"100000000..1 ;\n".to_vec();
    assert_eq!(build_cache(&body), Err(BuildError::InvalidCodePoint));
}

#[test]
fn failing_line_aborts_despite_later_good_lines() {
    let body: Vec<u8> = b"1F600 ;\nFFFFFFFFF ;\n1F601 ;\n".to_vec();
    assert_eq!(build_cache(&body), Err(BuildError::InvalidCodePoint));
}

#[test]
fn unmatched_lines_are_ignored() {
    let mut body: Vec<u8> = Vec::new();
    body.extend_from_slice(b"# comment line\n");
    body.extend_from_slice(b"\n");
    body.extend_from_slice(b"1f600 ; lowercase hex is not accepted\n");
    body.extend_from_slice(b"1F600; no space before the semicolon\n");
    body.extend_from_slice(b"1F600 no semicolon at all\n");
    body.extend_from_slice(b"..1F600 ; empty first field\n");
    body.extend_from_slice(b"1F600..  ; empty second field\n");
    body.extend_from_slice(b"G123 ; not a hex digit\n");
    let cache = build_cache(&body).unwrap();
    assert_eq!(cache.len(), 0);
}

#[test]
fn empty_list_builds_empty_cache() {
    let body: Vec<u8> = Vec::new();
    let cache = build_cache(&body).unwrap();
    assert_eq!(cache.len(), 0);
}

#[test]
fn list_end_to_end_three_records() {
    let body: Vec<u8> = b"1F600 ;\n1F601..1F602 ; emoji range\n".to_vec();
    let cache = build_cache(&body).unwrap();
    assert_eq!(records_of(&cache), vec![0x1F600, 0x1F601, 0x1F602]);
}

#[test]
fn crlf_line_endings_are_accepted() {
    let body: Vec<u8> = b"1F600 ;\r\n0041 ;\r\n".to_vec();
    let cache = build_cache(&body).unwrap();
    assert_eq!(records_of(&cache), vec![0x1F600, 0x41]);
}

#[test]
fn final_line_without_newline_counts() {
    let body: Vec<u8> = b"0041 ;".to_vec();
    let cache = build_cache(&body).unwrap();
    assert_eq!(records_of(&cache), vec![0x41]);
}

#[test]
fn text_after_semicolon_is_commentary() {
    let body: Vec<u8> = b"0041  ; Basic Latin letter # 1.0\n".to_vec();
    let cache = build_cache(&body).unwrap();
    assert_eq!(records_of(&cache), vec![0x41]);
}

#[test]
fn parse_line_classifies_lines() {
    assert_eq!(
        parse_line(&b"1F600 ;".to_vec()),
        Ok(Some(Entry::Single(0x1F600)))
    );
    assert_eq!(
        parse_line(&b"0000..0002 ;".to_vec()),
        Ok(Some(Entry::Range(0, 2)))
    );
    assert_eq!(parse_line(&b"# nothing here".to_vec()), Ok(None));
    assert_eq!(parse_line(&Vec::new()), Ok(None));
    assert_eq!(
        parse_line(&b"2..1 ;".to_vec()),
        Err(BuildError::ReversedRange)
    );
    assert_eq!(
        parse_line(&b"FFFFFFFFF ;".to_vec()),
        Err(BuildError::InvalidCodePoint)
    );
}

#[test]
fn largest_code_point_round_trips() {
    let body: Vec<u8> = b"FFFFFFFF ;\n".to_vec();
    let cache = build_cache(&body).unwrap();
    assert_eq!(records_of(&cache), vec![u32::MAX]);
}

//! Tests for the cache reader: corruption detection, the record round trip,
//! decoding, and the uniformity of the random pick.

use emorand::builder::build_cache;
use emorand::errors::ReadError;
use emorand::pick::{decode_record, pick_offset, pick_scalar, read_record, validate_cache_len};

#[test]
fn zero_length_is_corrupt() {
    assert_eq!(validate_cache_len(0), Err(ReadError::Corrupted));
    assert_eq!(pick_scalar(&Vec::new()), Err(ReadError::Corrupted));
}

#[test]
fn torn_record_is_corrupt() {
    assert_eq!(validate_cache_len(5), Err(ReadError::Corrupted));
    assert_eq!(validate_cache_len(7), Err(ReadError::Corrupted));
    assert_eq!(validate_cache_len(8), Ok(()));
    let torn: Vec<u8> = vec![0x41, 0x00, 0x00, 0x00, 0x42];
    assert_eq!(pick_scalar(&torn), Err(ReadError::Corrupted));
}

#[test]
fn empty_build_output_is_rejected_as_corrupt() {
    let cache = build_cache(&Vec::new()).unwrap();
    assert_eq!(cache.len(), 0);
    assert_eq!(pick_scalar(&cache), Err(ReadError::Corrupted));
}

#[test]
fn write_then_read_returns_the_same_record() {
    let body: Vec<u8> = b"1F600 ;\n0041..0043 ;\n10FFFF ;\n".to_vec();
    let cache = build_cache(&body).unwrap();
    let expected: [u32; 5] = [0x1F600, 0x41, 0x42, 0x43, 0x10FFFF];
    assert_eq!(cache.len(), 4 * expected.len());
    for (i, want) in expected.iter().enumerate() {
        assert_eq!(read_record(&cache, i), *want);
    }
}

#[test]
fn decode_record_yields_the_stored_character() {
    assert_eq!(decode_record(0x00, 0xF6, 0x01, 0x00), Ok('\u{1F600}'));
    assert_eq!(decode_record(0x41, 0x00, 0x00, 0x00), Ok('A'));
    assert_eq!(decode_record(0xFF, 0xFF, 0x10, 0x00), Ok('\u{10FFFF}'));
    assert_eq!(decode_record(0xFF, 0xD7, 0x00, 0x00), Ok('\u{D7FF}'));
    assert_eq!(decode_record(0x00, 0xE0, 0x00, 0x00), Ok('\u{E000}'));
}

#[test]
fn surrogate_record_fails_to_decode() {
    assert_eq!(decode_record(0x00, 0xD8, 0x00, 0x00), Err(ReadError::InvalidScalar));
    // First value past the last Unicode scalar value.
    assert_eq!(decode_record(0x00, 0x00, 0x11, 0x00), Err(ReadError::InvalidScalar));
}

#[test]
fn stored_surrogate_fails_the_pick() {
    let body: Vec<u8> = b"D800 ;\n".to_vec();
    let cache = build_cache(&body).unwrap();
    assert_eq!(pick_scalar(&cache), Err(ReadError::InvalidScalar));
}

#[test]
fn pick_returns_only_stored_characters() {
    let body: Vec<u8> = b"1F600 ;\n1F601..1F602 ;\n".to_vec();
    let cache = build_cache(&body).unwrap();
    for _ in 0..200 {
        let c = pick_scalar(&cache).unwrap();
        assert!(c == '\u{1F600}' || c == '\u{1F601}' || c == '\u{1F602}');
    }
}

#[test]
fn picks_leave_the_cache_unchanged() {
    let body: Vec<u8> = b"1F600 ;\n1F601..1F602 ;\n".to_vec();
    let cache = build_cache(&body).unwrap();
    let before = cache.clone();
    for _ in 0..100 {
        let _ = pick_scalar(&cache);
    }
    assert_eq!(cache, before);
    assert_eq!(cache.len(), before.len());
}

#[test]
fn pick_offset_lands_on_record_boundaries() {
    assert_eq!(pick_offset(7), Err(ReadError::Corrupted));
    assert_eq!(pick_offset(0), Err(ReadError::Corrupted));
    for _ in 0..100 {
        let off = pick_offset(8).unwrap();
        assert!(off == 0 || off == 4);
    }
}

#[test]
fn picks_are_spread_evenly_over_records() {
    let body: Vec<u8> = b"0041..0043 ;\n".to_vec();
    let cache = build_cache(&body).unwrap();
    let mut counts: [u32; 3] = [0, 0, 0];
    let samples: u32 = 3000;
    for _ in 0..samples {
        match pick_scalar(&cache).unwrap() {
            'A' => counts[0] += 1,
            'B' => counts[1] += 1,
            'C' => counts[2] += 1,
            other => panic!("unexpected pick: {other}"),
        }
    }
    // Each record should be near samples / 3 = 1000; the bound is far wider
    // than statistical noise (about eight standard deviations).
    for &c in counts.iter() {
        assert!((800..=1200).contains(&c), "skewed pick counts: {counts:?}");
    }
}

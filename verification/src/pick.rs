//! Reading the cache: length validation, the uniformly random choice of one
//! record, and the decoding of that record to a character.

use vstd::prelude::*;
use crate::codec::{decode_word, records_of_bytes, word_of};
use crate::errors::ReadError;
use crate::is_scalar_value;

verus! {

/// Whether a byte length is a sound cache: nonempty, whole records only.
pub open spec fn valid_cache_len(len: int) -> bool {
    len > 0 && len % 4 == 0
}

/// Relies on rand's `thread_rng` and `Rng::gen_range`: a draw from the
/// nonempty range `0..n` lies in it. Nothing more is assumed of the draw.
#[verifier::external_body]
fn random_below(n: u64) -> (r: u64)
    requires
        n >= 1,
    ensures
        r < n,
{
    let mut rng = rand::thread_rng();
    rand::Rng::gen_range(&mut rng, 0..n)
}

/// Checks a cache byte length: an empty cache or a torn record is corruption.
pub fn validate_cache_len(len: u64) -> (r: Result<(), ReadError>)
    ensures
        r is Ok <==> valid_cache_len(len as int),
        r is Err ==> r->Err_0 == ReadError::Corrupted,
{
    if len == 0 || len % 4 != 0 {
        Err(ReadError::Corrupted)
    } else {
        Ok(())
    }
}

/// Rounds a byte offset down to the start of the record holding it.
pub fn record_offset(random_byte: u64, len: u64) -> (off: u64)
    requires
        random_byte < len,
        len % 4 == 0,
    ensures
        off == random_byte - (random_byte % 4),
        off % 4 == 0,
        off + 4 <= len,
        off / 4 == random_byte / 4,
{
    random_byte - random_byte % 4
}

/// Rounding down to a record boundary sends a byte offset `b` to the record
/// `b / 4`, so every record index has exactly four byte offsets selecting it:
/// a uniformly random byte of the cache yields a uniformly random record.
pub proof fn lemma_offset_uniform(b: int, i: int, len: int)
    requires
        0 <= b < len,
        len % 4 == 0,
        0 <= i < len / 4,
    ensures
        (b - b % 4 == 4 * i) <==> (4 * i <= b < 4 * i + 4),
{
}

/// Draws the byte offset of one record of a cache of `len` bytes, uniformly
/// at random; fails exactly when the length signals corruption.
pub fn pick_offset(len: u64) -> (r: Result<u64, ReadError>)
    ensures
        r is Ok <==> valid_cache_len(len as int),
        r is Err ==> r->Err_0 == ReadError::Corrupted,
        r is Ok ==> r->Ok_0 % 4 == 0 && r->Ok_0 + 4 <= len,
{
    match validate_cache_len(len) {
        Err(e) => Err(e),
        Ok(()) => {
            let b = random_below(len);
            Ok(record_offset(b, len))
        },
    }
}

/// Reads the record at a record index of a cache image.
pub fn read_record(cache: &Vec<u8>, index: usize) -> (v: u32)
    requires
        4 * index + 4 <= cache@.len(),
    ensures
        v == records_of_bytes(cache@)[index as int],
{
    let n = cache.len();
    assert(4 * (index as int) + 4 <= n);
    let base = 4 * index;
    decode_word(cache[base], cache[base + 1], cache[base + 2], cache[base + 3])
}

/// Relies on `char::from_u32` (std): it returns `Some` exactly for Unicode
/// scalar values, and the character converts back to the same value.
#[verifier::external_body]
fn char_from_u32(v: u32) -> (r: Option<char>)
    ensures
        r is Some <==> is_scalar_value(v),
        r is Some ==> r->0 as u32 == v,
{
    char::from_u32(v)
}

/// Decodes one record's four bytes, least significant first, to a character.
/// Fails exactly when the stored value is not a Unicode scalar value.
pub fn decode_record(b0: u8, b1: u8, b2: u8, b3: u8) -> (r: Result<char, ReadError>)
    ensures
        r is Ok <==> is_scalar_value(word_of(b0, b1, b2, b3)),
        r is Ok ==> r->Ok_0 as u32 == word_of(b0, b1, b2, b3),
        r is Err ==> r->Err_0 == ReadError::InvalidScalar,
{
    let v = decode_word(b0, b1, b2, b3);
    match char_from_u32(v) {
        Some(c) => Ok(c),
        None => Err(ReadError::InvalidScalar),
    }
}

/// Picks one record of a cache image uniformly at random and decodes it.
/// Corruption is reported exactly on an unsound length; otherwise the result
/// is some record of the cache, decoded, or the invalid-scalar error when the
/// drawn record holds no Unicode scalar value.
pub fn pick_scalar(cache: &Vec<u8>) -> (r: Result<char, ReadError>)
    ensures
        r == Err::<char, ReadError>(ReadError::Corrupted) <==> !valid_cache_len(
            cache@.len() as int),
        r is Ok ==> exists|i: int|
            0 <= i < cache@.len() / 4 && (#[trigger] records_of_bytes(cache@)[i]) == r->Ok_0 as u32
                && is_scalar_value(records_of_bytes(cache@)[i]),
        r == Err::<char, ReadError>(ReadError::InvalidScalar) ==> exists|i: int|
            0 <= i < cache@.len() / 4 && !is_scalar_value(#[trigger] records_of_bytes(cache@)[i]),
{
    let len: u64 = cache.len() as u64;
    if len == 0 || len % 4 != 0 {
        return Err(ReadError::Corrupted);
    }
    let b = random_below(len);
    let off = record_offset(b, len);
    let index = (off / 4) as usize;
    assert(4 * index == off);
    let v = read_record(cache, index);
    match char_from_u32(v) {
        Some(c) => Ok(c),
        None => Err(ReadError::InvalidScalar),
    }
}

} // verus!

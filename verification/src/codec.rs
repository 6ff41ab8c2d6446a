//! The cache record format: each code point is one fixed four-byte record.
//! Records are stored least-significant byte first (little-endian), a fixed
//! order chosen so that a cache file decodes the same way on every host.

use vstd::prelude::*;

verus! {

/// Least-significant byte of a record value.
pub open spec fn byte0(v: u32) -> u8 {
    (v & 0xFF) as u8
}

/// Second byte of a record value.
pub open spec fn byte1(v: u32) -> u8 {
    ((v >> 8) & 0xFF) as u8
}

/// Third byte of a record value.
pub open spec fn byte2(v: u32) -> u8 {
    ((v >> 16) & 0xFF) as u8
}

/// Most-significant byte of a record value.
pub open spec fn byte3(v: u32) -> u8 {
    ((v >> 24) & 0xFF) as u8
}

/// The four bytes of one record, least significant first.
pub open spec fn le_bytes(v: u32) -> Seq<u8> {
    seq![byte0(v), byte1(v), byte2(v), byte3(v)]
}

/// The record value encoded by four bytes, least significant first.
pub open spec fn word_of(b0: u8, b1: u8, b2: u8, b3: u8) -> u32 {
    (b0 as u32) | ((b1 as u32) << 8) | ((b2 as u32) << 16) | ((b3 as u32) << 24)
}

/// The whole byte image of a sequence of records.
pub open spec fn bytes_of_records(rs: Seq<u32>) -> Seq<u8> {
    Seq::new(4 * rs.len(), |j: int| le_bytes(rs[j / 4])[j % 4])
}

/// The records held by a byte image; meaningful when the image's length is a
/// multiple of four.
pub open spec fn records_of_bytes(bs: Seq<u8>) -> Seq<u32> {
    Seq::new(bs.len() / 4, |i: int| word_of(bs[4 * i], bs[4 * i + 1], bs[4 * i + 2], bs[4 * i + 3]))
}

/// Decomposing a record value into its four bytes and reassembling them
/// yields the value back.
pub proof fn lemma_word_of_le_bytes(v: u32)
    ensures
        word_of(byte0(v), byte1(v), byte2(v), byte3(v)) == v,
{
    assert(((v & 0xFF) as u8 as u32) | ((((v >> 8) & 0xFF) as u8 as u32) << 8) | ((((v >> 16)
        & 0xFF) as u8 as u32) << 16) | ((((v >> 24) & 0xFF) as u8 as u32) << 24) == v)
        by (bit_vector);
}

/// Appending one record appends exactly its four bytes to the byte image.
pub proof fn lemma_bytes_of_records_push(rs: Seq<u32>, v: u32)
    ensures
        bytes_of_records(rs.push(v)) == bytes_of_records(rs) + le_bytes(v),
{
    let lhs = bytes_of_records(rs.push(v));
    let rhs = bytes_of_records(rs) + le_bytes(v);
    assert forall|j: int| 0 <= j < lhs.len() implies lhs[j] == rhs[j] by {
        if j < 4 * rs.len() {
            assert(j / 4 < rs.len());
            assert(rs.push(v)[j / 4] == rs[j / 4]);
        } else {
            assert(j / 4 == rs.len());
            assert(j % 4 == j - 4 * rs.len());
        }
    }
    assert(lhs =~= rhs);
}

/// Round trip: the byte image of any record sequence decodes to the same
/// records, so a value written at a record index is read back unchanged.
pub proof fn lemma_records_round_trip(rs: Seq<u32>)
    ensures
        records_of_bytes(bytes_of_records(rs)) == rs,
{
    let bs = bytes_of_records(rs);
    assert forall|i: int| 0 <= i < rs.len() implies records_of_bytes(bs)[i] == rs[i] by {
        assert((4 * i) / 4 == i && (4 * i) % 4 == 0);
        assert((4 * i + 1) / 4 == i && (4 * i + 1) % 4 == 1);
        assert((4 * i + 2) / 4 == i && (4 * i + 2) % 4 == 2);
        assert((4 * i + 3) / 4 == i && (4 * i + 3) % 4 == 3);
        assert(bs[4 * i] == byte0(rs[i]));
        assert(bs[4 * i + 1] == byte1(rs[i]));
        assert(bs[4 * i + 2] == byte2(rs[i]));
        assert(bs[4 * i + 3] == byte3(rs[i]));
        lemma_word_of_le_bytes(rs[i]);
    }
    assert(records_of_bytes(bs) =~= rs);
}

/// Appends the four-byte record of `v` to a byte buffer.
pub fn write_record(out: &mut Vec<u8>, v: u32)
    ensures
        final(out)@ == old(out)@ + le_bytes(v),
{
    proof {
        assert(v & 0xFF <= 0xFF && (v >> 8) & 0xFF <= 0xFF && (v >> 16) & 0xFF <= 0xFF && (v >> 24)
            & 0xFF <= 0xFF) by (bit_vector);
    }
    out.push((v & 0xFF) as u8);
    out.push(((v >> 8) & 0xFF) as u8);
    out.push(((v >> 16) & 0xFF) as u8);
    out.push(((v >> 24) & 0xFF) as u8);
    assert(out@ =~= old(out)@ + le_bytes(v));
}

/// Reassembles a record value from its four bytes, least significant first.
pub fn decode_word(b0: u8, b1: u8, b2: u8, b3: u8) -> (v: u32)
    ensures
        v == word_of(b0, b1, b2, b3),
{
    (b0 as u32) | ((b1 as u32) << 8) | ((b2 as u32) << 16) | ((b3 as u32) << 24)
}

} // verus!

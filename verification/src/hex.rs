//! Uppercase hexadecimal fields of the source list: the number such a field
//! denotes, and a parser that rejects values too large for a code point.

use vstd::prelude::*;
use crate::errors::BuildError;

verus! {

/// Whether a byte is an uppercase hexadecimal digit, the only digits an
/// accepted line of the source list may hold.
pub open spec fn is_hex_digit(b: u8) -> bool {
    (0x30 <= b && b <= 0x39) || (0x41 <= b && b <= 0x46)
}

/// The numeric value of one hexadecimal digit.
pub open spec fn hex_digit_val(b: u8) -> nat {
    if 0x30 <= b && b <= 0x39 {
        (b - 0x30) as nat
    } else {
        (b - 0x41 + 10) as nat
    }
}

/// Whether every byte of a field is a hexadecimal digit.
pub open spec fn all_hex(s: Seq<u8>) -> bool {
    forall|i: int| 0 <= i < s.len() ==> is_hex_digit(#[trigger] s[i])
}

/// The number denoted by a hexadecimal field, most significant digit first.
pub open spec fn hex_val(s: Seq<u8>) -> nat
    decreases s.len(),
{
    if s.len() == 0 {
        0
    } else {
        16 * hex_val(s.drop_last()) + hex_digit_val(s.last())
    }
}

/// Reading one more digit multiplies the prefix's value by sixteen and adds
/// that digit.
pub proof fn lemma_hex_val_take_succ(s: Seq<u8>, i: int)
    requires
        0 <= i < s.len(),
    ensures
        hex_val(s.take(i + 1)) == 16 * hex_val(s.take(i)) + hex_digit_val(s[i]),
{
    assert(s.take(i + 1).drop_last() =~= s.take(i));
    assert(s.take(i + 1).last() == s[i]);
}

/// A field's value is at least the value of any of its prefixes.
pub proof fn lemma_hex_val_prefix_le(s: Seq<u8>, i: int)
    requires
        0 <= i <= s.len(),
    ensures
        hex_val(s) >= hex_val(s.take(i)),
    decreases s.len() - i,
{
    if i == s.len() {
        assert(s.take(i) =~= s);
    } else {
        lemma_hex_val_take_succ(s, i);
        lemma_hex_val_prefix_le(s, i + 1);
    }
}

/// Once a proper prefix is too large for a code point, so is the whole field.
pub proof fn lemma_hex_val_overflow(s: Seq<u8>, i: int)
    requires
        0 <= i < s.len(),
        hex_val(s.take(i)) > 0x0FFF_FFFF,
    ensures
        hex_val(s) > u32::MAX,
{
    lemma_hex_val_take_succ(s, i);
    lemma_hex_val_prefix_le(s, i + 1);
}

/// Whether a byte is an uppercase hexadecimal digit.
pub fn hex_digit_check(b: u8) -> (r: bool)
    ensures
        r == is_hex_digit(b),
{
    (0x30 <= b && b <= 0x39) || (0x41 <= b && b <= 0x46)
}

/// The numeric value of one hexadecimal digit byte.
fn hex_digit_value(b: u8) -> (d: u8)
    requires
        is_hex_digit(b),
    ensures
        d as nat == hex_digit_val(b),
        d <= 15,
{
    if b <= 0x39 {
        b - 0x30
    } else {
        b - 0x41 + 10
    }
}

/// Parses the hexadecimal field `line[from..to]` as a code-point value.
/// Returns `Ok` exactly when the field's value fits in 32 bits; a larger
/// field is the invalid-code-point error.
pub fn parse_hex(line: &Vec<u8>, from: usize, to: usize) -> (r: Result<u32, BuildError>)
    requires
        from < to <= line@.len(),
        all_hex(line@.subrange(from as int, to as int)),
    ensures
        r is Ok <==> hex_val(line@.subrange(from as int, to as int)) <= u32::MAX,
        r is Ok ==> r->Ok_0 as nat == hex_val(line@.subrange(from as int, to as int)),
        r is Err ==> r == Result::<u32, BuildError>::Err(BuildError::InvalidCodePoint),
{
    let ghost field = line@.subrange(from as int, to as int);
    let mut acc: u32 = 0;
    let mut i: usize = from;
    while i < to
        invariant
            from <= i <= to <= line@.len(),
            all_hex(field),
            field == line@.subrange(from as int, to as int),
            acc as nat == hex_val(field.take(i - from)),
        decreases to - i,
    {
        assert(field[i - from] == line@[i as int]);
        let d = hex_digit_value(line[i]);
        if acc > 0x0FFF_FFFF {
            proof {
                lemma_hex_val_overflow(field, i - from);
            }
            return Err(BuildError::InvalidCodePoint);
        }
        proof {
            lemma_hex_val_take_succ(field, i - from);
        }
        acc = acc * 16 + d as u32;
        i = i + 1;
    }
    assert(field.take(to - from) =~= field);
    Ok(acc)
}

} // verus!

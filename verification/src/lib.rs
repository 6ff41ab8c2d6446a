//! A verified core for a random-emoji picker: parsing of the Unicode
//! emoji-sequences list, a flat binary cache of 4-byte code-point records,
//! and the logic that selects and decodes one record uniformly at random.

use vstd::prelude::*;

pub mod builder;
pub mod codec;
pub mod errors;
pub mod grammar;
pub mod hex;
pub mod lines;
pub mod pick;

verus! {

/// A Unicode scalar value: any code point outside the surrogate block
/// and at most `0x10FFFF`.
pub open spec fn is_scalar_value(v: u32) -> bool {
    v < 0xD800 || (0xE000 <= v && v <= 0x10FFFF)
}

} // verus!

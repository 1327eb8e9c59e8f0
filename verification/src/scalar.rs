//! Scalars as ordered integer keys.
//!
//! A scalar is carried as the sign-magnitude reading of its IEEE 754
//! single-precision encoding: the low 31 bits give the magnitude of the key and
//! the top bit its sign. For numbers (everything but the not-a-number
//! encodings) this reading is monotone, so comparing two keys as integers
//! compares the numbers they encode, zero is key `0` whatever its sign bit, and
//! negating a key negates the number. The encodings that are no numbers have
//! keys beyond those of the infinities, so that none of them lies in an
//! interval between two numbers. Where the tracer decides on the outcome of
//! arithmetic it compares with [`lt`], as numbers compare: what is no number
//! is neither less nor more than anything.
use vstd::prelude::*;

verus! {

/// An encoded scalar. Every key produced by [`from_bits`] is above `i32::MIN`.
pub type Scalar = i32;

/// The key of zero.
pub const ZERO: Scalar = 0;

/// The key of one (encoding `0x3F80_0000`).
pub const ONE: Scalar = 0x3F80_0000;

/// The key of positive infinity (encoding `0x7F80_0000`).
pub const INFINITY: Scalar = 0x7F80_0000;

/// The key of negative infinity.
pub const NEG_INFINITY: Scalar = -0x7F80_0000;

/// The key of the smallest dot product that does not count as parallel
/// (encoding `0x322B_CC77`, a hundred-millionth).
pub const TINY: Scalar = 0x322B_CC77;

/// The key of the least thickness of a box along any axis (encoding
/// `0x38D1_B717`, a ten-thousandth).
pub const DELTA: Scalar = 0x38D1_B717;

/// The key of the nearest distance at which a traced ray may hit (encoding
/// `0x3A83_126F`, a thousandth).
pub const EPSILON: Scalar = 0x3A83_126F;

/// The key of the opposite number. The one integer that is no key is left as
/// it is.
pub open spec fn opposite(key: Scalar) -> Scalar {
    if key == i32::MIN {
        key
    } else {
        (-key) as i32
    }
}

/// The key of the absolute value.
pub open spec fn magnitude(key: Scalar) -> Scalar {
    if key < 0 {
        opposite(key)
    } else {
        key
    }
}

/// Whether `key` encodes a number, the infinities included: the encodings
/// that are no numbers have keys beyond those of the infinities.
pub open spec fn is_number(key: Scalar) -> bool {
    NEG_INFINITY <= key <= INFINITY
}

/// Whether `a` is less than `b` as numbers are: both are numbers, and the key
/// of `a` is the lower.
pub open spec fn less(a: Scalar, b: Scalar) -> bool {
    is_number(a) && is_number(b) && a < b
}

/// The key that the encoding `bits` stands for.
pub open spec fn key_of(bits: u32) -> int {
    if bits >= 0x8000_0000 {
        -(bits - 0x8000_0000)
    } else {
        bits as int
    }
}

/// Reads an encoding as a key.
pub fn from_bits(bits: u32) -> (key: Scalar)
    ensures
        key == key_of(bits),
        key > i32::MIN,
{
    if bits >= 0x8000_0000 {
        let magnitude: u32 = bits - 0x8000_0000;
        -(magnitude as i32)
    } else {
        bits as i32
    }
}

/// Writes a key back as an encoding. Zero comes back with a clear sign bit.
/// The one integer that is no key has no encoding.
pub fn to_bits(key: Scalar) -> (bits: u32)
    requires
        key > i32::MIN,
    ensures
        key_of(bits) == key,
        key >= 0 ==> bits == key,
        key < 0 ==> bits == 0x8000_0000 - key,
{
    if key < 0 {
        let magnitude: u32 = (-key) as u32;
        magnitude + 0x8000_0000
    } else {
        key as u32
    }
}

/// Whether the scalar is a number, the infinities included.
pub fn number(key: Scalar) -> (yes: bool)
    ensures
        yes == is_number(key),
{
    NEG_INFINITY <= key && key <= INFINITY
}

/// Whether `a` is less than `b`, which nothing is that is no number.
pub fn lt(a: Scalar, b: Scalar) -> (yes: bool)
    ensures
        yes == less(a, b),
{
    number(a) && number(b) && a < b
}

/// Negates a scalar.
pub fn negate(key: Scalar) -> (negated: Scalar)
    ensures
        negated == opposite(key),
{
    if key == i32::MIN {
        key
    } else {
        -key
    }
}

/// The absolute value of a scalar.
pub fn abs(key: Scalar) -> (absolute: Scalar)
    ensures
        absolute == magnitude(key),
{
    if key < 0 {
        negate(key)
    } else {
        key
    }
}

/// The encodings that differ only in the sign bit have opposite keys.
pub proof fn lemma_sign_bit_negates(bits: u32)
    requires
        bits < 0x8000_0000,
    ensures
        key_of((bits + 0x8000_0000) as u32) == -key_of(bits),
{
}

/// Two encodings with the same key are the same encoding, unless one of them
/// is that of negative zero: `to_bits` undoes `from_bits` everywhere else.
pub proof fn lemma_key_tells_encoding(a: u32, b: u32)
    requires
        key_of(a) == key_of(b),
        a != 0x8000_0000,
        b != 0x8000_0000,
    ensures
        a == b,
{
}

} // verus!

//! The length-class classifier.
//!
//! A Unicode scalar value falls into one of four classes, by the same
//! magnitude thresholds UTF-8 itself uses.  A class fixes the data-bit
//! capacity a value is widened to before encoding and the number of KIM
//! bytes emitted for it; the KIM byte count is never re-minimized from the
//! value's actual leading zero bits.

use vstd::prelude::*;

verus! {

/// The largest integer any length class can hold: class 4 carries 21 data
/// bits.  Every Unicode scalar value (at most 0x10FFFF) fits with margin.
pub const MAX_ENCODABLE: u32 = 0x1FFFFF;

/// The length class of a scalar value: the magnitude thresholds of UTF-8's
/// own 1-, 2-, 3- and 4-byte classes.
pub open spec fn length_class(v: u32) -> int
    recommends
        v <= MAX_ENCODABLE,
{
    if v < 0x80 {
        1
    } else if v < 0x800 {
        2
    } else if v < 0x10000 {
        3
    } else {
        4
    }
}

/// The data-bit capacity of a class: how many bits a value of that class
/// is widened to before being split into 7-bit groups.
pub open spec fn data_bits(class: int) -> int
    recommends
        1 <= class <= 4,
{
    if class == 1 {
        7
    } else if class == 2 {
        11
    } else if class == 3 {
        16
    } else {
        21
    }
}

/// The number of KIM bytes a class encodes to: one byte per 7-bit group,
/// after the value is left-padded to a multiple of 7 bits.
pub open spec fn kim_byte_count(class: int) -> int
    recommends
        1 <= class <= 4,
{
    if class == 1 {
        1
    } else if class == 2 {
        2
    } else {
        3
    }
}

/// The number of bytes the ordinary UTF-8 encoding of a value of this
/// class takes: the class number itself.
pub open spec fn utf8_byte_count(class: int) -> int
    recommends
        1 <= class <= 4,
{
    class
}

/// Every value in a class fits that class's data-bit capacity, and the
/// padding needed to reach a multiple of 7 bits never reaches a full group.
pub proof fn lemma_class_capacity(v: u32)
    requires
        v <= MAX_ENCODABLE,
    ensures
        1 <= length_class(v) <= 4,
        v < 1u32 << data_bits(length_class(v)),
        7 * kim_byte_count(length_class(v)) - data_bits(length_class(v)) < 7,
{
    assert(1u32 << 7 == 0x80 && 1u32 << 11 == 0x800 && 1u32 << 16 == 0x10000 && 1u32 << 21
        == 0x200000) by (bit_vector);
}

} // verus!

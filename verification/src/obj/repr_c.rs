//! Object tagging in MicroPython's representation C, on 32-bit words: small
//! integers end in `1`; qstrs and immediate objects are the words that read
//! `0x6` and `0xe` under the mask `0xff80_000f`; the other words that end in
//! `10` are boxed floats, and pointers end in `00`.

use vstd::prelude::*;

verus! {

pub open spec fn spec_is_small_int(o: u32) -> bool {
    o & 1 != 0
}

pub open spec fn spec_is_qstr(o: u32) -> bool {
    o & 0xff80_000f == 6
}

pub open spec fn spec_is_immediate(o: u32) -> bool {
    o & 0xff80_000f == 0xe
}

pub open spec fn spec_is_ptr(o: u32) -> bool {
    o & 3 == 0
}

pub open spec fn spec_is_float(o: u32) -> bool {
    o & 3 == 2 && o & 0xff80_0007 != 6
}

pub fn is_small_int(o: u32) -> (b: bool)
    ensures
        b == spec_is_small_int(o),
{
    o & 1 != 0
}

/// The integer of a small-int word: the word shifted right by one, the sign
/// kept.
pub fn small_int_value(o: u32) -> (v: i32)
    ensures
        v == (o as i32) >> 1u32,
{
    (o as i32) >> 1u32
}

pub fn new_small_int(v: i32) -> (o: u32)
    ensures
        o == ((v as u32) << 1u32) | 1,
{
    ((v as u32) << 1u32) | 1
}

pub fn is_qstr(o: u32) -> (b: bool)
    ensures
        b == spec_is_qstr(o),
{
    o & 0xff80_000f == 6
}

pub fn qstr_value(o: u32) -> (q: u32)
    ensures
        q == o >> 4u32,
{
    o >> 4u32
}

pub fn new_qstr(q: u32) -> (o: u32)
    ensures
        o == (q << 4u32) | 6,
{
    (q << 4u32) | 6
}

pub fn is_immediate(o: u32) -> (b: bool)
    ensures
        b == spec_is_immediate(o),
{
    o & 0xff80_000f == 0xe
}

pub fn immediate_value(o: u32) -> (v: u32)
    ensures
        v == o >> 4u32,
{
    o >> 4u32
}

pub fn new_immediate(v: u32) -> (o: u32)
    ensures
        o == (v << 4u32) | 0xe,
{
    (v << 4u32) | 0xe
}

pub fn is_obj(o: u32) -> (b: bool)
    ensures
        b == spec_is_ptr(o),
{
    o & 3 == 0
}

pub fn mp_obj_is_float(o: u32) -> (b: bool)
    ensures
        b == spec_is_float(o),
{
    o & 3 == 2 && o & 0xff80_0007 != 6
}

/// A word is at most one of a small int, a qstr, an immediate object, a
/// float and a pointer.
pub proof fn lemma_tags_exclusive(o: u32)
    ensures
        spec_is_small_int(o) ==> !spec_is_qstr(o) && !spec_is_immediate(o) && !spec_is_float(o)
            && !spec_is_ptr(o),
        spec_is_qstr(o) ==> !spec_is_immediate(o) && !spec_is_float(o) && !spec_is_ptr(o),
        spec_is_immediate(o) ==> !spec_is_float(o) && !spec_is_ptr(o),
        spec_is_float(o) ==> !spec_is_ptr(o),
{
    assert(o & 1 != 0 ==> o & 0xff80_000f != 6 && o & 0xff80_000f != 0xe && !(o & 3 == 2 && o
        & 0xff80_0007 != 6) && o & 3 != 0) by (bit_vector);
    assert(o & 0xff80_000f == 6 ==> o & 0xff80_000f != 0xe && !(o & 3 == 2 && o & 0xff80_0007
        != 6) && o & 3 != 0) by (bit_vector);
    assert(o & 0xff80_000f == 0xe ==> !(o & 3 == 2 && o & 0xff80_0007 != 6) && o & 3 != 0)
        by (bit_vector);
}

/// A small integer of 31 bits is tagged as such and reads back unchanged.
pub proof fn lemma_small_int_round_trip(v: i32)
    requires
        -0x4000_0000 <= v < 0x4000_0000,
    ensures
        spec_is_small_int(((v as u32) << 1u32) | 1),
        ((((v as u32) << 1u32) | 1) as i32) >> 1u32 == v,
{
    assert(-0x4000_0000 <= v < 0x4000_0000 ==> (((v as u32) << 1u32) | 1) & 1 != 0 && ((((
        v as u32) << 1u32) | 1) as i32) >> 1u32 == v) by (bit_vector);
}

/// A qstr or an immediate value below 2^19, which keeps the word's top nine
/// bits clear, is tagged as such and reads back unchanged.
pub proof fn lemma_qstr_and_immediate_round_trip(v: u32)
    requires
        v < 0x8_0000,
    ensures
        spec_is_qstr((v << 4u32) | 6),
        ((v << 4u32) | 6) >> 4u32 == v,
        spec_is_immediate((v << 4u32) | 0xe),
        ((v << 4u32) | 0xe) >> 4u32 == v,
{
    assert(v < 0x8_0000 ==> ((v << 4u32) | 6) & 0xff80_000f == 6 && ((v << 4u32) | 6) >> 4u32 == v
        && ((v << 4u32) | 0xe) & 0xff80_000f == 0xe && ((v << 4u32) | 0xe) >> 4u32 == v)
        by (bit_vector);
}

} // verus!

//! Object tagging in MicroPython's representation D: a 64-bit word whose top
//! sixteen bits tell pointers (`0x0000`), small integers (`0x0001`), qstrs
//! (`0x0002`) and immediate objects (`0x0003`) apart.

use vstd::prelude::*;

verus! {

pub open spec fn spec_is_small_int(o: u64) -> bool {
    o & 0xffff_0000_0000_0000 == 0x0001_0000_0000_0000
}

pub open spec fn spec_is_qstr(o: u64) -> bool {
    o & 0xffff_0000_0000_0000 == 0x0002_0000_0000_0000
}

pub open spec fn spec_is_immediate(o: u64) -> bool {
    o & 0xffff_0000_0000_0000 == 0x0003_0000_0000_0000
}

pub open spec fn spec_is_ptr(o: u64) -> bool {
    o & 0xffff_0000_0000_0000 == 0
}

pub fn is_small_int(o: u64) -> (b: bool)
    ensures
        b == spec_is_small_int(o),
{
    o & 0xffff_0000_0000_0000 == 0x0001_0000_0000_0000
}

/// The integer of a small-int word: its 47 bits after the tag, sign-extended.
pub fn small_int_value(o: u64) -> (v: i64)
    ensures
        v == ((o << 16u64) as i64) >> 17u64,
{
    ((o << 16u64) as i64) >> 17u64
}

pub fn new_small_int(v: i64) -> (o: u64)
    ensures
        o == (((v as u64) & 0x7fff_ffff_ffff) << 1u64) | 0x0001_0000_0000_0001,
{
    (((v as u64) & 0x7fff_ffff_ffff) << 1u64) | 0x0001_0000_0000_0001
}

pub fn is_qstr(o: u64) -> (b: bool)
    ensures
        b == spec_is_qstr(o),
{
    o & 0xffff_0000_0000_0000 == 0x0002_0000_0000_0000
}

pub fn qstr_value(o: u64) -> (q: usize)
    ensures
        q == ((o as u32) >> 1u32) as usize,
{
    ((o as u32) >> 1u32) as usize
}

pub fn new_qstr(q: usize) -> (o: u64)
    ensures
        o == (((q as u32) as u64) << 1u64) | 0x0002_0000_0000_0001,
{
    (((q as u32) as u64) << 1u64) | 0x0002_0000_0000_0001
}

pub fn is_immediate(o: u64) -> (b: bool)
    ensures
        b == spec_is_immediate(o),
{
    o & 0xffff_0000_0000_0000 == 0x0003_0000_0000_0000
}

pub fn immediate_value(o: u64) -> (v: u64)
    ensures
        v == (o >> 46u64) & 3,
{
    (o >> 46u64) & 3
}

pub fn new_immediate(v: u64) -> (o: u64)
    ensures
        o == (v << 46u64) | 0x0003_0000_0000_0000,
{
    (v << 46u64) | 0x0003_0000_0000_0000
}

pub fn is_ptr(o: u64) -> (b: bool)
    ensures
        b == spec_is_ptr(o),
{
    o & 0xffff_0000_0000_0000 == 0
}

/// A word is at most one of a pointer, a small int, a qstr and an immediate
/// object.
pub proof fn lemma_tags_exclusive(o: u64)
    ensures
        spec_is_small_int(o) ==> !spec_is_qstr(o) && !spec_is_immediate(o) && !spec_is_ptr(o),
        spec_is_qstr(o) ==> !spec_is_immediate(o) && !spec_is_ptr(o),
        spec_is_immediate(o) ==> !spec_is_ptr(o),
{
}

/// An integer of 47 bits is tagged as a small int and reads back unchanged.
pub proof fn lemma_small_int_round_trip(v: i64)
    requires
        -0x4000_0000_0000 <= v < 0x4000_0000_0000,
    ensures
        spec_is_small_int((((v as u64) & 0x7fff_ffff_ffff) << 1u64) | 0x0001_0000_0000_0001),
        ((((((v as u64) & 0x7fff_ffff_ffff) << 1u64) | 0x0001_0000_0000_0001) << 16u64) as i64)
            >> 17u64 == v,
{
    assert(-0x4000_0000_0000 <= v < 0x4000_0000_0000 ==> (((((v as u64) & 0x7fff_ffff_ffff)
        << 1u64) | 0x0001_0000_0000_0001) & 0xffff_0000_0000_0000) == 0x0001_0000_0000_0000
        && ((((((v as u64) & 0x7fff_ffff_ffff) << 1u64) | 0x0001_0000_0000_0001) << 16u64) as i64)
        >> 17u64 == v) by (bit_vector);
}

/// A qstr of 31 bits, and an immediate value of 2 bits, are tagged as such
/// and read back unchanged.
pub proof fn lemma_qstr_and_immediate_round_trip(q: usize, v: u64)
    requires
        q < 0x8000_0000,
        v < 4,
    ensures
        spec_is_qstr((((q as u32) as u64) << 1u64) | 0x0002_0000_0000_0001),
        ((((((q as u32) as u64) << 1u64) | 0x0002_0000_0000_0001) as u32) >> 1u32) as usize == q,
        spec_is_immediate((v << 46u64) | 0x0003_0000_0000_0000),
        (((v << 46u64) | 0x0003_0000_0000_0000) >> 46u64) & 3 == v,
{
    let w = q as u32;
    assert(w == q);
    assert(w < 0x8000_0000 ==> ((((w as u64) << 1u64) | 0x0002_0000_0000_0001)
        & 0xffff_0000_0000_0000) == 0x0002_0000_0000_0000 && ((((w as u64) << 1u64)
        | 0x0002_0000_0000_0001) as u32) >> 1u32 == w) by (bit_vector);
    assert(v < 4 ==> (((v << 46u64) | 0x0003_0000_0000_0000) & 0xffff_0000_0000_0000)
        == 0x0003_0000_0000_0000 && (((v << 46u64) | 0x0003_0000_0000_0000) >> 46u64) & 3 == v)
        by (bit_vector);
}

/// Whether the word is a boxed float: a float's bits, offset so that its top
/// fourteen bits are never all zero.
pub open spec fn spec_is_float(o: u64) -> bool {
    o & 0xfffc_0000_0000_0000 != 0
}

pub fn mp_obj_is_float(o: u64) -> (b: bool)
    ensures
        b == spec_is_float(o),
{
    o & 0xfffc_0000_0000_0000 != 0
}

/// Pointers, small ints, qstrs and immediate objects are never taken for
/// floats, and every word that is none of them is one.
pub proof fn lemma_float_is_the_rest(o: u64)
    ensures
        spec_is_float(o) <==> !spec_is_ptr(o) && !spec_is_small_int(o) && !spec_is_qstr(o)
            && !spec_is_immediate(o),
{
    assert((o & 0xfffc_0000_0000_0000 != 0) <==> !(o & 0xffff_0000_0000_0000 == 0) && !(o
        & 0xffff_0000_0000_0000 == 0x0001_0000_0000_0000) && !(o & 0xffff_0000_0000_0000
        == 0x0002_0000_0000_0000) && !(o & 0xffff_0000_0000_0000 == 0x0003_0000_0000_0000))
        by (bit_vector);
}

} // verus!

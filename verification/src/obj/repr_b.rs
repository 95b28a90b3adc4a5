//! Object tagging in MicroPython's representation B: a word whose low bits
//! tell small integers (`...01`), qstrs (`...011`), immediate objects
//! (`...111`) and pointers (`...0`) apart.

use vstd::prelude::*;

verus! {

pub open spec fn spec_is_small_int(o: usize) -> bool {
    o & 3 == 1
}

pub open spec fn spec_is_qstr(o: usize) -> bool {
    o & 7 == 3
}

pub open spec fn spec_is_immediate(o: usize) -> bool {
    o & 7 == 7
}

pub open spec fn spec_is_ptr(o: usize) -> bool {
    o & 1 == 0
}

pub fn is_small_int(o: usize) -> (b: bool)
    ensures
        b == spec_is_small_int(o),
{
    o & 3 == 1
}

/// The integer of a small-int word: the word shifted right by two, the sign
/// kept.
pub fn small_int_value(o: usize) -> (v: isize)
    ensures
        v == (o as isize) >> 2usize,
{
    (o as isize) >> 2usize
}

pub fn new_small_int(v: isize) -> (o: usize)
    ensures
        o == ((v as usize) << 2usize) | 1,
{
    ((v as usize) << 2usize) | 1
}

pub fn is_qstr(o: usize) -> (b: bool)
    ensures
        b == spec_is_qstr(o),
{
    o & 7 == 3
}

pub fn qstr_value(o: usize) -> (q: usize)
    ensures
        q == o >> 3usize,
{
    o >> 3usize
}

pub fn new_qstr(q: usize) -> (o: usize)
    ensures
        o == (q << 3usize) | 3,
{
    (q << 3usize) | 3
}

pub fn is_immediate(o: usize) -> (b: bool)
    ensures
        b == spec_is_immediate(o),
{
    o & 7 == 7
}

pub fn immediate_value(o: usize) -> (v: usize)
    ensures
        v == o >> 3usize,
{
    o >> 3usize
}

pub fn new_immediate(v: usize) -> (o: usize)
    ensures
        o == (v << 3usize) | 7,
{
    (v << 3usize) | 7
}

pub fn is_obj(o: usize) -> (b: bool)
    ensures
        b == spec_is_ptr(o),
{
    o & 1 == 0
}

/// A word is at most one of a small int, a qstr, an immediate object and a
/// pointer.
pub proof fn lemma_tags_exclusive(o: usize)
    ensures
        spec_is_small_int(o) ==> !spec_is_qstr(o) && !spec_is_immediate(o) && !spec_is_ptr(o),
        spec_is_qstr(o) ==> !spec_is_immediate(o) && !spec_is_ptr(o),
        spec_is_immediate(o) ==> !spec_is_ptr(o),
{
    assert(o & 3 == 1 ==> o & 7 != 3 && o & 7 != 7 && o & 1 != 0) by (bit_vector);
    assert(o & 7 == 3 ==> o & 1 != 0) by (bit_vector);
    assert(o & 7 == 7 ==> o & 1 != 0) by (bit_vector);
}

/// A small integer that fits the word less its two tag bits is tagged as
/// such and reads back unchanged.
pub proof fn lemma_small_int_round_trip(v: isize)
    requires
        (v << 2usize) >> 2usize == v,
    ensures
        spec_is_small_int(((v as usize) << 2usize) | 1),
        ((((v as usize) << 2usize) | 1) as isize) >> 2usize == v,
{
    assert((v << 2usize) >> 2usize == v ==> (((v as usize) << 2usize) | 1) & 3 == 1 && ((((
        v as usize) << 2usize) | 1) as isize) >> 2usize == v) by (bit_vector);
}

/// A qstr or an immediate value that fits the word less its three tag bits
/// is tagged as such and reads back unchanged.
pub proof fn lemma_qstr_and_immediate_round_trip(v: usize)
    requires
        (v << 3usize) >> 3usize == v,
    ensures
        spec_is_qstr((v << 3usize) | 3),
        ((v << 3usize) | 3) >> 3usize == v,
        spec_is_immediate((v << 3usize) | 7),
        ((v << 3usize) | 7) >> 3usize == v,
{
    assert((v << 3usize) >> 3usize == v ==> ((v << 3usize) | 3) & 7 == 3 && ((v << 3usize) | 3)
        >> 3usize == v && ((v << 3usize) | 7) & 7 == 7 && ((v << 3usize) | 7) >> 3usize == v)
        by (bit_vector);
}

} // verus!

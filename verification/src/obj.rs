//! Object-layout helpers of the MicroPython C API.

pub mod repr_a;
pub mod repr_b;
pub mod repr_c;
pub mod repr_d;

use vstd::prelude::*;

use crate::obj::repr_a::{
    spec_is_immediate, spec_is_ptr, spec_is_qstr, spec_is_small_int,
};

verus! {

/// A MicroPython object word, tagged as in representation A.
#[derive(Debug, Clone, Copy, PartialEq, Eq, Structural)]
pub struct Obj {
    inner: usize,
}

impl View for Obj {
    type V = usize;

    closed spec fn view(&self) -> usize {
        self.inner
    }
}

impl Obj {
    /// The object with the word `o`.
    pub fn from_raw(o: usize) -> (r: Obj)
        ensures
            r@ == o,
    {
        Obj { inner: o }
    }

    pub fn from_small_int(v: isize) -> (r: Obj)
        ensures
            r@ == ((v as usize) << 1usize) | 1,
    {
        Obj { inner: repr_a::new_small_int(v) }
    }

    pub fn from_qstr(q: Qstr) -> (r: Obj)
        ensures
            r@ == (q@ << 3usize) | 2,
    {
        Obj { inner: repr_a::new_qstr(q.into_raw()) }
    }

    pub fn from_immediate(imm: usize) -> (r: Obj)
        ensures
            r@ == (imm << 3usize) | 6,
    {
        Obj { inner: repr_a::new_immediate(imm) }
    }

    pub fn is_small_int(self) -> (b: bool)
        ensures
            b == spec_is_small_int(self@),
    {
        repr_a::is_small_int(self.inner)
    }

    pub fn is_qstr(self) -> (b: bool)
        ensures
            b == spec_is_qstr(self@),
    {
        repr_a::is_qstr(self.inner)
    }

    pub fn is_immediate(self) -> (b: bool)
        ensures
            b == spec_is_immediate(self@),
    {
        repr_a::is_immediate(self.inner)
    }

    pub fn is_ptr(self) -> (b: bool)
        ensures
            b == spec_is_ptr(self@),
    {
        repr_a::is_ptr(self.inner)
    }

    /// The integer, when the object is a small int.
    pub fn small_int(self) -> (r: Option<isize>)
        ensures
            r == if spec_is_small_int(self@) {
                Some((self@ as isize) >> 1usize)
            } else {
                None
            },
    {
        if repr_a::is_small_int(self.inner) {
            Some(repr_a::small_int_value(self.inner))
        } else {
            None
        }
    }

    /// The qstr, when the object is one.
    pub fn qstr(self) -> (r: Option<Qstr>)
        ensures
            match r {
                Some(q) => spec_is_qstr(self@) && q@ == self@ >> 3usize,
                None => !spec_is_qstr(self@),
            },
    {
        if repr_a::is_qstr(self.inner) {
            Some(Qstr::from_raw(repr_a::qstr_value(self.inner)))
        } else {
            None
        }
    }

    /// The immediate value, when the object is one.
    pub fn immediate(self) -> (r: Option<usize>)
        ensures
            r == if spec_is_immediate(self@) {
                Some(self@ >> 3usize)
            } else {
                None
            },
    {
        if repr_a::is_immediate(self.inner) {
            Some(repr_a::immediate_value(self.inner))
        } else {
            None
        }
    }

    pub fn into_raw(self) -> (o: usize)
        ensures
            o == self@,
    {
        self.inner
    }
}

/// A qstr, MicroPython's interned-string handle.
#[derive(Debug, Clone, Copy, PartialEq, Eq, Structural)]
pub struct Qstr {
    inner: usize,
}

impl View for Qstr {
    type V = usize;

    closed spec fn view(&self) -> usize {
        self.inner
    }
}

impl Qstr {
    /// The qstr with the raw value `q`.
    pub fn from_raw(q: usize) -> (r: Qstr)
        ensures
            r@ == q,
    {
        Qstr { inner: q }
    }

    /// The raw value of the qstr.
    pub fn into_raw(self) -> (q: usize)
        ensures
            q == self@,
    {
        self.inner
    }
}

/// The number of object slots an iterator buffer of `iter_buf_size` bytes
/// takes, objects being `obj_size` bytes: the size rounded up to whole
/// objects.
pub fn mp_obj_iter_buf_nslots(iter_buf_size: usize, obj_size: usize) -> (n: usize)
    requires
        obj_size > 0,
    ensures
        n * obj_size >= iter_buf_size,
        n == 0 || (n - 1) * obj_size < iter_buf_size,
{
    let q = iter_buf_size / obj_size;
    let r = iter_buf_size % obj_size;
    proof {
        assert(q * obj_size + r == iter_buf_size) by (nonlinear_arith)
            requires
                q == iter_buf_size / obj_size,
                r == iter_buf_size % obj_size,
                obj_size > 0,
        ;
    }
    if r == 0 {
        proof {
            assert(q == 0 || (q - 1) * obj_size < iter_buf_size) by (nonlinear_arith)
                requires
                    q * obj_size == iter_buf_size,
                    obj_size > 0,
            ;
        }
        q
    } else {
        proof {
            assert(q * obj_size <= iter_buf_size) by (nonlinear_arith)
                requires
                    q * obj_size + r == iter_buf_size,
                    r > 0,
            ;
            assert((q + 1) * obj_size >= iter_buf_size) by (nonlinear_arith)
                requires
                    q * obj_size + r == iter_buf_size,
                    r < obj_size,
            ;
            assert(q + 1 <= iter_buf_size) by (nonlinear_arith)
                requires
                    q * obj_size + r == iter_buf_size,
                    r > 0,
                    obj_size > 0,
            ;
        }
        q + 1
    }
}

/// `None` as an immediate object word: immediate value 0.
pub fn mp_const_none() -> (o: usize)
    ensures
        o == (0usize << 3usize) | 6,
{
    repr_a::new_immediate(0)
}

/// `False` as an immediate object word: immediate value 1.
pub fn mp_const_false() -> (o: usize)
    ensures
        o == (1usize << 3usize) | 6,
{
    repr_a::new_immediate(1)
}

/// `True` as an immediate object word: immediate value 3.
pub fn mp_const_true() -> (o: usize)
    ensures
        o == (3usize << 3usize) | 6,
{
    repr_a::new_immediate(3)
}

/// The boolean object of a C truth value.
pub open spec fn spec_new_bool(value: isize) -> usize {
    if value != 0 {
        (3usize << 3usize) | 6
    } else {
        (1usize << 3usize) | 6
    }
}

/// Whether a word is one of the two boolean objects.
pub open spec fn spec_is_bool(o: usize) -> bool {
    o == (1usize << 3usize) | 6 || o == (3usize << 3usize) | 6
}

/// The boolean object of a C truth value: `True` for any nonzero value.
pub fn mp_obj_new_bool(value: isize) -> (o: usize)
    ensures
        o == spec_new_bool(value),
{
    if value != 0 {
        mp_const_true()
    } else {
        mp_const_false()
    }
}

/// Whether the word is `False` or `True`.
pub fn mp_obj_is_bool(o: usize) -> (b: bool)
    ensures
        b == spec_is_bool(o),
{
    o == mp_const_false() || o == mp_const_true()
}

/// `None`, `False` and `True` are three distinct immediate objects; a
/// boolean made from a truth value is a boolean, and `None` is not one.
pub proof fn lemma_constants(value: isize)
    ensures
        spec_is_immediate((0usize << 3usize) | 6),
        spec_is_immediate((1usize << 3usize) | 6),
        spec_is_immediate((3usize << 3usize) | 6),
        (1usize << 3usize) | 6 != (3usize << 3usize) | 6,
        spec_is_bool(spec_new_bool(value)),
        !spec_is_bool((0usize << 3usize) | 6),
        (spec_new_bool(value) == (3usize << 3usize) | 6) == (value != 0),
{
    assert((0usize << 3usize) | 6 == 6 && (1usize << 3usize) | 6 == 14 && (3usize << 3usize) | 6
        == 30) by (bit_vector);
    assert(6usize & 7 == 6 && 14usize & 7 == 6 && 30usize & 7 == 6) by (bit_vector);
}

/// The signature word of a MicroPython builtin function object: bit 0 says
/// whether keyword arguments are taken, bits 1..=16 hold the maximum and the
/// bits from 17 up the minimum number of positional arguments.
pub fn mp_obj_fun_make_sig(n_args_min: u32, n_args_max: u32, takes_kw: bool) -> (sig: u32)
    ensures
        sig == ((n_args_min << 17u32) | (n_args_max << 1u32) | (if takes_kw { 1u32 } else { 0u32 })),
        n_args_min < 0x8000 && n_args_max < 0x10000 ==> {
            &&& sig as int == n_args_min * 0x20000 + n_args_max * 2 + (if takes_kw { 1int } else { 0int })
            &&& sig >> 17u32 == n_args_min
            &&& (sig >> 1u32) & 0xffff == n_args_max
            &&& (sig & 1 == 1) == takes_kw
        },
{
    let kw: u32 = if takes_kw { 1 } else { 0 };
    let sig = (n_args_min << 17u32) | (n_args_max << 1u32) | kw;
    proof {
        if n_args_min < 0x8000 && n_args_max < 0x10000 {
            assert(kw <= 1);
            assert(n_args_min < 0x8000 && n_args_max < 0x10000 && kw <= 1 ==> {
                &&& ((n_args_min << 17u32) | (n_args_max << 1u32) | kw) as int == n_args_min * 0x20000 + n_args_max * 2 + kw
                &&& ((n_args_min << 17u32) | (n_args_max << 1u32) | kw) >> 17u32 == n_args_min
                &&& (((n_args_min << 17u32) | (n_args_max << 1u32) | kw) >> 1u32) & 0xffff == n_args_max
                &&& ((((n_args_min << 17u32) | (n_args_max << 1u32) | kw) & 1) == 1) == (kw == 1)
            }) by (bit_vector);
        }
    }
    sig
}


} // verus!

//! The packed bit fields of two MicroPython C structures, in their
//! little-endian layout: the flags and the fill count of a map, and the
//! running length and sortedness of a qstr pool; and which slots of a map's
//! or a set's hash table are filled.

use vstd::prelude::*;

verus! {

/// The bit-field word of `mp_map_t`: `all_keys_are_qstrs` in bit 0,
/// `is_fixed` in bit 1, `is_ordered` in bit 2, `used` in the bits above.
/// The map's table itself is not held here: only the words that the
/// accessors read and write.
#[allow(non_camel_case_types)]
#[derive(Debug, Clone, Copy, PartialEq, Eq, Structural)]
pub struct mp_map_t {
    pub _bitfield_1: usize,
    pub alloc: usize,
}

pub open spec fn bit_set(word: usize, mask: usize) -> bool {
    word & mask != 0
}

pub open spec fn with_bit(word: usize, mask: usize, value: bool) -> usize {
    (word & !mask) | if value {
        mask
    } else {
        0
    }
}

impl mp_map_t {
    /// A map's words from its fields; the fill count keeps only the bits that
    /// fit above the flags.
    pub fn from_raw(
        all_keys_are_qstrs: bool,
        is_fixed: bool,
        is_ordered: bool,
        used: usize,
        alloc: usize,
    ) -> (m: mp_map_t)
        ensures
            bit_set(m._bitfield_1, 1) == all_keys_are_qstrs,
            bit_set(m._bitfield_1, 2) == is_fixed,
            bit_set(m._bitfield_1, 4) == is_ordered,
            m._bitfield_1 >> 3usize == (used << 3usize) >> 3usize,
            m._bitfield_1 >> 3usize == used & (!0usize >> 3usize),
            m.alloc == alloc,
    {
        let fill = used & (!0usize >> 3usize);
        let a: usize = if all_keys_are_qstrs {
            1
        } else {
            0
        };
        let f: usize = if is_fixed {
            1
        } else {
            0
        };
        let o: usize = if is_ordered {
            1
        } else {
            0
        };
        let bits = a | (f << 1usize) | (o << 2usize) | (fill << 3usize);
        proof {
            assert(bits >> 3usize == (used << 3usize) >> 3usize && bits >> 3usize == used & (!0usize
                >> 3usize)) by (bit_vector)
                requires
                    a <= 1 && f <= 1 && o <= 1,
                    fill == used & (!0usize >> 3usize),
                    bits == a | (f << 1usize) | (o << 2usize) | (fill << 3usize),
            ;
            assert(bits & 1 != 0 <==> a == 1) by (bit_vector)
                requires
                    a <= 1 && f <= 1 && o <= 1,
                    bits == a | (f << 1usize) | (o << 2usize) | (fill << 3usize),
            ;
            assert(bits & 2 != 0 <==> f == 1) by (bit_vector)
                requires
                    a <= 1 && f <= 1 && o <= 1,
                    bits == a | (f << 1usize) | (o << 2usize) | (fill << 3usize),
            ;
            assert(bits & 4 != 0 <==> o == 1) by (bit_vector)
                requires
                    a <= 1 && f <= 1 && o <= 1,
                    bits == a | (f << 1usize) | (o << 2usize) | (fill << 3usize),
            ;
        }
        mp_map_t { _bitfield_1: bits, alloc }
    }

    pub fn all_keys_are_qstrs(&self) -> (b: bool)
        ensures
            b == bit_set(self._bitfield_1, 1),
    {
        self._bitfield_1 & 1 != 0
    }

    pub fn is_fixed(&self) -> (b: bool)
        ensures
            b == bit_set(self._bitfield_1, 2),
    {
        self._bitfield_1 & 2 != 0
    }

    pub fn is_ordered(&self) -> (b: bool)
        ensures
            b == bit_set(self._bitfield_1, 4),
    {
        self._bitfield_1 & 4 != 0
    }

    pub fn used(&self) -> (n: usize)
        ensures
            n == self._bitfield_1 >> 3usize,
    {
        self._bitfield_1 >> 3usize
    }

    pub fn set_all_keys_are_qstrs(&mut self, value: bool)
        ensures
            final(self)._bitfield_1 == with_bit(old(self)._bitfield_1, 1, value),
            final(self).alloc == old(self).alloc,
    {
        self._bitfield_1 = (self._bitfield_1 & !1usize) | if value {
            1
        } else {
            0
        };
    }

    pub fn set_is_fixed(&mut self, value: bool)
        ensures
            final(self)._bitfield_1 == with_bit(old(self)._bitfield_1, 2, value),
            final(self).alloc == old(self).alloc,
    {
        self._bitfield_1 = (self._bitfield_1 & !2usize) | if value {
            2
        } else {
            0
        };
    }

    pub fn set_is_ordered(&mut self, value: bool)
        ensures
            final(self)._bitfield_1 == with_bit(old(self)._bitfield_1, 4, value),
            final(self).alloc == old(self).alloc,
    {
        self._bitfield_1 = (self._bitfield_1 & !4usize) | if value {
            4
        } else {
            0
        };
    }

    /// Stores the fill count; only its bits that fit above the flags are kept.
    pub fn set_used(&mut self, value: usize)
        ensures
            final(self)._bitfield_1 == (old(self)._bitfield_1 & 7) | (value << 3usize),
            final(self).alloc == old(self).alloc,
    {
        self._bitfield_1 = (self._bitfield_1 & 7) | (value << 3usize);
    }
}

/// Each setter of a map's bit field is read back by its getter and leaves
/// the other fields as they were; a fill count that fits is kept exactly.
pub proof fn lemma_map_bitfield(bits: usize, value: bool, used: usize)
    requires
        (used << 3usize) >> 3usize == used,
    ensures
        bit_set(with_bit(bits, 1, value), 1) == value,
        bit_set(with_bit(bits, 1, value), 2) == bit_set(bits, 2),
        bit_set(with_bit(bits, 1, value), 4) == bit_set(bits, 4),
        with_bit(bits, 1, value) >> 3usize == bits >> 3usize,
        bit_set(with_bit(bits, 2, value), 2) == value,
        bit_set(with_bit(bits, 2, value), 1) == bit_set(bits, 1),
        bit_set(with_bit(bits, 2, value), 4) == bit_set(bits, 4),
        with_bit(bits, 2, value) >> 3usize == bits >> 3usize,
        bit_set(with_bit(bits, 4, value), 4) == value,
        bit_set(with_bit(bits, 4, value), 1) == bit_set(bits, 1),
        bit_set(with_bit(bits, 4, value), 2) == bit_set(bits, 2),
        with_bit(bits, 4, value) >> 3usize == bits >> 3usize,
        ((bits & 7) | (used << 3usize)) >> 3usize == used,
        ((bits & 7) | (used << 3usize)) & 7 == bits & 7,
{
    let m: usize = if value {
        1
    } else {
        0
    };
    let f: usize = if value {
        2
    } else {
        0
    };
    let o: usize = if value {
        4
    } else {
        0
    };
    assert(((bits & !1usize) | m) & 1 != 0 <==> m == 1) by (bit_vector)
        requires
            m == 0 || m == 1,
    ;
    assert(((bits & !1usize) | m) & 2 == bits & 2 && ((bits & !1usize) | m) & 4 == bits & 4 && ((
    bits & !1usize) | m) >> 3usize == bits >> 3usize) by (bit_vector)
        requires
            m == 0 || m == 1,
    ;
    assert(((bits & !2usize) | f) & 2 != 0 <==> f == 2) by (bit_vector)
        requires
            f == 0 || f == 2,
    ;
    assert(((bits & !2usize) | f) & 1 == bits & 1 && ((bits & !2usize) | f) & 4 == bits & 4 && ((
    bits & !2usize) | f) >> 3usize == bits >> 3usize) by (bit_vector)
        requires
            f == 0 || f == 2,
    ;
    assert(((bits & !4usize) | o) & 4 != 0 <==> o == 4) by (bit_vector)
        requires
            o == 0 || o == 4,
    ;
    assert(((bits & !4usize) | o) & 1 == bits & 1 && ((bits & !4usize) | o) & 2 == bits & 2 && ((
    bits & !4usize) | o) >> 3usize == bits >> 3usize) by (bit_vector)
        requires
            o == 0 || o == 4,
    ;
    assert(((bits & 7) | (used << 3usize)) >> 3usize == used && ((bits & 7) | (used << 3usize)) & 7
        == bits & 7) by (bit_vector)
        requires
            (used << 3usize) >> 3usize == used,
    ;
}

/// The key word of an empty hash-table slot.
pub const MP_OBJ_NULL: usize = 0;

/// The key word of a slot whose entry was deleted.
pub const MP_OBJ_SENTINEL: usize = 4;

/// One slot of a map's hash table.
#[allow(non_camel_case_types)]
#[derive(Debug, Clone, Copy, PartialEq, Eq, Structural)]
pub struct mp_map_elem_t {
    pub key: usize,
    pub value: usize,
}

/// Whether a slot whose key word is `key` holds an entry: it is neither
/// empty nor deleted.
pub open spec fn key_fills_slot(key: usize) -> bool {
    key != MP_OBJ_NULL && key != MP_OBJ_SENTINEL
}

/// Whether slot `pos` of the map's table, `table`, holds an entry.
pub fn mp_map_slot_is_filled(map: &mp_map_t, table: &[mp_map_elem_t], pos: usize) -> (b: bool)
    requires
        pos < map.alloc,
        pos < table@.len(),
    ensures
        b == key_fills_slot(table@[pos as int].key),
{
    let key = table[pos].key;
    key != MP_OBJ_NULL && key != MP_OBJ_SENTINEL
}

/// Whether slot `pos` of a set's table, `table`, holds an element.
pub fn mp_set_slot_is_filled(table: &[usize], pos: usize) -> (b: bool)
    requires
        pos < table@.len(),
    ensures
        b == key_fills_slot(table@[pos as int]),
{
    let value = table[pos];
    value != MP_OBJ_NULL && value != MP_OBJ_SENTINEL
}

/// The bit-field word of `qstr_pool_t`: `total_prev_len` in every bit but
/// the top one, `is_sorted` in the top bit.
/// The pool's string tables are not held here: only the words that the
/// accessors read and write.
#[allow(non_camel_case_types)]
#[derive(Debug, Clone, Copy, PartialEq, Eq, Structural)]
pub struct qstr_pool_t {
    pub _bitfield_1: usize,
    pub alloc: usize,
    pub len: usize,
}

pub open spec fn top_bit() -> usize {
    1usize << (usize::BITS - 1) as usize
}

impl qstr_pool_t {
    pub fn total_prev_len(&self) -> (n: usize)
        ensures
            n == self._bitfield_1 & !top_bit(),
    {
        self._bitfield_1 & !(1usize << (usize::BITS - 1))
    }

    pub fn is_sorted(&self) -> (b: bool)
        ensures
            b == (self._bitfield_1 >> (usize::BITS - 1) as usize != 0),
    {
        self._bitfield_1 >> (usize::BITS - 1) != 0
    }

    /// Stores the running length, which must fit below the top bit.
    pub fn set_total_prev_len(&mut self, value: usize)
        requires
            value & top_bit() == 0,
        ensures
            final(self)._bitfield_1 == (old(self)._bitfield_1 & top_bit()) | value,
            final(self).alloc == old(self).alloc,
            final(self).len == old(self).len,
    {
        self._bitfield_1 = (self._bitfield_1 & (1usize << (usize::BITS - 1))) | value;
    }

    pub fn set_is_sorted(&mut self, value: bool)
        ensures
            final(self)._bitfield_1 == with_bit(old(self)._bitfield_1, top_bit(), value),
            final(self).alloc == old(self).alloc,
            final(self).len == old(self).len,
    {
        let mask = 1usize << (usize::BITS - 1);
        self._bitfield_1 = (self._bitfield_1 & !mask) | if value {
            mask
        } else {
            0
        };
    }
}

/// The two fields of a qstr pool's bit field are read back as set and do
/// not disturb each other.
pub proof fn lemma_qstr_pool_bitfield(bits: usize, len: usize, sorted: bool)
    requires
        len & top_bit() == 0,
    ensures
        ((bits & top_bit()) | len) & !top_bit() == len,
        ((bits & top_bit()) | len) >> (usize::BITS - 1) as usize == bits >> (usize::BITS - 1) as usize,
        (with_bit(bits, top_bit(), sorted) >> (usize::BITS - 1) as usize != 0) == sorted,
        with_bit(bits, top_bit(), sorted) & !top_bit() == bits & !top_bit(),
{
    let t = top_bit();
    let s: usize = if sorted {
        t
    } else {
        0
    };
    assert(t == 1usize << (usize::BITS - 1) as usize);
    assert(((bits & t) | len) & !t == len && ((bits & t) | len) >> (usize::BITS - 1) as usize
        == bits >> (usize::BITS - 1) as usize) by (bit_vector)
        requires
            len & t == 0,
            t == 1usize << (usize::BITS - 1) as usize,
    ;
    assert((((bits & !t) | s) >> (usize::BITS - 1) as usize != 0) == (s == t) && ((bits & !t) | s)
        & !t == bits & !t) by (bit_vector)
        requires
            s == 0 || s == t,
            t == 1usize << (usize::BITS - 1) as usize,
    ;
    assert(t != 0) by (bit_vector)
        requires
            t == 1usize << (usize::BITS - 1) as usize,
    ;
    assert(with_bit(bits, t, sorted) == (bits & !t) | s);
}

} // verus!

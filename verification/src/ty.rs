//! A MicroPython type object as the embedding builds it: its name, its
//! flags and its slot table. The iterator slot is read according to the
//! iterator mode kept in the flags (`getiter`, `iternext`, custom or
//! stream), and each iterator setter sets that mode together with the slot.

use vstd::prelude::*;

use crate::obj::Qstr;
use crate::type_slots::{set_count, TypeSlots, MAX_SLOTS};

verus! {

pub const MP_TYPE_FLAG_ITER_IS_GETITER: u16 = 0;

pub const MP_TYPE_FLAG_ITER_IS_ITERNEXT: u16 = 0x0080;

pub const MP_TYPE_FLAG_ITER_IS_CUSTOM: u16 = 0x0100;

pub const MP_TYPE_FLAG_ITER_IS_STREAM: u16 = 0x0180;

/// The flag bits that hold the iterator mode.
pub const ITER_MASK: u16 = 0x0180;

/// The slot kinds, by their place in the type's list of slot positions.
pub const SLOT_MAKE_NEW: usize = 0;

pub const SLOT_PRINT: usize = 1;

pub const SLOT_CALL: usize = 2;

pub const SLOT_UNARY_OP: usize = 3;

pub const SLOT_BINARY_OP: usize = 4;

pub const SLOT_ATTR: usize = 5;

pub const SLOT_SUBSCR: usize = 6;

pub const SLOT_ITER: usize = 7;

pub const SLOT_BUFFER: usize = 8;

pub const SLOT_PROTOCOL: usize = 9;

pub const SLOT_PARENT: usize = 10;

pub const SLOT_LOCALS_DICT: usize = 11;

/// The iterator slot's value read in iterator mode `mode`: the slot when the
/// flags are in that mode, nothing otherwise.
pub open spec fn iter_slot_as(flags: u16, slots: Seq<Option<usize>>, mode: u16) -> Option<usize> {
    if flags & ITER_MASK == mode {
        slots[SLOT_ITER as int]
    } else {
        None
    }
}

/// The flags with their iterator mode replaced by `mode`.
pub open spec fn flags_with_iter_mode(flags: u16, mode: u16) -> u16 {
    (flags & !ITER_MASK) | mode
}

/// A type object: the name, the flags, and the callbacks of its slots.
pub struct Type {
    name: u16,
    flags: u16,
    slots: TypeSlots,
}

impl Type {
    pub closed spec fn well_formed(&self) -> bool {
        self.slots.well_formed()
    }

    pub closed spec fn name_view(&self) -> u16 {
        self.name
    }

    pub closed spec fn flags_view(&self) -> u16 {
        self.flags
    }

    /// The callback of each slot kind.
    pub closed spec fn slots_view(&self) -> Seq<Option<usize>> {
        self.slots@
    }

    pub closed spec fn capacity_view(&self) -> nat {
        self.slots.capacity()
    }

    pub fn name(&self) -> (q: Qstr)
        ensures
            q@ == self.name_view(),
    {
        Qstr::from_raw(self.name as usize)
    }

    pub fn flags(&self) -> (f: u16)
        ensures
            f == self.flags_view(),
    {
        self.flags
    }

    /// How many slot kinds have a callback.
    pub fn slot_count(&self) -> (n: usize)
        requires
            self.well_formed(),
        ensures
            n == set_count(self.slots_view()),
    {
        self.slots.slot_count()
    }

    fn slot(&self, kind: usize) -> (v: Option<usize>)
        requires
            self.well_formed(),
            kind < MAX_SLOTS,
        ensures
            v == self.slots_view()[kind as int],
    {
        self.slots.slot(kind)
    }

    pub fn make_new_raw(&self) -> (v: Option<usize>)
        requires
            self.well_formed(),
        ensures
            v == self.slots_view()[SLOT_MAKE_NEW as int],
    {
        self.slot(SLOT_MAKE_NEW)
    }

    pub fn print_raw(&self) -> (v: Option<usize>)
        requires
            self.well_formed(),
        ensures
            v == self.slots_view()[SLOT_PRINT as int],
    {
        self.slot(SLOT_PRINT)
    }

    pub fn call_raw(&self) -> (v: Option<usize>)
        requires
            self.well_formed(),
        ensures
            v == self.slots_view()[SLOT_CALL as int],
    {
        self.slot(SLOT_CALL)
    }

    pub fn unary_op_raw(&self) -> (v: Option<usize>)
        requires
            self.well_formed(),
        ensures
            v == self.slots_view()[SLOT_UNARY_OP as int],
    {
        self.slot(SLOT_UNARY_OP)
    }

    pub fn binary_op_raw(&self) -> (v: Option<usize>)
        requires
            self.well_formed(),
        ensures
            v == self.slots_view()[SLOT_BINARY_OP as int],
    {
        self.slot(SLOT_BINARY_OP)
    }

    pub fn attr_raw(&self) -> (v: Option<usize>)
        requires
            self.well_formed(),
        ensures
            v == self.slots_view()[SLOT_ATTR as int],
    {
        self.slot(SLOT_ATTR)
    }

    pub fn subscr_raw(&self) -> (v: Option<usize>)
        requires
            self.well_formed(),
        ensures
            v == self.slots_view()[SLOT_SUBSCR as int],
    {
        self.slot(SLOT_SUBSCR)
    }

    pub fn buffer_raw(&self) -> (v: Option<usize>)
        requires
            self.well_formed(),
        ensures
            v == self.slots_view()[SLOT_BUFFER as int],
    {
        self.slot(SLOT_BUFFER)
    }

    fn iter_slot_in_mode(&self, mode: u16) -> (v: Option<usize>)
        requires
            self.well_formed(),
        ensures
            v == iter_slot_as(self.flags_view(), self.slots_view(), mode),
    {
        if self.flags & ITER_MASK == mode {
            self.slot(SLOT_ITER)
        } else {
            None
        }
    }

    /// The iterator slot, when it holds a `getiter` function.
    pub fn getiter_raw(&self) -> (v: Option<usize>)
        requires
            self.well_formed(),
        ensures
            v == iter_slot_as(self.flags_view(), self.slots_view(), MP_TYPE_FLAG_ITER_IS_GETITER),
    {
        self.iter_slot_in_mode(MP_TYPE_FLAG_ITER_IS_GETITER)
    }

    /// The iterator slot, when it holds an `iternext` function.
    pub fn iternext_raw(&self) -> (v: Option<usize>)
        requires
            self.well_formed(),
        ensures
            v == iter_slot_as(self.flags_view(), self.slots_view(), MP_TYPE_FLAG_ITER_IS_ITERNEXT),
    {
        self.iter_slot_in_mode(MP_TYPE_FLAG_ITER_IS_ITERNEXT)
    }

    /// The iterator slot, when it holds a custom iterator table.
    pub fn custom_iter_raw(&self) -> (v: Option<usize>)
        requires
            self.well_formed(),
        ensures
            v == iter_slot_as(self.flags_view(), self.slots_view(), MP_TYPE_FLAG_ITER_IS_CUSTOM),
    {
        self.iter_slot_in_mode(MP_TYPE_FLAG_ITER_IS_CUSTOM)
    }

    /// Whether the type iterates as a stream.
    pub fn is_stream_iter_raw(&self) -> (b: bool)
        ensures
            b == (self.flags_view() & ITER_MASK == MP_TYPE_FLAG_ITER_IS_STREAM),
    {
        self.flags & ITER_MASK == MP_TYPE_FLAG_ITER_IS_STREAM
    }

    pub fn protocol_raw(&self) -> (v: Option<usize>)
        requires
            self.well_formed(),
        ensures
            v == self.slots_view()[SLOT_PROTOCOL as int],
    {
        self.slot(SLOT_PROTOCOL)
    }

    pub fn parent_raw(&self) -> (v: Option<usize>)
        requires
            self.well_formed(),
        ensures
            v == self.slots_view()[SLOT_PARENT as int],
    {
        self.slot(SLOT_PARENT)
    }

    pub fn locals_dict_raw(&self) -> (v: Option<usize>)
        requires
            self.well_formed(),
        ensures
            v == self.slots_view()[SLOT_LOCALS_DICT as int],
    {
        self.slot(SLOT_LOCALS_DICT)
    }
}

/// A type object under construction, with room for a fixed number of slot
/// callbacks.
pub struct TypeStorage {
    ty: Type,
}

impl TypeStorage {
    pub closed spec fn type_view(&self) -> Type {
        self.ty
    }

    /// Setting the callback of slot `kind` to `value` fits in the table.
    pub open spec fn fits(&self, kind: int, value: Option<usize>) -> bool {
        self.type_view().slots_view()[kind] is None && value is Some ==> set_count(
            self.type_view().slots_view(),
        ) < self.type_view().capacity_view()
    }

    /// A type named `name` with the flags `flags`, no callbacks, and room for
    /// `capacity` of them.
    pub fn new(name: Qstr, flags: u16, capacity: usize) -> (t: TypeStorage)
        requires
            capacity <= MAX_SLOTS,
            name@ <= u16::MAX,
        ensures
            t.type_view().well_formed(),
            t.type_view().name_view() == name@,
            t.type_view().flags_view() == flags,
            t.type_view().capacity_view() == capacity,
            t.type_view().slots_view() == Seq::new(MAX_SLOTS as nat, |k: int| None::<usize>),
    {
        TypeStorage { ty: Type { name: name.into_raw() as u16, flags, slots: TypeSlots::new(capacity) } }
    }

    pub fn as_type(&self) -> (t: &Type)
        ensures
            *t == self.type_view(),
    {
        &self.ty
    }

    pub fn capacity(&self) -> (n: usize)
        requires
            self.type_view().well_formed(),
        ensures
            n == self.type_view().capacity_view(),
    {
        proof {
            self.ty.slots.lemma_positions();
        }
        self.ty.slots.table().len()
    }

    pub fn slot_count(&self) -> (n: usize)
        requires
            self.type_view().well_formed(),
        ensures
            n == set_count(self.type_view().slots_view()),
    {
        self.ty.slot_count()
    }

    pub fn set_name(&mut self, name: Qstr)
        requires
            name@ <= u16::MAX,
        ensures
            final(self).type_view().name_view() == name@,
            final(self).type_view().flags_view() == old(self).type_view().flags_view(),
            final(self).type_view().slots_view() == old(self).type_view().slots_view(),
            final(self).type_view().capacity_view() == old(self).type_view().capacity_view(),
            final(self).type_view().well_formed() == old(self).type_view().well_formed(),
    {
        self.ty.name = name.into_raw() as u16;
    }

    /// Replaces the flags; while the iterator slot holds a callback its
    /// iterator mode must stay as it is.
    pub fn set_flags(&mut self, flags: u16)
        requires
            old(self).type_view().well_formed(),
            old(self).type_view().slots_view()[SLOT_ITER as int] is None || old(
                self,
            ).type_view().flags_view() & ITER_MASK == flags & ITER_MASK,
        ensures
            final(self).type_view().flags_view() == flags,
            final(self).type_view().name_view() == old(self).type_view().name_view(),
            final(self).type_view().slots_view() == old(self).type_view().slots_view(),
            final(self).type_view().capacity_view() == old(self).type_view().capacity_view(),
            final(self).type_view().well_formed() == old(self).type_view().well_formed(),
    {
        self.ty.flags = flags;
    }

    fn set_callback(&mut self, kind: usize, value: Option<usize>)
        requires
            old(self).type_view().well_formed(),
            kind < MAX_SLOTS,
            old(self).fits(kind as int, value),
        ensures
            final(self).type_view().well_formed(),
            final(self).type_view().slots_view() == old(self).type_view().slots_view().update(
                kind as int,
                value,
            ),
            final(self).type_view().capacity_view() == old(self).type_view().capacity_view(),
            final(self).type_view().name_view() == old(self).type_view().name_view(),
            final(self).type_view().flags_view() == old(self).type_view().flags_view(),
    {
        self.ty.slots.set_slot(kind, value);
    }

    fn set_iter(&mut self, value: Option<usize>, mode: u16)
        requires
            old(self).type_view().well_formed(),
            old(self).fits(SLOT_ITER as int, value),
        ensures
            final(self).type_view().well_formed(),
            final(self).type_view().slots_view() == old(self).type_view().slots_view().update(
                SLOT_ITER as int,
                value,
            ),
            final(self).type_view().capacity_view() == old(self).type_view().capacity_view(),
            final(self).type_view().name_view() == old(self).type_view().name_view(),
            final(self).type_view().flags_view() == flags_with_iter_mode(
                old(self).type_view().flags_view(),
                mode,
            ),
    {
        self.ty.slots.set_slot(SLOT_ITER, value);
        self.ty.flags = (self.ty.flags & !ITER_MASK) | mode;
    }

    pub fn set_make_new_raw(&mut self, value: Option<usize>)
        requires
            old(self).type_view().well_formed(),
            old(self).fits(SLOT_MAKE_NEW as int, value),
        ensures
            final(self).type_view().well_formed(),
            final(self).type_view().slots_view() == old(self).type_view().slots_view().update(
                SLOT_MAKE_NEW as int,
                value,
            ),
            final(self).type_view().capacity_view() == old(self).type_view().capacity_view(),
            final(self).type_view().name_view() == old(self).type_view().name_view(),
            final(self).type_view().flags_view() == old(self).type_view().flags_view(),
    {
        self.set_callback(SLOT_MAKE_NEW, value);
    }

    pub fn set_print_raw(&mut self, value: Option<usize>)
        requires
            old(self).type_view().well_formed(),
            old(self).fits(SLOT_PRINT as int, value),
        ensures
            final(self).type_view().well_formed(),
            final(self).type_view().slots_view() == old(self).type_view().slots_view().update(
                SLOT_PRINT as int,
                value,
            ),
            final(self).type_view().capacity_view() == old(self).type_view().capacity_view(),
            final(self).type_view().name_view() == old(self).type_view().name_view(),
            final(self).type_view().flags_view() == old(self).type_view().flags_view(),
    {
        self.set_callback(SLOT_PRINT, value);
    }

    pub fn set_call_raw(&mut self, value: Option<usize>)
        requires
            old(self).type_view().well_formed(),
            old(self).fits(SLOT_CALL as int, value),
        ensures
            final(self).type_view().well_formed(),
            final(self).type_view().slots_view() == old(self).type_view().slots_view().update(
                SLOT_CALL as int,
                value,
            ),
            final(self).type_view().capacity_view() == old(self).type_view().capacity_view(),
            final(self).type_view().name_view() == old(self).type_view().name_view(),
            final(self).type_view().flags_view() == old(self).type_view().flags_view(),
    {
        self.set_callback(SLOT_CALL, value);
    }

    pub fn set_unary_op_raw(&mut self, value: Option<usize>)
        requires
            old(self).type_view().well_formed(),
            old(self).fits(SLOT_UNARY_OP as int, value),
        ensures
            final(self).type_view().well_formed(),
            final(self).type_view().slots_view() == old(self).type_view().slots_view().update(
                SLOT_UNARY_OP as int,
                value,
            ),
            final(self).type_view().capacity_view() == old(self).type_view().capacity_view(),
            final(self).type_view().name_view() == old(self).type_view().name_view(),
            final(self).type_view().flags_view() == old(self).type_view().flags_view(),
    {
        self.set_callback(SLOT_UNARY_OP, value);
    }

    pub fn set_binary_op_raw(&mut self, value: Option<usize>)
        requires
            old(self).type_view().well_formed(),
            old(self).fits(SLOT_BINARY_OP as int, value),
        ensures
            final(self).type_view().well_formed(),
            final(self).type_view().slots_view() == old(self).type_view().slots_view().update(
                SLOT_BINARY_OP as int,
                value,
            ),
            final(self).type_view().capacity_view() == old(self).type_view().capacity_view(),
            final(self).type_view().name_view() == old(self).type_view().name_view(),
            final(self).type_view().flags_view() == old(self).type_view().flags_view(),
    {
        self.set_callback(SLOT_BINARY_OP, value);
    }

    pub fn set_attr_raw(&mut self, value: Option<usize>)
        requires
            old(self).type_view().well_formed(),
            old(self).fits(SLOT_ATTR as int, value),
        ensures
            final(self).type_view().well_formed(),
            final(self).type_view().slots_view() == old(self).type_view().slots_view().update(
                SLOT_ATTR as int,
                value,
            ),
            final(self).type_view().capacity_view() == old(self).type_view().capacity_view(),
            final(self).type_view().name_view() == old(self).type_view().name_view(),
            final(self).type_view().flags_view() == old(self).type_view().flags_view(),
    {
        self.set_callback(SLOT_ATTR, value);
    }

    pub fn set_subscr_raw(&mut self, value: Option<usize>)
        requires
            old(self).type_view().well_formed(),
            old(self).fits(SLOT_SUBSCR as int, value),
        ensures
            final(self).type_view().well_formed(),
            final(self).type_view().slots_view() == old(self).type_view().slots_view().update(
                SLOT_SUBSCR as int,
                value,
            ),
            final(self).type_view().capacity_view() == old(self).type_view().capacity_view(),
            final(self).type_view().name_view() == old(self).type_view().name_view(),
            final(self).type_view().flags_view() == old(self).type_view().flags_view(),
    {
        self.set_callback(SLOT_SUBSCR, value);
    }

    pub fn set_buffer_raw(&mut self, value: Option<usize>)
        requires
            old(self).type_view().well_formed(),
            old(self).fits(SLOT_BUFFER as int, value),
        ensures
            final(self).type_view().well_formed(),
            final(self).type_view().slots_view() == old(self).type_view().slots_view().update(
                SLOT_BUFFER as int,
                value,
            ),
            final(self).type_view().capacity_view() == old(self).type_view().capacity_view(),
            final(self).type_view().name_view() == old(self).type_view().name_view(),
            final(self).type_view().flags_view() == old(self).type_view().flags_view(),
    {
        self.set_callback(SLOT_BUFFER, value);
    }

    /// Sets a `getiter` function, or clears the iterator slot; the iterator
    /// mode becomes `getiter` either way.
    pub fn set_getiter_raw(&mut self, value: Option<usize>)
        requires
            old(self).type_view().well_formed(),
            old(self).fits(SLOT_ITER as int, value),
        ensures
            final(self).type_view().well_formed(),
            final(self).type_view().slots_view() == old(self).type_view().slots_view().update(
                SLOT_ITER as int,
                value,
            ),
            final(self).type_view().capacity_view() == old(self).type_view().capacity_view(),
            final(self).type_view().name_view() == old(self).type_view().name_view(),
            final(self).type_view().flags_view() == flags_with_iter_mode(
                old(self).type_view().flags_view(),
                MP_TYPE_FLAG_ITER_IS_GETITER,
            ),
    {
        self.set_iter(value, MP_TYPE_FLAG_ITER_IS_GETITER);
    }

    /// Sets an `iternext` function, in `iternext` mode; clearing the slot
    /// leaves the type in `getiter` mode.
    pub fn set_iternext_raw(&mut self, value: Option<usize>)
        requires
            old(self).type_view().well_formed(),
            old(self).fits(SLOT_ITER as int, value),
        ensures
            final(self).type_view().well_formed(),
            final(self).type_view().slots_view() == old(self).type_view().slots_view().update(
                SLOT_ITER as int,
                value,
            ),
            final(self).type_view().capacity_view() == old(self).type_view().capacity_view(),
            final(self).type_view().name_view() == old(self).type_view().name_view(),
            final(self).type_view().flags_view() == flags_with_iter_mode(
                old(self).type_view().flags_view(),
                if value is Some {
                    MP_TYPE_FLAG_ITER_IS_ITERNEXT
                } else {
                    MP_TYPE_FLAG_ITER_IS_GETITER
                },
            ),
    {
        let mode = if value.is_some() {
            MP_TYPE_FLAG_ITER_IS_ITERNEXT
        } else {
            MP_TYPE_FLAG_ITER_IS_GETITER
        };
        self.set_iter(value, mode);
    }

    /// Sets a custom iterator table, in custom mode; clearing the slot leaves
    /// the type in `getiter` mode.
    pub fn set_custom_iter_raw(&mut self, value: Option<usize>)
        requires
            old(self).type_view().well_formed(),
            old(self).fits(SLOT_ITER as int, value),
        ensures
            final(self).type_view().well_formed(),
            final(self).type_view().slots_view() == old(self).type_view().slots_view().update(
                SLOT_ITER as int,
                value,
            ),
            final(self).type_view().capacity_view() == old(self).type_view().capacity_view(),
            final(self).type_view().name_view() == old(self).type_view().name_view(),
            final(self).type_view().flags_view() == flags_with_iter_mode(
                old(self).type_view().flags_view(),
                if value is Some {
                    MP_TYPE_FLAG_ITER_IS_CUSTOM
                } else {
                    MP_TYPE_FLAG_ITER_IS_GETITER
                },
            ),
    {
        let mode = if value.is_some() {
            MP_TYPE_FLAG_ITER_IS_CUSTOM
        } else {
            MP_TYPE_FLAG_ITER_IS_GETITER
        };
        self.set_iter(value, mode);
    }

    /// Makes the type iterate as a stream: the iterator slot is cleared.
    pub fn set_stream_iter_raw(&mut self)
        requires
            old(self).type_view().well_formed(),
        ensures
            final(self).type_view().well_formed(),
            final(self).type_view().slots_view() == old(self).type_view().slots_view().update(
                SLOT_ITER as int,
                None,
            ),
            final(self).type_view().capacity_view() == old(self).type_view().capacity_view(),
            final(self).type_view().name_view() == old(self).type_view().name_view(),
            final(self).type_view().flags_view() == flags_with_iter_mode(
                old(self).type_view().flags_view(),
                MP_TYPE_FLAG_ITER_IS_STREAM,
            ),
    {
        self.set_iter(None, MP_TYPE_FLAG_ITER_IS_STREAM);
    }

    pub fn set_protocol_raw(&mut self, value: Option<usize>)
        requires
            old(self).type_view().well_formed(),
            old(self).fits(SLOT_PROTOCOL as int, value),
        ensures
            final(self).type_view().well_formed(),
            final(self).type_view().slots_view() == old(self).type_view().slots_view().update(
                SLOT_PROTOCOL as int,
                value,
            ),
            final(self).type_view().capacity_view() == old(self).type_view().capacity_view(),
            final(self).type_view().name_view() == old(self).type_view().name_view(),
            final(self).type_view().flags_view() == old(self).type_view().flags_view(),
    {
        self.set_callback(SLOT_PROTOCOL, value);
    }

    /// Sets the single parent type.
    pub fn set_parent_raw(&mut self, value: Option<usize>)
        requires
            old(self).type_view().well_formed(),
            old(self).fits(SLOT_PARENT as int, value),
        ensures
            final(self).type_view().well_formed(),
            final(self).type_view().slots_view() == old(self).type_view().slots_view().update(
                SLOT_PARENT as int,
                value,
            ),
            final(self).type_view().capacity_view() == old(self).type_view().capacity_view(),
            final(self).type_view().name_view() == old(self).type_view().name_view(),
            final(self).type_view().flags_view() == old(self).type_view().flags_view(),
    {
        self.set_callback(SLOT_PARENT, value);
    }

    /// Sets the tuple of parent types, in the same slot as a single parent.
    pub fn set_parents_raw(&mut self, value: Option<usize>)
        requires
            old(self).type_view().well_formed(),
            old(self).fits(SLOT_PARENT as int, value),
        ensures
            final(self).type_view().well_formed(),
            final(self).type_view().slots_view() == old(self).type_view().slots_view().update(
                SLOT_PARENT as int,
                value,
            ),
            final(self).type_view().capacity_view() == old(self).type_view().capacity_view(),
            final(self).type_view().name_view() == old(self).type_view().name_view(),
            final(self).type_view().flags_view() == old(self).type_view().flags_view(),
    {
        self.set_callback(SLOT_PARENT, value);
    }

    pub fn set_locals_dict_raw(&mut self, value: Option<usize>)
        requires
            old(self).type_view().well_formed(),
            old(self).fits(SLOT_LOCALS_DICT as int, value),
        ensures
            final(self).type_view().well_formed(),
            final(self).type_view().slots_view() == old(self).type_view().slots_view().update(
                SLOT_LOCALS_DICT as int,
                value,
            ),
            final(self).type_view().capacity_view() == old(self).type_view().capacity_view(),
            final(self).type_view().name_view() == old(self).type_view().name_view(),
            final(self).type_view().flags_view() == old(self).type_view().flags_view(),
    {
        self.set_callback(SLOT_LOCALS_DICT, value);
    }

    /// The same type with room for `new_capacity` callbacks.
    pub fn resize(self, new_capacity: usize) -> (t: TypeStorage)
        requires
            self.type_view().well_formed(),
            new_capacity <= MAX_SLOTS,
            set_count(self.type_view().slots_view()) <= new_capacity,
        ensures
            t.type_view().well_formed(),
            t.type_view().capacity_view() == new_capacity,
            t.type_view().slots_view() == self.type_view().slots_view(),
            t.type_view().name_view() == self.type_view().name_view(),
            t.type_view().flags_view() == self.type_view().flags_view(),
    {
        let Type { name, flags, slots } = self.ty;
        TypeStorage { ty: Type { name, flags, slots: slots.resize(new_capacity) } }
    }
}

/// Each iterator setter is read back by the getter of its mode, and the
/// getters of the other modes then read nothing; the flags outside the
/// iterator mode are left as they were.
pub proof fn lemma_iter_modes(flags: u16, slots: Seq<Option<usize>>, value: Option<usize>, mode: u16, other: u16)
    requires
        mode == MP_TYPE_FLAG_ITER_IS_GETITER || mode == MP_TYPE_FLAG_ITER_IS_ITERNEXT || mode
            == MP_TYPE_FLAG_ITER_IS_CUSTOM || mode == MP_TYPE_FLAG_ITER_IS_STREAM,
        other != mode,
        slots.len() == MAX_SLOTS,
    ensures
        iter_slot_as(flags_with_iter_mode(flags, mode), slots.update(SLOT_ITER as int, value), mode)
            == value,
        iter_slot_as(flags_with_iter_mode(flags, mode), slots.update(SLOT_ITER as int, value), other)
            is None,
        flags_with_iter_mode(flags, mode) & ITER_MASK == mode,
        flags_with_iter_mode(flags, mode) & !ITER_MASK == flags & !ITER_MASK,
{
    assert(((flags & !0x0180u16) | mode) & 0x0180u16 == mode && ((flags & !0x0180u16) | mode)
        & !0x0180u16 == flags & !0x0180u16) by (bit_vector)
        requires
            mode == 0 || mode == 0x0080 || mode == 0x0100 || mode == 0x0180,
    ;
}

} // verus!

//! The slot table of a MicroPython type object.
//!
//! A type has one optional callback for each of its twelve slot kinds
//! (`make_new`, `print`, `call`, `unary_op`, `binary_op`, `attr`, `subscr`,
//! `iter`, `buffer`, `protocol`, `parent`, `locals_dict`). The callbacks live
//! in a table of limited capacity; for each kind the type stores the 1-based
//! position of its callback in the table, or 0 when the kind is unset. Callback
//! addresses are kept as integers.

use vstd::prelude::*;
use vstd::set_lib::*;

verus! {

/// The number of slot kinds, and the largest capacity a table may have.
pub const MAX_SLOTS: usize = 12;

/// A type's slot positions and its table of callbacks.
pub struct TypeSlots {
    indices: Vec<u8>,
    slots: Vec<Option<usize>>,
}

/// The kinds that are set.
pub open spec fn set_kinds(values: Seq<Option<usize>>) -> Set<int> {
    Set::new(|k: int| 0 <= k < values.len() && values[k] is Some)
}

/// The number of kinds that are set.
pub open spec fn set_count(values: Seq<Option<usize>>) -> nat {
    set_kinds(values).len()
}

impl View for TypeSlots {
    /// The callback of each kind.
    type V = Seq<Option<usize>>;

    closed spec fn view(&self) -> Seq<Option<usize>> {
        Seq::new(
            MAX_SLOTS as nat,
            |k: int|
                if self.indices@[k] == 0 {
                    None
                } else {
                    self.slots@[self.indices@[k] - 1]
                },
        )
    }
}

impl TypeSlots {
    /// The positions point into the table at callbacks, no two kinds share a
    /// position, and every filled position belongs to a kind.
    pub closed spec fn well_formed(&self) -> bool {
        &&& self.indices@.len() == MAX_SLOTS
        &&& self.slots@.len() <= MAX_SLOTS
        &&& forall|k: int|
            0 <= k < MAX_SLOTS && #[trigger] self.indices@[k] != 0 ==> self.indices@[k]
                <= self.slots@.len() && self.slots@[self.indices@[k] - 1] is Some
        &&& forall|k1: int, k2: int|
            0 <= k1 < k2 < MAX_SLOTS && #[trigger] self.indices@[k1] != 0 ==> self.indices@[k1]
                != #[trigger] self.indices@[k2]
        &&& forall|j: int|
            0 <= j < self.slots@.len() && #[trigger] self.slots@[j] is Some ==> exists|k: int|
                0 <= k < MAX_SLOTS && #[trigger] self.indices@[k] == j + 1
    }

    /// How many callbacks the table holds at most.
    pub closed spec fn capacity(&self) -> nat {
        self.slots@.len()
    }

    /// The 1-based position of the callback of `kind` in the table, 0 when
    /// the kind is unset.
    pub closed spec fn position(&self, kind: int) -> int {
        self.indices@[kind] as int
    }

    /// The table, position by position.
    pub closed spec fn table_view(&self) -> Seq<Option<usize>> {
        self.slots@
    }

    /// What well-formedness means in terms of positions: the set kinds, and
    /// only they, have a position; it holds their callback; no two share
    /// one; every filled position belongs to a kind.
    pub proof fn lemma_positions(&self)
        requires
            self.well_formed(),
        ensures
            self.table_view().len() == self.capacity() <= MAX_SLOTS,
            forall|k: int|
                0 <= k < MAX_SLOTS ==> (#[trigger] self.position(k) == 0 <==> self@[k] is None),
            forall|k: int|
                0 <= k < MAX_SLOTS && #[trigger] self.position(k) != 0 ==> 1 <= self.position(k)
                    <= self.capacity() && self.table_view()[self.position(k) - 1] == self@[k],
            forall|k1: int, k2: int|
                0 <= k1 < k2 < MAX_SLOTS && #[trigger] self.position(k1) != 0 ==> self.position(k1)
                    != #[trigger] self.position(k2),
            forall|j: int|
                0 <= j < self.capacity() && #[trigger] self.table_view()[j] is Some ==> exists|
                    k: int,
                | 0 <= k < MAX_SLOTS && #[trigger] self.position(k) == j + 1,
    {
        assert forall|j: int|
            0 <= j < self.capacity() && #[trigger] self.table_view()[j] is Some implies exists|
                k: int,
            | 0 <= k < MAX_SLOTS && #[trigger] self.position(k) == j + 1 by {
            let k = choose|k: int| 0 <= k < MAX_SLOTS && #[trigger] self.indices@[k] == j + 1;
            assert(self.position(k) == j + 1);
        }
    }

    /// A type with no callbacks and room for `capacity` of them.
    pub fn new(capacity: usize) -> (t: TypeSlots)
        requires
            capacity <= MAX_SLOTS,
        ensures
            t.well_formed(),
            t.capacity() == capacity,
            t@ == Seq::new(MAX_SLOTS as nat, |k: int| None::<usize>),
    {
        let mut indices: Vec<u8> = Vec::new();
        let mut i: usize = 0;
        while i < MAX_SLOTS
            invariant
                0 <= i <= MAX_SLOTS,
                indices@.len() == i,
                forall|k: int| 0 <= k < i ==> indices@[k] == 0,
            decreases MAX_SLOTS - i,
        {
            indices.push(0);
            i += 1;
        }
        let mut slots: Vec<Option<usize>> = Vec::new();
        let mut j: usize = 0;
        while j < capacity
            invariant
                0 <= j <= capacity,
                slots@.len() == j,
                forall|k: int| 0 <= k < j ==> slots@[k] is None,
            decreases capacity - j,
        {
            slots.push(None);
            j += 1;
        }
        let t = TypeSlots { indices, slots };
        assert(t@ =~= Seq::new(MAX_SLOTS as nat, |k: int| None::<usize>));
        t
    }

    /// The callback of slot kind `kind`.
    pub fn slot(&self, kind: usize) -> (value: Option<usize>)
        requires
            self.well_formed(),
            kind < MAX_SLOTS,
        ensures
            value == self@[kind as int],
    {
        let index = self.indices[kind];
        if index == 0 {
            None
        } else {
            self.slots[(index - 1) as usize]
        }
    }

    /// The position of each kind's callback in the table, 0 for none.
    pub fn slot_indices(&self) -> (indices: Vec<u8>)
        requires
            self.well_formed(),
        ensures
            indices@.len() == MAX_SLOTS,
            forall|k: int| 0 <= k < MAX_SLOTS ==> #[trigger] indices@[k] == self.position(k),
    {
        let mut indices: Vec<u8> = Vec::new();
        let mut i: usize = 0;
        while i < MAX_SLOTS
            invariant
                self.well_formed(),
                0 <= i <= MAX_SLOTS,
                indices@.len() == i,
                forall|k: int| 0 <= k < i ==> #[trigger] indices@[k] == self.indices@[k],
            decreases MAX_SLOTS - i,
        {
            indices.push(self.indices[i]);
            i += 1;
        }
        indices
    }

    /// The table itself.
    pub fn table(&self) -> (table: &Vec<Option<usize>>)
        requires
            self.well_formed(),
        ensures
            table@ == self.table_view(),
    {
        &self.slots
    }

    /// How many kinds have a callback.
    pub fn slot_count(&self) -> (n: usize)
        requires
            self.well_formed(),
        ensures
            n == set_count(self@),
    {
        let ghost values = self@;
        let mut n: usize = 0;
        let mut i: usize = 0;
        proof {
            assert(Set::new(|k: int| 0 <= k < 0 && values[k] is Some) =~= Set::<int>::empty());
        }
        while i < MAX_SLOTS
            invariant
                self.well_formed(),
                values == self@,
                0 <= i <= MAX_SLOTS,
                n <= i,
                Set::new(|k: int| 0 <= k < i && values[k] is Some).finite(),
                n == Set::new(|k: int| 0 <= k < i && values[k] is Some).len(),
            decreases MAX_SLOTS - i,
        {
            let ghost before = Set::new(|k: int| 0 <= k < i && values[k] is Some);
            let ghost after = Set::new(|k: int| 0 <= k < i + 1 && values[k] is Some);
            if self.indices[i] != 0 {
                proof {
                    assert(after =~= before.insert(i as int));
                }
                n += 1;
            } else {
                proof {
                    assert(after =~= before);
                }
            }
            i += 1;
        }
        assert(Set::new(|k: int| 0 <= k < MAX_SLOTS && values[k] is Some) =~= set_kinds(values));
        n
    }

    /// A table that holds fewer callbacks than it has room for has a free
    /// position.
    proof fn lemma_free_position(&self)
        requires
            self.well_formed(),
            set_count(self@) < self.capacity(),
        ensures
            exists|j: int| 0 <= j < self.slots@.len() && self.slots@[j] is None,
    {
        let kinds = set_kinds(self@);
        let cap = self.slots@.len() as int;
        let used = Set::new(|j: int| 0 <= j < cap && self.slots@[j] is Some);
        let f = |k: int| self.indices@[k] - 1;
        assert forall|k: int| 0 <= k < MAX_SLOTS implies (self@[k] is Some <==> #[trigger] self.indices@[k]
            != 0) by {}
        lemma_int_range(0, MAX_SLOTS as int);
        assert(kinds.subset_of(set_int_range(0, MAX_SLOTS as int)));
        lemma_len_subset(kinds, set_int_range(0, MAX_SLOTS as int));
        assert(vstd::relations::injective_on(f, kinds)) by {
            assert forall|k1: int, k2: int|
                kinds.contains(k1) && kinds.contains(k2) && #[trigger] f(k1) == #[trigger] f(k2) implies k1
                == k2 by {
                if k1 < k2 {
                    assert(self.indices@[k1] != self.indices@[k2]);
                } else if k2 < k1 {
                    assert(self.indices@[k2] != self.indices@[k1]);
                }
            }
        }
        assert(kinds.map(f) =~= used) by {
            assert forall|j: int| used.contains(j) implies kinds.map(f).contains(j) by {
                let k = choose|k: int| 0 <= k < MAX_SLOTS && #[trigger] self.indices@[k] == j + 1;
                assert(kinds.contains(k));
                assert(f(k) == j);
            }
            assert forall|j: int| kinds.map(f).contains(j) implies used.contains(j) by {
                let k = choose|k: int| kinds.contains(k) && f(k) == j;
                assert(self.indices@[k] != 0);
            }
        }
        lemma_map_size(kinds, used, f);
        if forall|j: int| 0 <= j < cap ==> self.slots@[j] is Some {
            lemma_int_range(0, cap);
            assert(used =~= set_int_range(0, cap));
            assert(false);
        }
    }

    /// Gives slot kind `kind` the callback `value`, or unsets it. A kind that
    /// gets its first callback takes the first free position.
    pub fn set_slot(&mut self, kind: usize, value: Option<usize>)
        requires
            old(self).well_formed(),
            kind < MAX_SLOTS,
            old(self)@[kind as int] is None && value is Some ==> set_count(old(self)@) < old(
                self,
            ).capacity(),
        ensures
            final(self).well_formed(),
            final(self).capacity() == old(self).capacity(),
            final(self)@ == old(self)@.update(kind as int, value),
            forall|k: int|
                0 <= k < MAX_SLOTS && k != kind ==> #[trigger] final(self).position(k) == old(
                    self,
                ).position(k),
            old(self).position(kind as int) != 0 ==> final(self).position(kind as int) == if value
                is Some {
                old(self).position(kind as int)
            } else {
                0
            },
            old(self).position(kind as int) == 0 && value is Some ==> final(self).position(
                kind as int,
            ) == first_free(old(self).table_view()) + 1,
    {
        let index = self.indices[kind];
        if index != 0 {
            let position = (index - 1) as usize;
            self.slots.set(position, value);
            if value.is_none() {
                self.indices.set(kind, 0);
            }
            proof {
                let old_t = *old(self);
                assert forall|k: int| 0 <= k < MAX_SLOTS && k != kind implies #[trigger] old_t.indices@[k]
                    != index by {
                    if k < kind {
                        assert(old_t.indices@[k] != old_t.indices@[kind as int] || old_t.indices@[k] == 0);
                    } else {
                        assert(old_t.indices@[kind as int] != old_t.indices@[k]);
                    }
                }
                assert forall|j: int|
                    0 <= j < self.slots@.len() && #[trigger] self.slots@[j] is Some implies exists|k: int|
                    0 <= k < MAX_SLOTS && #[trigger] self.indices@[k] == j + 1 by {
                    if j == position {
                        assert(self.indices@[kind as int] == j + 1);
                    } else {
                        assert(old_t.slots@[j] is Some);
                        let k = choose|k: int| 0 <= k < MAX_SLOTS && #[trigger] old_t.indices@[k] == j + 1;
                        assert(self.indices@[k] == j + 1);
                    }
                }
                assert(self@ =~= old_t@.update(kind as int, value));
            }
        } else if value.is_some() {
            proof {
                old(self).lemma_free_position();
            }
            let n = self.slots.len();
            let mut i: usize = 0;
            while i < n
                invariant
                    *self == *old(self),
                    old(self).well_formed(),
                    kind < MAX_SLOTS,
                    old(self)@[kind as int] is None,
                    value is Some,
                    n == self.slots@.len(),
                    0 <= i <= n,
                    forall|j: int| 0 <= j < i ==> self.slots@[j] is Some,
                decreases n - i,
            {
                if self.slots[i].is_none() {
                    proof {
                        lemma_first_free(self.slots@, i as int);
                    }
                    self.slots.set(i, value);
                    self.indices.set(kind, (i + 1) as u8);
                    proof {
                        let old_t = *old(self);
                        assert forall|k: int| 0 <= k < MAX_SLOTS && k != kind implies #[trigger] old_t.indices@[k]
                            != i + 1 by {
                            if old_t.indices@[k] == i + 1 {
                                assert(old_t.slots@[old_t.indices@[k] - 1] is Some);
                            }
                        }
                        assert forall|j: int|
                            0 <= j < self.slots@.len() && #[trigger] self.slots@[j] is Some implies exists|k: int|
                            0 <= k < MAX_SLOTS && #[trigger] self.indices@[k] == j + 1 by {
                            if j == i {
                                assert(self.indices@[kind as int] == j + 1);
                            } else {
                                let k = choose|k: int| 0 <= k < MAX_SLOTS && #[trigger] old_t.indices@[k] == j + 1;
                                assert(k != kind);
                                assert(self.indices@[k] == j + 1);
                            }
                        }
                        assert(self@ =~= old_t@.update(kind as int, value));
                    }
                    return;
                }
                i += 1;
            }
            proof {
                let j = choose|j: int| 0 <= j < self.slots@.len() && self.slots@[j] is None;
                assert(self.slots@[j] is Some);
            }
        } else {
            assert(self@ =~= old(self)@.update(kind as int, value));
        }
    }

    /// The same callbacks in a table of room `new_capacity`, packed to its
    /// front in the order of their kinds.
    pub fn resize(self, new_capacity: usize) -> (t: TypeSlots)
        requires
            self.well_formed(),
            new_capacity <= MAX_SLOTS,
            set_count(self@) <= new_capacity,
        ensures
            t.well_formed(),
            t.capacity() == new_capacity,
            t@ == self@,
            forall|k1: int, k2: int|
                0 <= k1 < k2 < MAX_SLOTS && #[trigger] t.position(k1) != 0 && #[trigger] t.position(
                    k2,
                ) != 0 ==> t.position(k1) < t.position(k2),
            forall|p: int|
                0 <= p < new_capacity ==> (#[trigger] t.table_view()[p] is Some <==> p < set_count(
                    self@,
                )),
    {
        let ghost values = self@;
        let mut slots: Vec<Option<usize>> = Vec::new();
        let mut j: usize = 0;
        while j < new_capacity
            invariant
                0 <= j <= new_capacity,
                slots@.len() == j,
                forall|k: int| 0 <= k < j ==> slots@[k] is None,
            decreases new_capacity - j,
        {
            slots.push(None);
            j += 1;
        }
        proof {
            lemma_int_range(0, MAX_SLOTS as int);
            assert(set_kinds(values).subset_of(set_int_range(0, MAX_SLOTS as int)));
            lemma_len_subset(set_kinds(values), set_int_range(0, MAX_SLOTS as int));
            assert(Set::new(|k: int| 0 <= k < 0 && values[k] is Some) =~= Set::<int>::empty());
        }
        let mut indices: Vec<u8> = Vec::new();
        let mut count: usize = 0;
        let mut i: usize = 0;
        while i < MAX_SLOTS
            invariant
                self.well_formed(),
                values == self@,
                set_kinds(values).finite(),
                set_count(values) <= new_capacity <= MAX_SLOTS,
                0 <= i <= MAX_SLOTS,
                indices@.len() == i,
                slots@.len() == new_capacity,
                Set::new(|k: int| 0 <= k < i && values[k] is Some).finite(),
                count == Set::new(|k: int| 0 <= k < i && values[k] is Some).len(),
                count <= new_capacity,
                forall|k: int|
                    0 <= k < i ==> (#[trigger] indices@[k] == 0 <==> values[k] is None),
                forall|k: int|
                    0 <= k < i && #[trigger] indices@[k] != 0 ==> indices@[k] <= count
                        && slots@[indices@[k] - 1] == values[k],
                forall|k1: int, k2: int|
                    0 <= k1 < k2 < i && #[trigger] indices@[k1] != 0 && #[trigger] indices@[k2] != 0
                        ==> indices@[k1] < indices@[k2],
                forall|p: int| 0 <= p < count ==> #[trigger] position_used(indices@, i as int, p),
                forall|p: int| count <= p < new_capacity ==> #[trigger] slots@[p] is None,
            decreases MAX_SLOTS - i,
        {
            let ghost before = Set::new(|k: int| 0 <= k < i && values[k] is Some);
            let ghost after = Set::new(|k: int| 0 <= k < i + 1 && values[k] is Some);
            let index = self.indices[i];
            if index != 0 {
                proof {
                    assert(after =~= before.insert(i as int));
                    assert(after.subset_of(set_kinds(values)));
                    lemma_len_subset(after, set_kinds(values));
                }
                let value = self.slots[(index - 1) as usize];
                let ghost old_indices = indices@;
                let ghost old_slots = slots@;
                slots.set(count, value);
                indices.push((count + 1) as u8);
                proof {
                    assert forall|p: int| 0 <= p < count + 1 implies #[trigger] position_used(
                        indices@,
                        i + 1,
                        p,
                    ) by {
                        if p == count {
                            assert(indices@[i as int] == p + 1);
                        } else {
                            assert(position_used(old_indices, i as int, p));
                            let k = choose|k: int| 0 <= k < i && #[trigger] old_indices[k] == p + 1;
                            assert(indices@[k] == p + 1);
                        }
                    }
                }
                count += 1;
            } else {
                proof {
                    assert(after =~= before);
                }
                let ghost old_indices = indices@;
                indices.push(0);
                proof {
                    assert forall|p: int| 0 <= p < count implies #[trigger] position_used(
                        indices@,
                        i + 1,
                        p,
                    ) by {
                        assert(position_used(old_indices, i as int, p));
                        let k = choose|k: int| 0 <= k < i && #[trigger] old_indices[k] == p + 1;
                        assert(indices@[k] == p + 1);
                    }
                }
            }
            i += 1;
        }
        let t = TypeSlots { indices, slots };
        proof {
            assert(Set::new(|k: int| 0 <= k < MAX_SLOTS && values[k] is Some) =~= set_kinds(values));
            assert forall|j: int|
                0 <= j < t.slots@.len() && #[trigger] t.slots@[j] is Some implies exists|k: int|
                0 <= k < MAX_SLOTS && #[trigger] t.indices@[k] == j + 1 by {
                assert(j < count);
                assert(position_used(t.indices@, MAX_SLOTS as int, j));
            }
            assert forall|k1: int, k2: int|
                0 <= k1 < k2 < MAX_SLOTS && #[trigger] t.indices@[k1] != 0 implies t.indices@[k1]
                != #[trigger] t.indices@[k2] by {
                if t.indices@[k2] != 0 {
                    assert(t.indices@[k1] < t.indices@[k2]);
                }
            }
            assert(t@ =~= values);
            assert(count == set_count(values));
            assert forall|p: int| 0 <= p < new_capacity implies (#[trigger] t.table_view()[p] is Some
                <==> p < set_count(values)) by {
                if p < count {
                    assert(position_used(t.indices@, MAX_SLOTS as int, p));
                    let k = choose|k: int| 0 <= k < MAX_SLOTS && #[trigger] t.indices@[k] == p + 1;
                    assert(t.slots@[t.indices@[k] - 1] == values[k]);
                }
            }
        }
        t
    }
}

/// The first free position of a table, or its length when it is full.
pub open spec fn first_free(table: Seq<Option<usize>>) -> int
    decreases table.len(),
{
    if table.len() == 0 || table[0] is None {
        0
    } else {
        1 + first_free(table.drop_first())
    }
}

proof fn lemma_first_free(table: Seq<Option<usize>>, i: int)
    requires
        0 <= i < table.len(),
        table[i] is None,
        forall|j: int| 0 <= j < i ==> table[j] is Some,
    ensures
        first_free(table) == i,
    decreases i,
{
    if i > 0 {
        let rest = table.drop_first();
        assert forall|j: int| 0 <= j < i - 1 implies rest[j] is Some by {
            assert(rest[j] == table[j + 1]);
        }
        assert(rest[i - 1] == table[i]);
        lemma_first_free(rest, i - 1);
    }
}

/// Some kind among the first `n` sits at position `p` of the table.
pub open spec fn position_used(indices: Seq<u8>, n: int, p: int) -> bool {
    exists|k: int| 0 <= k < n && #[trigger] indices[k] == p + 1
}

/// Setting a slot and reading it back gives what was set, and leaves every
/// other kind as it was; resizing keeps every callback and their number.
pub proof fn lemma_slot_laws(before: Seq<Option<usize>>, kind: int, value: Option<usize>)
    requires
        before.len() == MAX_SLOTS,
        0 <= kind < MAX_SLOTS,
    ensures
        before.update(kind, value)[kind] == value,
        forall|k: int|
            0 <= k < MAX_SLOTS && k != kind ==> #[trigger] before.update(kind, value)[k] == before[k],
        value is Some && before[kind] is None ==> set_count(before.update(kind, value)) == set_count(
            before,
        ) + 1,
        value is None && before[kind] is Some ==> set_count(before.update(kind, value)) + 1
            == set_count(before),
        (value is Some) == (before[kind] is Some) ==> set_count(before.update(kind, value))
            == set_count(before),
{
    let after = before.update(kind, value);
    lemma_int_range(0, MAX_SLOTS as int);
    assert(set_kinds(before).subset_of(set_int_range(0, MAX_SLOTS as int)));
    lemma_len_subset(set_kinds(before), set_int_range(0, MAX_SLOTS as int));
    if value is Some && before[kind] is None {
        assert(set_kinds(after) =~= set_kinds(before).insert(kind));
    } else if value is None && before[kind] is Some {
        assert(set_kinds(after) =~= set_kinds(before).remove(kind));
    } else if (value is Some) == (before[kind] is Some) {
        assert(set_kinds(after) =~= set_kinds(before));
    }
}

} // verus!

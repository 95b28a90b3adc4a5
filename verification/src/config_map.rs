//! A map from configuration names to values, its entries kept in the order
//! of their names.

use vstd::prelude::*;
use vstd::string::StringSliceAdditionalSpecFns;
use vstd::utf8::*;

use crate::string_order::{lemma_string_le, str_le, string_le};

verus! {

/// The value that `entries` gives `name`, if any.
pub open spec fn lookup<V>(entries: Seq<(Seq<char>, V)>, name: Seq<char>) -> Option<V>
    decreases entries.len(),
{
    if entries.len() == 0 {
        None
    } else if entries[0].0 == name {
        Some(entries[0].1)
    } else {
        lookup(entries.drop_first(), name)
    }
}

/// No name occurs twice.
pub open spec fn distinct_names<V>(entries: Seq<(Seq<char>, V)>) -> bool {
    forall|i: int, j: int|
        0 <= i < j < entries.len() ==> #[trigger] entries[i].0 != #[trigger] entries[j].0
}

/// Where `name` stands in `entries`, if it does.
pub open spec fn index_of<V>(entries: Seq<(Seq<char>, V)>, name: Seq<char>) -> Option<int> {
    if exists|i: int| 0 <= i < entries.len() && entries[i].0 == name {
        Some(choose|i: int| 0 <= i < entries.len() && entries[i].0 == name)
    } else {
        None
    }
}

/// With distinct names, a name's value is the one stored beside it.
pub proof fn lemma_lookup<V>(entries: Seq<(Seq<char>, V)>, name: Seq<char>)
    requires
        distinct_names(entries),
    ensures
        match index_of(entries, name) {
            Some(i) => 0 <= i < entries.len() && entries[i].0 == name && lookup(entries, name)
                == Some(entries[i].1),
            None => lookup(entries, name) is None && forall|i: int|
                0 <= i < entries.len() ==> #[trigger] entries[i].0 != name,
        },
    decreases entries.len(),
{
    if entries.len() > 0 {
        let rest = entries.drop_first();
        assert(distinct_names(rest)) by {
            assert forall|i: int, j: int|
                0 <= i < j < rest.len() implies #[trigger] rest[i].0 != #[trigger] rest[j].0 by {
                assert(rest[i] == entries[i + 1] && rest[j] == entries[j + 1]);
            }
        }
        lemma_lookup(rest, name);
        if entries[0].0 != name {
            match index_of(rest, name) {
                Some(k) => {
                    assert(entries[k + 1] == rest[k]);
                    let i = index_of(entries, name).unwrap();
                    if i != k + 1 {
                        if i < k + 1 {
                            assert(entries[i].0 != entries[k + 1].0);
                        } else {
                            assert(entries[k + 1].0 != entries[i].0);
                        }
                    }
                },
                None => {
                    assert forall|i: int| 0 <= i < entries.len() implies #[trigger] entries[i].0
                        != name by {
                        if i > 0 {
                            assert(entries[i] == rest[i - 1]);
                        }
                    }
                },
            }
        } else {
            let i = index_of(entries, name).unwrap();
            if i != 0 {
                assert(entries[0].0 != entries[i].0);
            }
        }
    }
}

/// Whether the name `a` comes strictly before the name `b`.
pub open spec fn name_lt(a: Seq<char>, b: Seq<char>) -> bool {
    string_le(a, b) && a != b
}

/// The names strictly increase.
pub open spec fn sorted_names<V>(entries: Seq<(Seq<char>, V)>) -> bool {
    forall|i: int, j: int|
        0 <= i < j < entries.len() ==> name_lt(#[trigger] entries[i].0, #[trigger] entries[j].0)
}

/// The names that occur in `entries`.
pub open spec fn names_of<V>(entries: Seq<(Seq<char>, V)>) -> Set<Seq<char>> {
    Set::new(|k: Seq<char>| exists|i: int| 0 <= i < entries.len() && entries[i].0 == k)
}

/// Where a name not in `entries` goes to keep them in order: after every
/// entry whose name comes before it.
pub open spec fn insert_position<V>(entries: Seq<(Seq<char>, V)>, name: Seq<char>) -> int
    decreases entries.len(),
{
    if entries.len() == 0 {
        0
    } else if name_lt(entries.last().0, name) {
        entries.len() as int
    } else {
        insert_position(entries.drop_last(), name)
    }
}

/// Sorted names are distinct.
pub proof fn lemma_sorted_distinct<V>(entries: Seq<(Seq<char>, V)>)
    requires
        sorted_names(entries),
    ensures
        distinct_names(entries),
{
    assert forall|i: int, j: int| 0 <= i < j < entries.len() implies #[trigger] entries[i].0
        != #[trigger] entries[j].0 by {
        assert(name_lt(entries[i].0, entries[j].0));
    }
}

/// In sorted entries without `name`, the entries before its insert position
/// come before it and the others after it.
pub proof fn lemma_insert_position<V>(entries: Seq<(Seq<char>, V)>, name: Seq<char>)
    requires
        sorted_names(entries),
        forall|i: int| 0 <= i < entries.len() ==> #[trigger] entries[i].0 != name,
    ensures
        0 <= insert_position(entries, name) <= entries.len(),
        forall|i: int|
            0 <= i < insert_position(entries, name) ==> name_lt(#[trigger] entries[i].0, name),
        forall|i: int|
            insert_position(entries, name) <= i < entries.len() ==> name_lt(
                name,
                #[trigger] entries[i].0,
            ),
    decreases entries.len(),
{
    if entries.len() > 0 {
        let n = entries.len() as int;
        let last = entries.last().0;
        lemma_string_le(last, name, name);
        if name_lt(last, name) {
            assert forall|i: int| 0 <= i < n implies name_lt(#[trigger] entries[i].0, name) by {
                if i < n - 1 {
                    assert(name_lt(entries[i].0, entries[n - 1].0));
                    lemma_string_le(entries[i].0, last, name);
                    lemma_string_le(entries[i].0, name, last);
                }
            }
        } else {
            let rest = entries.drop_last();
            assert(sorted_names(rest)) by {
                assert forall|i: int, j: int| 0 <= i < j < rest.len() implies name_lt(
                    #[trigger] rest[i].0,
                    #[trigger] rest[j].0,
                ) by {
                    assert(rest[i] == entries[i] && rest[j] == entries[j]);
                }
            }
            assert forall|i: int| 0 <= i < rest.len() implies #[trigger] rest[i].0 != name by {
                assert(rest[i] == entries[i]);
            }
            lemma_insert_position(rest, name);
            let p = insert_position(rest, name);
            assert(name_lt(name, last)) by {
                lemma_string_le(name, last, name);
            }
            assert forall|i: int| 0 <= i < p implies name_lt(#[trigger] entries[i].0, name) by {
                assert(rest[i] == entries[i]);
            }
            assert forall|i: int| p <= i < n implies name_lt(name, #[trigger] entries[i].0) by {
                if i < n - 1 {
                    assert(rest[i] == entries[i]);
                }
            }
        }
    }
}

/// `entries` with `name` given `value`: in place when the name is present,
/// at its place in the order of names otherwise.
pub open spec fn inserted<V>(entries: Seq<(Seq<char>, V)>, name: Seq<char>, value: V) -> Seq<
    (Seq<char>, V),
> {
    match index_of(entries, name) {
        Some(i) => entries.update(i, (name, value)),
        None => entries.insert(insert_position(entries, name), (name, value)),
    }
}

/// Inserting keeps the names sorted and adds `name` to them; afterwards the
/// inserted name has the inserted value and every other name keeps the
/// value it had.
pub proof fn lemma_insert_then_lookup<V>(
    entries: Seq<(Seq<char>, V)>,
    name: Seq<char>,
    value: V,
    other: Seq<char>,
)
    requires
        sorted_names(entries),
    ensures
        sorted_names(inserted(entries, name, value)),
        names_of(inserted(entries, name, value)) == names_of(entries).insert(name),
        lookup(inserted(entries, name, value), name) == Some(value),
        other != name ==> lookup(inserted(entries, name, value), other) == lookup(entries, other),
{
    let after = inserted(entries, name, value);
    lemma_sorted_distinct(entries);
    lemma_lookup(entries, name);
    lemma_lookup(entries, other);
    match index_of(entries, name) {
        Some(i) => {
            assert(sorted_names(after)) by {
                assert forall|a: int, b: int| 0 <= a < b < after.len() implies name_lt(
                    #[trigger] after[a].0,
                    #[trigger] after[b].0,
                ) by {
                    assert(name_lt(entries[a].0, entries[b].0));
                }
            }
            assert(names_of(after) =~= names_of(entries).insert(name)) by {
                assert forall|k: Seq<char>| names_of(entries).insert(name).contains(k) implies names_of(
                    after,
                ).contains(k) by {
                    if k != name {
                        let j = choose|j: int| 0 <= j < entries.len() && entries[j].0 == k;
                        assert(after[j].0 == k);
                    } else {
                        assert(after[i].0 == k);
                    }
                }
                assert forall|k: Seq<char>| names_of(after).contains(k) implies names_of(
                    entries,
                ).insert(name).contains(k) by {
                    let j = choose|j: int| 0 <= j < after.len() && after[j].0 == k;
                    if j != i {
                        assert(entries[j].0 == k);
                    }
                }
            }
            lemma_sorted_distinct(after);
            lemma_lookup(after, name);
            lemma_lookup(after, other);
            assert(after[i].0 == name);
            if other != name {
                match index_of(after, other) {
                    Some(k) => {
                        assert(entries[k].0 == other);
                    },
                    None => {
                        match index_of(entries, other) {
                            Some(k) => {
                                assert(after[k].0 == entries[k].0);
                            },
                            None => {},
                        }
                    },
                }
            }
        },
        None => {
            lemma_insert_position(entries, name);
            let p = insert_position(entries, name);
            assert(after =~= entries.insert(p, (name, value)));
            assert(sorted_names(after)) by {
                assert forall|a: int, b: int| 0 <= a < b < after.len() implies name_lt(
                    #[trigger] after[a].0,
                    #[trigger] after[b].0,
                ) by {
                    if b < p {
                        assert(name_lt(entries[a].0, entries[b].0));
                    } else if b == p {
                        assert(after[a] == entries[a]);
                    } else if a == p {
                        assert(after[b] == entries[b - 1]);
                    } else if a < p {
                        assert(after[a] == entries[a] && after[b] == entries[b - 1]);
                        assert(name_lt(entries[a].0, name));
                        assert(name_lt(name, entries[b - 1].0));
                        lemma_string_le(entries[a].0, name, entries[b - 1].0);
                        if entries[a].0 == entries[b - 1].0 {
                            lemma_string_le(entries[a].0, name, name);
                        }
                    } else {
                        assert(after[a] == entries[a - 1] && after[b] == entries[b - 1]);
                        assert(name_lt(entries[a - 1].0, entries[b - 1].0));
                    }
                }
            }
            assert(names_of(after) =~= names_of(entries).insert(name)) by {
                assert forall|k: Seq<char>| names_of(entries).insert(name).contains(k) implies names_of(
                    after,
                ).contains(k) by {
                    if k != name {
                        let j = choose|j: int| 0 <= j < entries.len() && entries[j].0 == k;
                        if j < p {
                            assert(after[j].0 == k);
                        } else {
                            assert(after[j + 1].0 == k);
                        }
                    } else {
                        assert(after[p].0 == k);
                    }
                }
                assert forall|k: Seq<char>| names_of(after).contains(k) implies names_of(
                    entries,
                ).insert(name).contains(k) by {
                    let j = choose|j: int| 0 <= j < after.len() && after[j].0 == k;
                    if j < p {
                        assert(entries[j].0 == k);
                    } else if j > p {
                        assert(entries[j - 1].0 == k);
                    }
                }
            }
            lemma_sorted_distinct(after);
            lemma_lookup(after, name);
            lemma_lookup(after, other);
            assert(after[p].0 == name);
            if other != name {
                match index_of(after, other) {
                    Some(k) => {
                        if k < p {
                            assert(entries[k].0 == other);
                        } else {
                            assert(k != p);
                            assert(entries[k - 1].0 == other);
                        }
                    },
                    None => {
                        match index_of(entries, other) {
                            Some(k) => {
                                if k < p {
                                    assert(after[k].0 == entries[k].0);
                                } else {
                                    assert(after[k + 1].0 == entries[k].0);
                                }
                            },
                            None => {},
                        }
                    },
                }
            }
        },
    }
}

/// Whether two byte strings are equal.
pub(crate) fn bytes_equal(a: &[u8], b: &[u8]) -> (r: bool)
    ensures
        r == (a@ == b@),
{
    if a.len() != b.len() {
        return false;
    }
    let mut i: usize = 0;
    while i < a.len()
        invariant
            a@.len() == b@.len(),
            0 <= i <= a@.len(),
            forall|j: int| 0 <= j < i ==> a@[j] == b@[j],
        decreases a@.len() - i,
    {
        if a[i] != b[i] {
            return false;
        }
        i += 1;
    }
    assert(a@ =~= b@);
    true
}

/// Whether two strings hold the same characters.
pub(crate) fn str_equal(a: &str, b: &str) -> (r: bool)
    ensures
        r == (a@ == b@),
{
    broadcast use encode_utf8_decode_utf8;

    let r = bytes_equal(a.as_bytes(), b.as_bytes());
    proof {
        if r {
            assert(decode_utf8(encode_utf8(a@)) == decode_utf8(encode_utf8(b@)));
        }
    }
    r
}

/// Configuration names with their values, in the order of the names; no
/// name occurs twice.
#[derive(Debug)]
pub struct ConfigMap<V: View> {
    entries: Vec<(String, V)>,
}

impl<V: View> View for ConfigMap<V> {
    type V = Seq<(Seq<char>, V::V)>;

    closed spec fn view(&self) -> Seq<(Seq<char>, V::V)> {
        self.entries@.map_values(|e: (String, V)| (e.0@, e.1@))
    }
}

impl<V: View> ConfigMap<V> {
    #[verifier::type_invariant]
    spec fn names_are_sorted(&self) -> bool {
        sorted_names(self@)
    }

    /// The value of `name`, in terms of the view.
    pub open spec fn value_of(&self, name: Seq<char>) -> Option<V::V> {
        lookup(self@, name)
    }

    /// An empty map.
    pub fn new() -> (m: Self)
        ensures
            m@ == Seq::<(Seq<char>, V::V)>::empty(),
    {
        let m = ConfigMap { entries: Vec::new() };
        assert(m@ =~= Seq::<(Seq<char>, V::V)>::empty());
        m
    }

    /// The number of names.
    pub fn len(&self) -> (n: usize)
        ensures
            n == self@.len(),
    {
        self.entries.len()
    }

    pub fn is_empty(&self) -> (b: bool)
        ensures
            b == (self@.len() == 0),
    {
        self.entries.len() == 0
    }

    /// Where `name` stands among the entries.
    pub fn position(&self, name: &str) -> (r: Option<usize>)
        ensures
            match r {
                Some(i) => i < self@.len() && self@[i as int].0 == name@,
                None => forall|i: int| 0 <= i < self@.len() ==> #[trigger] self@[i].0 != name@,
            },
    {
        let mut i: usize = 0;
        while i < self.entries.len()
            invariant
                0 <= i <= self.entries@.len(),
                self@.len() == self.entries@.len(),
                forall|j: int| 0 <= j < i ==> #[trigger] self@[j].0 != name@,
            decreases self.entries@.len() - i,
        {
            if str_equal(self.entries[i].0.as_str(), name) {
                return Some(i);
            }
            i += 1;
        }
        None
    }

    /// The value of `name`, if it has one.
    pub fn get(&self, name: &str) -> (r: Option<&V>)
        ensures
            match r {
                Some(v) => self.value_of(name@) == Some(v@),
                None => self.value_of(name@) is None,
            },
    {
        proof {
            use_type_invariant(self);
            lemma_sorted_distinct(self@);
            lemma_lookup(self@, name@);
        }
        match self.position(name) {
            Some(i) => {
                proof {
                    let k = index_of(self@, name@).unwrap();
                    if k != i {
                        if k < i {
                            assert(self@[k].0 != self@[i as int].0);
                        } else {
                            assert(self@[i as int].0 != self@[k].0);
                        }
                    }
                }
                Some(&self.entries[i].1)
            },
            None => None,
        }
    }

    /// The name and the value stored at `index`.
    pub fn entry(&self, index: usize) -> (r: (&String, &V))
        requires
            index < self@.len(),
        ensures
            (r.0@, r.1@) == self@[index as int],
    {
        let e = &self.entries[index];
        (&e.0, &e.1)
    }

    /// Gives `name` the value `value`. A name already present keeps its place
    /// and its former value is returned; a new name goes to its place in the
    /// order of names.
    pub fn insert(&mut self, name: String, value: V) -> (r: Option<V>)
        ensures
            final(self)@ == inserted(old(self)@, name@, value@),
            match index_of(old(self)@, name@) {
                Some(i) => r matches Some(v) && v@ == old(self)@[i].1,
                None => r is None,
            },
    {
        proof {
            use_type_invariant(&*self);
            lemma_sorted_distinct(self@);
            lemma_lookup(self@, name@);
            lemma_insert_then_lookup(self@, name@, value@, name@);
        }
        match self.position(name.as_str()) {
            Some(i) => {
                let ghost k = index_of(old(self)@, name@).unwrap();
                proof {
                    if k != i {
                        if k < i {
                            assert(self@[k].0 != self@[i as int].0);
                        } else {
                            assert(self@[i as int].0 != self@[k].0);
                        }
                    }
                }
                let mut entries: Vec<(String, V)> = Vec::new();
                std::mem::swap(&mut entries, &mut self.entries);
                let old_entry = entries.remove(i);
                entries.insert(i, (name, value));
                proof {
                    assert(entries@.map_values(|e: (String, V)| (e.0@, e.1@)) =~= old(self)@.update(
                        i as int,
                        (name@, value@),
                    ));
                }
                self.entries = entries;
                Some(old_entry.1)
            },
            None => {
                let n = self.entries.len();
                let mut p: usize = 0;
                while p < n && str_le(self.entries[p].0.as_str(), name.as_str())
                    invariant
                        n == self@.len(),
                        self@ == old(self)@,
                        0 <= p <= n,
                        forall|j: int| 0 <= j < p ==> #[trigger] string_le(self@[j].0, name@),
                    decreases n - p,
                {
                    p += 1;
                }
                proof {
                    let ghost e = old(self)@;
                    lemma_insert_position(e, name@);
                    let q = insert_position(e, name@);
                    if (p as int) < q {
                        assert(name_lt(e[p as int].0, name@));
                        assert(!string_le(e[p as int].0, name@));
                    } else if q < (p as int) {
                        assert(name_lt(name@, e[q].0));
                        assert(string_le(e[q].0, name@));
                        lemma_string_le(e[q].0, name@, name@);
                    }
                    assert(p as int == q);
                }
                let mut entries: Vec<(String, V)> = Vec::new();
                std::mem::swap(&mut entries, &mut self.entries);
                entries.insert(p, (name, value));
                proof {
                    let v = entries@.map_values(|e: (String, V)| (e.0@, e.1@));
                    assert(v =~= old(self)@.insert(p as int, (name@, value@)));
                }
                self.entries = entries;
                None
            },
        }
    }

    /// The entries, in order.
    pub fn into_entries(self) -> (v: Vec<(String, V)>)
        ensures
            v@.map_values(|e: (String, V)| (e.0@, e.1@)) == self@,
            sorted_names(self@),
            distinct_names(self@),
    {
        proof {
            use_type_invariant(&self);
            lemma_sorted_distinct(self@);
        }
        self.entries
    }
}

} // verus!

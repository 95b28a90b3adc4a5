//! The arguments a native function receives from the interpreter: the
//! positional arguments, and the keyword arguments laid out as name, value,
//! name, value, ... with each name a qstr object.

use vstd::prelude::*;

use crate::obj::repr_a::spec_is_qstr;
use crate::obj::{Obj, Qstr};

verus! {

/// Turns one argument object into a value of the native function's own.
pub trait Parser<'b> {
    type Output;

    /// Whether `out` is a result that this parser gives for the object
    /// `value`. An implementation that states nothing of its results keeps
    /// this default, which admits every result.
    open spec fn parses(&self, value: Obj, out: Result<Self::Output, ()>) -> bool {
        true
    }

    fn parse(&self, value: &'b Obj) -> (out: Result<Self::Output, ()>)
        ensures
            self.parses(*value, out),
    ;
}

pub struct Args<'b> {
    pos_args: &'b [Obj],
    kw_args: &'b [Obj],
}

pub struct KwArg<'b> {
    pub name: Qstr,
    pub value: &'b Obj,
}

/// Whether the object `o` is the qstr object of `keyword`.
pub open spec fn names_keyword(o: Obj, keyword: usize) -> bool {
    spec_is_qstr(o@) && o@ >> 3usize == keyword
}

/// The first name/value pair, from pair `k` on, whose name is `keyword`;
/// a last object without a partner is not a pair.
pub open spec fn keyword_pair(kw: Seq<Obj>, keyword: usize, k: nat) -> Option<nat>
    decreases kw.len() - 2 * k,
{
    if 2 * k + 2 > kw.len() {
        None
    } else if names_keyword(kw[2 * k as int], keyword) {
        Some(k)
    } else {
        keyword_pair(kw, keyword, k + 1)
    }
}

/// Every name read while looking for `keyword` from pair `k` on is a qstr:
/// the names up to the first match, or all of them when none matches.
pub open spec fn names_readable(kw: Seq<Obj>, keyword: usize, k: nat) -> bool
    decreases kw.len() - 2 * k,
{
    if 2 * k + 2 > kw.len() {
        true
    } else if !spec_is_qstr(kw[2 * k as int]@) {
        false
    } else if names_keyword(kw[2 * k as int], keyword) {
        true
    } else {
        names_readable(kw, keyword, k + 1)
    }
}

impl<'b> Args<'b> {
    pub closed spec fn positional(&self) -> Seq<Obj> {
        self.pos_args@
    }

    pub closed spec fn keywords(&self) -> Seq<Obj> {
        self.kw_args@
    }

    pub fn new(pos_args: &'b [Obj], kw_args: &'b [Obj]) -> (a: Self)
        ensures
            a.positional() == pos_args@,
            a.keywords() == kw_args@,
    {
        Args { pos_args, kw_args }
    }

    pub fn n_arg(&self) -> (n: usize)
        ensures
            n == self.positional().len(),
    {
        self.pos_args.len()
    }

    /// Twice the number of objects in the keyword slice.
    pub fn n_kw(&self) -> (n: usize)
        requires
            2 * self.keywords().len() <= usize::MAX,
        ensures
            n == 2 * self.keywords().len(),
    {
        self.kw_args.len() * 2
    }

    pub fn nth_pos(&self, n: usize) -> (r: Option<&'b Obj>)
        ensures
            n < self.positional().len() ==> (r matches Some(v) && *v == self.positional()[n as int]),
            n >= self.positional().len() ==> r is None,
    {
        if n < self.pos_args.len() {
            Some(&self.pos_args[n])
        } else {
            None
        }
    }

    /// The value of the first keyword argument named `keyword`.
    pub fn find_keyword(&self, keyword: Qstr) -> (r: Option<&'b Obj>)
        requires
            names_readable(self.keywords(), keyword@, 0),
        ensures
            match keyword_pair(self.keywords(), keyword@, 0) {
                Some(k) => r matches Some(v) && *v == self.keywords()[2 * k + 1 as int],
                None => r is None,
            },
    {
        let kw: &'b [Obj] = self.kw_args;
        let mut i: usize = 0;
        while kw.len() - i >= 2
            invariant
                kw@ == self.keywords(),
                i % 2 == 0,
                i <= kw.len(),
                keyword_pair(kw@, keyword@, 0) == keyword_pair(kw@, keyword@, (i / 2) as nat),
                names_readable(kw@, keyword@, (i / 2) as nat),
            decreases kw.len() - i,
        {
            let ghost k: nat = (i / 2) as nat;
            assert(2 * k == i);
            let name = kw[i].qstr();
            match name {
                Some(q) => {
                    if q.into_raw() == keyword.into_raw() {
                        return Some(&kw[i + 1]);
                    }
                    assert(!names_keyword(kw@[2 * k as int], keyword@));
                },
                None => {
                    assert(false);
                },
            }
            assert(keyword_pair(kw@, keyword@, k) == keyword_pair(kw@, keyword@, k + 1));
            assert(names_readable(kw@, keyword@, k + 1));
            assert(((i + 2) / 2) as nat == k + 1);
            i = i + 2;
        }
        assert(2 * ((i / 2) as nat) + 2 > kw@.len());
        None
    }
}

/// Reads a native function's arguments in turn: the positional ones in
/// order, the keyword ones by name.
pub struct ArgsReader<'b> {
    args: Args<'b>,
    i_pos: usize,
}

impl<'b> ArgsReader<'b> {
    pub closed spec fn positional(&self) -> Seq<Obj> {
        self.args.positional()
    }

    pub closed spec fn keywords(&self) -> Seq<Obj> {
        self.args.keywords()
    }

    /// How many positional arguments have been read.
    pub closed spec fn position(&self) -> nat {
        self.i_pos as nat
    }

    pub fn new(args: Args<'b>) -> (r: Self)
        ensures
            r.positional() == args.positional(),
            r.keywords() == args.keywords(),
            r.position() == 0,
    {
        ArgsReader { args, i_pos: 0 }
    }

    /// The positional argument to be read next, if any is left.
    pub fn current_positional(&self) -> (r: Option<&'b Obj>)
        ensures
            self.position() < self.positional().len() ==> (r matches Some(v) && *v
                == self.positional()[self.position() as int]),
            self.position() >= self.positional().len() ==> r is None,
    {
        self.args.nth_pos(self.i_pos)
    }

    /// Takes what the parser made of the current positional argument: the
    /// reader moves past that argument exactly when it was parsed.
    pub fn settle_positional<T>(&mut self, parsed: Result<T, ()>) -> (r: Result<T, ()>)
        requires
            old(self).position() < old(self).positional().len(),
        ensures
            r == parsed,
            final(self).positional() == old(self).positional(),
            final(self).keywords() == old(self).keywords(),
            final(self).position() == if parsed is Ok {
                old(self).position() + 1
            } else {
                old(self).position()
            },
    {
        if parsed.is_ok() && self.i_pos < self.args.n_arg() {
            self.i_pos = self.i_pos + 1;
        }
        parsed
    }

    /// Parses the next positional argument with `parser`; the reader moves on
    /// only when that succeeds. With no argument left it fails and stays.
    pub fn next_positional_with<T, P: Parser<'b, Output = T>>(&mut self, parser: P) -> (r: Result<
        T,
        (),
    >)
        ensures
            final(self).positional() == old(self).positional(),
            final(self).keywords() == old(self).keywords(),
            old(self).position() >= old(self).positional().len() ==> r is Err,
            old(self).position() < old(self).positional().len() ==> parser.parses(
                old(self).positional()[old(self).position() as int],
                r,
            ),
            final(self).position() == if r is Ok {
                old(self).position() + 1
            } else {
                old(self).position()
            },
    {
        match self.current_positional() {
            None => Err(()),
            Some(value) => {
                let parsed = parser.parse(value);
                self.settle_positional(parsed)
            },
        }
    }

    /// Parses the first keyword argument named `keyword` with `parser`; it
    /// fails when there is none.
    pub fn find_keyword_with<T, P: Parser<'b, Output = T>>(&mut self, keyword: Qstr, parser: P) -> (r:
        Result<T, ()>)
        requires
            names_readable(old(self).keywords(), keyword@, 0),
        ensures
            *final(self) == *old(self),
            match keyword_pair(old(self).keywords(), keyword@, 0) {
                Some(k) => parser.parses(old(self).keywords()[2 * k + 1 as int], r),
                None => r is Err,
            },
    {
        match self.args.find_keyword(keyword) {
            None => Err(()),
            Some(value) => parser.parse(value),
        }
    }
}

} // verus!

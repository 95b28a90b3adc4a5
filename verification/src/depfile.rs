//! Make-style dependency files, as Clang writes them for `-MMD -MF`.
//!
//! A depfile holds one rule, `targets: dependencies`. Backslash escapes and
//! Make's `$$` encoding are decoded, and an escaped line break between paths
//! counts as whitespace. Paths are kept as the raw bytes they decode to.

use vstd::prelude::*;

verus! {

/// The single dependency rule of a depfile.
#[derive(Debug, Clone, PartialEq, Eq)]
pub struct Depfile {
    pub targets: Vec<Vec<u8>>,
    pub dependencies: Vec<Vec<u8>>,
}

/// The mathematical content of a [`Depfile`].
pub struct DepfileView {
    pub targets: Seq<Seq<u8>>,
    pub dependencies: Seq<Seq<u8>>,
}

pub open spec fn paths_view(paths: Seq<Vec<u8>>) -> Seq<Seq<u8>> {
    paths.map_values(|p: Vec<u8>| p@)
}

impl View for Depfile {
    type V = DepfileView;

    open spec fn view(&self) -> DepfileView {
        DepfileView { targets: paths_view(self.targets@), dependencies: paths_view(self.dependencies@) }
    }
}

/// Why a depfile could not be read; offsets are byte offsets.
#[derive(Debug, Clone, Copy, PartialEq, Eq, Structural)]
pub enum DepfileError {
    /// The targets are not followed by `:`.
    ExpectedColon { offset: usize },
    /// The rule names no target.
    NoTarget,
    /// The input ends in a lone backslash.
    DanglingEscape { offset: usize },
    /// A path was expected.
    ExpectedPath { offset: usize },
    /// Something follows the rule.
    SecondRule { offset: usize },
}

pub open spec fn at(b: Seq<u8>, p: int, c: u8) -> bool {
    0 <= p < b.len() && b[p] == c
}

/// The end of the blanks and escaped line breaks that start at `p`.
pub open spec fn rule_space_end(b: Seq<u8>, p: int) -> int
    decreases b.len() - p,
{
    if at(b, p, 0x20) || at(b, p, 0x09) {
        rule_space_end(b, p + 1)
    } else if at(b, p, 0x5c) && at(b, p + 1, 0x0a) {
        rule_space_end(b, p + 2)
    } else if at(b, p, 0x5c) && at(b, p + 1, 0x0d) && at(b, p + 2, 0x0a) {
        rule_space_end(b, p + 3)
    } else {
        p
    }
}

/// A byte that ends a path whatever its side of the rule.
pub open spec fn ends_path(c: u8) -> bool {
    c == 0x20 || c == 0x09 || c == 0x0a || c == 0x0d || c == 0x23
}

/// A byte that ends the rule's line.
pub open spec fn ends_line(c: u8) -> bool {
    c == 0x0a || c == 0x0d || c == 0x23
}

/// A backslash that escapes a line break.
pub open spec fn escaped_line_break(b: Seq<u8>, p: int) -> bool {
    at(b, p, 0x5c) && (at(b, p + 1, 0x0a) || (at(b, p + 1, 0x0d) && at(b, p + 2, 0x0a)))
}

/// Whether a path ends before byte `p`: at the end of the input, at an
/// escaped line break, or at an unescaped byte that separates paths.
pub open spec fn path_ends(b: Seq<u8>, p: int, colon_ends: bool) -> bool {
    ||| !(0 <= p < b.len())
    ||| escaped_line_break(b, p)
    ||| b[p] != 0x5c && (ends_path(b[p]) || (colon_ends && b[p] == 0x3a))
}

/// The rest of a path from `p` on, whose first byte was at `start`; `acc`
/// holds the decoded bytes so far. A `:` ends a target but not a dependency.
pub open spec fn path(b: Seq<u8>, start: int, p: int, colon_ends: bool, acc: Seq<u8>) -> Result<
    (Seq<u8>, int),
    DepfileError,
>
    decreases b.len() - p,
{
    if path_ends(b, p, colon_ends) {
        if acc.len() == 0 {
            Err(DepfileError::ExpectedPath { offset: start as usize })
        } else {
            Ok((acc, p))
        }
    } else if b[p] == 0x5c {
        if p + 1 < b.len() {
            path(b, start, p + 2, colon_ends, acc.push(b[p + 1]))
        } else {
            Err(DepfileError::DanglingEscape { offset: p as usize })
        }
    } else if b[p] == 0x24 && at(b, p + 1, 0x24) {
        path(b, start, p + 2, colon_ends, acc.push(0x24))
    } else {
        path(b, start, p + 1, colon_ends, acc.push(b[p]))
    }
}

pub proof fn lemma_rule_space_end(b: Seq<u8>, p: int)
    requires
        0 <= p <= b.len(),
    ensures
        p <= rule_space_end(b, p) <= b.len(),
    decreases b.len() - p,
{
    if at(b, p, 0x20) || at(b, p, 0x09) {
        lemma_rule_space_end(b, p + 1);
    } else if at(b, p, 0x5c) && at(b, p + 1, 0x0a) {
        lemma_rule_space_end(b, p + 2);
    } else if at(b, p, 0x5c) && at(b, p + 1, 0x0d) && at(b, p + 2, 0x0a) {
        lemma_rule_space_end(b, p + 3);
    }
}

pub proof fn lemma_path(b: Seq<u8>, start: int, p: int, colon_ends: bool, acc: Seq<u8>)
    requires
        0 <= p <= b.len(),
    ensures
        path(b, start, p, colon_ends, acc) matches Ok((v, r)) ==> p <= r <= b.len() && v.len() > 0
            && (r == p ==> v == acc),
    decreases b.len() - p,
{
    if 0 <= p < b.len() {
        if p + 1 < b.len() {
            lemma_path(b, start, p + 2, colon_ends, acc.push(b[p + 1]));
            lemma_path(b, start, p + 2, colon_ends, acc.push(0x24));
        }
        lemma_path(b, start, p + 1, colon_ends, acc.push(b[p]));
    }
}

/// The targets from `p` on, up to and including the `:`.
pub open spec fn targets(b: Seq<u8>, p: int, acc: Seq<Seq<u8>>) -> Result<
    (Seq<Seq<u8>>, int),
    DepfileError,
>
    decreases b.len() - p,
{
    let q = rule_space_end(b, p);
    if at(b, q, 0x3a) {
        Ok((acc, q + 1))
    } else if !(0 <= q < b.len()) || ends_line(b[q]) {
        Err(DepfileError::ExpectedColon { offset: q as usize })
    } else {
        match path(b, q, q, true, seq![]) {
            Err(e) => Err(e),
            Ok((v, r)) => {
                proof {
                    if 0 <= p <= b.len() {
                        lemma_rule_space_end(b, p);
                    }
                    lemma_path(b, q, q, true, seq![]);
                }
                targets(b, r, acc.push(v))
            },
        }
    }
}

/// The dependencies from `p` on, up to the end of the rule's line.
pub open spec fn dependencies(b: Seq<u8>, p: int, acc: Seq<Seq<u8>>) -> Result<
    (Seq<Seq<u8>>, int),
    DepfileError,
>
    decreases b.len() - p,
{
    let q = rule_space_end(b, p);
    if !(0 <= q < b.len()) || ends_line(b[q]) {
        Ok((acc, q))
    } else {
        match path(b, q, q, false, seq![]) {
            Err(e) => Err(e),
            Ok((v, r)) => {
                proof {
                    if 0 <= p <= b.len() {
                        lemma_rule_space_end(b, p);
                    }
                    lemma_path(b, q, q, false, seq![]);
                }
                dependencies(b, r, acc.push(v))
            },
        }
    }
}

pub open spec fn is_trailing_space(c: u8) -> bool {
    c == 0x20 || c == 0x09 || c == 0x0a || c == 0x0d
}

/// The end of the whitespace and `#` comments that start at `p`.
pub open spec fn trailing_end(b: Seq<u8>, p: int) -> int
    decreases b.len() - p, 1int,
{
    if 0 <= p < b.len() && is_trailing_space(b[p]) {
        trailing_end(b, p + 1)
    } else if at(b, p, 0x23) {
        comment_end(b, p + 1)
    } else {
        p
    }
}

/// Inside a `#` comment, which runs up to the end of its line.
pub open spec fn comment_end(b: Seq<u8>, p: int) -> int
    decreases b.len() - p, 0int,
{
    if !(0 <= p < b.len()) {
        p
    } else if b[p] == 0x0a || b[p] == 0x0d {
        trailing_end(b, p + 1)
    } else {
        comment_end(b, p + 1)
    }
}

/// What reading `b` as a depfile gives.
pub open spec fn parsed_depfile(b: Seq<u8>) -> Result<DepfileView, DepfileError> {
    match targets(b, 0, seq![]) {
        Err(e) => Err(e),
        Ok((ts, p)) => if ts.len() == 0 {
            Err(DepfileError::NoTarget)
        } else {
            match dependencies(b, p, seq![]) {
                Err(e) => Err(e),
                Ok((ds, q)) => {
                    let t = trailing_end(b, q);
                    if t < b.len() {
                        Err(DepfileError::SecondRule { offset: t as usize })
                    } else {
                        Ok(DepfileView { targets: ts, dependencies: ds })
                    }
                },
            }
        },
    }
}

struct DepParser<'a> {
    input: &'a [u8],
    offset: usize,
}

impl<'a> DepParser<'a> {
    fn skip_rule_whitespace(&mut self)
        requires
            old(self).offset <= old(self).input@.len(),
        ensures
            final(self).input == old(self).input,
            final(self).offset == rule_space_end(old(self).input@, old(self).offset as int),
    {
        let ghost b = self.input@;
        let ghost start = self.offset as int;
        let n = self.input.len();
        loop
            invariant
                self.input == old(self).input,
                self.input@ == b,
                n == b.len(),
                start == old(self).offset,
                start <= self.offset <= n,
                rule_space_end(b, start) == rule_space_end(b, self.offset as int),
            decreases n - self.offset,
        {
            let o = self.offset;
            if o < n && (self.input[o] == 0x20 || self.input[o] == 0x09) {
                self.offset += 1;
            } else if n - o >= 2 && self.input[o] == 0x5c && self.input[o + 1] == 0x0a {
                self.offset += 2;
            } else if n - o >= 3 && self.input[o] == 0x5c && self.input[o + 1] == 0x0d
                && self.input[o + 2] == 0x0a {
                self.offset += 3;
            } else {
                return;
            }
        }
    }

    fn at_path_end(&self, colon_ends: bool) -> (r: bool)
        ensures
            r == path_ends(self.input@, self.offset as int, colon_ends),
    {
        let n = self.input.len();
        let o = self.offset;
        if o >= n {
            return true;
        }
        let c = self.input[o];
        if c == 0x5c {
            (n - o >= 2 && self.input[o + 1] == 0x0a) || (n - o >= 3 && self.input[o + 1] == 0x0d
                && self.input[o + 2] == 0x0a)
        } else {
            c == 0x20 || c == 0x09 || c == 0x0a || c == 0x0d || c == 0x23 || (colon_ends && c
                == 0x3a)
        }
    }

    fn parse_path(&mut self, colon_ends: bool) -> (r: Result<Vec<u8>, DepfileError>)
        requires
            old(self).offset <= old(self).input@.len(),
        ensures
            final(self).input == old(self).input,
            old(self).offset <= final(self).offset <= final(self).input@.len(),
            match r {
                Ok(v) => path(
                    old(self).input@,
                    old(self).offset as int,
                    old(self).offset as int,
                    colon_ends,
                    seq![],
                ) == Ok::<(Seq<u8>, int), DepfileError>((v@, final(self).offset as int)),
                Err(e) => path(
                    old(self).input@,
                    old(self).offset as int,
                    old(self).offset as int,
                    colon_ends,
                    seq![],
                ) == Err::<(Seq<u8>, int), DepfileError>(e),
            },
    {
        let ghost b = self.input@;
        let start = self.offset;
        let n = self.input.len();
        let mut bytes: Vec<u8> = Vec::new();
        while !self.at_path_end(colon_ends)
            invariant
                self.input == old(self).input,
                self.input@ == b,
                n == b.len(),
                start == old(self).offset,
                start <= self.offset <= n,
                path(b, start as int, start as int, colon_ends, seq![]) == path(
                    b,
                    start as int,
                    self.offset as int,
                    colon_ends,
                    bytes@,
                ),
            decreases n - self.offset,
        {
            let o = self.offset;
            let c = self.input[o];
            if c == 0x5c {
                if n - o < 2 {
                    return Err(DepfileError::DanglingEscape { offset: o });
                }
                bytes.push(self.input[o + 1]);
                self.offset += 2;
            } else if c == 0x24 && n - o >= 2 && self.input[o + 1] == 0x24 {
                bytes.push(0x24);
                self.offset += 2;
            } else {
                bytes.push(c);
                self.offset += 1;
            }
        }
        if bytes.len() == 0 {
            Err(DepfileError::ExpectedPath { offset: start })
        } else {
            Ok(bytes)
        }
    }

    fn parse_targets(&mut self) -> (r: Result<Vec<Vec<u8>>, DepfileError>)
        requires
            old(self).offset <= old(self).input@.len(),
        ensures
            final(self).input == old(self).input,
            final(self).offset <= final(self).input@.len(),
            match r {
                Ok(ts) => targets(old(self).input@, old(self).offset as int, seq![]) == Ok::<
                    (Seq<Seq<u8>>, int),
                    DepfileError,
                >((paths_view(ts@), final(self).offset as int)),
                Err(e) => targets(old(self).input@, old(self).offset as int, seq![]) == Err::<
                    (Seq<Seq<u8>>, int),
                    DepfileError,
                >(e),
            },
    {
        let ghost b = self.input@;
        let ghost start = self.offset as int;
        let n = self.input.len();
        let mut found: Vec<Vec<u8>> = Vec::new();
        assert(paths_view(found@) =~= Seq::<Seq<u8>>::empty());
        loop
            invariant
                self.input == old(self).input,
                self.input@ == b,
                n == b.len(),
                start == old(self).offset,
                self.offset <= n,
                targets(b, start, seq![]) == targets(b, self.offset as int, paths_view(found@)),
            decreases n - self.offset,
        {
            let ghost p = self.offset as int;
            proof {
                lemma_rule_space_end(b, p);
            }
            self.skip_rule_whitespace();
            let o = self.offset;
            if o < n && self.input[o] == 0x3a {
                self.offset += 1;
                return Ok(found);
            }
            if o >= n || self.input[o] == 0x0a || self.input[o] == 0x0d || self.input[o] == 0x23 {
                return Err(DepfileError::ExpectedColon { offset: o });
            }
            let target = match self.parse_path(true) {
                Err(e) => {
                    return Err(e);
                },
                Ok(v) => v,
            };
            proof {
                lemma_path(b, o as int, o as int, true, seq![]);
            }
            let ghost before = found@;
            found.push(target);
            assert(paths_view(found@) =~= paths_view(before).push(target@));
        }
    }

    fn parse_dependencies(&mut self) -> (r: Result<Vec<Vec<u8>>, DepfileError>)
        requires
            old(self).offset <= old(self).input@.len(),
        ensures
            final(self).input == old(self).input,
            final(self).offset <= final(self).input@.len(),
            match r {
                Ok(ds) => dependencies(old(self).input@, old(self).offset as int, seq![]) == Ok::<
                    (Seq<Seq<u8>>, int),
                    DepfileError,
                >((paths_view(ds@), final(self).offset as int)),
                Err(e) => dependencies(old(self).input@, old(self).offset as int, seq![]) == Err::<
                    (Seq<Seq<u8>>, int),
                    DepfileError,
                >(e),
            },
    {
        let ghost b = self.input@;
        let ghost start = self.offset as int;
        let n = self.input.len();
        let mut found: Vec<Vec<u8>> = Vec::new();
        assert(paths_view(found@) =~= Seq::<Seq<u8>>::empty());
        loop
            invariant
                self.input == old(self).input,
                self.input@ == b,
                n == b.len(),
                start == old(self).offset,
                self.offset <= n,
                dependencies(b, start, seq![]) == dependencies(
                    b,
                    self.offset as int,
                    paths_view(found@),
                ),
            decreases n - self.offset,
        {
            let ghost p = self.offset as int;
            proof {
                lemma_rule_space_end(b, p);
            }
            self.skip_rule_whitespace();
            let o = self.offset;
            if o >= n || self.input[o] == 0x0a || self.input[o] == 0x0d || self.input[o] == 0x23 {
                return Ok(found);
            }
            let dependency = match self.parse_path(false) {
                Err(e) => {
                    return Err(e);
                },
                Ok(v) => v,
            };
            proof {
                lemma_path(b, o as int, o as int, false, seq![]);
            }
            let ghost before = found@;
            found.push(dependency);
            assert(paths_view(found@) =~= paths_view(before).push(dependency@));
        }
    }

    fn skip_trailing_whitespace_and_comments(&mut self)
        requires
            old(self).offset <= old(self).input@.len(),
        ensures
            final(self).input == old(self).input,
            final(self).offset == trailing_end(old(self).input@, old(self).offset as int),
    {
        let ghost b = self.input@;
        let ghost start = self.offset as int;
        let n = self.input.len();
        loop
            invariant
                self.input == old(self).input,
                self.input@ == b,
                n == b.len(),
                start == old(self).offset,
                self.offset <= n,
                trailing_end(b, start) == trailing_end(b, self.offset as int),
            decreases n - self.offset,
        {
            let o = self.offset;
            if o < n && (self.input[o] == 0x20 || self.input[o] == 0x09 || self.input[o] == 0x0a
                || self.input[o] == 0x0d) {
                self.offset += 1;
            } else if o < n && self.input[o] == 0x23 {
                self.offset += 1;
                while self.offset < n && self.input[self.offset] != 0x0a && self.input[self.offset]
                    != 0x0d
                    invariant
                        self.input == old(self).input,
                        self.input@ == b,
                        n == b.len(),
                        start == old(self).offset,
                        o < self.offset <= n,
                        trailing_end(b, start) == comment_end(b, self.offset as int),
                    decreases n - self.offset,
                {
                    self.offset += 1;
                }
                if self.offset < n {
                    self.offset += 1;
                }
            } else {
                return;
            }
        }
    }
}

/// Parses a Clang Make-style dependency file.
pub fn parse(input: &[u8]) -> (r: Result<Depfile, DepfileError>)
    ensures
        match r {
            Ok(d) => parsed_depfile(input@) == Ok::<DepfileView, DepfileError>(d@),
            Err(e) => parsed_depfile(input@) == Err::<DepfileView, DepfileError>(e),
        },
{
    let mut parser = DepParser { input, offset: 0 };
    let targets = match parser.parse_targets() {
        Err(e) => {
            return Err(e);
        },
        Ok(ts) => ts,
    };
    if targets.len() == 0 {
        return Err(DepfileError::NoTarget);
    }
    let dependencies = match parser.parse_dependencies() {
        Err(e) => {
            return Err(e);
        },
        Ok(ds) => ds,
    };
    parser.skip_trailing_whitespace_and_comments();
    if parser.offset < input.len() {
        return Err(DepfileError::SecondRule { offset: parser.offset });
    }
    Ok(Depfile { targets, dependencies })
}

/* ---------------------------------------------------------------------------
 * Escaped paths read back
 * ------------------------------------------------------------------------- */

/// How a byte of a path is written in a depfile: `$` doubled, a byte that
/// would end the path or the rule behind a backslash, any other byte as is.
pub open spec fn escape_byte(c: u8) -> Seq<u8> {
    if c == 0x24 {
        seq![0x24u8, 0x24]
    } else if c == 0x5c || c == 0x20 || c == 0x09 || c == 0x0d || c == 0x23 || c == 0x3a {
        seq![0x5cu8, c]
    } else {
        seq![c]
    }
}

/// A path as it is written in a depfile.
pub open spec fn escape_path(p: Seq<u8>) -> Seq<u8>
    decreases p.len(),
{
    if p.len() == 0 {
        seq![]
    } else {
        escape_byte(p[0]) + escape_path(p.drop_first())
    }
}

pub open spec fn no_line_feed(p: Seq<u8>) -> bool {
    forall|i: int| 0 <= i < p.len() ==> p[i] != 0x0a
}

proof fn lemma_escape_path_start(p: Seq<u8>)
    requires
        no_line_feed(p),
    ensures
        escape_path(p).len() >= p.len(),
        p.len() > 0 ==> escape_path(p)[0] != 0x0a && escape_path(p)[0] != 0x0d && escape_path(
            p,
        )[0] != 0x23 && escape_path(p)[0] != 0x20 && escape_path(p)[0] != 0x09,
        p.len() > 0 && escape_path(p)[0] == 0x5c ==> escape_path(p).len() >= 2 && escape_path(p)[1]
            != 0x0a && (escape_path(p).len() > 2 ==> escape_path(p)[2] != 0x0a),
    decreases p.len(),
{
    if p.len() > 0 {
        let rest = p.drop_first();
        assert(no_line_feed(rest)) by {
            assert forall|i: int| 0 <= i < rest.len() implies rest[i] != 0x0a by {
                assert(rest[i] == p[i + 1]);
            }
        }
        lemma_escape_path_start(rest);
        assert(p[0] != 0x0a);
        let e = escape_byte(p[0]);
        assert(escape_path(p) == e + escape_path(rest));
        if e[0] == 0x5c && escape_path(p).len() > 2 {
            assert(escape_path(p)[2] == escape_path(rest)[0]);
        }
    }
}

proof fn lemma_path_escaped(
    b: Seq<u8>,
    start: int,
    q: int,
    colon_ends: bool,
    acc: Seq<u8>,
    p: Seq<u8>,
)
    requires
        0 <= q <= b.len(),
        b.subrange(q, b.len() as int) == escape_path(p),
        no_line_feed(p),
        acc.len() + p.len() > 0,
    ensures
        path(b, start, q, colon_ends, acc) == Ok::<(Seq<u8>, int), DepfileError>(
            (acc + p, b.len() as int),
        ),
    decreases p.len(),
{
    if p.len() == 0 {
        assert(acc + p =~= acc);
        assert(b.subrange(q, b.len() as int).len() == 0);
    } else {
        let c = p[0];
        let rest = p.drop_first();
        let e = escape_byte(c);
        assert(no_line_feed(rest)) by {
            assert forall|i: int| 0 <= i < rest.len() implies rest[i] != 0x0a by {
                assert(rest[i] == p[i + 1]);
            }
        }
        lemma_escape_path_start(rest);
        assert(escape_path(p) == e + escape_path(rest));
        let k = e.len() as int;
        assert(b.subrange(q + k, b.len() as int) =~= escape_path(rest)) by {
            assert forall|i: int| 0 <= i < escape_path(rest).len() implies b.subrange(
                q + k,
                b.len() as int,
            )[i] == escape_path(rest)[i] by {
                assert(b.subrange(q, b.len() as int)[k + i] == (e + escape_path(rest))[k + i]);
            }
        }
        assert(b[q] == b.subrange(q, b.len() as int)[0]);
        assert(b[q] == e[0]);
        if k == 2 {
            assert(b[q + 1] == b.subrange(q, b.len() as int)[1]);
            assert(b[q + 1] == e[1]);
        }
        if q + k < b.len() {
            assert(b[q + k] == b.subrange(q + k, b.len() as int)[0]);
        }
        assert(acc.push(c) + rest =~= acc + p);
        lemma_path_escaped(b, start, q + k, colon_ends, acc.push(c), rest);
    }
}

/// A depfile whose one target is `t` and whose one dependency is `p`
/// written with its escapes reads back as that rule: escapes and `$$` are
/// decoded exactly. (A path with a line feed cannot be written.)
pub proof fn lemma_escaped_dependency_reads_back(p: Seq<u8>)
    requires
        p.len() > 0,
        no_line_feed(p),
    ensures
        parsed_depfile(seq![0x74u8, 0x3a, 0x20] + escape_path(p)) == Ok::<DepfileView, DepfileError>(
            DepfileView { targets: seq![seq![0x74u8]], dependencies: seq![p] },
        ),
{
    let b = seq![0x74u8, 0x3a, 0x20] + escape_path(p);
    lemma_escape_path_start(p);
    assert(b[0] == 0x74 && b[1] == 0x3a && b[2] == 0x20);
    assert(b[3] == escape_path(p)[0]);
    if escape_path(p).len() >= 2 {
        assert(b[4] == escape_path(p)[1]);
    }
    if escape_path(p).len() > 2 {
        assert(b[5] == escape_path(p)[2]);
    }
    assert(b.subrange(3, b.len() as int) =~= escape_path(p));
    assert(rule_space_end(b, 0) == 0);
    assert(path(b, 0, 1, true, seq![0x74u8]) == Ok::<(Seq<u8>, int), DepfileError>(
        (seq![0x74u8], 1),
    ));
    assert(path(b, 0, 0, true, seq![]) == Ok::<(Seq<u8>, int), DepfileError>((seq![0x74u8], 1))) by {
        assert(seq![].push(0x74u8) =~= seq![0x74u8]);
    }
    assert(rule_space_end(b, 1) == 1);
    assert(targets(b, 1, seq![seq![0x74u8]]) == Ok::<(Seq<Seq<u8>>, int), DepfileError>(
        (seq![seq![0x74u8]], 2),
    ));
    assert(targets(b, 0, seq![]) == Ok::<(Seq<Seq<u8>>, int), DepfileError>(
        (seq![seq![0x74u8]], 2),
    )) by {
        assert(seq![].push(seq![0x74u8]) =~= seq![seq![0x74u8]]);
    }
    assert(rule_space_end(b, 3) == 3);
    assert(rule_space_end(b, 2) == 3);
    lemma_path_escaped(b, 3, 3, false, seq![], p);
    assert(seq![] + p =~= p);
    let n = b.len() as int;
    assert(rule_space_end(b, n) == n);
    assert(dependencies(b, n, seq![p]) == Ok::<(Seq<Seq<u8>>, int), DepfileError>((seq![p], n)));
    assert(dependencies(b, 2, seq![]) == Ok::<(Seq<Seq<u8>>, int), DepfileError>((seq![p], n))) by {
        assert(seq![].push(p) =~= seq![p]);
    }
    assert(trailing_end(b, n) == n);
}

/// A path that a depfile can hold on one line: no line feed, no carriage
/// return.
pub open spec fn writable_path(p: Seq<u8>) -> bool {
    p.len() > 0 && forall|i: int| 0 <= i < p.len() ==> p[i] != 0x0a && p[i] != 0x0d
}

/// Paths as they are written in a depfile, separated by single spaces.
pub open spec fn written_paths(ps: Seq<Seq<u8>>) -> Seq<u8>
    decreases ps.len(),
{
    if ps.len() == 0 {
        seq![]
    } else if ps.len() == 1 {
        escape_path(ps[0])
    } else {
        escape_path(ps[0]) + seq![0x20u8] + written_paths(ps.drop_first())
    }
}

/// The bytes `w` stand in `b` from `q` on.
pub open spec fn stands_at(b: Seq<u8>, q: int, w: Seq<u8>) -> bool {
    0 <= q && q + w.len() <= b.len() && forall|i: int| 0 <= i < w.len() ==> b[q + i] == #[trigger] w[i]
}

proof fn lemma_escape_first(p: Seq<u8>)
    requires
        writable_path(p),
    ensures
        escape_path(p).len() >= 1,
        escape_path(p)[0] != 0x20 && escape_path(p)[0] != 0x09 && escape_path(p)[0] != 0x0a
            && escape_path(p)[0] != 0x0d && escape_path(p)[0] != 0x23 && escape_path(p)[0] != 0x3a,
        escape_path(p)[0] == 0x5c ==> escape_path(p).len() >= 2 && escape_path(p)[1] != 0x0a
            && escape_path(p)[1] != 0x0d,
{
    let rest = p.drop_first();
    assert(escape_path(p) == escape_byte(p[0]) + escape_path(rest));
}

/// An escaped path followed by a byte that ends it reads back as the path.
proof fn lemma_path_reads_back(
    b: Seq<u8>,
    start: int,
    q: int,
    colon_ends: bool,
    acc: Seq<u8>,
    p: Seq<u8>,
)
    requires
        stands_at(b, q, escape_path(p)),
        forall|i: int| 0 <= i < p.len() ==> p[i] != 0x0a && p[i] != 0x0d,
        acc.len() + p.len() > 0,
        path_ends(b, q + escape_path(p).len(), colon_ends),
    ensures
        path(b, start, q, colon_ends, acc) == Ok::<(Seq<u8>, int), DepfileError>(
            (acc + p, q + escape_path(p).len()),
        ),
    decreases p.len(),
{
    if p.len() == 0 {
        assert(acc + p =~= acc);
    } else {
        let c = p[0];
        let rest = p.drop_first();
        let e = escape_byte(c);
        let k = e.len() as int;
        assert(escape_path(p) == e + escape_path(rest));
        assert(forall|i: int| 0 <= i < rest.len() ==> rest[i] == p[i + 1]);
        assert(stands_at(b, q + k, escape_path(rest))) by {
            assert forall|i: int| 0 <= i < escape_path(rest).len() implies b[q + k + i]
                == #[trigger] escape_path(rest)[i] by {
                assert(b[q + (k + i)] == escape_path(p)[k + i]);
            }
        }
        assert(b[q] == escape_path(p)[0]);
        assert(b[q] == e[0]);
        if k == 2 {
            assert(b[q + 1] == escape_path(p)[1]);
            assert(b[q + 1] == e[1]);
        }
        assert(acc.push(c) + rest =~= acc + p);
        lemma_path_reads_back(b, start, q + k, colon_ends, acc.push(c), rest);
    }
}

/// Written targets followed by `:` read back as the targets.
proof fn lemma_targets_read_back(b: Seq<u8>, q: int, ts: Seq<Seq<u8>>, acc: Seq<Seq<u8>>)
    requires
        ts.len() >= 1,
        forall|i: int| 0 <= i < ts.len() ==> writable_path(#[trigger] ts[i]),
        stands_at(b, q, written_paths(ts)),
        at(b, q + written_paths(ts).len(), 0x3a),
    ensures
        targets(b, q, acc) == Ok::<(Seq<Seq<u8>>, int), DepfileError>(
            (acc + ts, q + written_paths(ts).len() + 1),
        ),
    decreases ts.len(),
{
    let t = ts[0];
    let w = escape_path(t);
    let e = q + w.len();
    assert(writable_path(t));
    lemma_escape_first(t);
    assert(written_paths(ts) == if ts.len() == 1 { w } else { w + seq![0x20u8] + written_paths(ts.drop_first()) });
    assert(stands_at(b, q, w)) by {
        assert forall|i: int| 0 <= i < w.len() implies b[q + i] == #[trigger] w[i] by {
            assert(written_paths(ts)[i] == w[i]);
        }
    }
    assert(b[q] == w[0]);
    if w[0] == 0x5c {
        assert(b[q + 1] == w[1]);
    }
    assert(rule_space_end(b, q) == q);
    if ts.len() == 1 {
        assert(b[e] == 0x3a);
        lemma_path_reads_back(b, q, q, true, seq![], t);
        assert(seq![] + t =~= t);
        assert(rule_space_end(b, e) == e);
        assert(targets(b, e, acc.push(t)) == Ok::<(Seq<Seq<u8>>, int), DepfileError>(
            (acc.push(t), e + 1),
        ));
        assert(acc.push(t) =~= acc + ts);
    } else {
        let rest = ts.drop_first();
        let wr = written_paths(rest);
        assert(written_paths(ts) == w + seq![0x20u8] + wr);
        assert(b[e] == written_paths(ts)[w.len() as int]);
        assert(b[e] == 0x20);
        lemma_path_reads_back(b, q, q, true, seq![], t);
        assert(seq![] + t =~= t);
        assert(forall|i: int| 0 <= i < rest.len() ==> rest[i] == ts[i + 1]);
        assert(stands_at(b, e + 1, wr)) by {
            assert forall|i: int| 0 <= i < wr.len() implies b[e + 1 + i] == #[trigger] wr[i] by {
                assert(b[q + (w.len() + 1 + i)] == written_paths(ts)[w.len() + 1 + i]);
            }
        }
        assert(q + written_paths(ts).len() == e + 1 + wr.len());
        lemma_targets_read_back(b, e + 1, rest, acc.push(t));
        let t1 = rest[0];
        lemma_escape_first(t1);
        assert(b[e + 1] == wr[0]);
        assert(wr[0] == escape_path(t1)[0]);
        if escape_path(t1)[0] == 0x5c {
            assert(wr[1] == escape_path(t1)[1]);
            assert(b[e + 2] == wr[1]);
        }
        assert(rule_space_end(b, e + 1) == e + 1);
        assert(rule_space_end(b, e) == e + 1);
        assert(acc.push(t) + rest =~= acc + ts);
    }
}

/// Written dependencies followed by a line feed read back as the
/// dependencies.
proof fn lemma_dependencies_read_back(b: Seq<u8>, q: int, ds: Seq<Seq<u8>>, acc: Seq<Seq<u8>>)
    requires
        ds.len() >= 1,
        forall|i: int| 0 <= i < ds.len() ==> writable_path(#[trigger] ds[i]),
        stands_at(b, q, written_paths(ds)),
        at(b, q + written_paths(ds).len(), 0x0a),
    ensures
        dependencies(b, q, acc) == Ok::<(Seq<Seq<u8>>, int), DepfileError>(
            (acc + ds, q + written_paths(ds).len()),
        ),
    decreases ds.len(),
{
    let d = ds[0];
    let w = escape_path(d);
    let e = q + w.len();
    assert(writable_path(d));
    lemma_escape_first(d);
    assert(written_paths(ds) == if ds.len() == 1 { w } else { w + seq![0x20u8] + written_paths(ds.drop_first()) });
    assert(stands_at(b, q, w)) by {
        assert forall|i: int| 0 <= i < w.len() implies b[q + i] == #[trigger] w[i] by {
            assert(written_paths(ds)[i] == w[i]);
        }
    }
    assert(b[q] == w[0]);
    if w[0] == 0x5c {
        assert(b[q + 1] == w[1]);
    }
    assert(rule_space_end(b, q) == q);
    if ds.len() == 1 {
        assert(b[e] == 0x0a);
        lemma_path_reads_back(b, q, q, false, seq![], d);
        assert(seq![] + d =~= d);
        assert(rule_space_end(b, e) == e);
        assert(dependencies(b, e, acc.push(d)) == Ok::<(Seq<Seq<u8>>, int), DepfileError>(
            (acc.push(d), e),
        ));
        assert(acc.push(d) =~= acc + ds);
    } else {
        let rest = ds.drop_first();
        let wr = written_paths(rest);
        assert(written_paths(ds) == w + seq![0x20u8] + wr);
        assert(b[e] == written_paths(ds)[w.len() as int]);
        assert(b[e] == 0x20);
        lemma_path_reads_back(b, q, q, false, seq![], d);
        assert(seq![] + d =~= d);
        assert(forall|i: int| 0 <= i < rest.len() ==> rest[i] == ds[i + 1]);
        assert(stands_at(b, e + 1, wr)) by {
            assert forall|i: int| 0 <= i < wr.len() implies b[e + 1 + i] == #[trigger] wr[i] by {
                assert(b[q + (w.len() + 1 + i)] == written_paths(ds)[w.len() + 1 + i]);
            }
        }
        assert(q + written_paths(ds).len() == e + 1 + wr.len());
        lemma_dependencies_read_back(b, e + 1, rest, acc.push(d));
        let d1 = rest[0];
        lemma_escape_first(d1);
        assert(b[e + 1] == wr[0]);
        assert(wr[0] == escape_path(d1)[0]);
        if escape_path(d1)[0] == 0x5c {
            assert(wr[1] == escape_path(d1)[1]);
            assert(b[e + 2] == wr[1]);
        }
        assert(rule_space_end(b, e + 1) == e + 1);
        assert(rule_space_end(b, e) == e + 1);
        assert(acc.push(d) + rest =~= acc + ds);
    }
}

/// A depfile written from its targets and dependencies reads back as them:
/// the targets, each written with its escapes and separated by spaces, then
/// `: `, then the dependencies written the same way, then a line feed.
pub proof fn lemma_written_depfile_reads_back(ts: Seq<Seq<u8>>, ds: Seq<Seq<u8>>)
    requires
        ts.len() >= 1,
        forall|i: int| 0 <= i < ts.len() ==> writable_path(#[trigger] ts[i]),
        forall|i: int| 0 <= i < ds.len() ==> writable_path(#[trigger] ds[i]),
    ensures
        parsed_depfile(
            written_paths(ts) + seq![0x3au8, 0x20] + written_paths(ds) + seq![0x0au8],
        ) == Ok::<DepfileView, DepfileError>(DepfileView { targets: ts, dependencies: ds }),
{
    let wt = written_paths(ts);
    let wd = written_paths(ds);
    let b = wt + seq![0x3au8, 0x20] + wd + seq![0x0au8];
    let l = wt.len() as int;
    let m = wd.len() as int;
    assert(b.len() == l + m + 3);
    assert(stands_at(b, 0, wt)) by {
        assert forall|i: int| 0 <= i < wt.len() implies b[0 + i] == #[trigger] wt[i] by {}
    }
    assert(b[l] == 0x3a);
    assert(b[l + 1] == 0x20);
    assert(b[l + 2 + m] == 0x0a);
    lemma_targets_read_back(b, 0, ts, seq![]);
    assert(seq![] + ts =~= ts);
    if ds.len() == 0 {
        assert(m == 0);
        assert(rule_space_end(b, l + 2) == l + 2);
        assert(rule_space_end(b, l + 1) == l + 2);
        assert(dependencies(b, l + 1, seq![]) == Ok::<(Seq<Seq<u8>>, int), DepfileError>(
            (seq![], l + 2),
        ));
        assert(ds =~= seq![]);
    } else {
        assert(stands_at(b, l + 2, wd)) by {
            assert forall|i: int| 0 <= i < wd.len() implies b[l + 2 + i] == #[trigger] wd[i] by {}
        }
        lemma_dependencies_read_back(b, l + 2, ds, seq![]);
        assert(seq![] + ds =~= ds);
        let d0 = ds[0];
        lemma_escape_first(d0);
        assert(wd == if ds.len() == 1 { escape_path(d0) } else { escape_path(d0) + seq![0x20u8] + written_paths(ds.drop_first()) });
        assert(wd[0] == escape_path(d0)[0]);
        assert(b[l + 2] == wd[0]);
        if escape_path(d0)[0] == 0x5c {
            assert(wd[1] == escape_path(d0)[1]);
            assert(b[l + 3] == wd[1]);
        }
        assert(rule_space_end(b, l + 2) == l + 2);
        assert(rule_space_end(b, l + 1) == l + 2);
    }
    assert(trailing_end(b, l + 3 + m) == l + 3 + m);
    assert(trailing_end(b, l + 2 + m) == l + 3 + m);
}

} // verus!

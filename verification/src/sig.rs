//! The syntax of a Python signature such as `(a, /, b = 42, *args, c,
//! **kwargs)`, read from its Rust tokens.
//!
//! The signature is one parenthesized group and nothing after it. Inside,
//! elements are separated by commas, and a trailing comma is allowed. An
//! element is `/`, a bare `*`, `*name`, `**name`, `name`, or `name = value`
//! where the value is a Rust expression. A name is an identifier that is not
//! a Rust keyword (a raw identifier such as `r#type` is one).
//!
//! Tokens are taken one level deep: a group inside the parentheses is one
//! token. How many tokens an expression takes is Rust's expression grammar;
//! it comes in as a table with, for each position, the length of the
//! expression that starts there, if any does.

use vstd::prelude::*;

verus! {

/// The delimiter of a token group.
#[derive(Debug, Clone, Copy, PartialEq, Eq, Structural)]
pub enum Delimiter {
    Parenthesis,
    Brace,
    Bracket,
    Invisible,
}

/// One token of a signature, groups taken whole.
#[derive(Debug, Clone, PartialEq, Eq)]
pub enum SigToken {
    /// A punctuation character.
    Punct(char),
    /// An identifier or keyword, as written (`r#` included).
    Ident(String),
    Literal,
    Group(Delimiter),
}

/// Whether `name` is accepted as an identifier, that is, is not a keyword.
pub uninterp spec fn accepted_ident(name: Seq<char>) -> bool;

/// The words that `syn` never takes for an identifier: `_` and the Rust
/// keywords, strict, reserved and weak.
pub open spec fn is_reserved_word(name: Seq<char>) -> bool {
    seq![
        "_"@, "abstract"@, "as"@, "async"@, "await"@, "become"@, "box"@, "break"@, "const"@,
        "continue"@, "crate"@, "do"@, "dyn"@, "else"@, "enum"@, "extern"@, "false"@, "final"@,
        "fn"@, "for"@, "if"@, "impl"@, "in"@, "let"@, "loop"@, "macro"@, "match"@, "mod"@,
        "move"@, "mut"@, "override"@, "priv"@, "pub"@, "ref"@, "return"@, "Self"@, "self"@,
        "static"@, "struct"@, "super"@, "trait"@, "true"@, "try"@, "type"@, "typeof"@,
        "unsafe"@, "unsized"@, "use"@, "virtual"@, "where"@, "while"@, "yield"@
    ].contains(name)
}

/// An identifier spelled in ASCII: a letter or `_`, then letters, digits and
/// `_`.
pub open spec fn is_plain_word(name: Seq<char>) -> bool {
    &&& name.len() > 0
    &&& ('a' <= name[0] <= 'z' || 'A' <= name[0] <= 'Z' || name[0] == '_')
    &&& forall|i: int|
        0 <= i < name.len() ==> ('a' <= #[trigger] name[i] <= 'z' || 'A' <= name[i] <= 'Z'
            || '0' <= name[i] <= '9' || name[i] == '_')
}

/// `syn`'s identifier parser applied to one identifier token's text. It
/// refuses `_` and the keywords of `is_reserved_word` whatever the lexer made
/// of them, and accepts a plain ASCII word that is none of them, which lexes
/// as one identifier; raw identifiers and other Unicode identifiers are
/// accepted as the lexer allows them, which is left to the name.
#[verifier::external_body]
fn is_accepted_ident(name: &str) -> (b: bool)
    ensures
        b == accepted_ident(name@),
        is_reserved_word(name@) ==> !b,
        is_plain_word(name@) && !is_reserved_word(name@) ==> b,
{
    syn::parse_str::<syn::Ident>(name).is_ok()
}

/// What is wrong with a signature's syntax.
#[derive(Debug, Clone, Copy, PartialEq, Eq, Structural)]
pub enum SigSyntaxErrorKind {
    /// The signature does not start with a parenthesized group.
    ExpectedParentheses,
    /// Something follows the parenthesized group.
    UnexpectedToken,
    /// A name is missing, or a keyword stands where a name should.
    ExpectedIdentifier,
    /// An element is not followed by a comma or the end.
    ExpectedComma,
    /// No expression follows `=`.
    ExpectedExpression,
}

/// A syntax error and the position it points at: among the signature's
/// tokens for `ExpectedParentheses` and `UnexpectedToken`, among the tokens
/// inside the parentheses otherwise. A position equal to the number of
/// tokens points at the end.
#[derive(Debug, Clone, Copy, PartialEq, Eq, Structural)]
pub struct SigSyntaxError {
    pub kind: SigSyntaxErrorKind,
    pub at: usize,
}

/// Where a default value stands: its `=` and the tokens of its expression,
/// from `start` up to `end`.
#[derive(Debug, Clone, Copy, PartialEq, Eq, Structural)]
pub struct DefaultSpan {
    pub eq: usize,
    pub start: usize,
    pub end: usize,
}

/// An element of the signature, by the positions of its tokens inside the
/// parentheses.
#[derive(Debug, Clone, Copy, PartialEq, Eq, Structural)]
pub enum ParsedElem {
    Slash { at: usize },
    Star { at: usize },
    StarArgs { star: usize, name: usize },
    StarKwargs { star: usize, name: usize },
    Arg { name: usize, default: Option<DefaultSpan> },
}

/// The elements of a signature, and whether a comma ends the list.
#[derive(Debug, Clone, PartialEq, Eq)]
pub struct ParsedSignature {
    pub elems: Vec<ParsedElem>,
    pub trailing_comma: bool,
}

pub open spec fn syntax_error(kind: SigSyntaxErrorKind, at: int) -> SigSyntaxError {
    SigSyntaxError { kind, at: at as usize }
}

pub open spec fn is_punct(t: SigToken, c: char) -> bool {
    match t {
        SigToken::Punct(p) => p == c,
        _ => false,
    }
}

/// Whether a name stands at position `i`.
pub open spec fn name_at(c: Seq<SigToken>, i: int) -> bool {
    0 <= i < c.len() && match c[i] {
        SigToken::Ident(n) => accepted_ident(n@),
        _ => false,
    }
}

/// The element that starts at position `i` (inside the tokens), and the
/// position after it.
pub open spec fn elem_at(c: Seq<SigToken>, lens: Seq<Option<usize>>, i: int) -> Result<
    (ParsedElem, int),
    SigSyntaxError,
> {
    if is_punct(c[i], '/') {
        Ok((ParsedElem::Slash { at: i as usize }, i + 1))
    } else if is_punct(c[i], '*') {
        if i + 1 < c.len() && is_punct(c[i + 1], '*') {
            if name_at(c, i + 2) {
                Ok((ParsedElem::StarKwargs { star: i as usize, name: (i + 2) as usize }, i + 3))
            } else {
                Err(syntax_error(SigSyntaxErrorKind::ExpectedIdentifier, i + 2))
            }
        } else if name_at(c, i + 1) {
            Ok((ParsedElem::StarArgs { star: i as usize, name: (i + 1) as usize }, i + 2))
        } else {
            Ok((ParsedElem::Star { at: i as usize }, i + 1))
        }
    } else if name_at(c, i) {
        if i + 1 < c.len() && is_punct(c[i + 1], '=') {
            let s = i + 2;
            if s < c.len() {
                match lens[s] {
                    Some(k) => if k >= 1 && s + k <= c.len() {
                        Ok(
                            (
                                ParsedElem::Arg {
                                    name: i as usize,
                                    default: Some(
                                        DefaultSpan {
                                            eq: (i + 1) as usize,
                                            start: s as usize,
                                            end: (s + k) as usize,
                                        },
                                    ),
                                },
                                s + k,
                            ),
                        )
                    } else {
                        Err(syntax_error(SigSyntaxErrorKind::ExpectedExpression, s))
                    },
                    None => Err(syntax_error(SigSyntaxErrorKind::ExpectedExpression, s)),
                }
            } else {
                Err(syntax_error(SigSyntaxErrorKind::ExpectedExpression, s))
            }
        } else {
            Ok((ParsedElem::Arg { name: i as usize, default: None }, i + 1))
        }
    } else {
        Err(syntax_error(SigSyntaxErrorKind::ExpectedIdentifier, i))
    }
}

/// An element takes at least one token and does not run past the end.
pub proof fn lemma_elem_at_advances(c: Seq<SigToken>, lens: Seq<Option<usize>>, i: int)
    requires
        0 <= i < c.len(),
    ensures
        elem_at(c, lens, i) matches Ok((e, j)) ==> i < j <= c.len(),
{
}

/// The elements from position `i` on, separated by commas, and whether a
/// comma ends them.
pub open spec fn elems_from(c: Seq<SigToken>, lens: Seq<Option<usize>>, i: int) -> Result<
    (Seq<ParsedElem>, bool),
    SigSyntaxError,
>
    decreases c.len() - i,
{
    if i < 0 || i >= c.len() {
        Ok((seq![], false))
    } else {
        proof {
            lemma_elem_at_advances(c, lens, i);
        }
        match elem_at(c, lens, i) {
            Err(e) => Err(e),
            Ok((e, j)) => if j >= c.len() {
                Ok((seq![e], false))
            } else if is_punct(c[j], ',') {
                if j + 1 >= c.len() {
                    Ok((seq![e], true))
                } else {
                    match elems_from(c, lens, j + 1) {
                        Ok((rest, trailing)) => Ok((seq![e] + rest, trailing)),
                        Err(x) => Err(x),
                    }
                }
            } else {
                Err(syntax_error(SigSyntaxErrorKind::ExpectedComma, j))
            },
        }
    }
}

/// `acc` followed by what `r` holds, or the error of `r`.
pub open spec fn after(acc: Seq<ParsedElem>, r: Result<(Seq<ParsedElem>, bool), SigSyntaxError>) -> Result<
    (Seq<ParsedElem>, bool),
    SigSyntaxError,
> {
    match r {
        Ok((rest, trailing)) => Ok((acc + rest, trailing)),
        Err(x) => Err(x),
    }
}

/// The signature read from its tokens `outer`, whose first token, when it
/// is a parenthesized group, holds the tokens `content`.
pub open spec fn parsed_signature(
    outer: Seq<SigToken>,
    content: Seq<SigToken>,
    lens: Seq<Option<usize>>,
) -> Result<(Seq<ParsedElem>, bool), SigSyntaxError> {
    if outer.len() == 0 || outer[0] != SigToken::Group(Delimiter::Parenthesis) {
        Err(syntax_error(SigSyntaxErrorKind::ExpectedParentheses, 0))
    } else {
        match elems_from(content, lens, 0) {
            Err(e) => Err(e),
            Ok(r) => if outer.len() > 1 {
                Err(syntax_error(SigSyntaxErrorKind::UnexpectedToken, 1))
            } else {
                Ok(r)
            },
        }
    }
}

fn punct_is(t: &SigToken, c: char) -> (b: bool)
    ensures
        b == is_punct(*t, c),
{
    match t {
        SigToken::Punct(p) => *p == c,
        _ => false,
    }
}

fn is_name_at(c: &[SigToken], i: usize) -> (b: bool)
    ensures
        b == name_at(c@, i as int),
{
    if i >= c.len() {
        return false;
    }
    match &c[i] {
        SigToken::Ident(n) => is_accepted_ident(n.as_str()),
        _ => false,
    }
}

fn parse_elem(c: &[SigToken], lens: &[Option<usize>], i: usize) -> (r: Result<
    (ParsedElem, usize),
    SigSyntaxError,
>)
    requires
        i < c@.len(),
        lens@.len() == c@.len(),
    ensures
        match elem_at(c@, lens@, i as int) {
            Ok((e, j)) => r matches Ok((e2, j2)) && e2 == e && j2 == j,
            Err(x) => r == Err::<(ParsedElem, usize), SigSyntaxError>(x),
        },
{
    let n = c.len();
    if punct_is(&c[i], '/') {
        return Ok((ParsedElem::Slash { at: i }, i + 1));
    }
    if punct_is(&c[i], '*') {
        if i + 1 < n && punct_is(&c[i + 1], '*') {
            if is_name_at(c, i + 2) {
                return Ok((ParsedElem::StarKwargs { star: i, name: i + 2 }, i + 3));
            }
            return Err(SigSyntaxError { kind: SigSyntaxErrorKind::ExpectedIdentifier, at: i + 2 });
        }
        if is_name_at(c, i + 1) {
            return Ok((ParsedElem::StarArgs { star: i, name: i + 1 }, i + 2));
        }
        return Ok((ParsedElem::Star { at: i }, i + 1));
    }
    if is_name_at(c, i) {
        if i + 1 < n && punct_is(&c[i + 1], '=') {
            let s = i + 2;
            if s < n {
                match lens[s] {
                    Some(k) => {
                        if k >= 1 && k <= n - s {
                            return Ok(
                                (
                                    ParsedElem::Arg {
                                        name: i,
                                        default: Some(DefaultSpan { eq: i + 1, start: s, end: s + k }),
                                    },
                                    s + k,
                                ),
                            );
                        }
                        return Err(
                            SigSyntaxError { kind: SigSyntaxErrorKind::ExpectedExpression, at: s },
                        );
                    },
                    None => {
                        return Err(
                            SigSyntaxError { kind: SigSyntaxErrorKind::ExpectedExpression, at: s },
                        );
                    },
                }
            }
            return Err(SigSyntaxError { kind: SigSyntaxErrorKind::ExpectedExpression, at: s });
        }
        return Ok((ParsedElem::Arg { name: i, default: None }, i + 1));
    }
    Err(SigSyntaxError { kind: SigSyntaxErrorKind::ExpectedIdentifier, at: i })
}

/// Reads a signature from its tokens `outer` and, when the first of them is
/// a parenthesized group, the tokens `content` inside it; `expr_lens` gives,
/// for each position inside, the number of tokens of the expression that
/// starts there, if one does.
pub fn parse_signature(
    outer: &[SigToken],
    content: &[SigToken],
    expr_lens: &[Option<usize>],
) -> (r: Result<ParsedSignature, SigSyntaxError>)
    requires
        expr_lens@.len() == content@.len(),
    ensures
        match parsed_signature(outer@, content@, expr_lens@) {
            Ok((elems, trailing)) => r matches Ok(s) && s.elems@ == elems && s.trailing_comma
                == trailing,
            Err(e) => r == Err::<ParsedSignature, SigSyntaxError>(e),
        },
{
    if outer.len() == 0 {
        return Err(SigSyntaxError { kind: SigSyntaxErrorKind::ExpectedParentheses, at: 0 });
    }
    match &outer[0] {
        SigToken::Group(Delimiter::Parenthesis) => {},
        _ => {
            return Err(SigSyntaxError { kind: SigSyntaxErrorKind::ExpectedParentheses, at: 0 });
        },
    }
    let parsed = parse_elems(content, expr_lens);
    match parsed {
        Err(e) => Err(e),
        Ok(s) => {
            if outer.len() > 1 {
                Err(SigSyntaxError { kind: SigSyntaxErrorKind::UnexpectedToken, at: 1 })
            } else {
                Ok(s)
            }
        },
    }
}

fn parse_elems(c: &[SigToken], lens: &[Option<usize>]) -> (r: Result<
    ParsedSignature,
    SigSyntaxError,
>)
    requires
        lens@.len() == c@.len(),
    ensures
        match elems_from(c@, lens@, 0) {
            Ok((elems, trailing)) => r matches Ok(s) && s.elems@ == elems && s.trailing_comma
                == trailing,
            Err(e) => r == Err::<ParsedSignature, SigSyntaxError>(e),
        },
{
    let n = c.len();
    let mut elems: Vec<ParsedElem> = Vec::new();
    if n == 0 {
        return Ok(ParsedSignature { elems, trailing_comma: false });
    }
    let mut i: usize = 0;
    assert(after(elems@, elems_from(c@, lens@, 0)) == elems_from(c@, lens@, 0)) by {
        match elems_from(c@, lens@, 0) {
            Ok((rest, t)) => {
                assert(elems@ + rest =~= rest);
            },
            Err(x) => {},
        }
    }
    loop
        invariant
            n == c@.len(),
            lens@.len() == c@.len(),
            i < n,
            elems_from(c@, lens@, 0) == after(elems@, elems_from(c@, lens@, i as int)),
        decreases n - i,
    {
        proof {
            lemma_elem_at_advances(c@, lens@, i as int);
        }
        let step = parse_elem(c, lens, i);
        match step {
            Err(e) => {
                return Err(e);
            },
            Ok((e, j)) => {
                let ghost before = elems@;
                elems.push(e);
                if j >= n {
                    assert(elems@ =~= before + seq![e]);
                    return Ok(ParsedSignature { elems, trailing_comma: false });
                }
                if !punct_is(&c[j], ',') {
                    return Err(SigSyntaxError { kind: SigSyntaxErrorKind::ExpectedComma, at: j });
                }
                if j + 1 >= n {
                    assert(elems@ =~= before + seq![e]);
                    return Ok(ParsedSignature { elems, trailing_comma: true });
                }
                proof {
                    match elems_from(c@, lens@, j + 1) {
                        Ok((rest, t)) => {
                            assert(before + (seq![e] + rest) =~= elems@ + rest);
                        },
                        Err(x) => {},
                    }
                }
                i = j + 1;
            },
        }
    }
}

} // verus!

//! Evaluation of the integer subset of C preprocessor constant expressions.
//!
//! The lexer and the parser work on the UTF-8 bytes of the expression; the
//! specification below describes, as functions on those bytes, the token that
//! starts at a position, the expression tree that the recursive-descent
//! parser builds and the value that tree evaluates to.

use vstd::prelude::*;
use vstd::string::StringSliceAdditionalSpecFns;
use vstd::utf8::*;

use crate::config_map::{
    ConfigMap, distinct_names, index_of, insert_position, lemma_insert_position, name_lt,
    sorted_names,
};
use crate::string_order::lemma_string_le;
use crate::text::{ascii_chars, ascii_string, char_to_string, copy_range, is_ascii_bytes};

verus! {

/// Why an expression could not be evaluated.
#[derive(Debug, Clone, Copy, PartialEq, Eq, Structural)]
pub enum EvalErrorKind {
    Unsupported,
    Syntax,
    Arithmetic,
}

/// An evaluation failure, with the byte offset it was detected at.
#[derive(Debug, Clone, PartialEq, Eq)]
pub struct EvalError {
    pub kind: EvalErrorKind,
    pub offset: usize,
    pub message: String,
}

/// The mathematical content of an [`EvalError`].
pub struct EvalFailure {
    pub kind: EvalErrorKind,
    pub offset: int,
    pub message: Seq<char>,
}

impl View for EvalError {
    type V = EvalFailure;

    open spec fn view(&self) -> EvalFailure {
        EvalFailure { kind: self.kind, offset: self.offset as int, message: self.message@ }
    }
}

pub open spec fn failure(kind: EvalErrorKind, offset: int, message: Seq<char>) -> EvalFailure {
    EvalFailure { kind, offset, message }
}

fn new_error(kind: EvalErrorKind, offset: usize, message: String) -> (e: EvalError)
    ensures
        e@ == failure(kind, offset as int, message@),
{
    EvalError { kind, offset, message }
}

fn literal_error(kind: EvalErrorKind, offset: usize, message: &str) -> (e: EvalError)
    ensures
        e@ == failure(kind, offset as int, message@),
{
    EvalError { kind, offset, message: message.to_owned() }
}

/* ---------------------------------------------------------------------------
 * Bytes
 * ------------------------------------------------------------------------- */

/// `u8::is_ascii_whitespace`: space, tab, line feed, form feed, carriage return.
pub open spec fn is_space(b: u8) -> bool {
    b == 0x20 || b == 0x09 || b == 0x0a || b == 0x0c || b == 0x0d
}

pub open spec fn is_digit(b: u8) -> bool {
    0x30 <= b <= 0x39
}

pub open spec fn is_alpha(b: u8) -> bool {
    (0x41 <= b <= 0x5a) || (0x61 <= b <= 0x7a)
}

/// Letters, digits and `_`.
pub open spec fn is_word_byte(b: u8) -> bool {
    is_alpha(b) || is_digit(b) || b == 0x5f
}

/// The position of the first non-whitespace byte at or after `p`.
pub open spec fn skip_space(s: Seq<u8>, p: int) -> int
    decreases s.len() - p,
{
    if 0 <= p < s.len() && is_space(s[p]) {
        skip_space(s, p + 1)
    } else {
        p
    }
}

/// The end of the run of word bytes that starts at `p`.
pub open spec fn word_end(s: Seq<u8>, p: int) -> int
    decreases s.len() - p,
{
    if 0 <= p < s.len() && is_word_byte(s[p]) {
        word_end(s, p + 1)
    } else {
        p
    }
}

pub proof fn lemma_skip_space(s: Seq<u8>, p: int)
    requires
        0 <= p <= s.len(),
    ensures
        p <= skip_space(s, p) <= s.len(),
        forall|i: int| p <= i < skip_space(s, p) ==> is_space(#[trigger] s[i]),
        skip_space(s, p) < s.len() ==> !is_space(s[skip_space(s, p)]),
    decreases s.len() - p,
{
    if p < s.len() && is_space(s[p]) {
        lemma_skip_space(s, p + 1);
    }
}

pub proof fn lemma_word_end(s: Seq<u8>, p: int)
    requires
        0 <= p <= s.len(),
    ensures
        p <= word_end(s, p) <= s.len(),
        forall|i: int| p <= i < word_end(s, p) ==> is_word_byte(#[trigger] s[i]),
        word_end(s, p) < s.len() ==> !is_word_byte(s[word_end(s, p)]),
    decreases s.len() - p,
{
    if p < s.len() && is_word_byte(s[p]) {
        lemma_word_end(s, p + 1);
    }
}

/* ---------------------------------------------------------------------------
 * Integer literals
 * ------------------------------------------------------------------------- */

/// The value of a hexadecimal digit, whatever the base.
pub open spec fn digit_of(b: u8) -> Option<u32> {
    if 0x30 <= b <= 0x39 {
        Some((b - 0x30) as u32)
    } else if 0x61 <= b <= 0x66 {
        Some((b - 0x61 + 10) as u32)
    } else if 0x41 <= b <= 0x46 {
        Some((b - 0x41 + 10) as u32)
    } else {
        None
    }
}

pub open spec fn is_digit_in(b: u8, base: int) -> bool {
    digit_of(b) matches Some(d) && d < base
}

/// The number of leading bytes of `body` that are digits in `base`.
pub open spec fn digit_run(body: Seq<u8>, base: int) -> int
    decreases body.len(),
{
    if body.len() > 0 && is_digit_in(body[0], base) {
        1 + digit_run(body.drop_first(), base)
    } else {
        0
    }
}

/// The number that a string of digits denotes in `base`.
pub open spec fn digits_value(digits: Seq<u8>, base: int) -> int
    decreases digits.len(),
{
    if digits.len() == 0 {
        0
    } else {
        digits_value(digits.drop_last(), base) * base + digit_of(digits.last()).unwrap() as int
    }
}

pub open spec fn ascii_lower(b: u8) -> u8 {
    if 0x41 <= b <= 0x5a {
        (b + 0x20) as u8
    } else {
        b
    }
}

/// C's integer suffixes, in any case: none, `u`, `l`, `ul`, `lu`, `ll`, `ull`, `llu`.
pub open spec fn is_integer_suffix(suffix: Seq<u8>) -> bool {
    let l = suffix.map_values(|b: u8| ascii_lower(b));
    let u: u8 = 0x75;
    let el: u8 = 0x6c;
    ||| l =~= seq![]
    ||| l =~= seq![u]
    ||| l =~= seq![el]
    ||| l =~= seq![u, el]
    ||| l =~= seq![el, u]
    ||| l =~= seq![el, el]
    ||| l =~= seq![u, el, el]
    ||| l =~= seq![el, el, u]
}

/// The base of a literal and the length of its prefix: `0x`/`0X` for 16,
/// `0b`/`0B` for 2, a leading `0` for 8 (the `0` then counts as a digit).
pub open spec fn literal_base(lit: Seq<u8>) -> (int, int) {
    if lit.len() >= 2 && lit[0] == 0x30 && (lit[1] == 0x78 || lit[1] == 0x58) {
        (16, 2)
    } else if lit.len() >= 2 && lit[0] == 0x30 && (lit[1] == 0x62 || lit[1] == 0x42) {
        (2, 2)
    } else if lit.len() > 1 && lit[0] == 0x30 {
        (8, 0)
    } else {
        (10, 0)
    }
}

/// The value of an integer literal, or why it has none.
pub open spec fn literal_value(lit: Seq<u8>) -> Result<i128, Seq<char>> {
    let (base, prefix) = literal_base(lit);
    let body = lit.skip(prefix);
    let n = digit_run(body, base);
    if n == 0 {
        Err("integer literal `"@ + ascii_chars(lit) + "` has no digits"@)
    } else if !is_integer_suffix(body.skip(n)) {
        Err("invalid integer suffix in `"@ + ascii_chars(lit) + "`"@)
    } else if digits_value(body.take(n), base) > i128::MAX {
        Err("integer literal `"@ + ascii_chars(lit) + "` is outside the supported range"@)
    } else {
        Ok(digits_value(body.take(n), base) as i128)
    }
}

pub(crate) fn digit_value(byte: u8) -> (d: Option<u32>)
    ensures
        d == digit_of(byte),
{
    if 0x30 <= byte && byte <= 0x39 {
        Some((byte - 0x30) as u32)
    } else if 0x61 <= byte && byte <= 0x66 {
        Some((byte - 0x61) as u32 + 10)
    } else if 0x41 <= byte && byte <= 0x46 {
        Some((byte - 0x41) as u32 + 10)
    } else {
        None
    }
}

fn valid_integer_suffix(suffix: &[u8]) -> (ok: bool)
    ensures
        ok == is_integer_suffix(suffix@),
{
    let n = suffix.len();
    let ghost l = suffix@.map_values(|b: u8| ascii_lower(b));
    if n > 3 {
        assert(l.len() > 3);
        return false;
    }
    let a = if n > 0 { lower_byte(suffix[0]) } else { 0 };
    let b = if n > 1 { lower_byte(suffix[1]) } else { 0 };
    let c = if n > 2 { lower_byte(suffix[2]) } else { 0 };
    let u: u8 = 0x75;
    let el: u8 = 0x6c;
    let ok = if n == 0 {
        true
    } else if n == 1 {
        a == u || a == el
    } else if n == 2 {
        (a == u && b == el) || (a == el && b == u) || (a == el && b == el)
    } else {
        (a == u && b == el && c == el) || (a == el && b == el && c == u)
    };
    proof {
        if n >= 1 {
            assert(l[0] == a);
        }
        if n >= 2 {
            assert(l[1] == b);
        }
        if n >= 3 {
            assert(l[2] == c);
        }
        if ok {
            if n == 1 {
                if a == u {
                    assert(l =~= seq![u]);
                } else {
                    assert(l =~= seq![el]);
                }
            } else if n == 2 {
                if a == u {
                    assert(l =~= seq![u, el]);
                } else if b == u {
                    assert(l =~= seq![el, u]);
                } else {
                    assert(l =~= seq![el, el]);
                }
            } else if n == 3 {
                if a == u {
                    assert(l =~= seq![u, el, el]);
                } else {
                    assert(l =~= seq![el, el, u]);
                }
            } else {
                assert(l =~= seq![]);
            }
        } else {
            if l =~= seq![u] || l =~= seq![el] || l =~= seq![u, el] || l =~= seq![el, u] || l
                =~= seq![el, el] || l =~= seq![u, el, el] || l =~= seq![el, el, u] || l
                =~= seq![] {
                assert(false);
            }
        }
    }
    ok
}

fn digit_below(b: u8, base: u32) -> (ok: bool)
    ensures
        ok == is_digit_in(b, base as int),
{
    match digit_value(b) {
        Some(d) => d < base,
        None => false,
    }
}

fn lower_byte(b: u8) -> (l: u8)
    ensures
        l == ascii_lower(b),
{
    if 0x41 <= b && b <= 0x5a {
        b + 0x20
    } else {
        b
    }
}

proof fn lemma_digit_run(body: Seq<u8>, base: int, n: int)
    requires
        0 <= n <= body.len(),
        forall|i: int| 0 <= i < n ==> is_digit_in(#[trigger] body[i], base),
        n == body.len() || !is_digit_in(body[n], base),
    ensures
        digit_run(body, base) == n,
    decreases n,
{
    if n > 0 {
        let rest = body.drop_first();
        assert forall|i: int| 0 <= i < n - 1 implies is_digit_in(#[trigger] rest[i], base) by {
            assert(rest[i] == body[i + 1]);
        }
        if n - 1 < rest.len() {
            assert(rest[n - 1] == body[n]);
        }
        lemma_digit_run(rest, base, n - 1);
    }
}

proof fn lemma_digits_value_grows(digits: Seq<u8>, base: int, j: int, k: int)
    requires
        0 <= j <= k <= digits.len(),
        1 <= base,
    ensures
        0 <= digits_value(digits.take(j), base) <= digits_value(digits.take(k), base),
    decreases k - j,
{
    lemma_digits_value_nonneg(digits.take(j), base);
    if j < k {
        lemma_digits_value_grows(digits, base, j, k - 1);
        let a = digits_value(digits.take(k - 1), base);
        assert(digits.take(k).drop_last() =~= digits.take(k - 1));
        assert(a * base >= a) by (nonlinear_arith)
            requires
                a >= 0,
                base >= 1,
        ;
    }
}

proof fn lemma_digits_value_nonneg(digits: Seq<u8>, base: int)
    requires
        1 <= base,
    ensures
        digits_value(digits, base) >= 0,
    decreases digits.len(),
{
    if digits.len() > 0 {
        lemma_digits_value_nonneg(digits.drop_last(), base);
        let a = digits_value(digits.drop_last(), base);
        assert(a * base >= 0) by (nonlinear_arith)
            requires
                a >= 0,
                base >= 1,
        ;
    }
}

/// Parses a C integer literal (decimal, octal, hexadecimal or binary, with
/// an optional `u`/`l` suffix) into its value.
fn parse_integer_literal(literal: &[u8]) -> (r: Result<i128, String>)
    requires
        is_ascii_bytes(literal@),
    ensures
        match r {
            Ok(v) => literal_value(literal@) == Ok::<i128, Seq<char>>(v),
            Err(m) => literal_value(literal@) == Err::<i128, Seq<char>>(m@),
        },
{
    let ghost lit = literal@;
    let n = literal.len();
    let (base, prefix_length): (u32, usize) = if n >= 2 && literal[0] == 0x30 && (literal[1]
        == 0x78 || literal[1] == 0x58) {
        (16, 2)
    } else if n >= 2 && literal[0] == 0x30 && (literal[1] == 0x62 || literal[1] == 0x42) {
        (2, 2)
    } else if n > 1 && literal[0] == 0x30 {
        (8, 0)
    } else {
        (10, 0)
    };
    assert(literal_base(lit) == (base as int, prefix_length as int));
    let ghost body = lit.skip(prefix_length as int);
    let mut count: usize = 0;
    while prefix_length + count < n && digit_below(literal[prefix_length + count], base)
        invariant
            lit == literal@,
            prefix_length <= n,
            n == lit.len(),
            body == lit.skip(prefix_length as int),
            0 <= count <= body.len(),
            forall|i: int| 0 <= i < count ==> is_digit_in(#[trigger] body[i], base as int),
        decreases n - count,
    {
        assert(literal[prefix_length + count as int] == body[count as int]);
        count += 1;
    }
    if prefix_length + count < n {
        assert(literal[prefix_length + count as int] == body[count as int]);
    }
    proof {
        lemma_digit_run(body, base as int, count as int);
    }
    if count == 0 {
        let mut m = "integer literal `".to_owned();
        m.append(ascii_string(literal, 0, n).as_str());
        m.append("` has no digits");
        assert(lit.subrange(0, n as int) =~= lit);
        return Err(m);
    }
    let digits_end = prefix_length + count;
    let suffix = &literal[digits_end..n];
    assert(suffix@ =~= body.skip(count as int));
    if !valid_integer_suffix(suffix) {
        let mut m = "invalid integer suffix in `".to_owned();
        m.append(ascii_string(literal, 0, n).as_str());
        m.append("`");
        assert(lit.subrange(0, n as int) =~= lit);
        return Err(m);
    }
    let ghost digits = body.take(count as int);
    let mut value: i128 = 0;
    let mut i: usize = 0;
    while i < count
        invariant
            lit == literal@,
            is_ascii_bytes(lit),
            literal_base(lit) == (base as int, prefix_length as int),
            digit_run(body, base as int) == count,
            count > 0,
            is_integer_suffix(body.skip(count as int)),
            prefix_length + count <= n,
            n == lit.len(),
            body == lit.skip(prefix_length as int),
            digits == body.take(count as int),
            0 <= i <= count <= body.len(),
            2 <= base <= 16,
            forall|j: int| 0 <= j < count ==> is_digit_in(#[trigger] body[j], base as int),
            value as int == digits_value(digits.take(i as int), base as int),
        decreases count - i,
    {
        assert(literal[prefix_length + i as int] == body[i as int]);
        let d = match digit_value(literal[prefix_length + i]) {
            Some(d) => d,
            None => {
                proof {
                    assert(is_digit_in(body[i as int], base as int));
                }
                0
            },
        };
        assert(digits.take(i + 1).drop_last() =~= digits.take(i as int));
        assert(digits.take(i + 1).last() == body[i as int]);
        let next = match value.checked_mul(base as i128) {
            Some(v) => v.checked_add(d as i128),
            None => None,
        };
        match next {
            Some(v) => {
                value = v;
                i += 1;
            },
            None => {
                proof {
                    assert(digits_value(digits.take(i + 1), base as int) == value * base + d);
                    lemma_digits_value_grows(digits, base as int, i as int + 1, count as int);
                    assert(digits.take(count as int) =~= digits);
                    lemma_digits_value_nonneg(digits.take(i as int), base as int);
                    assert(value * base + d > i128::MAX) by (nonlinear_arith)
                        requires
                            value >= 0,
                            2 <= base,
                            value * base > i128::MAX || value * base + d > i128::MAX,
                    ;
                }
                let mut m = "integer literal `".to_owned();
                m.append(ascii_string(literal, 0, n).as_str());
                m.append("` is outside the supported range");
                assert(lit.subrange(0, n as int) =~= lit);
                return Err(m);
            },
        }
    }
    assert(digits.take(count as int) =~= digits);
    Ok(value)
}

/* ---------------------------------------------------------------------------
 * Tokens
 * ------------------------------------------------------------------------- */

/// A token of a constant expression. An identifier is known by the byte
/// range it spans: from the token's offset up to `Identifier`'s end.
#[derive(Debug, Clone, Copy, PartialEq, Eq, Structural)]
pub enum TokenKind {
    Integer(i128),
    Identifier(usize),
    LeftParen,
    RightParen,
    Question,
    Colon,
    Plus,
    Minus,
    Bang,
    Tilde,
    Star,
    Slash,
    Percent,
    ShiftLeft,
    ShiftRight,
    Less,
    LessEqual,
    Greater,
    GreaterEqual,
    EqualEqual,
    NotEqual,
    Ampersand,
    Caret,
    Pipe,
    LogicalAnd,
    LogicalOr,
    End,
}

#[derive(Debug, Clone, Copy, PartialEq, Eq, Structural)]
pub struct Token {
    pub kind: TokenKind,
    pub offset: usize,
}

/// The operator spelled by the two bytes at `q`, if any.
pub open spec fn two_byte_operator(s: Seq<u8>, q: int) -> Option<TokenKind> {
    if q + 1 >= s.len() {
        None
    } else {
        let (a, b) = (s[q], s[q + 1]);
        if a == 0x3c && b == 0x3c {
            Some(TokenKind::ShiftLeft)
        } else if a == 0x3e && b == 0x3e {
            Some(TokenKind::ShiftRight)
        } else if a == 0x3c && b == 0x3d {
            Some(TokenKind::LessEqual)
        } else if a == 0x3e && b == 0x3d {
            Some(TokenKind::GreaterEqual)
        } else if a == 0x3d && b == 0x3d {
            Some(TokenKind::EqualEqual)
        } else if a == 0x21 && b == 0x3d {
            Some(TokenKind::NotEqual)
        } else if a == 0x26 && b == 0x26 {
            Some(TokenKind::LogicalAnd)
        } else if a == 0x7c && b == 0x7c {
            Some(TokenKind::LogicalOr)
        } else {
            None
        }
    }
}

/// The punctuator spelled by one byte, if any.
pub open spec fn one_byte_operator(b: u8) -> Option<TokenKind> {
    if b == 0x28 {
        Some(TokenKind::LeftParen)
    } else if b == 0x29 {
        Some(TokenKind::RightParen)
    } else if b == 0x3f {
        Some(TokenKind::Question)
    } else if b == 0x3a {
        Some(TokenKind::Colon)
    } else if b == 0x2b {
        Some(TokenKind::Plus)
    } else if b == 0x2d {
        Some(TokenKind::Minus)
    } else if b == 0x21 {
        Some(TokenKind::Bang)
    } else if b == 0x7e {
        Some(TokenKind::Tilde)
    } else if b == 0x2a {
        Some(TokenKind::Star)
    } else if b == 0x2f {
        Some(TokenKind::Slash)
    } else if b == 0x25 {
        Some(TokenKind::Percent)
    } else if b == 0x3c {
        Some(TokenKind::Less)
    } else if b == 0x3e {
        Some(TokenKind::Greater)
    } else if b == 0x26 {
        Some(TokenKind::Ampersand)
    } else if b == 0x5e {
        Some(TokenKind::Caret)
    } else if b == 0x7c {
        Some(TokenKind::Pipe)
    } else {
        None
    }
}

/// The token that the lexer finds at byte `p`, with the position just after
/// it; `End` (at the end of the input) is found again and again.
pub open spec fn next_token(s: Seq<u8>, p: int) -> Result<(Token, int), EvalFailure> {
    let q = skip_space(s, p);
    if q >= s.len() {
        Ok((Token { kind: TokenKind::End, offset: q as usize }, q))
    } else if is_digit(s[q]) {
        let e = word_end(s, q);
        match literal_value(s.subrange(q, e)) {
            Ok(v) => Ok((Token { kind: TokenKind::Integer(v), offset: q as usize }, e)),
            Err(m) => Err(failure(EvalErrorKind::Syntax, q, m)),
        }
    } else if is_alpha(s[q]) || s[q] == 0x5f {
        let e = word_end(s, q);
        Ok((Token { kind: TokenKind::Identifier(e as usize), offset: q as usize }, e))
    } else if two_byte_operator(s, q) is Some {
        Ok((Token { kind: two_byte_operator(s, q).unwrap(), offset: q as usize }, q + 2))
    } else if one_byte_operator(s[q]) is Some {
        Ok((Token { kind: one_byte_operator(s[q]).unwrap(), offset: q as usize }, q + 1))
    } else if s[q] == 0x22 || s[q] == 0x27 {
        Err(
            failure(
                EvalErrorKind::Unsupported,
                q,
                "string and character literals are not integer cfg expressions"@,
            ),
        )
    } else {
        Err(
            failure(
                EvalErrorKind::Syntax,
                q,
                "unexpected character `"@ + seq![s[q] as char] + "`"@,
            ),
        )
    }
}

/// The lexer never moves backwards, stays inside the input, and every token
/// but `End` takes up at least one byte.
pub proof fn lemma_next_token(s: Seq<u8>, p: int)
    requires
        0 <= p <= s.len() <= usize::MAX,
    ensures
        next_token(s, p) matches Ok((t, e)) ==> {
            &&& p <= t.offset <= e <= s.len()
            &&& (t.kind !is End ==> t.offset < e)
            &&& (t.kind is End ==> e == s.len())
            &&& (t.kind matches TokenKind::Identifier(end) ==> end == e && forall|i: int|
                t.offset <= i < e ==> is_word_byte(#[trigger] s[i]))
        },
{
    lemma_skip_space(s, p);
    let q = skip_space(s, p);
    if q < s.len() {
        lemma_word_end(s, q);
    }
}

struct Lexer<'a> {
    input: &'a [u8],
    position: usize,
}

/// Whether a lexer step agrees with [`next_token`].
pub open spec fn lexed(s: Seq<u8>, p: int, r: Result<Token, EvalError>, end: int) -> bool {
    match r {
        Ok(t) => next_token(s, p) == Ok::<(Token, int), EvalFailure>((t, end)),
        Err(e) => next_token(s, p) == Err::<(Token, int), EvalFailure>(e@),
    }
}

impl<'a> Lexer<'a> {
    fn new(input: &'a str) -> (l: Self)
        ensures
            l.input@ == input.spec_bytes(),
            l.position == 0,
    {
        Lexer { input: input.as_bytes(), position: 0 }
    }

    fn peek(&self) -> (b: Option<u8>)
        ensures
            self.position < self.input@.len() ==> b == Some(self.input@[self.position as int]),
            self.position >= self.input@.len() ==> b is None,
    {
        if self.position < self.input.len() {
            Some(self.input[self.position])
        } else {
            None
        }
    }

    fn skip_whitespace(&mut self)
        requires
            old(self).position <= old(self).input@.len(),
        ensures
            final(self).input == old(self).input,
            final(self).position == skip_space(old(self).input@, old(self).position as int),
    {
        proof {
            lemma_skip_space(self.input@, self.position as int);
        }
        let ghost start = self.position as int;
        while self.position < self.input.len() && is_space_byte(self.input[self.position])
            invariant
                self.input == old(self).input,
                start <= self.position <= self.input@.len(),
                skip_space(self.input@, start) == skip_space(self.input@, self.position as int),
            decreases self.input@.len() - self.position,
        {
            self.position += 1;
        }
    }

    /// Advances over the run of word bytes at the current position.
    fn skip_word(&mut self)
        requires
            old(self).position <= old(self).input@.len(),
        ensures
            final(self).input == old(self).input,
            final(self).position == word_end(old(self).input@, old(self).position as int),
    {
        let ghost start = self.position as int;
        while self.position < self.input.len() && is_word(self.input[self.position])
            invariant
                self.input == old(self).input,
                start <= self.position <= self.input@.len(),
                word_end(self.input@, start) == word_end(self.input@, self.position as int),
            decreases self.input@.len() - self.position,
        {
            self.position += 1;
        }
    }

    /// Whether the two bytes at the current position are `a` then `b`.
    fn starts_with(&self, a: u8, b: u8) -> (r: bool)
        ensures
            r == (self.position + 1 < self.input@.len() && self.input@[self.position as int] == a
                && self.input@[self.position + 1] == b),
    {
        self.position < self.input.len() && self.input.len() - self.position > 1
            && self.input[self.position] == a && self.input[self.position + 1] == b
    }

    fn next_token(&mut self) -> (r: Result<Token, EvalError>)
        requires
            old(self).position <= old(self).input@.len(),
        ensures
            final(self).input == old(self).input,
            final(self).position <= final(self).input@.len(),
            lexed(old(self).input@, old(self).position as int, r, final(self).position as int),
    {
        let ghost s = self.input@;
        let ghost p = self.position as int;
        let _len = self.input.len();
        self.skip_whitespace();
        proof {
            lemma_skip_space(s, p);
        }
        let offset = self.position;
        let byte = match self.peek() {
            Some(byte) => byte,
            None => {
                return Ok(Token { kind: TokenKind::End, offset });
            },
        };
        if is_digit_byte(byte) {
            return self.integer_token();
        }
        if is_alpha_byte(byte) || byte == 0x5f {
            self.skip_word();
            proof {
                lemma_word_end(s, offset as int);
            }
            return Ok(Token { kind: TokenKind::Identifier(self.position), offset });
        }
        let two = if self.starts_with(0x3c, 0x3c) {
            Some(TokenKind::ShiftLeft)
        } else if self.starts_with(0x3e, 0x3e) {
            Some(TokenKind::ShiftRight)
        } else if self.starts_with(0x3c, 0x3d) {
            Some(TokenKind::LessEqual)
        } else if self.starts_with(0x3e, 0x3d) {
            Some(TokenKind::GreaterEqual)
        } else if self.starts_with(0x3d, 0x3d) {
            Some(TokenKind::EqualEqual)
        } else if self.starts_with(0x21, 0x3d) {
            Some(TokenKind::NotEqual)
        } else if self.starts_with(0x26, 0x26) {
            Some(TokenKind::LogicalAnd)
        } else if self.starts_with(0x7c, 0x7c) {
            Some(TokenKind::LogicalOr)
        } else {
            None
        };
        if let Some(kind) = two {
            self.position += 2;
            return Ok(Token { kind, offset });
        }
        self.position += 1;
        let kind = if byte == 0x28 {
            TokenKind::LeftParen
        } else if byte == 0x29 {
            TokenKind::RightParen
        } else if byte == 0x3f {
            TokenKind::Question
        } else if byte == 0x3a {
            TokenKind::Colon
        } else if byte == 0x2b {
            TokenKind::Plus
        } else if byte == 0x2d {
            TokenKind::Minus
        } else if byte == 0x21 {
            TokenKind::Bang
        } else if byte == 0x7e {
            TokenKind::Tilde
        } else if byte == 0x2a {
            TokenKind::Star
        } else if byte == 0x2f {
            TokenKind::Slash
        } else if byte == 0x25 {
            TokenKind::Percent
        } else if byte == 0x3c {
            TokenKind::Less
        } else if byte == 0x3e {
            TokenKind::Greater
        } else if byte == 0x26 {
            TokenKind::Ampersand
        } else if byte == 0x5e {
            TokenKind::Caret
        } else if byte == 0x7c {
            TokenKind::Pipe
        } else if byte == 0x22 || byte == 0x27 {
            return Err(
                literal_error(
                    EvalErrorKind::Unsupported,
                    offset,
                    "string and character literals are not integer cfg expressions",
                ),
            );
        } else {
            let mut m = "unexpected character `".to_owned();
            m.append(char_to_string(byte as char).as_str());
            m.append("`");
            return Err(new_error(EvalErrorKind::Syntax, offset, m));
        };
        Ok(Token { kind, offset })
    }

    fn integer_token(&mut self) -> (r: Result<Token, EvalError>)
        requires
            old(self).position < old(self).input@.len(),
        ensures
            final(self).input == old(self).input,
            final(self).position <= final(self).input@.len(),
            ({
                let s = old(self).input@;
                let q = old(self).position as int;
                let e = word_end(s, q);
                match r {
                    Ok(t) => literal_value(s.subrange(q, e)) == Ok::<i128, Seq<char>>(
                        t.kind->Integer_0,
                    ) && t == Token { kind: TokenKind::Integer(t.kind->Integer_0), offset: q as usize }
                        && final(self).position == e,
                    Err(err) => literal_value(s.subrange(q, e)) matches Err(m) && err@ == failure(
                        EvalErrorKind::Syntax,
                        q,
                        m,
                    ),
                }
            }),
    {
        let offset = self.position;
        self.skip_word();
        proof {
            lemma_word_end(self.input@, offset as int);
        }
        let literal = &self.input[offset..self.position];
        proof {
            assert forall|i: int| 0 <= i < literal@.len() implies #[trigger] literal@[i] < 0x80 by {
                assert(literal@[i] == self.input@[offset + i]);
                assert(is_word_byte(self.input@[offset + i]));
            }
        }
        match parse_integer_literal(literal) {
            Ok(value) => Ok(Token { kind: TokenKind::Integer(value), offset }),
            Err(message) => Err(new_error(EvalErrorKind::Syntax, offset, message)),
        }
    }
}

pub(crate) fn is_space_byte(b: u8) -> (r: bool)
    ensures
        r == is_space(b),
{
    b == 0x20 || b == 0x09 || b == 0x0a || b == 0x0c || b == 0x0d
}

fn is_digit_byte(b: u8) -> (r: bool)
    ensures
        r == is_digit(b),
{
    0x30 <= b && b <= 0x39
}

fn is_alpha_byte(b: u8) -> (r: bool)
    ensures
        r == is_alpha(b),
{
    (0x41 <= b && b <= 0x5a) || (0x61 <= b && b <= 0x7a)
}

pub(crate) fn is_word(b: u8) -> (r: bool)
    ensures
        r == is_word_byte(b),
{
    is_alpha_byte(b) || is_digit_byte(b) || b == 0x5f
}

/* ---------------------------------------------------------------------------
 * Expression trees
 * ------------------------------------------------------------------------- */

#[derive(Debug, Clone, Copy, PartialEq, Eq, Structural)]
pub enum UnaryOperator {
    Plus,
    Minus,
    LogicalNot,
    BitwiseNot,
}

#[derive(Debug, Clone, Copy, PartialEq, Eq, Structural)]
pub enum BinaryOperator {
    Multiply,
    Divide,
    Remainder,
    Add,
    Subtract,
    ShiftLeft,
    ShiftRight,
    Less,
    LessEqual,
    Greater,
    GreaterEqual,
    Equal,
    NotEqual,
    BitwiseAnd,
    BitwiseXor,
    BitwiseOr,
    LogicalAnd,
    LogicalOr,
}

/// A parsed constant expression. An identifier is known by the byte range
/// of its name in the input.
#[derive(Debug)]
#[allow(inconsistent_fields)]
pub enum Expr {
    Integer(i128),
    Identifier { start: usize, end: usize },
    Unary { operator: UnaryOperator, operand: Box<Expr>, offset: usize },
    Binary { operator: BinaryOperator, left: Box<Expr>, right: Box<Expr>, offset: usize },
    Conditional { condition: Box<Expr>, if_true: Box<Expr>, if_false: Box<Expr> },
}

/// C's binding strength of a binary operator, loosest first.
pub open spec fn precedence(op: BinaryOperator) -> u8 {
    match op {
        BinaryOperator::LogicalOr => 1,
        BinaryOperator::LogicalAnd => 2,
        BinaryOperator::BitwiseOr => 3,
        BinaryOperator::BitwiseXor => 4,
        BinaryOperator::BitwiseAnd => 5,
        BinaryOperator::Equal | BinaryOperator::NotEqual => 6,
        BinaryOperator::Less | BinaryOperator::LessEqual | BinaryOperator::Greater
        | BinaryOperator::GreaterEqual => 7,
        BinaryOperator::ShiftLeft | BinaryOperator::ShiftRight => 8,
        BinaryOperator::Add | BinaryOperator::Subtract => 9,
        BinaryOperator::Multiply | BinaryOperator::Divide | BinaryOperator::Remainder => 10,
    }
}

pub open spec fn binary_operator_of(kind: TokenKind) -> Option<BinaryOperator> {
    match kind {
        TokenKind::Star => Some(BinaryOperator::Multiply),
        TokenKind::Slash => Some(BinaryOperator::Divide),
        TokenKind::Percent => Some(BinaryOperator::Remainder),
        TokenKind::Plus => Some(BinaryOperator::Add),
        TokenKind::Minus => Some(BinaryOperator::Subtract),
        TokenKind::ShiftLeft => Some(BinaryOperator::ShiftLeft),
        TokenKind::ShiftRight => Some(BinaryOperator::ShiftRight),
        TokenKind::Less => Some(BinaryOperator::Less),
        TokenKind::LessEqual => Some(BinaryOperator::LessEqual),
        TokenKind::Greater => Some(BinaryOperator::Greater),
        TokenKind::GreaterEqual => Some(BinaryOperator::GreaterEqual),
        TokenKind::EqualEqual => Some(BinaryOperator::Equal),
        TokenKind::NotEqual => Some(BinaryOperator::NotEqual),
        TokenKind::Ampersand => Some(BinaryOperator::BitwiseAnd),
        TokenKind::Caret => Some(BinaryOperator::BitwiseXor),
        TokenKind::Pipe => Some(BinaryOperator::BitwiseOr),
        TokenKind::LogicalAnd => Some(BinaryOperator::LogicalAnd),
        TokenKind::LogicalOr => Some(BinaryOperator::LogicalOr),
        _ => None,
    }
}

pub open spec fn unary_operator_of(kind: TokenKind) -> Option<UnaryOperator> {
    match kind {
        TokenKind::Plus => Some(UnaryOperator::Plus),
        TokenKind::Minus => Some(UnaryOperator::Minus),
        TokenKind::Bang => Some(UnaryOperator::LogicalNot),
        TokenKind::Tilde => Some(UnaryOperator::BitwiseNot),
        _ => None,
    }
}

fn binary_operator(token: TokenKind) -> (op: Option<BinaryOperator>)
    ensures
        op == binary_operator_of(token),
{
    match token {
        TokenKind::Star => Some(BinaryOperator::Multiply),
        TokenKind::Slash => Some(BinaryOperator::Divide),
        TokenKind::Percent => Some(BinaryOperator::Remainder),
        TokenKind::Plus => Some(BinaryOperator::Add),
        TokenKind::Minus => Some(BinaryOperator::Subtract),
        TokenKind::ShiftLeft => Some(BinaryOperator::ShiftLeft),
        TokenKind::ShiftRight => Some(BinaryOperator::ShiftRight),
        TokenKind::Less => Some(BinaryOperator::Less),
        TokenKind::LessEqual => Some(BinaryOperator::LessEqual),
        TokenKind::Greater => Some(BinaryOperator::Greater),
        TokenKind::GreaterEqual => Some(BinaryOperator::GreaterEqual),
        TokenKind::EqualEqual => Some(BinaryOperator::Equal),
        TokenKind::NotEqual => Some(BinaryOperator::NotEqual),
        TokenKind::Ampersand => Some(BinaryOperator::BitwiseAnd),
        TokenKind::Caret => Some(BinaryOperator::BitwiseXor),
        TokenKind::Pipe => Some(BinaryOperator::BitwiseOr),
        TokenKind::LogicalAnd => Some(BinaryOperator::LogicalAnd),
        TokenKind::LogicalOr => Some(BinaryOperator::LogicalOr),
        _ => None,
    }
}

impl BinaryOperator {
    fn precedence(self) -> (p: u8)
        ensures
            p == precedence(self),
    {
        match self {
            BinaryOperator::LogicalOr => 1,
            BinaryOperator::LogicalAnd => 2,
            BinaryOperator::BitwiseOr => 3,
            BinaryOperator::BitwiseXor => 4,
            BinaryOperator::BitwiseAnd => 5,
            BinaryOperator::Equal | BinaryOperator::NotEqual => 6,
            BinaryOperator::Less | BinaryOperator::LessEqual | BinaryOperator::Greater
            | BinaryOperator::GreaterEqual => 7,
            BinaryOperator::ShiftLeft | BinaryOperator::ShiftRight => 8,
            BinaryOperator::Add | BinaryOperator::Subtract => 9,
            BinaryOperator::Multiply | BinaryOperator::Divide | BinaryOperator::Remainder => 10,
        }
    }
}

/* ---------------------------------------------------------------------------
 * Parsing
 * ------------------------------------------------------------------------- */

/// Where the parser stands: the token it looks at and the lexer position
/// just after that token.
pub struct ParseState {
    pub current: Token,
    pub pos: int,
}

/// A well-founded measure on parser states: every step of the lexer past a
/// token other than `End` lowers it.
pub open spec fn measure(s: Seq<u8>, st: ParseState) -> int {
    2 * (s.len() - st.pos) + if st.current.kind is End {
        0int
    } else {
        1int
    }
}

pub open spec fn in_input(s: Seq<u8>, st: ParseState) -> bool {
    0 <= st.pos <= s.len() <= usize::MAX
}

/// `to` lies no earlier than `from`; parsing never moves backwards, so the
/// parse functions below never take their `stalled` branches.
pub open spec fn advances(s: Seq<u8>, from: ParseState, to: ParseState) -> bool {
    in_input(s, to) && measure(s, to) <= measure(s, from)
}

pub open spec fn stalled(st: ParseState) -> EvalFailure {
    failure(EvalErrorKind::Syntax, st.pos, seq![])
}

/// The state after moving past the current token.
pub open spec fn advance(s: Seq<u8>, st: ParseState) -> Result<ParseState, EvalFailure> {
    match next_token(s, st.pos) {
        Ok((t, e)) => Ok(ParseState { current: t, pos: e }),
        Err(f) => Err(f),
    }
}

pub proof fn lemma_advance(s: Seq<u8>, st: ParseState)
    requires
        in_input(s, st),
    ensures
        advance(s, st) matches Ok(next) ==> {
            &&& in_input(s, next)
            &&& next.pos >= st.pos
            &&& (st.current.kind !is End ==> measure(s, next) < measure(s, st))
        },
{
    lemma_next_token(s, st.pos);
}

/// `condition ? if_true : if_false`, or a binary expression.
pub open spec fn parse_conditional(s: Seq<u8>, st: ParseState) -> Result<
    (Expr, ParseState),
    EvalFailure,
>
    decreases measure(s, st), 4int,
    when in_input(s, st)
{
    match parse_binary(s, 1, st) {
        Err(f) => Err(f),
        Ok((condition, st1)) => {
            if st1.current.kind !is Question {
                Ok((condition, st1))
            } else if !advances(s, st, st1) {
                Err(stalled(st1))
            } else {
                proof {
                    lemma_advance(s, st1);
                }
                match advance(s, st1) {
                    Err(f) => Err(f),
                    Ok(st2) => match parse_conditional(s, st2) {
                        Err(f) => Err(f),
                        Ok((if_true, st3)) => {
                            if !advances(s, st2, st3) {
                                Err(stalled(st3))
                            } else if st3.current.kind !is Colon {
                                Err(
                                    failure(
                                        EvalErrorKind::Syntax,
                                        st3.current.offset as int,
                                        "expected `:` in conditional expression"@,
                                    ),
                                )
                            } else {
                                proof {
                                    lemma_advance(s, st3);
                                }
                                match advance(s, st3) {
                                    Err(f) => Err(f),
                                    Ok(st4) => match parse_conditional(s, st4) {
                                        Err(f) => Err(f),
                                        Ok((if_false, st5)) => Ok(
                                            (
                                                Expr::Conditional {
                                                    condition: Box::new(condition),
                                                    if_true: Box::new(if_true),
                                                    if_false: Box::new(if_false),
                                                },
                                                st5,
                                            ),
                                        ),
                                    },
                                }
                            }
                        },
                    },
                }
            }
        },
    }
}

/// A chain of binary operators binding at least as tightly as `min`.
pub open spec fn parse_binary(s: Seq<u8>, min: u8, st: ParseState) -> Result<
    (Expr, ParseState),
    EvalFailure,
>
    decreases measure(s, st), 3int,
    when in_input(s, st)
{
    match parse_unary(s, st) {
        Err(f) => Err(f),
        Ok((left, st1)) => {
            if !advances(s, st, st1) {
                Err(stalled(st1))
            } else {
                binary_tail(s, left, min, st1)
            }
        },
    }
}

/// Extends `left` with the operators that follow it, left to right.
pub open spec fn binary_tail(s: Seq<u8>, left: Expr, min: u8, st: ParseState) -> Result<
    (Expr, ParseState),
    EvalFailure,
>
    decreases measure(s, st), 2int,
    when in_input(s, st)
{
    match binary_operator_of(st.current.kind) {
        None => Ok((left, st)),
        Some(op) => {
            if precedence(op) < min {
                Ok((left, st))
            } else {
                proof {
                    lemma_advance(s, st);
                }
                match advance(s, st) {
                    Err(f) => Err(f),
                    Ok(st1) => match parse_binary(s, (precedence(op) + 1) as u8, st1) {
                        Err(f) => Err(f),
                        Ok((right, st2)) => {
                            if !advances(s, st1, st2) {
                                Err(stalled(st2))
                            } else {
                                binary_tail(
                                    s,
                                    Expr::Binary {
                                        operator: op,
                                        left: Box::new(left),
                                        right: Box::new(right),
                                        offset: st.current.offset,
                                    },
                                    min,
                                    st2,
                                )
                            }
                        },
                    },
                }
            }
        },
    }
}

/// Prefix operators applied to a primary expression.
pub open spec fn parse_unary(s: Seq<u8>, st: ParseState) -> Result<(Expr, ParseState), EvalFailure>
    decreases measure(s, st), 1int,
    when in_input(s, st)
{
    match unary_operator_of(st.current.kind) {
        Some(op) => {
            proof {
                lemma_advance(s, st);
            }
            match advance(s, st) {
                Err(f) => Err(f),
                Ok(st1) => match parse_unary(s, st1) {
                    Err(f) => Err(f),
                    Ok((operand, st2)) => Ok(
                        (
                            Expr::Unary {
                                operator: op,
                                operand: Box::new(operand),
                                offset: st.current.offset,
                            },
                            st2,
                        ),
                    ),
                },
            }
        },
        None => parse_primary(s, st),
    }
}

/// An integer, an identifier or a parenthesized expression.
pub open spec fn parse_primary(s: Seq<u8>, st: ParseState) -> Result<
    (Expr, ParseState),
    EvalFailure,
>
    decreases measure(s, st), 0int,
    when in_input(s, st)
{
    let offset = st.current.offset;
    match st.current.kind {
        TokenKind::Integer(v) => match advance(s, st) {
            Err(f) => Err(f),
            Ok(st1) => Ok((Expr::Integer(v), st1)),
        },
        TokenKind::Identifier(end) => match advance(s, st) {
            Err(f) => Err(f),
            Ok(st1) => {
                if st1.current.kind is LeftParen {
                    Err(
                        failure(
                            EvalErrorKind::Unsupported,
                            offset as int,
                            "function-like expression `"@ + ascii_chars(
                                s.subrange(offset as int, end as int),
                            ) + "(...)` is not an integer cfg expression"@,
                        ),
                    )
                } else {
                    Ok((Expr::Identifier { start: offset, end }, st1))
                }
            },
        },
        TokenKind::LeftParen => {
            proof {
                lemma_advance(s, st);
            }
            match advance(s, st) {
                Err(f) => Err(f),
                Ok(st1) => match parse_conditional(s, st1) {
                    Err(f) => Err(f),
                    Ok((inner, st2)) => {
                        if st2.current.kind is RightParen {
                            match advance(s, st2) {
                                Err(f) => Err(f),
                                Ok(st3) => Ok((inner, st3)),
                            }
                        } else {
                            Err(
                                failure(
                                    EvalErrorKind::Syntax,
                                    st2.current.offset as int,
                                    "expected `)`"@,
                                ),
                            )
                        }
                    },
                },
            }
        },
        TokenKind::End => Err(
            failure(EvalErrorKind::Syntax, offset as int, "expected an expression"@),
        ),
        _ => Err(
            failure(
                EvalErrorKind::Unsupported,
                offset as int,
                "unsupported token in integer constant expression"@,
            ),
        ),
    }
}

/// Every identifier of `e` names a run of word bytes of `s`.
pub open spec fn names_in(s: Seq<u8>, e: Expr) -> bool
    decreases e,
{
    match e {
        Expr::Integer(_) => true,
        Expr::Identifier { start, end } => start <= end <= s.len() && forall|i: int|
            start <= i < end ==> is_word_byte(#[trigger] s[i]),
        Expr::Unary { operand, .. } => names_in(s, *operand),
        Expr::Binary { left, right, .. } => names_in(s, *left) && names_in(s, *right),
        Expr::Conditional { condition, if_true, if_false } => names_in(s, *condition) && names_in(
            s,
            *if_true,
        ) && names_in(s, *if_false),
    }
}

/// Whether a parse step agrees with its specification.
pub open spec fn parsed(
    s: Seq<u8>,
    expected: Result<(Expr, ParseState), EvalFailure>,
    from: ParseState,
    r: Result<Expr, EvalError>,
    to: ParseState,
) -> bool {
    match r {
        Ok(e) => expected == Ok::<(Expr, ParseState), EvalFailure>((e, to)) && advances(s, from, to)
            && names_in(s, e),
        Err(err) => expected == Err::<(Expr, ParseState), EvalFailure>(err@),
    }
}

struct Parser<'a> {
    lexer: Lexer<'a>,
    current: Token,
}

impl<'a> Parser<'a> {
    spec fn text(&self) -> Seq<u8> {
        self.lexer.input@
    }

    spec fn state(&self) -> ParseState {
        ParseState { current: self.current, pos: self.lexer.position as int }
    }

    spec fn wf(&self) -> bool {
        &&& in_input(self.text(), self.state())
        &&& self.current.offset <= self.text().len()
        &&& (self.current.kind matches TokenKind::Identifier(end) ==> {
            &&& self.current.offset <= end == self.lexer.position
            &&& forall|i: int|
                self.current.offset <= i < end ==> is_word_byte(#[trigger] self.text()[i])
        })
    }

    fn new(input: &'a str) -> (r: Result<Self, EvalError>)
        ensures
            match r {
                Ok(p) => p.text() == input.spec_bytes() && p.wf() && next_token(
                    input.spec_bytes(),
                    0,
                ) == Ok::<(Token, int), EvalFailure>((p.current, p.lexer.position as int)),
                Err(e) => next_token(input.spec_bytes(), 0) == Err::<(Token, int), EvalFailure>(
                    e@,
                ),
            },
    {
        let mut lexer = Lexer::new(input);
        let _len = lexer.input.len();
        proof {
            lemma_next_token(lexer.input@, 0);
        }
        let current = lexer.next_token()?;
        Ok(Parser { lexer, current })
    }

    fn advance(&mut self) -> (r: Result<(), EvalError>)
        requires
            old(self).wf(),
        ensures
            final(self).text() == old(self).text(),
            match r {
                Ok(()) => advance(old(self).text(), old(self).state()) == Ok::<
                    ParseState,
                    EvalFailure,
                >(final(self).state()) && final(self).wf(),
                Err(e) => advance(old(self).text(), old(self).state()) == Err::<
                    ParseState,
                    EvalFailure,
                >(e@),
            },
    {
        proof {
            lemma_next_token(self.text(), self.lexer.position as int);
        }
        self.current = self.lexer.next_token()?;
        Ok(())
    }

    fn error(&self, kind: EvalErrorKind, message: &str) -> (e: EvalError)
        ensures
            e@ == failure(kind, self.current.offset as int, message@),
    {
        literal_error(kind, self.current.offset, message)
    }

    fn parse_conditional(&mut self) -> (r: Result<Expr, EvalError>)
        requires
            old(self).wf(),
        ensures
            final(self).text() == old(self).text(),
            r is Ok ==> final(self).wf(),
            parsed(
                old(self).text(),
                parse_conditional(old(self).text(), old(self).state()),
                old(self).state(),
                r,
                final(self).state(),
            ),
        decreases measure(old(self).text(), old(self).state()), 5int,
    {
        let ghost s = self.text();
        let ghost st = self.state();
        let condition = self.parse_binary(1)?;
        let ghost st1 = self.state();
        if !matches!(self.current.kind, TokenKind::Question) {
            return Ok(condition);
        }
        proof {
            lemma_advance(s, st1);
        }
        self.advance()?;
        let ghost st2 = self.state();
        let if_true = self.parse_conditional()?;
        let ghost st3 = self.state();
        if !matches!(self.current.kind, TokenKind::Colon) {
            return Err(self.error(EvalErrorKind::Syntax, "expected `:` in conditional expression"));
        }
        proof {
            lemma_advance(s, st3);
        }
        self.advance()?;
        let if_false = self.parse_conditional()?;
        Ok(
            Expr::Conditional {
                condition: Box::new(condition),
                if_true: Box::new(if_true),
                if_false: Box::new(if_false),
            },
        )
    }

    fn parse_binary(&mut self, minimum_precedence: u8) -> (r: Result<Expr, EvalError>)
        requires
            old(self).wf(),
            1 <= minimum_precedence <= 11,
        ensures
            final(self).text() == old(self).text(),
            r is Ok ==> final(self).wf(),
            parsed(
                old(self).text(),
                parse_binary(old(self).text(), minimum_precedence, old(self).state()),
                old(self).state(),
                r,
                final(self).state(),
            ),
        decreases measure(old(self).text(), old(self).state()), 4int,
    {
        let ghost s = self.text();
        let ghost st0 = self.state();
        let mut left = self.parse_unary()?;
        loop
            invariant
                s == old(self).text(),
                st0 == old(self).state(),
                self.text() == s,
                self.wf(),
                in_input(s, st0),
                advances(s, st0, self.state()),
                names_in(s, left),
                1 <= minimum_precedence <= 11,
                parse_binary(s, minimum_precedence, st0) == binary_tail(
                    s,
                    left,
                    minimum_precedence,
                    self.state(),
                ),
            decreases measure(s, self.state()),
        {
            let ghost st = self.state();
            let operator = match binary_operator(self.current.kind) {
                Some(operator) => operator,
                None => {
                    return Ok(left);
                },
            };
            let precedence = operator.precedence();
            if precedence < minimum_precedence {
                return Ok(left);
            }
            let offset = self.current.offset;
            proof {
                lemma_advance(s, st);
            }
            self.advance()?;
            let right = self.parse_binary(precedence + 1)?;
            left = Expr::Binary {
                operator,
                left: Box::new(left),
                right: Box::new(right),
                offset,
            };
        }
    }

    fn parse_unary(&mut self) -> (r: Result<Expr, EvalError>)
        requires
            old(self).wf(),
        ensures
            final(self).text() == old(self).text(),
            r is Ok ==> final(self).wf(),
            parsed(
                old(self).text(),
                parse_unary(old(self).text(), old(self).state()),
                old(self).state(),
                r,
                final(self).state(),
            ),
        decreases measure(old(self).text(), old(self).state()), 2int,
    {
        let ghost s = self.text();
        let ghost st = self.state();
        let operator = match self.current.kind {
            TokenKind::Plus => Some(UnaryOperator::Plus),
            TokenKind::Minus => Some(UnaryOperator::Minus),
            TokenKind::Bang => Some(UnaryOperator::LogicalNot),
            TokenKind::Tilde => Some(UnaryOperator::BitwiseNot),
            _ => None,
        };
        if let Some(operator) = operator {
            let offset = self.current.offset;
            proof {
                lemma_advance(s, st);
            }
            self.advance()?;
            let operand = self.parse_unary()?;
            return Ok(Expr::Unary { operator, operand: Box::new(operand), offset });
        }
        self.parse_primary()
    }

    fn parse_primary(&mut self) -> (r: Result<Expr, EvalError>)
        requires
            old(self).wf(),
        ensures
            final(self).text() == old(self).text(),
            r is Ok ==> final(self).wf(),
            parsed(
                old(self).text(),
                parse_primary(old(self).text(), old(self).state()),
                old(self).state(),
                r,
                final(self).state(),
            ),
        decreases measure(old(self).text(), old(self).state()), 1int,
    {
        proof {
            lemma_advance(self.text(), self.state());
        }
        match self.current.kind {
            TokenKind::Integer(value) => {
                self.advance()?;
                Ok(Expr::Integer(value))
            },
            TokenKind::Identifier(_) => self.parse_identifier(),
            TokenKind::LeftParen => self.parse_parenthesized(),
            TokenKind::End => Err(self.error(EvalErrorKind::Syntax, "expected an expression")),
            _ => Err(
                self.error(
                    EvalErrorKind::Unsupported,
                    "unsupported token in integer constant expression",
                ),
            ),
        }
    }

    /// An identifier, which must not be called like a function.
    fn parse_identifier(&mut self) -> (r: Result<Expr, EvalError>)
        requires
            old(self).wf(),
            old(self).current.kind is Identifier,
        ensures
            final(self).text() == old(self).text(),
            r is Ok ==> final(self).wf(),
            parsed(
                old(self).text(),
                parse_primary(old(self).text(), old(self).state()),
                old(self).state(),
                r,
                final(self).state(),
            ),
    {
        let ghost s = self.text();
        let ghost st = self.state();
        let token = self.current;
        let end = match token.kind {
            TokenKind::Identifier(end) => end,
            _ => 0,
        };
        assert(forall|i: int| token.offset <= i < end ==> is_word_byte(#[trigger] s[i]));
        proof {
            lemma_advance(s, st);
        }
        self.advance()?;
        if matches!(self.current.kind, TokenKind::LeftParen) {
            let mut m = "function-like expression `".to_owned();
            proof {
                assert forall|i: int|
                    0 <= i < s.subrange(token.offset as int, end as int).len() implies #[trigger] s.subrange(
                    token.offset as int,
                    end as int,
                )[i] < 0x80 by {
                    assert(is_word_byte(s[token.offset + i]));
                }
            }
            m.append(ascii_string(self.lexer.input, token.offset, end).as_str());
            m.append("(...)` is not an integer cfg expression");
            return Err(new_error(EvalErrorKind::Unsupported, token.offset, m));
        }
        Ok(Expr::Identifier { start: token.offset, end })
    }

    /// `( expression )`.
    fn parse_parenthesized(&mut self) -> (r: Result<Expr, EvalError>)
        requires
            old(self).wf(),
            old(self).current.kind is LeftParen,
        ensures
            final(self).text() == old(self).text(),
            r is Ok ==> final(self).wf(),
            parsed(
                old(self).text(),
                parse_primary(old(self).text(), old(self).state()),
                old(self).state(),
                r,
                final(self).state(),
            ),
        decreases measure(old(self).text(), old(self).state()), 0int,
    {
        let ghost s = self.text();
        let ghost st = self.state();
        proof {
            lemma_advance(s, st);
        }
        self.advance()?;
        let expression = self.parse_conditional()?;
        if !matches!(self.current.kind, TokenKind::RightParen) {
            return Err(self.error(EvalErrorKind::Syntax, "expected `)`"));
        }
        proof {
            lemma_advance(s, self.state());
        }
        self.advance()?;
        Ok(expression)
    }
}

/* ---------------------------------------------------------------------------
 * Evaluation
 * ------------------------------------------------------------------------- */

/// The bytes of `MICROPY_`.
pub open spec fn config_prefix() -> Seq<u8> {
    seq![0x4du8, 0x49, 0x43, 0x52, 0x4f, 0x50, 0x59, 0x5f]
}

/// MicroPython configuration names start with `MICROPY_`.
pub open spec fn is_config_identifier(name: Seq<u8>) -> bool {
    name.len() >= 8 && name.take(8) =~= config_prefix()
}

pub open spec fn truth(b: bool) -> i128 {
    if b {
        1
    } else {
        0
    }
}

pub open spec fn arithmetic(offset: int, message: Seq<char>) -> EvalFailure {
    failure(EvalErrorKind::Arithmetic, offset, message)
}

/// The value of `l op r` for the operators that evaluate both operands,
/// computed in `i128` and failing where C's result would not fit or would
/// be undefined.
pub open spec fn apply_binary(op: BinaryOperator, l: i128, r: i128, offset: int) -> Result<
    i128,
    EvalFailure,
> {
    match op {
        BinaryOperator::Multiply => match l.checked_mul(r) {
            Some(v) => Ok(v),
            None => Err(arithmetic(offset, "integer overflow in `*`"@)),
        },
        BinaryOperator::Divide => if r == 0 {
            Err(arithmetic(offset, "division by zero"@))
        } else {
            match l.checked_div(r) {
                Some(v) => Ok(v),
                None => Err(arithmetic(offset, "integer overflow in `/`"@)),
            }
        },
        BinaryOperator::Remainder => if r == 0 {
            Err(arithmetic(offset, "remainder by zero"@))
        } else {
            match l.checked_rem(r) {
                Some(v) => Ok(v),
                None => Err(arithmetic(offset, "integer overflow in `%`"@)),
            }
        },
        BinaryOperator::Add => match l.checked_add(r) {
            Some(v) => Ok(v),
            None => Err(arithmetic(offset, "integer overflow in `+`"@)),
        },
        BinaryOperator::Subtract => match l.checked_sub(r) {
            Some(v) => Ok(v),
            None => Err(arithmetic(offset, "integer overflow in `-`"@)),
        },
        BinaryOperator::ShiftLeft => if 0 <= r < 128 {
            Ok(l << (r as u32))
        } else {
            Err(arithmetic(offset, "invalid or overflowing left shift"@))
        },
        BinaryOperator::ShiftRight => if 0 <= r < 128 {
            Ok(l >> (r as u32))
        } else {
            Err(arithmetic(offset, "invalid right shift"@))
        },
        BinaryOperator::Less => Ok(truth(l < r)),
        BinaryOperator::LessEqual => Ok(truth(l <= r)),
        BinaryOperator::Greater => Ok(truth(l > r)),
        BinaryOperator::GreaterEqual => Ok(truth(l >= r)),
        BinaryOperator::Equal => Ok(truth(l == r)),
        BinaryOperator::NotEqual => Ok(truth(l != r)),
        BinaryOperator::BitwiseAnd => Ok(l & r),
        BinaryOperator::BitwiseXor => Ok(l ^ r),
        BinaryOperator::BitwiseOr => Ok(l | r),
        BinaryOperator::LogicalAnd => Ok(truth(l != 0 && r != 0)),
        BinaryOperator::LogicalOr => Ok(truth(l != 0 || r != 0)),
    }
}

/// The value of an expression: identifiers of configuration options that
/// are not defined count as 0, as in `#if`; `&&`, `||` and `?:` evaluate only
/// the operands that decide the result.
pub open spec fn eval(s: Seq<u8>, e: Expr) -> Result<i128, EvalFailure>
    decreases e,
{
    match e {
        Expr::Integer(v) => Ok(v),
        Expr::Identifier { start, end } => {
            let name = s.subrange(start as int, end as int);
            if is_config_identifier(name) {
                Ok(0)
            } else {
                Err(
                    failure(
                        EvalErrorKind::Unsupported,
                        start as int,
                        "unresolved non-configuration identifier `"@ + ascii_chars(name) + "`"@,
                    ),
                )
            }
        },
        Expr::Unary { operator, operand, offset } => match eval(s, *operand) {
            Err(f) => Err(f),
            Ok(v) => match operator {
                UnaryOperator::Plus => Ok(v),
                UnaryOperator::Minus => if v == i128::MIN {
                    Err(arithmetic(offset as int, "integer overflow in unary `-`"@))
                } else {
                    Ok((-v) as i128)
                },
                UnaryOperator::LogicalNot => Ok(truth(v == 0)),
                UnaryOperator::BitwiseNot => Ok(!v),
            },
        },
        Expr::Binary { operator, left, right, offset } => match eval(s, *left) {
            Err(f) => Err(f),
            Ok(l) => {
                if operator is LogicalAnd && l == 0 {
                    Ok(0)
                } else if operator is LogicalOr && l != 0 {
                    Ok(1)
                } else {
                    match eval(s, *right) {
                        Err(f) => Err(f),
                        Ok(r) => apply_binary(operator, l, r, offset as int),
                    }
                }
            },
        },
        Expr::Conditional { condition, if_true, if_false } => match eval(s, *condition) {
            Err(f) => Err(f),
            Ok(c) => if c != 0 {
                eval(s, *if_true)
            } else {
                eval(s, *if_false)
            },
        },
    }
}

/// Whether an operator's value is a truth value.
pub open spec fn gives_truth(op: BinaryOperator) -> bool {
    op is Less || op is LessEqual || op is Greater || op is GreaterEqual || op is Equal
        || op is NotEqual || op is LogicalAnd || op is LogicalOr
}

/// Laws of a binary operation: an error of the left operand is the
/// operation's; `&&` after a false left operand gives 0 and `||` after a
/// true one gives 1, whatever the right operand (even one that fails);
/// otherwise an error of the right operand is the operation's; division and
/// remainder by zero fail as arithmetic errors at the operator; comparisons
/// and logical operators give 0 or 1.
pub proof fn lemma_binary_laws(
    s: Seq<u8>,
    op: BinaryOperator,
    left: Expr,
    right: Expr,
    offset: usize,
)
    ensures
        ({
            let e = Expr::Binary { operator: op, left: Box::new(left), right: Box::new(right), offset };
            &&& eval(s, left) is Err ==> eval(s, e) == eval(s, left)
            &&& op is LogicalAnd && eval(s, left) == Ok::<i128, EvalFailure>(0) ==> eval(s, e) == Ok::<
                i128,
                EvalFailure,
            >(0)
            &&& op is LogicalOr && (eval(s, left) matches Ok(a) && a != 0) ==> eval(s, e) == Ok::<
                i128,
                EvalFailure,
            >(1)
            &&& (eval(s, left) matches Ok(a) && !(op is LogicalAnd && a == 0) && !(op is LogicalOr
                && a != 0)) && eval(s, right) is Err ==> eval(s, e) == eval(s, right)
            &&& (op is Divide || op is Remainder) && eval(s, left) is Ok && eval(s, right) == Ok::<
                i128,
                EvalFailure,
            >(0) ==> (eval(s, e) matches Err(f) && f.kind == EvalErrorKind::Arithmetic && f.offset
                == offset)
            &&& gives_truth(op) ==> (eval(s, e) matches Ok(v) ==> v == 0 || v == 1)
        }),
{
}

/// A conditional evaluates its condition, then only the branch it picks.
pub proof fn lemma_conditional_law(s: Seq<u8>, condition: Expr, if_true: Expr, if_false: Expr)
    ensures
        eval(
            s,
            Expr::Conditional {
                condition: Box::new(condition),
                if_true: Box::new(if_true),
                if_false: Box::new(if_false),
            },
        ) == match eval(s, condition) {
            Err(f) => Err(f),
            Ok(c) => if c == 0 {
                eval(s, if_false)
            } else {
                eval(s, if_true)
            },
        },
{
}

/// An identifier that names a configuration option counts as 0; any other
/// identifier is unsupported, reported at its start.
pub proof fn lemma_identifier_law(s: Seq<u8>, start: usize, end: usize)
    ensures
        is_config_identifier(s.subrange(start as int, end as int)) ==> eval(
            s,
            Expr::Identifier { start, end },
        ) == Ok::<i128, EvalFailure>(0),
        !is_config_identifier(s.subrange(start as int, end as int)) ==> (eval(
            s,
            Expr::Identifier { start, end },
        ) matches Err(f) && f.kind == EvalErrorKind::Unsupported && f.offset == start),
{
}

/// Negating the smallest integer overflows: an arithmetic error at the
/// operator.
pub proof fn lemma_negate_min_overflows(s: Seq<u8>, operand: Expr, offset: usize)
    requires
        eval(s, operand) == Ok::<i128, EvalFailure>(i128::MIN),
    ensures
        eval(
            s,
            Expr::Unary { operator: UnaryOperator::Minus, operand: Box::new(operand), offset },
        ) matches Err(f) && f.kind == EvalErrorKind::Arithmetic && f.offset == offset,
{
}

pub open spec fn size(e: Expr) -> nat
    decreases e,
{
    match e {
        Expr::Integer(_) => 1,
        Expr::Identifier { .. } => 1,
        Expr::Unary { operand, .. } => 1 + size(*operand),
        Expr::Binary { left, right, .. } => 1 + size(*left) + size(*right),
        Expr::Conditional { condition, if_true, if_false } => 1 + size(*condition) + size(
            *if_true,
        ) + size(*if_false),
    }
}

/// Whether an evaluation agrees with its specification.
pub open spec fn evaluated(expected: Result<i128, EvalFailure>, r: Result<i128, EvalError>) -> bool {
    match r {
        Ok(v) => expected == Ok::<i128, EvalFailure>(v),
        Err(e) => expected == Err::<i128, EvalFailure>(e@),
    }
}

impl Expr {
    fn evaluate(&self, input: &[u8]) -> (r: Result<i128, EvalError>)
        requires
            names_in(input@, *self),
        ensures
            evaluated(eval(input@, *self), r),
        decreases size(*self), 1int,
    {
        match self {
            Expr::Integer(value) => Ok(*value),
            Expr::Identifier { start, end } => {
                let (start, end) = (*start, *end);
                if end - start >= 8 && input[start] == 0x4d && input[start + 1] == 0x49
                    && input[start + 2] == 0x43 && input[start + 3] == 0x52 && input[start + 4]
                    == 0x4f && input[start + 5] == 0x50 && input[start + 6] == 0x59 && input[start
                    + 7] == 0x5f {
                    assert(input@.subrange(start as int, end as int).take(8) =~= config_prefix());
                    Ok(0)
                } else {
                    proof {
                        let name = input@.subrange(start as int, end as int);
                        if name.len() >= 8 && name.take(8) =~= config_prefix() {
                            assert(name.take(8)[0] == input@[start as int]);
                            assert(name.take(8)[1] == input@[start + 1]);
                            assert(name.take(8)[2] == input@[start + 2]);
                            assert(name.take(8)[3] == input@[start + 3]);
                            assert(name.take(8)[4] == input@[start + 4]);
                            assert(name.take(8)[5] == input@[start + 5]);
                            assert(name.take(8)[6] == input@[start + 6]);
                            assert(name.take(8)[7] == input@[start + 7]);
                        }
                        assert forall|i: int| 0 <= i < name.len() implies #[trigger] name[i]
                            < 0x80 by {
                            assert(is_word_byte(input@[start + i]));
                        }
                    }
                    let mut m = "unresolved non-configuration identifier `".to_owned();
                    m.append(ascii_string(input, start, end).as_str());
                    m.append("`");
                    Err(new_error(EvalErrorKind::Unsupported, start, m))
                }
            },
            Expr::Unary { operator, operand, offset } => {
                let value = operand.evaluate(input)?;
                match operator {
                    UnaryOperator::Plus => Ok(value),
                    UnaryOperator::Minus => if value == i128::MIN {
                        Err(arithmetic_error(*offset, "integer overflow in unary `-`"))
                    } else {
                        Ok(-value)
                    },
                    UnaryOperator::LogicalNot => Ok(if value == 0 {
                        1
                    } else {
                        0
                    }),
                    UnaryOperator::BitwiseNot => Ok(!value),
                }
            },
            Expr::Binary { operator, left, right, offset } => evaluate_binary(
                *operator,
                left,
                right,
                *offset,
                input,
            ),
            Expr::Conditional { condition, if_true, if_false } => {
                if condition.evaluate(input)? != 0 {
                    if_true.evaluate(input)
                } else {
                    if_false.evaluate(input)
                }
            },
        }
    }
}

fn evaluate_binary(
    operator: BinaryOperator,
    left: &Expr,
    right: &Expr,
    offset: usize,
    input: &[u8],
) -> (r: Result<i128, EvalError>)
    requires
        names_in(input@, *left),
        names_in(input@, *right),
    ensures
        evaluated(
            eval(
                input@,
                Expr::Binary { operator, left: Box::new(*left), right: Box::new(*right), offset },
            ),
            r,
        ),
    decreases 1 + size(*left) + size(*right), 0int,
{
    match operator {
        BinaryOperator::LogicalAnd => {
            let left = left.evaluate(input)?;
            Ok(if left != 0 && right.evaluate(input)? != 0 {
                1
            } else {
                0
            })
        },
        BinaryOperator::LogicalOr => {
            let left = left.evaluate(input)?;
            Ok(if left != 0 || right.evaluate(input)? != 0 {
                1
            } else {
                0
            })
        },
        _ => {
            let left = left.evaluate(input)?;
            let right = right.evaluate(input)?;
            apply(operator, left, right, offset)
        },
    }
}

/// The strict binary operators.
fn apply(operator: BinaryOperator, left: i128, right: i128, offset: usize) -> (r: Result<
    i128,
    EvalError,
>)
    ensures
        evaluated(apply_binary(operator, left, right, offset as int), r),
{
    match operator {
        BinaryOperator::Multiply => match left.checked_mul(right) {
            Some(v) => Ok(v),
            None => Err(arithmetic_error(offset, "integer overflow in `*`")),
        },
        BinaryOperator::Divide => if right == 0 {
            Err(arithmetic_error(offset, "division by zero"))
        } else {
            match left.checked_div(right) {
                Some(v) => Ok(v),
                None => Err(arithmetic_error(offset, "integer overflow in `/`")),
            }
        },
        BinaryOperator::Remainder => if right == 0 {
            Err(arithmetic_error(offset, "remainder by zero"))
        } else {
            match left.checked_rem(right) {
                Some(v) => Ok(v),
                None => Err(arithmetic_error(offset, "integer overflow in `%`")),
            }
        },
        BinaryOperator::Add => match left.checked_add(right) {
            Some(v) => Ok(v),
            None => Err(arithmetic_error(offset, "integer overflow in `+`")),
        },
        BinaryOperator::Subtract => match left.checked_sub(right) {
            Some(v) => Ok(v),
            None => Err(arithmetic_error(offset, "integer overflow in `-`")),
        },
        BinaryOperator::ShiftLeft => match checked_shift(right) {
            Some(shift) => Ok(left.wrapping_shl(shift)),
            None => Err(arithmetic_error(offset, "invalid or overflowing left shift")),
        },
        BinaryOperator::ShiftRight => match checked_shift(right) {
            Some(shift) => Ok(left.wrapping_shr(shift)),
            None => Err(arithmetic_error(offset, "invalid right shift")),
        },
        BinaryOperator::Less => Ok(if left < right { 1 } else { 0 }),
        BinaryOperator::LessEqual => Ok(if left <= right { 1 } else { 0 }),
        BinaryOperator::Greater => Ok(if left > right { 1 } else { 0 }),
        BinaryOperator::GreaterEqual => Ok(if left >= right { 1 } else { 0 }),
        BinaryOperator::Equal => Ok(if left == right { 1 } else { 0 }),
        BinaryOperator::NotEqual => Ok(if left != right { 1 } else { 0 }),
        BinaryOperator::BitwiseAnd => Ok(left & right),
        BinaryOperator::BitwiseXor => Ok(left ^ right),
        BinaryOperator::BitwiseOr => Ok(left | right),
        BinaryOperator::LogicalAnd => Ok(if left != 0 && right != 0 { 1 } else { 0 }),
        BinaryOperator::LogicalOr => Ok(if left != 0 || right != 0 { 1 } else { 0 }),
    }
}

/// A shift amount is valid when it lies in `0..128`.
fn checked_shift(value: i128) -> (shift: Option<u32>)
    ensures
        shift matches Some(n) ==> 0 <= value < 128 && n == value,
        shift is None ==> !(0 <= value < 128),
{
    if 0 <= value && value < 128 {
        Some(value as u32)
    } else {
        None
    }
}

fn arithmetic_error(offset: usize, message: &str) -> (e: EvalError)
    ensures
        e@ == arithmetic(offset as int, message@),
{
    literal_error(EvalErrorKind::Arithmetic, offset, message)
}

/// The outcome of evaluating an expression: parse one conditional
/// expression, require that nothing follows it, and evaluate it.
pub open spec fn evaluate_expression(s: Seq<u8>) -> Result<i128, EvalFailure> {
    match next_token(s, 0) {
        Err(f) => Err(f),
        Ok((t, e)) => match parse_conditional(s, ParseState { current: t, pos: e }) {
            Err(f) => Err(f),
            Ok((expr, st)) => {
                if st.current.kind !is End {
                    Err(
                        failure(
                            EvalErrorKind::Syntax,
                            st.current.offset as int,
                            "unexpected token after constant expression"@,
                        ),
                    )
                } else {
                    eval(s, expr)
                }
            },
        },
    }
}

/// Evaluates the integer subset of C preprocessor constant expressions.
///
/// Undefined `MICROPY_*` identifiers evaluate to zero, matching their behavior
/// in a preprocessor `#if`. Other unresolved identifiers are rejected so type,
/// pointer, and runtime-valued macros are not mistaken for integer cfg values.
pub fn evaluate_integer_expression(expression: &str) -> (r: Result<i128, EvalError>)
    ensures
        evaluated(evaluate_expression(expression.spec_bytes()), r),
{
    let mut parser = Parser::new(expression)?;
    let expression = parser.parse_conditional()?;
    if !matches!(parser.current.kind, TokenKind::End) {
        return Err(
            parser.error(EvalErrorKind::Syntax, "unexpected token after constant expression"),
        );
    }
    expression.evaluate(parser.lexer.input)
}

/* ---------------------------------------------------------------------------
 * Configuration values
 * ------------------------------------------------------------------------- */

/// What a configuration value evaluates to.
#[derive(Debug, Clone, PartialEq, Eq, Structural)]
pub enum EvaluatedValue {
    Integer(i128),
    EmptyDefinition,
}

/// A configuration value as defined, with what it evaluates to.
#[derive(Debug, PartialEq, Eq)]
pub struct ConfigValue {
    pub raw: String,
    pub evaluated: Result<EvaluatedValue, EvalError>,
}

/// The mathematical content of a [`ConfigValue`].
pub struct ConfigValueView {
    pub raw: Seq<char>,
    pub evaluated: Result<EvaluatedValue, EvalFailure>,
}

impl View for ConfigValue {
    type V = ConfigValueView;

    open spec fn view(&self) -> ConfigValueView {
        ConfigValueView {
            raw: self.raw@,
            evaluated: match self.evaluated {
                Ok(v) => Ok(v),
                Err(e) => Err(e@),
            },
        }
    }
}

/// The value a raw definition evaluates to: an empty definition stays
/// empty, anything else must be an integer constant expression.
pub open spec fn evaluate_raw(raw: Seq<char>) -> Result<EvaluatedValue, EvalFailure> {
    if raw.len() == 0 {
        Ok(EvaluatedValue::EmptyDefinition)
    } else {
        match evaluate_expression(encode_utf8(raw)) {
            Ok(v) => Ok(EvaluatedValue::Integer(v)),
            Err(f) => Err(f),
        }
    }
}

/// The integer a value evaluated to, if it did.
pub open spec fn integer_of(v: ConfigValueView) -> Option<i128> {
    match v.evaluated {
        Ok(EvaluatedValue::Integer(n)) => Some(n),
        _ => None,
    }
}

impl Clone for ConfigValue {
    fn clone(&self) -> (c: Self) {
        let evaluated = match &self.evaluated {
            Ok(value) => Ok(value.clone()),
            Err(error) => Err(error.clone()),
        };
        ConfigValue { raw: self.raw.clone(), evaluated }
    }
}

impl ConfigValue {
    pub fn integer(&self) -> (r: Option<i128>)
        ensures
            r == integer_of(self@),
    {
        match &self.evaluated {
            Ok(EvaluatedValue::Integer(value)) => Some(*value),
            _ => None,
        }
    }

    pub fn is_empty_definition(&self) -> (b: bool)
        ensures
            b == (self@.evaluated matches Ok(EvaluatedValue::EmptyDefinition)),
    {
        matches!(&self.evaluated, Ok(EvaluatedValue::EmptyDefinition))
    }
}

/// Evaluates every raw configuration value while retaining values that are not
/// integer constant expressions.
pub fn evaluate_config(raw_config: ConfigMap<String>) -> (config: ConfigMap<ConfigValue>)
    ensures
        config@.len() == raw_config@.len(),
        forall|i: int|
            0 <= i < config@.len() ==> #[trigger] config@[i] == (
                raw_config@[i].0,
                ConfigValueView { raw: raw_config@[i].1, evaluated: evaluate_raw(raw_config@[i].1) },
            ),
{
    let ghost names = raw_config@;
    let entries = raw_config.into_entries();
    let mut config: ConfigMap<ConfigValue> = ConfigMap::new();
    let mut i: usize = 0;
    while i < entries.len()
        invariant
            distinct_names(names),
            sorted_names(names),
            entries@.map_values(|e: (String, String)| (e.0@, e.1@)) == names,
            0 <= i <= entries@.len(),
            config@.len() == i,
            forall|j: int|
                0 <= j < i ==> #[trigger] config@[j] == (
                    names[j].0,
                    ConfigValueView { raw: names[j].1, evaluated: evaluate_raw(names[j].1) },
                ),
        decreases entries@.len() - i,
    {
        let name = entries[i].0.clone();
        let raw = entries[i].1.clone();
        assert(names[i as int] == (entries@[i as int].0@, entries@[i as int].1@));
        let evaluated = if raw.as_str().is_empty() {
            Ok(EvaluatedValue::EmptyDefinition)
        } else {
            match evaluate_integer_expression(raw.as_str()) {
                Ok(v) => Ok(EvaluatedValue::Integer(v)),
                Err(e) => Err(e),
            }
        };
        proof {
            assert forall|j: int| 0 <= j < config@.len() implies #[trigger] config@[j].0
                != name@ by {
                assert(config@[j].0 == names[j].0);
                assert(names[j].0 != names[i as int].0);
            }
            if index_of(config@, name@) is Some {
                let k = index_of(config@, name@).unwrap();
                assert(config@[k].0 != name@);
            }
            assert(sorted_names(config@)) by {
                assert forall|a: int, b: int| 0 <= a < b < config@.len() implies name_lt(
                    #[trigger] config@[a].0,
                    #[trigger] config@[b].0,
                ) by {
                    assert(config@[a].0 == names[a].0 && config@[b].0 == names[b].0);
                }
            }
            lemma_insert_position(config@, name@);
            let q = insert_position(config@, name@);
            if q < i {
                assert(name_lt(name@, config@[q].0));
                assert(name_lt(names[q].0, names[i as int].0));
                assert(config@[q].0 == names[q].0);
                lemma_string_le(name@, names[q].0, name@);
            }
        }
        config.insert(name, ConfigValue { raw, evaluated });
        i += 1;
    }
    config
}

} // verus!

//! Reading the `mp_rs_config` table out of the preprocessed `tail.c`.
//!
//! The preprocessor leaves an array initializer of the form
//! `mp_rs_config[] = { { "NAME", "VALUE" }, ... };` somewhere in its output.
//! The functions below describe, on the UTF-8 bytes of that output, where the
//! array starts, how C comments and string literals are read, and which
//! entries come out of it or which failure stops the scan.

use vstd::prelude::*;
use vstd::string::{StrSliceExecFns, StringSliceAdditionalSpecFns};
use vstd::utf8::*;

use crate::config_map::{
    ConfigMap, bytes_equal, distinct_names, index_of, inserted, lemma_insert_then_lookup,
    lemma_sorted_distinct, names_of, sorted_names,
};
use crate::text::{char_to_string, escape_debug_string, escaped_debug, string_from_utf8};
use crate::expression::{
    config_prefix, digit_of, digit_value, digits_value, is_digit_in, is_space, is_space_byte, is_word,
    is_word_byte,
};

verus! {

/* ---------------------------------------------------------------------------
 * Failures
 * ------------------------------------------------------------------------- */

/// Where the scan stopped and why.
pub struct ScanFailure {
    pub offset: int,
    pub message: Seq<char>,
}

pub open spec fn fail(offset: int, message: Seq<char>) -> ScanFailure {
    ScanFailure { offset, message }
}

/// Whether byte `p` of `b` exists and is `c`.
pub open spec fn at(b: Seq<u8>, p: int, c: u8) -> bool {
    0 <= p < b.len() && b[p] == c
}

/* ---------------------------------------------------------------------------
 * Whitespace and comments
 * ------------------------------------------------------------------------- */

/// The position after the whitespace and comments that start at `p`.
pub open spec fn trivia_end(b: Seq<u8>, p: int) -> Result<int, ScanFailure>
    decreases b.len() - p,
{
    if 0 <= p < b.len() && is_space(b[p]) {
        trivia_end(b, p + 1)
    } else if at(b, p, 0x2f) && at(b, p + 1, 0x2f) {
        line_comment(b, p + 2)
    } else if at(b, p, 0x2f) && at(b, p + 1, 0x2a) {
        block_comment(b, p + 2, p + 2)
    } else {
        Ok(p)
    }
}

/// Inside a `//` comment, which runs up to and including the next line feed.
pub open spec fn line_comment(b: Seq<u8>, p: int) -> Result<int, ScanFailure>
    decreases b.len() - p,
{
    if p < 0 || p >= b.len() {
        Ok(p)
    } else if b[p] == 0x0a {
        trivia_end(b, p + 1)
    } else {
        line_comment(b, p + 1)
    }
}

/// Inside a `/* */` comment opened just before `open`.
pub open spec fn block_comment(b: Seq<u8>, p: int, open: int) -> Result<int, ScanFailure>
    decreases b.len() - p,
{
    if p < 0 || p + 1 >= b.len() {
        Err(fail(open, "unterminated block comment"@))
    } else if b[p] == 0x2a && b[p + 1] == 0x2f {
        trivia_end(b, p + 2)
    } else {
        block_comment(b, p + 1, open)
    }
}

/// Skips trivia, then expects the byte `c`; the position after it.
pub open spec fn after(b: Seq<u8>, p: int, c: u8, message: Seq<char>) -> Result<int, ScanFailure> {
    match trivia_end(b, p) {
        Err(f) => Err(f),
        Ok(q) => if at(b, q, c) {
            Ok(q + 1)
        } else {
            Err(fail(q, message))
        },
    }
}

pub open spec fn then_after(r: Result<int, ScanFailure>, b: Seq<u8>, c: u8, message: Seq<char>) -> Result<
    int,
    ScanFailure,
> {
    match r {
        Err(f) => Err(f),
        Ok(p) => after(b, p, c, message),
    }
}

/* ---------------------------------------------------------------------------
 * The array
 * ------------------------------------------------------------------------- */

/// `mp_rs_config`
pub open spec fn array_name() -> Seq<u8> {
    seq![0x6du8, 0x70, 0x5f, 0x72, 0x73, 0x5f, 0x63, 0x6f, 0x6e, 0x66, 0x69, 0x67]
}

/// The `n` bytes at `i` are not part of a longer identifier.
pub open spec fn standalone(b: Seq<u8>, i: int, n: int) -> bool {
    (i == 0 || !is_word_byte(b[i - 1])) && (i + n >= b.len() || !is_word_byte(b[i + n]))
}

/// The first standalone occurrence of the array name at or after `i`. An
/// occurrence inside a longer identifier is skipped as a whole.
pub open spec fn find_array_name(b: Seq<u8>, i: int) -> Option<int>
    decreases b.len() - i,
{
    if i < 0 || i + 12 > b.len() {
        None
    } else if b.subrange(i, i + 12) == array_name() {
        if standalone(b, i, 12) {
            Some(i)
        } else {
            find_array_name(b, i + 12)
        }
    } else {
        find_array_name(b, i + 1)
    }
}

/// The position just after the `{` that opens the initializer.
pub open spec fn array_body_start(b: Seq<u8>) -> Result<int, ScanFailure> {
    match find_array_name(b, 0) {
        None => Err(fail(b.len() as int, "`mp_rs_config` array not found"@)),
        Some(i) => then_after(
            then_after(
                then_after(
                    after(b, i + 12, 0x5b, "expected `[` after `mp_rs_config`"@),
                    b,
                    0x5d,
                    "expected `]` in `mp_rs_config` declaration"@,
                ),
                b,
                0x3d,
                "expected `=` before `mp_rs_config` initializer"@,
            ),
            b,
            0x7b,
            "expected `{` to start `mp_rs_config` initializer"@,
        ),
    }
}

/* ---------------------------------------------------------------------------
 * String literals
 * ------------------------------------------------------------------------- */

/// The byte that a one-character escape such as `\n` stands for.
pub open spec fn simple_escape(e: u8) -> Option<u8> {
    if e == 0x27 || e == 0x22 || e == 0x3f || e == 0x5c {
        Some(e)
    } else if e == 0x61 {
        Some(0x07)
    } else if e == 0x62 {
        Some(0x08)
    } else if e == 0x66 {
        Some(0x0c)
    } else if e == 0x6e {
        Some(0x0a)
    } else if e == 0x72 {
        Some(0x0d)
    } else if e == 0x74 {
        Some(0x09)
    } else if e == 0x76 {
        Some(0x0b)
    } else {
        None
    }
}

pub open spec fn is_octal(c: u8) -> bool {
    0x30 <= c <= 0x37
}

pub open spec fn is_hex(c: u8) -> bool {
    is_digit_in(c, 16)
}

/// An octal escape takes at most two more digits after its first.
pub open spec fn octal_end(b: Seq<u8>, q: int) -> int {
    if 0 <= q < b.len() && is_octal(b[q]) {
        if q + 1 < b.len() && is_octal(b[q + 1]) {
            q + 2
        } else {
            q + 1
        }
    } else {
        q
    }
}

/// The end of the run of hexadecimal digits that starts at `p`.
pub open spec fn hex_end(b: Seq<u8>, p: int) -> int
    decreases b.len() - p,
{
    if 0 <= p < b.len() && is_hex(b[p]) {
        hex_end(b, p + 1)
    } else {
        p
    }
}

pub proof fn lemma_hex_end(b: Seq<u8>, p: int)
    requires
        0 <= p <= b.len(),
    ensures
        p <= hex_end(b, p) <= b.len(),
        forall|i: int| p <= i < hex_end(b, p) ==> #[trigger] is_hex(b[i]),
        hex_end(b, p) < b.len() ==> !is_hex(b[hex_end(b, p)]),
    decreases b.len() - p,
{
    if p < b.len() && is_hex(b[p]) {
        lemma_hex_end(b, p + 1);
    }
}

pub open spec fn unsupported_escape(e: u8) -> Seq<char> {
    "unsupported escape sequence `\\"@ + seq![e as char] + "`"@
}

/// Reads the body of a string literal from `p` on, `acc` holding the bytes
/// read so far; the bytes and the position after the closing quote.
pub open spec fn literal_body(b: Seq<u8>, p: int, acc: Seq<u8>) -> Result<
    (Seq<u8>, int),
    ScanFailure,
>
    decreases b.len() - p, 0int,
{
    if p < 0 || p >= b.len() {
        Err(fail(p, "unterminated C string literal"@))
    } else if b[p] == 0x22 {
        Ok((acc, p + 1))
    } else if b[p] == 0x5c {
        escape(b, p + 1, acc)
    } else if b[p] == 0x0a || b[p] == 0x0d {
        Err(fail(p + 1, "unescaped newline in C string literal"@))
    } else {
        literal_body(b, p + 1, acc.push(b[p]))
    }
}

/// Reads the escape whose character (the one after the backslash) is at `p`,
/// then the rest of the literal.
pub open spec fn escape(b: Seq<u8>, p: int, acc: Seq<u8>) -> Result<(Seq<u8>, int), ScanFailure>
    decreases b.len() - p, 0int,
{
    if p < 0 || p >= b.len() {
        Err(fail(p, "unterminated escape sequence"@))
    } else {
        let e = b[p];
        let q = p + 1;
        match simple_escape(e) {
            Some(v) => literal_body(b, q, acc.push(v)),
            None => if e == 0x0a {
                literal_body(b, q, acc)
            } else if e == 0x0d {
                if at(b, q, 0x0a) {
                    literal_body(b, q + 1, acc)
                } else {
                    literal_body(b, q, acc)
                }
            } else if is_octal(e) {
                let end = octal_end(b, q);
                let n = digits_value(b.subrange(p, end), 8);
                if n > 255 {
                    Err(fail(end, "byte escape is outside the range 0..=255"@))
                } else {
                    literal_body(b, end, acc.push(n as u8))
                }
            } else if e == 0x78 {
                hex_escape(b, q, q, 0, acc)
            } else if e == 0x75 {
                unicode_escape(b, q, 4, acc)
            } else if e == 0x55 {
                unicode_escape(b, q, 8, acc)
            } else {
                Err(fail(q, unsupported_escape(e)))
            },
        }
    }
}

/// Reads the digits of a `\x` escape that starts at `start`; `n` is the value
/// of the digits before `p`.
pub open spec fn hex_escape(b: Seq<u8>, start: int, p: int, n: int, acc: Seq<u8>) -> Result<
    (Seq<u8>, int),
    ScanFailure,
>
    decreases b.len() - p, 1int,
{
    if 0 <= p < b.len() && is_hex(b[p]) {
        let m = n * 16 + digit_of(b[p]).unwrap();
        if m > u32::MAX {
            Err(fail(p + 1, "hexadecimal escape is too large"@))
        } else {
            hex_escape(b, start, p + 1, m, acc)
        }
    } else if p == start {
        Err(fail(p, "hexadecimal escape has no digits"@))
    } else if n > 255 {
        Err(fail(p, "byte escape is outside the range 0..=255"@))
    } else {
        literal_body(b, p, acc.push(n as u8))
    }
}

/// Reads a `\u` or `\U` escape of `count` digits that start at `q`.
pub open spec fn unicode_escape(b: Seq<u8>, q: int, count: int, acc: Seq<u8>) -> Result<
    (Seq<u8>, int),
    ScanFailure,
>
    decreases b.len() - q, 0int,
{
    if q < 0 || q > b.len() || count <= 0 {
        Err(fail(q, "incomplete Unicode escape"@))
    } else {
        proof {
            lemma_hex_end(b, q);
        }
        let h = hex_end(b, q);
        if h < q + count {
            if h < b.len() {
                Err(fail(h + 1, "non-hexadecimal digit in Unicode escape"@))
            } else {
                Err(fail(h, "incomplete Unicode escape"@))
            }
        } else {
            let n = digits_value(b.subrange(q, q + count), 16);
            if is_scalar(n as u32) {
                literal_body(b, q + count, acc + encode_scalar(n as u32))
            } else {
                Err(fail(q + count, "invalid Unicode scalar value in escape"@))
            }
        }
    }
}

/// The raw bytes of the string literal at `p` and the position after it.
pub open spec fn quoted(b: Seq<u8>, p: int) -> Result<(Seq<u8>, int), ScanFailure> {
    if !at(b, p, 0x22) {
        Err(fail(p, "expected a C string literal"@))
    } else {
        match literal_body(b, p + 1, seq![]) {
            Err(f) => Err(f),
            Ok((v, q)) => if valid_utf8(v) {
                Ok((v, q))
            } else {
                Err(fail(q, "C string literal is not valid UTF-8"@))
            },
        }
    }
}

/* ---------------------------------------------------------------------------
 * Entries
 * ------------------------------------------------------------------------- */

/// `MP_INT_TYPE`
pub open spec fn mp_int_type() -> Seq<u8> {
    seq![0x4du8, 0x50, 0x5f, 0x49, 0x4e, 0x54, 0x5f, 0x54, 0x59, 0x50, 0x45]
}

pub open spec fn all_word_bytes(s: Seq<u8>) -> bool {
    forall|i: int| 0 <= i < s.len() ==> #[trigger] is_word_byte(s[i])
}

/// A configuration name is `MP_INT_TYPE`, or `MICROPY_` or `MP_INT_TYPE_`
/// followed by a non-empty run of identifier bytes.
pub open spec fn is_config_name(name: Seq<u8>) -> bool {
    ||| name == mp_int_type()
    ||| name.len() > 8 && name.take(8) == config_prefix() && all_word_bytes(name.skip(8))
    ||| name.len() > 12 && name.take(12) == mp_int_type().push(0x5f) && all_word_bytes(
        name.skip(12),
    )
}

pub open spec fn invalid_name(name: Seq<char>) -> Seq<char> {
    "invalid configuration name `"@ + name + "`"@
}

pub open spec fn duplicate_entry(name: Seq<char>) -> Seq<char> {
    "duplicate configuration entry `"@ + name + "`"@
}

/// One `{ "NAME", "VALUE" },` entry after its opening brace: the raw bytes
/// of the name and of the value, and the position after the final comma.
pub open spec fn entry(b: Seq<u8>, p: int) -> Result<(Seq<u8>, Seq<u8>, int), ScanFailure> {
    match trivia_end(b, p) {
        Err(f) => Err(f),
        Ok(q) => match quoted(b, q) {
            Err(f) => Err(f),
            Ok((name, r)) => if !is_config_name(name) {
                Err(fail(r, invalid_name(decode_utf8(name))))
            } else {
                match after(b, r, 0x2c, "expected `,` between config name and value"@) {
                    Err(f) => Err(f),
                    Ok(s) => match trivia_end(b, s) {
                        Err(f) => Err(f),
                        Ok(t) => match quoted(b, t) {
                            Err(f) => Err(f),
                            Ok((value, u)) => match then_after(
                                after(b, u, 0x7d, "expected `}` after config entry"@),
                                b,
                                0x2c,
                                "expected `,` after config entry"@,
                            ) {
                                Err(f) => Err(f),
                                Ok(x) => Ok((name, value, x)),
                            },
                        },
                    },
                }
            },
        },
    }
}

/// The entries from `p` on, `acc` holding those read so far, up to the
/// closing `};` of the initializer.
pub open spec fn entries(b: Seq<u8>, p: int, acc: Seq<(Seq<char>, Seq<char>)>) -> Result<
    Seq<(Seq<char>, Seq<char>)>,
    ScanFailure,
>
    decreases b.len() - p,
{
    match trivia_end(b, p) {
        Err(f) => Err(f),
        Ok(q) => if at(b, q, 0x7d) {
            match after(b, q + 1, 0x3b, "expected `;` after `mp_rs_config` initializer"@) {
                Err(f) => Err(f),
                Ok(_) => Ok(acc),
            }
        } else if !at(b, q, 0x7b) {
            Err(fail(q, "expected `{` to start a config entry"@))
        } else {
            match entry(b, q + 1) {
                Err(f) => Err(f),
                Ok((name, value, r)) => {
                    let key = decode_utf8(name);
                    if index_of(acc, key) is Some {
                        Err(fail(r, duplicate_entry(key)))
                    } else {
                        proof {
                            if 0 <= p <= b.len() {
                                lemma_trivia(b, p);
                            }
                            lemma_entry(b, q + 1);
                        }
                        entries(b, r, inserted(acc, key, decode_utf8(value)))
                    }
                },
            }
        },
    }
}

/// The entries of the `mp_rs_config` initializer in `b`, in the order of
/// their names,
/// or the failure that stops the scan.
pub open spec fn parsed_tail(b: Seq<u8>) -> Result<Seq<(Seq<char>, Seq<char>)>, ScanFailure> {
    match array_body_start(b) {
        Err(f) => Err(f),
        Ok(p) => entries(b, p, seq![]),
    }
}

/* ---------------------------------------------------------------------------
 * Every successful step moves forward
 * ------------------------------------------------------------------------- */

pub open spec fn ok_within(r: Result<int, ScanFailure>, lo: int, hi: int) -> bool {
    r matches Ok(q) ==> lo <= q <= hi
}

pub proof fn lemma_trivia(b: Seq<u8>, p: int)
    requires
        0 <= p <= b.len(),
    ensures
        ok_within(trivia_end(b, p), p, b.len() as int),
        ok_within(line_comment(b, p), p, b.len() as int),
        forall|open: int| ok_within(#[trigger] block_comment(b, p, open), p + 1, b.len() as int),
    decreases b.len() - p,
{
    if p < b.len() {
        lemma_trivia(b, p + 1);
    }
    if p + 1 < b.len() {
        lemma_trivia(b, p + 2);
    }
    assert(ok_within(line_comment(b, p), p, b.len() as int));
    assert(ok_within(trivia_end(b, p), p, b.len() as int)) by {
        if p + 1 < b.len() {
            assert(ok_within(block_comment(b, p + 2, p + 2), p + 3, b.len() as int));
        }
    }
    assert forall|open: int| ok_within(#[trigger] block_comment(b, p, open), p + 1, b.len() as int) by {
        if p + 1 < b.len() {
            assert(ok_within(block_comment(b, p + 1, open), p + 2, b.len() as int));
        }
    }
}

pub open spec fn ends_within(r: Result<(Seq<u8>, int), ScanFailure>, p: int, len: int) -> bool {
    r matches Ok((_, q)) ==> p < q <= len
}

pub open spec fn literal_advances(b: Seq<u8>, k: int) -> bool {
    &&& forall|acc: Seq<u8>| ends_within(#[trigger] literal_body(b, k, acc), k, b.len() as int)
    &&& forall|acc: Seq<u8>| ends_within(#[trigger] escape(b, k, acc), k, b.len() as int)
    &&& forall|start: int, n: int, acc: Seq<u8>|
        ends_within(#[trigger] hex_escape(b, start, k, n, acc), k, b.len() as int)
    &&& forall|count: int, acc: Seq<u8>|
        ends_within(#[trigger] unicode_escape(b, k, count, acc), k, b.len() as int)
}

pub proof fn lemma_literal(b: Seq<u8>, p: int)
    requires
        0 <= p <= b.len(),
    ensures
        forall|k: int| p <= k <= b.len() ==> #[trigger] literal_advances(b, k),
    decreases b.len() - p,
{
    if p < b.len() {
        lemma_literal(b, p + 1);
    }
    assert forall|acc: Seq<u8>| ends_within(#[trigger] literal_body(b, p, acc), p, b.len() as int) by {
        if p < b.len() {
            assert(literal_advances(b, p + 1));
            assert(ends_within(escape(b, p + 1, acc), p + 1, b.len() as int));
            assert(ends_within(literal_body(b, p + 1, acc.push(b[p])), p + 1, b.len() as int));
        }
    }
    assert forall|start: int, n: int, acc: Seq<u8>|
        ends_within(#[trigger] hex_escape(b, start, p, n, acc), p, b.len() as int) by {
        if p < b.len() {
            assert(literal_advances(b, p + 1));
            if is_hex(b[p]) {
                let m = n * 16 + digit_of(b[p]).unwrap();
                assert(ends_within(hex_escape(b, start, p + 1, m, acc), p + 1, b.len() as int));
            }
        }
        assert(ends_within(literal_body(b, p, acc.push(n as u8)), p, b.len() as int)) by {
            if p < b.len() {
                assert(ends_within(escape(b, p + 1, acc.push(n as u8)), p + 1, b.len() as int));
                assert(ends_within(literal_body(b, p + 1, acc.push(n as u8).push(b[p])), p + 1, b.len() as int));
            }
        }
    }
    assert forall|count: int, acc: Seq<u8>|
        ends_within(#[trigger] unicode_escape(b, p, count, acc), p, b.len() as int) by {
        lemma_hex_end(b, p);
        if 0 < count && p + count <= b.len() {
            assert(literal_advances(b, p + count));
            let n = digits_value(b.subrange(p, p + count), 16);
            assert(ends_within(
                literal_body(b, p + count, acc + encode_scalar(n as u32)),
                p + count,
                b.len() as int,
            ));
        }
    }
    assert forall|acc: Seq<u8>| ends_within(#[trigger] escape(b, p, acc), p, b.len() as int) by {
        if p < b.len() {
            let e = b[p];
            let q = p + 1;
            assert(literal_advances(b, q));
            if q < b.len() {
                assert(literal_advances(b, q + 1));
            }
            let end = octal_end(b, q);
            assert(literal_advances(b, end));
            let n = digits_value(b.subrange(p, end), 8);
            assert(ends_within(literal_body(b, end, acc.push(n as u8)), end, b.len() as int));
            assert(ends_within(hex_escape(b, q, q, 0, acc), q, b.len() as int));
            assert(ends_within(unicode_escape(b, q, 4, acc), q, b.len() as int));
            assert(ends_within(unicode_escape(b, q, 8, acc), q, b.len() as int));
            assert(ends_within(literal_body(b, q, acc), q, b.len() as int));
            if let Some(v) = simple_escape(e) {
                assert(ends_within(literal_body(b, q, acc.push(v)), q, b.len() as int));
            }
            if q < b.len() {
                assert(ends_within(literal_body(b, q + 1, acc), q + 1, b.len() as int));
            }
        }
    }
}

pub proof fn lemma_quoted(b: Seq<u8>, p: int)
    requires
        0 <= p <= b.len(),
    ensures
        quoted(b, p) matches Ok((_, q)) ==> p < q <= b.len(),
{
    if p < b.len() {
        lemma_literal(b, p + 1);
        assert(literal_advances(b, p + 1));
    }
}

pub proof fn lemma_after(b: Seq<u8>, p: int, c: u8, message: Seq<char>)
    requires
        0 <= p <= b.len(),
    ensures
        after(b, p, c, message) matches Ok(q) ==> p < q <= b.len(),
{
    lemma_trivia(b, p);
}

pub proof fn lemma_entry(b: Seq<u8>, p: int)
    requires
        0 <= p <= b.len(),
    ensures
        entry(b, p) matches Ok((_, _, r)) ==> p < r <= b.len(),
{
    lemma_trivia(b, p);
    if let Ok(q) = trivia_end(b, p) {
        lemma_quoted(b, q);
        if let Ok((_, r)) = quoted(b, q) {
            lemma_after(b, r, 0x2c, "expected `,` between config name and value"@);
            if let Ok(s) = after(b, r, 0x2c, "expected `,` between config name and value"@) {
                lemma_trivia(b, s);
                if let Ok(t) = trivia_end(b, s) {
                    lemma_quoted(b, t);
                    if let Ok((_, u)) = quoted(b, t) {
                        lemma_after(b, u, 0x7d, "expected `}` after config entry"@);
                        if let Ok(w) = after(b, u, 0x7d, "expected `}` after config entry"@) {
                            lemma_after(b, w, 0x2c, "expected `,` after config entry"@);
                        }
                    }
                }
            }
        }
    }
}

/* ---------------------------------------------------------------------------
 * The scanner
 * ------------------------------------------------------------------------- */

/// A scan failure: the byte offset at which the scan stopped and why.
#[derive(Debug, Clone, PartialEq, Eq)]
pub struct ScanError {
    pub offset: usize,
    pub message: String,
}

impl View for ScanError {
    type V = ScanFailure;

    open spec fn view(&self) -> ScanFailure {
        fail(self.offset as int, self.message@)
    }
}

fn scan_error(offset: usize, message: &str) -> (e: ScanError)
    ensures
        e@ == fail(offset as int, message@),
{
    ScanError { offset, message: message.to_owned() }
}

/// A step that moves the scanner agrees with its specification.
pub open spec fn stepped(expected: Result<int, ScanFailure>, r: Result<(), ScanError>, pos: int) -> bool {
    match r {
        Ok(()) => expected == Ok::<int, ScanFailure>(pos),
        Err(e) => expected == Err::<int, ScanFailure>(e@),
    }
}

/// Whether `pattern` occurs in `input` at `i`.
fn bytes_at(input: &[u8], i: usize, pattern: &[u8]) -> (r: bool)
    ensures
        r == (i + pattern@.len() <= input@.len() && input@.subrange(
            i as int,
            i + pattern@.len(),
        ) == pattern@),
{
    if i > input.len() || input.len() - i < pattern.len() {
        return false;
    }
    let n = input.len();
    let mut k: usize = 0;
    while k < pattern.len()
        invariant
            n == input@.len(),
            i + pattern@.len() <= n,
            0 <= k <= pattern@.len(),
            forall|j: int| 0 <= j < k ==> input@[i + j] == pattern@[j],
        decreases pattern@.len() - k,
    {
        if input[i + k] != pattern[k] {
            assert(input@.subrange(i as int, i + pattern@.len())[k as int] != pattern@[k as int]);
            return false;
        }
        k += 1;
    }
    assert(input@.subrange(i as int, i + pattern@.len()) =~= pattern@);
    true
}

fn array_name_bytes() -> (v: Vec<u8>)
    ensures
        v@ == array_name(),
{
    let v = vec![0x6du8, 0x70, 0x5f, 0x72, 0x73, 0x5f, 0x63, 0x6f, 0x6e, 0x66, 0x69, 0x67];
    assert(v@ =~= array_name());
    v
}

struct Scanner<'a> {
    input: &'a [u8],
    pos: usize,
}

impl<'a> Scanner<'a> {
    fn skip_trivia(&mut self) -> (r: Result<(), ScanError>)
        requires
            old(self).pos <= old(self).input@.len(),
        ensures
            final(self).input == old(self).input,
            old(self).pos <= final(self).pos <= final(self).input@.len(),
            stepped(trivia_end(old(self).input@, old(self).pos as int), r, final(self).pos as int),
    {
        let ghost b = self.input@;
        let ghost start = self.pos as int;
        let n = self.input.len();
        loop
            invariant
                self.input == old(self).input,
                self.input@ == b,
                b == old(self).input@,
                start == old(self).pos,
                n == b.len(),
                start <= self.pos <= n,
                trivia_end(b, start) == trivia_end(b, self.pos as int),
            decreases n - self.pos,
        {
            if self.pos < n && is_space_byte(self.input[self.pos]) {
                self.pos += 1;
            } else if n - self.pos >= 2 && self.input[self.pos] == 0x2f && self.input[self.pos + 1]
                == 0x2f {
                self.pos += 2;
                let mark = self.pos;
                while self.pos < n && self.input[self.pos] != 0x0a
                    invariant
                        mark <= self.pos,
                        self.input == old(self).input,
                        self.input@ == b,
                        b == old(self).input@,
                        start == old(self).pos,
                        n == b.len(),
                        start <= self.pos <= n,
                        trivia_end(b, start) == line_comment(b, self.pos as int),
                    decreases n - self.pos,
                {
                    self.pos += 1;
                }
                if self.pos < n {
                    self.pos += 1;
                }
            } else if n - self.pos >= 2 && self.input[self.pos] == 0x2f && self.input[self.pos + 1]
                == 0x2a {
                self.pos += 2;
                let open = self.pos;
                while n - self.pos >= 2 && !(self.input[self.pos] == 0x2a && self.input[self.pos
                    + 1] == 0x2f)
                    invariant
                        self.input == old(self).input,
                        self.input@ == b,
                        b == old(self).input@,
                        start == old(self).pos,
                        n == b.len(),
                        start <= open <= self.pos <= n,
                        trivia_end(b, start) == block_comment(b, self.pos as int, open as int),
                    decreases n - self.pos,
                {
                    self.pos += 1;
                }
                if n - self.pos < 2 {
                    return Err(scan_error(open, "unterminated block comment"));
                }
                self.pos += 2;
            } else {
                proof {
                    let p = self.pos as int;
                    assert(!(0 <= p < b.len() && is_space(b[p])));
                    assert(!(at(b, p, 0x2f) && at(b, p + 1, 0x2f)));
                    assert(!(at(b, p, 0x2f) && at(b, p + 1, 0x2a)));
                    assert(trivia_end(b, p) == Ok::<int, ScanFailure>(p));
                }
                return Ok(());
            }
        }
    }

    /// Skips trivia, then consumes `c` or fails with `message`.
    fn expect(&mut self, c: u8, message: &str) -> (r: Result<(), ScanError>)
        requires
            old(self).pos <= old(self).input@.len(),
        ensures
            final(self).input == old(self).input,
            old(self).pos <= final(self).pos <= final(self).input@.len(),
            stepped(after(old(self).input@, old(self).pos as int, c, message@), r, final(self).pos as int),
    {
        match self.skip_trivia() {
            Err(e) => Err(e),
            Ok(()) => {
                if self.pos < self.input.len() && self.input[self.pos] == c {
                    self.pos += 1;
                    Ok(())
                } else {
                    Err(scan_error(self.pos, message))
                }
            },
        }
    }

    fn find_array_name(&self) -> (r: Option<usize>)
        ensures
            match r {
                Some(i) => find_array_name(self.input@, 0) == Some(i as int),
                None => find_array_name(self.input@, 0) is None,
            },
    {
        let name = array_name_bytes();
        let n = self.input.len();
        let mut i: usize = 0;
        while i <= n && n - i >= 12
            invariant
                0 <= i,
                n == self.input@.len(),
                name@ == array_name(),
                find_array_name(self.input@, 0) == find_array_name(self.input@, i as int),
            decreases n - i,
        {
            if bytes_at(self.input, i, name.as_slice()) {
                let before = i == 0 || !is_word(self.input[i - 1]);
                let after_name = i + 12 >= n || !is_word(self.input[i + 12]);
                if before && after_name {
                    return Some(i);
                }
                i += 12;
            } else {
                i += 1;
            }
        }
        None
    }

    fn parse_string_literal(&mut self) -> (r: Result<String, ScanError>)
        requires
            old(self).pos <= old(self).input@.len(),
        ensures
            final(self).input == old(self).input,
            old(self).pos <= final(self).pos <= final(self).input@.len(),
            match r {
                Ok(s) => quoted(old(self).input@, old(self).pos as int) matches Ok((v, q)) && q
                    == final(self).pos && valid_utf8(v) && s@ == decode_utf8(v),
                Err(e) => quoted(old(self).input@, old(self).pos as int) == Err::<
                    (Seq<u8>, int),
                    ScanFailure,
                >(e@),
            },
    {
        let ghost b = self.input@;
        let ghost start = self.pos as int;
        let n = self.input.len();
        if !(self.pos < n && self.input[self.pos] == 0x22) {
            return Err(scan_error(self.pos, "expected a C string literal"));
        }
        self.pos += 1;
        let mut value: Vec<u8> = Vec::new();
        loop
            invariant
                self.input == old(self).input,
                self.input@ == b,
                b == old(self).input@,
                start == old(self).pos,
                n == b.len(),
                start < self.pos <= n,
                at(b, start, 0x22),
                literal_body(b, start + 1, seq![]) == literal_body(b, self.pos as int, value@),
            decreases n - self.pos,
        {
            if self.pos >= n {
                return Err(scan_error(self.pos, "unterminated C string literal"));
            }
            let byte = self.input[self.pos];
            self.pos += 1;
            if byte == 0x22 {
                return match string_from_utf8(value) {
                    None => Err(scan_error(self.pos, "C string literal is not valid UTF-8")),
                    Some(s) => Ok(s),
                };
            } else if byte == 0x5c {
                match self.parse_escape(&mut value) {
                    Err(e) => {
                        return Err(e);
                    },
                    Ok(()) => {},
                }
            } else if byte == 0x0a || byte == 0x0d {
                return Err(scan_error(self.pos, "unescaped newline in C string literal"));
            } else {
                value.push(byte);
            }
        }
    }

    /// Reads the escape whose character is at the current position, after a
    /// backslash, appending what it stands for to `output`.
    fn parse_escape(&mut self, output: &mut Vec<u8>) -> (r: Result<(), ScanError>)
        requires
            old(self).pos <= old(self).input@.len(),
        ensures
            final(self).input == old(self).input,
            old(self).pos <= final(self).pos <= final(self).input@.len(),
            r is Ok ==> old(self).pos < final(self).pos,
            continues(
                escape(old(self).input@, old(self).pos as int, old(output)@),
                r,
                final(self).input@,
                final(self).pos as int,
                final(output)@,
            ),
    {
        let ghost b = self.input@;
        let ghost p = self.pos as int;
        let ghost acc = output@;
        let n = self.input.len();
        if self.pos >= n {
            return Err(scan_error(self.pos, "unterminated escape sequence"));
        }
        let e = self.input[self.pos];
        self.pos += 1;
        match simple_escape_byte(e) {
            Some(v) => {
                output.push(v);
                return Ok(());
            },
            None => {},
        }
        if e == 0x0a {
            Ok(())
        } else if e == 0x0d {
            if self.pos < n && self.input[self.pos] == 0x0a {
                self.pos += 1;
            }
            Ok(())
        } else if 0x30 <= e && e <= 0x37 {
            let q = self.pos;
            proof {
                lemma_digits_step(b, p, p, 8);
                assert(b.subrange(p, p) =~= Seq::<u8>::empty());
            }
            let mut number: u32 = (e - 0x30) as u32;
            if self.pos < n && 0x30 <= self.input[self.pos] && self.input[self.pos] <= 0x37 {
                proof {
                    lemma_digits_step(b, p, q as int, 8);
                }
                number = number * 8 + (self.input[self.pos] - 0x30) as u32;
                self.pos += 1;
                if self.pos < n && 0x30 <= self.input[self.pos] && self.input[self.pos] <= 0x37 {
                    proof {
                        lemma_digits_step(b, p, q + 1, 8);
                    }
                    number = number * 8 + (self.input[self.pos] - 0x30) as u32;
                    self.pos += 1;
                }
            }
            assert(self.pos == octal_end(b, q as int));
            assert(number == digits_value(b.subrange(p, self.pos as int), 8));
            if number > 255 {
                return Err(scan_error(self.pos, "byte escape is outside the range 0..=255"));
            }
            output.push(number as u8);
            Ok(())
        } else if e == 0x78 {
            let start = self.pos;
            let mut number: u32 = 0;
            while self.pos < n && is_hex_byte(self.input[self.pos])
                invariant
                    self.input == old(self).input,
                    self.input@ == b,
                    b == old(self).input@,
                    p == old(self).pos,
                    acc == old(output)@,
                    n == b.len(),
                    output@ == acc,
                    p < start <= self.pos <= n,
                    escape(b, p, acc) == hex_escape(b, start as int, self.pos as int, number as int, acc),
                decreases n - self.pos,
            {
                let digit = match digit_value(self.input[self.pos]) {
                    Some(d) => d,
                    None => 0,
                };
                self.pos += 1;
                let next = match number.checked_mul(16) {
                    Some(m) => m.checked_add(digit),
                    None => None,
                };
                match next {
                    Some(m) => {
                        number = m;
                    },
                    None => {
                        return Err(scan_error(self.pos, "hexadecimal escape is too large"));
                    },
                }
            }
            if self.pos == start {
                return Err(scan_error(self.pos, "hexadecimal escape has no digits"));
            }
            if number > 255 {
                return Err(scan_error(self.pos, "byte escape is outside the range 0..=255"));
            }
            output.push(number as u8);
            Ok(())
        } else if e == 0x75 {
            self.parse_unicode_escape(output, 4)
        } else if e == 0x55 {
            self.parse_unicode_escape(output, 8)
        } else {
            let mut m = "unsupported escape sequence `\\".to_owned();
            m.append(char_to_string(e as char).as_str());
            m.append("`");
            Err(ScanError { offset: self.pos, message: m })
        }
    }

    fn parse_unicode_escape(&mut self, output: &mut Vec<u8>, digits: usize) -> (r: Result<
        (),
        ScanError,
    >)
        requires
            old(self).pos <= old(self).input@.len(),
            digits == 4 || digits == 8,
        ensures
            final(self).input == old(self).input,
            old(self).pos <= final(self).pos <= final(self).input@.len(),
            r is Ok ==> old(self).pos < final(self).pos,
            continues(
                unicode_escape(old(self).input@, old(self).pos as int, digits as int, old(output)@),
                r,
                final(self).input@,
                final(self).pos as int,
                final(output)@,
            ),
    {
        let ghost b = self.input@;
        let ghost acc = output@;
        let n = self.input.len();
        let start = self.pos;
        let mut number: u64 = 0;
        let mut i: usize = 0;
        proof {
            lemma_hex_end(b, start as int);
            lemma_pow16_grows(0, 8);
            assert(b.subrange(start as int, start as int) =~= Seq::<u8>::empty());
        }
        while i < digits
            invariant
                self.input == old(self).input,
                self.input@ == b,
                n == b.len(),
                output@ == acc,
                start == old(self).pos,
                0 <= i <= digits <= 8,
                self.pos == start + i <= n,
                forall|k: int| start <= k < self.pos ==> #[trigger] is_hex(b[k]),
                number == digits_value(b.subrange(start as int, self.pos as int), 16),
                number < pow16(i as nat),
                pow16(8) == 0x1_0000_0000,
                forall|k: nat| k <= 8 ==> #[trigger] pow16(k) <= pow16(8),
            decreases digits - i,
        {
            if self.pos >= n {
                proof {
                    lemma_hex_run(b, start as int, self.pos as int);
                }
                return Err(scan_error(self.pos, "incomplete Unicode escape"));
            }
            let byte = self.input[self.pos];
            let digit = match digit_value(byte) {
                Some(d) => d,
                None => {
                    proof {
                        lemma_hex_run(b, start as int, self.pos as int);
                    }
                    self.pos += 1;
                    return Err(scan_error(self.pos, "non-hexadecimal digit in Unicode escape"));
                },
            };
            proof {
                lemma_digits_step(b, start as int, self.pos as int, 16);
                assert(pow16(i as nat) <= pow16(8));
            }
            number = number * 16 + digit as u64;
            self.pos += 1;
            i += 1;
        }
        proof {
            lemma_hex_run(b, start as int, self.pos as int);
            lemma_hex_end(b, self.pos as int);
        }
        let value = number as u32;
        if !is_scalar_value(value) {
            return Err(scan_error(self.pos, "invalid Unicode scalar value in escape"));
        }
        push_scalar(output, value);
        Ok(())
    }
}

/// A step inside a string literal agrees with its specification: on success,
/// what the literal reads as from here on is what it read as before the step.
pub open spec fn continues(
    expected: Result<(Seq<u8>, int), ScanFailure>,
    r: Result<(), ScanError>,
    b: Seq<u8>,
    pos: int,
    acc: Seq<u8>,
) -> bool {
    match r {
        Ok(()) => expected == literal_body(b, pos, acc),
        Err(e) => expected == Err::<(Seq<u8>, int), ScanFailure>(e@),
    }
}

pub open spec fn pow16(n: nat) -> nat
    decreases n,
{
    if n == 0 {
        1
    } else {
        16 * pow16((n - 1) as nat)
    }
}

pub proof fn lemma_pow16_grows(i: nat, j: nat)
    ensures
        pow16(8) == 0x1_0000_0000,
        forall|k: nat| k <= 8 ==> #[trigger] pow16(k) <= pow16(8),
{
    reveal_with_fuel(pow16, 9);
    assert forall|k: nat| k <= 8 implies #[trigger] pow16(k) <= pow16(8) by {
        reveal_with_fuel(pow16, 9);
    }
}

/// A run of hexadecimal digits ends where the rest of it ends.
pub proof fn lemma_hex_run(b: Seq<u8>, start: int, pos: int)
    requires
        0 <= start <= pos <= b.len(),
        forall|k: int| start <= k < pos ==> #[trigger] is_hex(b[k]),
    ensures
        hex_end(b, start) == hex_end(b, pos),
    decreases pos - start,
{
    if start < pos {
        lemma_hex_run(b, start + 1, pos);
    }
}

/// One more digit.
pub proof fn lemma_digits_step(b: Seq<u8>, start: int, pos: int, base: int)
    requires
        0 <= start <= pos < b.len(),
    ensures
        digits_value(b.subrange(start, pos + 1), base) == digits_value(b.subrange(start, pos), base)
            * base + digit_of(b[pos]).unwrap(),
{
    assert(b.subrange(start, pos + 1).drop_last() =~= b.subrange(start, pos));
}

fn simple_escape_byte(e: u8) -> (r: Option<u8>)
    ensures
        r == simple_escape(e),
{
    if e == 0x27 || e == 0x22 || e == 0x3f || e == 0x5c {
        Some(e)
    } else if e == 0x61 {
        Some(0x07)
    } else if e == 0x62 {
        Some(0x08)
    } else if e == 0x66 {
        Some(0x0c)
    } else if e == 0x6e {
        Some(0x0a)
    } else if e == 0x72 {
        Some(0x0d)
    } else if e == 0x74 {
        Some(0x09)
    } else if e == 0x76 {
        Some(0x0b)
    } else {
        None
    }
}

fn is_hex_byte(c: u8) -> (r: bool)
    ensures
        r == is_hex(c),
{
    (0x30 <= c && c <= 0x39) || (0x61 <= c && c <= 0x66) || (0x41 <= c && c <= 0x46)
}

/// `char::from_u32` succeeds exactly on the Unicode scalar values.
fn is_scalar_value(c: u32) -> (r: bool)
    ensures
        r == is_scalar(c),
{
    c <= 0x7f || (0x80 <= c && c <= 0x7ff) || (0x800 <= c && c <= 0xffff && !(0xd800 <= c && c
        <= 0xdfff)) || (0x10000 <= c && c <= 0x10ffff)
}

/// Appends the UTF-8 encoding of a scalar value.
fn push_scalar(output: &mut Vec<u8>, c: u32)
    requires
        is_scalar(c),
    ensures
        final(output)@ == old(output)@ + encode_scalar(c),
{
    if c <= 0x7f {
        output.push((c & 0x7f) as u8);
    } else if c <= 0x7ff {
        output.push(0xc0 | ((c >> 6) & 0x1f) as u8);
        output.push(0x80 | (c & 0x3f) as u8);
    } else if c <= 0xffff {
        output.push(0xe0 | ((c >> 12) & 0x0f) as u8);
        output.push(0x80 | ((c >> 6) & 0x3f) as u8);
        output.push(0x80 | (c & 0x3f) as u8);
    } else {
        output.push(0xf0 | ((c >> 18) & 0x7) as u8);
        output.push(0x80 | ((c >> 12) & 0x3f) as u8);
        output.push(0x80 | ((c >> 6) & 0x3f) as u8);
        output.push(0x80 | (c & 0x3f) as u8);
    }
    assert(final(output)@ =~= old(output)@ + encode_scalar(c));
}

pub proof fn lemma_find_array_name(b: Seq<u8>, i: int)
    ensures
        find_array_name(b, i) matches Some(f) ==> i <= f && 0 <= f && f + 12 <= b.len(),
    decreases b.len() - i,
{
    if 0 <= i && i + 12 <= b.len() {
        lemma_find_array_name(b, i + 12);
        lemma_find_array_name(b, i + 1);
    }
}

/* ---------------------------------------------------------------------------
 * Entries and the whole table
 * ------------------------------------------------------------------------- */

/// Whether every byte of `name` from `k` on is an identifier byte.
fn word_bytes_from(name: &[u8], k: usize) -> (r: bool)
    requires
        k <= name@.len(),
    ensures
        r == all_word_bytes(name@.skip(k as int)),
{
    let mut i = k;
    while i < name.len()
        invariant
            k <= i <= name@.len(),
            forall|j: int| k <= j < i ==> #[trigger] is_word_byte(name@[j]),
        decreases name@.len() - i,
    {
        if !is_word(name[i]) {
            assert(name@.skip(k as int)[i - k] == name@[i as int]);
            return false;
        }
        i += 1;
    }
    assert forall|j: int| 0 <= j < name@.skip(k as int).len() implies #[trigger] is_word_byte(
        name@.skip(k as int)[j],
    ) by {
        assert(name@.skip(k as int)[j] == name@[k + j]);
    }
    true
}

fn config_name_bytes(name: &[u8]) -> (r: bool)
    ensures
        r == is_config_name(name@),
{
    let exact = vec![0x4du8, 0x50, 0x5f, 0x49, 0x4e, 0x54, 0x5f, 0x54, 0x59, 0x50, 0x45];
    assert(exact@ =~= mp_int_type());
    if bytes_equal(name, exact.as_slice()) {
        return true;
    }
    let micropy = vec![0x4du8, 0x49, 0x43, 0x52, 0x4f, 0x50, 0x59, 0x5f];
    assert(micropy@ =~= config_prefix());
    let int_type = vec![0x4du8, 0x50, 0x5f, 0x49, 0x4e, 0x54, 0x5f, 0x54, 0x59, 0x50, 0x45, 0x5f];
    assert(int_type@ =~= mp_int_type().push(0x5f));
    proof {
        if name@.len() > 12 && name@.take(12) == mp_int_type().push(0x5f) {
            assert(name@.take(12)[1] == name@[1]);
            if name@.take(8) == config_prefix() {
                assert(name@.take(8)[1] == name@[1]);
            }
        }
    }
    if name.len() > 8 && bytes_at(name, 0, micropy.as_slice()) {
        assert(name@.subrange(0, 8) == name@.take(8));
        return word_bytes_from(name, 8);
    }
    if name.len() > 12 && bytes_at(name, 0, int_type.as_slice()) {
        assert(name@.subrange(0, 12) == name@.take(12));
        return word_bytes_from(name, 12);
    }
    proof {
        if name@.len() > 8 && name@.take(8) == config_prefix() {
            assert(name@.subrange(0, 8) == name@.take(8));
        }
        if name@.len() > 12 && name@.take(12) == mp_int_type().push(0x5f) {
            assert(name@.subrange(0, 12) == name@.take(12));
        }
    }
    false
}

impl<'a> Scanner<'a> {
    fn parse_entry(&mut self) -> (r: Result<(String, String), ScanError>)
        requires
            old(self).pos <= old(self).input@.len(),
        ensures
            final(self).input == old(self).input,
            old(self).pos <= final(self).pos <= final(self).input@.len(),
            match r {
                Ok((name, value)) => entry(old(self).input@, old(self).pos as int) matches Ok(
                    (nb, vb, x),
                ) && x == final(self).pos && name@ == decode_utf8(nb) && value@ == decode_utf8(
                    vb,
                ),
                Err(e) => entry(old(self).input@, old(self).pos as int) == Err::<
                    (Seq<u8>, Seq<u8>, int),
                    ScanFailure,
                >(e@),
            },
    {
        broadcast use decode_utf8_encode_utf8;

        match self.skip_trivia() {
            Err(e) => {
                return Err(e);
            },
            Ok(()) => {},
        }
        let name = match self.parse_string_literal() {
            Err(e) => {
                return Err(e);
            },
            Ok(s) => s,
        };
        if !config_name_bytes(name.as_str().as_bytes()) {
            let mut m = "invalid configuration name `".to_owned();
            m.append(name.as_str());
            m.append("`");
            return Err(ScanError { offset: self.pos, message: m });
        }
        match self.expect(0x2c, "expected `,` between config name and value") {
            Err(e) => {
                return Err(e);
            },
            Ok(()) => {},
        }
        match self.skip_trivia() {
            Err(e) => {
                return Err(e);
            },
            Ok(()) => {},
        }
        let value = match self.parse_string_literal() {
            Err(e) => {
                return Err(e);
            },
            Ok(s) => s,
        };
        match self.expect(0x7d, "expected `}` after config entry") {
            Err(e) => {
                return Err(e);
            },
            Ok(()) => {},
        }
        match self.expect(0x2c, "expected `,` after config entry") {
            Err(e) => {
                return Err(e);
            },
            Ok(()) => {},
        }
        Ok((name, value))
    }
}

/// Scans the `mp_rs_config` initializer out of preprocessed `tail.c`: its
/// entries in the order of their names, or where and why the scan stopped.
pub fn scan_tail(input: &str) -> (r: Result<ConfigMap<String>, ScanError>)
    ensures
        match r {
            Ok(m) => parsed_tail(input.spec_bytes()) == Ok::<
                Seq<(Seq<char>, Seq<char>)>,
                ScanFailure,
            >(m@),
            Err(e) => parsed_tail(input.spec_bytes()) == Err::<
                Seq<(Seq<char>, Seq<char>)>,
                ScanFailure,
            >(e@),
        },
{
    let bytes = input.as_bytes();
    let ghost b = bytes@;
    let n = bytes.len();
    let mut scanner = Scanner { input: bytes, pos: 0 };
    let found = match scanner.find_array_name() {
        None => {
            return Err(scan_error(n, "`mp_rs_config` array not found"));
        },
        Some(i) => i,
    };
    proof {
        lemma_find_array_name(b, 0);
    }
    scanner.pos = found + 12;
    match scanner.expect(0x5b, "expected `[` after `mp_rs_config`") {
        Err(e) => {
            return Err(e);
        },
        Ok(()) => {},
    }
    match scanner.expect(0x5d, "expected `]` in `mp_rs_config` declaration") {
        Err(e) => {
            return Err(e);
        },
        Ok(()) => {},
    }
    match scanner.expect(0x3d, "expected `=` before `mp_rs_config` initializer") {
        Err(e) => {
            return Err(e);
        },
        Ok(()) => {},
    }
    match scanner.expect(0x7b, "expected `{` to start `mp_rs_config` initializer") {
        Err(e) => {
            return Err(e);
        },
        Ok(()) => {},
    }
    let ghost body = scanner.pos as int;
    assert(array_body_start(b) == Ok::<int, ScanFailure>(body));
    let mut config: ConfigMap<String> = ConfigMap::new();
    assert(config@ =~= Seq::<(Seq<char>, Seq<char>)>::empty());
    loop
        invariant
            scanner.input@ == b,
            bytes@ == b,
            b == input.spec_bytes(),
            n == b.len(),
            scanner.pos <= n,
            array_body_start(b) == Ok::<int, ScanFailure>(body),
            entries(b, body, seq![]) == entries(b, scanner.pos as int, config@),
        decreases n - scanner.pos,
    {
        let ghost p = scanner.pos as int;
        match scanner.skip_trivia() {
            Err(e) => {
                return Err(e);
            },
            Ok(()) => {},
        }
        if scanner.pos < n && bytes[scanner.pos] == 0x7d {
            let ghost q = scanner.pos as int;
            assert(trivia_end(b, p) == Ok::<int, ScanFailure>(q));
            assert(at(b, q, 0x7d));
            scanner.pos += 1;
            return match scanner.expect(0x3b, "expected `;` after `mp_rs_config` initializer") {
                Err(e) => Err(e),
                Ok(()) => {
                    assert(entries(b, p, config@) == Ok::<Seq<(Seq<char>, Seq<char>)>, ScanFailure>(config@));
                    Ok(config)
                },
            };
        }
        if !(scanner.pos < n && bytes[scanner.pos] == 0x7b) {
            return Err(scan_error(scanner.pos, "expected `{` to start a config entry"));
        }
        scanner.pos += 1;
        let (name, value) = match scanner.parse_entry() {
            Err(e) => {
                return Err(e);
            },
            Ok(pair) => pair,
        };
        let key = name.clone();
        match config.insert(name, value) {
            Some(_) => {
                let mut m = "duplicate configuration entry `".to_owned();
                m.append(key.as_str());
                m.append("`");
                return Err(ScanError { offset: scanner.pos, message: m });
            },
            None => {},
        }
    }
}

/* ---------------------------------------------------------------------------
 * Reporting a failure
 * ------------------------------------------------------------------------- */

/// A failure to read the table, located in the input.
#[derive(Debug, Clone, PartialEq, Eq)]
pub struct TailParseError {
    pub offset: usize,
    pub line: usize,
    pub column: usize,
    pub message: String,
    pub context: String,
}

/// The mathematical content of a [`TailParseError`].
pub struct TailParseErrorView {
    pub offset: int,
    pub line: int,
    pub column: int,
    pub message: Seq<char>,
    pub context: Seq<char>,
}

impl View for TailParseError {
    type V = TailParseErrorView;

    open spec fn view(&self) -> TailParseErrorView {
        TailParseErrorView {
            offset: self.offset as int,
            line: self.line as int,
            column: self.column as int,
            message: self.message@,
            context: self.context@,
        }
    }
}

/// The number of line feeds among the first `o` bytes.
pub open spec fn newlines_before(b: Seq<u8>, o: int) -> int
    decreases o,
{
    if o <= 0 {
        0
    } else {
        newlines_before(b, o - 1) + if b[o - 1] == 0x0a {
            1int
        } else {
            0int
        }
    }
}

/// Where the line that holds byte `o` starts.
pub open spec fn line_start(b: Seq<u8>, o: int) -> int
    decreases o,
{
    if o <= 0 {
        0
    } else if b[o - 1] == 0x0a {
        o
    } else {
        line_start(b, o - 1)
    }
}

/// At most forty characters of the input from `offset` on.
pub open spec fn following_chars(b: Seq<u8>, offset: int) -> Seq<char> {
    let rest = decode_utf8(b.subrange(offset, b.len() as int));
    if rest.len() <= 40 {
        rest
    } else {
        rest.take(40)
    }
}

/// How the escaped text near a failure is shown.
pub open spec fn context_text(escaped: Seq<char>) -> Seq<char> {
    if escaped.len() == 0 {
        "<end of input>"@
    } else {
        "near `"@ + escaped + "`"@
    }
}

/// A failure at `offset` with its line, its column (in bytes, from one) and
/// the escaped text that follows it.
pub open spec fn described(b: Seq<u8>, offset: int, message: Seq<char>) -> TailParseErrorView {
    TailParseErrorView {
        offset,
        line: newlines_before(b, offset) + 1,
        column: offset - line_start(b, offset) + 1,
        message,
        context: context_text(escaped_debug(following_chars(b, offset))),
    }
}

/// Shows escaped text as the context of an error.
pub fn error_context(escaped: &str) -> (s: String)
    ensures
        s@ == context_text(escaped@),
{
    if escaped.is_empty() {
        "<end of input>".to_owned()
    } else {
        let mut s = "near `".to_owned();
        s.append(escaped);
        s.append("`");
        s
    }
}

/// Locates a failure at `offset` in `input`.
pub fn describe_error(input: &str, offset: usize, message: String) -> (e: TailParseError)
    requires
        is_char_boundary(input.spec_bytes(), offset as int),
        input.spec_bytes().len() < usize::MAX,
    ensures
        e@ == described(input.spec_bytes(), offset as int, message@),
{
    broadcast use encode_utf8_valid_utf8, encode_utf8_decode_utf8;

    let bytes = input.as_bytes();
    let ghost b = bytes@;
    proof {
        reveal_with_fuel(is_char_boundary, 2);
    }
    assert(offset <= b.len());
    let mut line: usize = 1;
    let mut begin: usize = 0;
    let mut i: usize = 0;
    while i < offset
        invariant
            bytes@ == b,
            offset <= b.len() < usize::MAX,
            0 <= begin <= i <= offset,
            line == newlines_before(b, i as int) + 1,
            newlines_before(b, i as int) <= i,
            begin == line_start(b, i as int),
        decreases offset - i,
    {
        if bytes[i] == 0x0a {
            line += 1;
            begin = i + 1;
        }
        i += 1;
    }
    let column = offset - begin + 1;
    let (_, rest) = input.split_at(offset);
    assert(rest@ == decode_utf8(b.subrange(offset as int, b.len() as int))) by {
        assert(decode_utf8(encode_utf8(rest@)) == rest@);
    }
    let count = rest.unicode_len();
    let take = if count < 40 {
        count
    } else {
        40
    };
    let near = rest.substring_char(0, take);
    assert(near@ == following_chars(b, offset as int));
    let escaped = escape_debug_string(near);
    TailParseError { offset, line, column, message, context: error_context(escaped.as_str()) }
}

/// Every failure of the scan on `b` stops between two characters.
pub open spec fn stops_on_boundary(b: Seq<u8>) -> bool {
    parsed_tail(b) matches Err(f) ==> is_char_boundary(b, f.offset)
}

/// Parses the `mp_rs_config` array from preprocessed `tail.c` output.
pub fn parse_tail(input: &str) -> (r: Result<ConfigMap<String>, TailParseError>)
    requires
        stops_on_boundary(input.spec_bytes()),
        input.spec_bytes().len() < usize::MAX,
    ensures
        match r {
            Ok(m) => parsed_tail(input.spec_bytes()) == Ok::<
                Seq<(Seq<char>, Seq<char>)>,
                ScanFailure,
            >(m@),
            Err(e) => parsed_tail(input.spec_bytes()) matches Err(f) && e@ == described(
                input.spec_bytes(),
                f.offset,
                f.message,
            ),
        },
{
    match scan_tail(input) {
        Ok(m) => Ok(m),
        Err(e) => Err(describe_error(input, e.offset, e.message)),
    }
}

/// Why no table was read from the preprocessor's output.
#[derive(Debug)]
pub enum TailFailure {
    /// The scan failed, at a point between two characters, where it can be
    /// shown.
    Parse(TailParseError),
    /// The scan failed inside a character, at this byte offset; there the
    /// failure cannot be shown (slicing the text there would panic).
    InsideCharacter(usize),
}

/// Parses the `mp_rs_config` array from preprocessed `tail.c` output, and
/// locates a failure where it falls between two characters.
pub fn read_tail(input: &str) -> (r: Result<ConfigMap<String>, TailFailure>)
    requires
        input.spec_bytes().len() < usize::MAX,
    ensures
        match r {
            Ok(m) => parsed_tail(input.spec_bytes()) == Ok::<
                Seq<(Seq<char>, Seq<char>)>,
                ScanFailure,
            >(m@),
            Err(TailFailure::Parse(e)) => parsed_tail(input.spec_bytes()) matches Err(f)
                && is_char_boundary(input.spec_bytes(), f.offset) && e@ == described(
                input.spec_bytes(),
                f.offset,
                f.message,
            ),
            Err(TailFailure::InsideCharacter(offset)) => parsed_tail(input.spec_bytes()) matches Err(
                f,
            ) && !is_char_boundary(input.spec_bytes(), f.offset) && offset == f.offset,
        },
{
    match scan_tail(input) {
        Ok(m) => Ok(m),
        Err(e) => {
            if input.is_char_boundary(e.offset) {
                Err(TailFailure::Parse(describe_error(input, e.offset, e.message)))
            } else {
                Err(TailFailure::InsideCharacter(e.offset))
            }
        },
    }
}

/* ---------------------------------------------------------------------------
 * What every table read without failure satisfies
 * ------------------------------------------------------------------------- */

/// The names are distinct configuration names, in the order of names.
pub open spec fn well_named(es: Seq<(Seq<char>, Seq<char>)>) -> bool {
    &&& sorted_names(es)
    &&& distinct_names(es)
    &&& forall|i: int| 0 <= i < es.len() ==> #[trigger] is_config_name(encode_utf8(es[i].0))
}

proof fn lemma_entries_well_named(b: Seq<u8>, p: int, acc: Seq<(Seq<char>, Seq<char>)>)
    requires
        well_named(acc),
    ensures
        entries(b, p, acc) matches Ok(es) ==> well_named(es),
    decreases b.len() - p,
{
    broadcast use decode_utf8_encode_utf8;

    if let Ok(q) = trivia_end(b, p) {
        if !at(b, q, 0x7d) && at(b, q, 0x7b) {
            if let Ok((name, value, r)) = entry(b, q + 1) {
                let key = decode_utf8(name);
                if index_of(acc, key) is None {
                    if 0 <= p <= b.len() {
                        lemma_trivia(b, p);
                    }
                    lemma_entry(b, q + 1);
                    lemma_entry_name(b, q + 1);
                    let next = inserted(acc, key, decode_utf8(value));
                    lemma_insert_then_lookup(acc, key, decode_utf8(value), key);
                    lemma_sorted_distinct(next);
                    assert(well_named(next)) by {
                        assert forall|i: int| 0 <= i < next.len() implies #[trigger] is_config_name(
                            encode_utf8(next[i].0),
                        ) by {
                            assert(names_of(next).contains(next[i].0));
                            if next[i].0 != key {
                                assert(names_of(acc).contains(next[i].0));
                                let j = choose|j: int| 0 <= j < acc.len() && acc[j].0 == next[i].0;
                                assert(is_config_name(encode_utf8(acc[j].0)));
                            }
                        }
                    }
                    lemma_entries_well_named(b, r, next);
                }
            }
        }
    }
}

/// The name of an entry read without failure is valid UTF-8 and a
/// configuration name.
proof fn lemma_entry_name(b: Seq<u8>, p: int)
    ensures
        entry(b, p) matches Ok((name, _, _)) ==> valid_utf8(name) && is_config_name(name),
{
}

/// A table read without failure names no configuration twice, lists the
/// names in order, and each of its names is `MP_INT_TYPE` or starts with
/// `MICROPY_` or `MP_INT_TYPE_`.
pub proof fn lemma_parsed_tail_well_named(b: Seq<u8>)
    ensures
        parsed_tail(b) matches Ok(es) ==> well_named(es),
{
    if let Ok(p) = array_body_start(b) {
        lemma_entries_well_named(b, p, seq![]);
    }
}

} // verus!

//! Small text utilities shared by the parsers: building `String`s out of
//! byte sequences whose UTF-8 validity the parsers establish.

use vstd::prelude::*;
use vstd::utf8::*;

verus! {

/// True when every byte is a 7-bit ASCII byte.
pub open spec fn is_ascii_bytes(bytes: Seq<u8>) -> bool {
    forall|i: int| 0 <= i < bytes.len() ==> #[trigger] bytes[i] < 0x80
}

/// The characters that a sequence of ASCII bytes stands for.
pub open spec fn ascii_chars(bytes: Seq<u8>) -> Seq<char> {
    bytes.map_values(|b: u8| b as char)
}

/// `std::string::String::from_utf8`: succeeds exactly on valid UTF-8 and
/// then holds the characters the bytes encode.
#[verifier::external_body]
pub(crate) fn string_from_utf8(bytes: Vec<u8>) -> (s: Option<String>)
    ensures
        s is Some <==> valid_utf8(bytes@),
        s matches Some(s) ==> s@ == decode_utf8(bytes@),
{
    String::from_utf8(bytes).ok()
}

/// `<char as ToString>::to_string`: the string made of that one character.
#[verifier::external_body]
pub(crate) fn char_to_string(c: char) -> (s: String)
    ensures
        s@ == seq![c],
{
    c.to_string()
}

/// ASCII bytes are valid UTF-8 and decode to the characters they stand for.
pub proof fn lemma_ascii_utf8(bytes: Seq<u8>)
    requires
        is_ascii_bytes(bytes),
    ensures
        valid_utf8(bytes),
        decode_utf8(bytes) == ascii_chars(bytes),
    decreases bytes.len(),
{
    broadcast use group_utf8_lib;

    if bytes.len() > 0 {
        let rest = bytes.drop_first();
        assert(is_ascii_bytes(rest)) by {
            assert forall|i: int| 0 <= i < rest.len() implies #[trigger] rest[i] < 0x80 by {
                assert(rest[i] == bytes[i + 1]);
            }
        }
        lemma_ascii_utf8(rest);
        assert(bytes[0] < 0x80);
        assert(is_leading_byte_width_1(bytes[0]));
        assert(pop_first_scalar(bytes) =~= rest);
        assert(valid_first_scalar(bytes));
        let b = bytes[0];
        assert(b & 0x7f == b) by (bit_vector)
            requires
                b < 0x80,
        ;
        assert(decode_first_scalar(bytes) == b as u32);
        assert(decode_utf8(bytes) =~= seq![bytes[0] as char] + decode_utf8(rest));
        assert(ascii_chars(bytes) =~= seq![bytes[0] as char] + ascii_chars(rest));
    }
}

/// Copies a run of bytes into a fresh vector.
pub(crate) fn copy_range(bytes: &[u8], start: usize, end: usize) -> (v: Vec<u8>)
    requires
        start <= end <= bytes@.len(),
    ensures
        v@ == bytes@.subrange(start as int, end as int),
{
    let mut v: Vec<u8> = Vec::new();
    let mut i = start;
    while i < end
        invariant
            start <= i <= end <= bytes@.len(),
            v@ == bytes@.subrange(start as int, i as int),
        decreases end - i,
    {
        v.push(bytes[i]);
        i += 1;
        assert(v@ =~= bytes@.subrange(start as int, i as int));
    }
    v
}

/// The string spelled by a run of ASCII bytes.
pub(crate) fn ascii_string(bytes: &[u8], start: usize, end: usize) -> (s: String)
    requires
        start <= end <= bytes@.len(),
        is_ascii_bytes(bytes@.subrange(start as int, end as int)),
    ensures
        s@ == decode_utf8(bytes@.subrange(start as int, end as int)),
        s@ == ascii_chars(bytes@.subrange(start as int, end as int)),
{
    let v = copy_range(bytes, start, end);
    proof {
        lemma_ascii_utf8(v@);
    }
    match string_from_utf8(v) {
        Some(s) => s,
        None => {
            proof {
                assert(false);
            }
            String::new()
        },
    }
}

/// What `str::escape_debug` turns a text into: a function of the text alone.
pub uninterp spec fn escaped_debug(text: Seq<char>) -> Seq<char>;

/// `str::escape_debug`, collected into a `String`. Nothing is stated of the
/// escaping itself beyond its depending on the text alone.
#[verifier::external_body]
pub(crate) fn escape_debug_string(text: &str) -> (s: String)
    ensures
        s@ == escaped_debug(text@),
{
    text.escape_debug().to_string()
}

} // verus!

//! The parts of header generation that compute on values: which lines of
//! `qstrdefs.h` are quoted around the preprocessor, and the name of the cache
//! file that belongs to a source file.

use vstd::prelude::*;
use vstd::string::{StrSliceExecFns, StringSliceAdditionalSpecFns};
use vstd::utf8::*;

use crate::config_map::str_equal;
use crate::text::{ascii_chars, ascii_string, is_ascii_bytes, lemma_ascii_utf8};

verus! {

/* ---------------------------------------------------------------------------
 * Cache files
 * ------------------------------------------------------------------------- */

/// The BLAKE3 digest of a byte string: a function of the bytes alone.
pub uninterp spec fn blake3_digest(input: Seq<u8>) -> Seq<u8>;

/// `blake3::hash`, as its 32 raw bytes.
#[verifier::external_body]
fn blake3_hash(input: &[u8]) -> (digest: [u8; 32])
    ensures
        digest@ == blake3_digest(input@),
{
    *blake3::hash(input).as_bytes()
}

/// The lowercase hexadecimal digit for a value below sixteen.
pub open spec fn hex_digit(n: u8) -> u8 {
    if n < 10 {
        (0x30 + n) as u8
    } else {
        (0x61 + n - 10) as u8
    }
}

/// Lowercase hexadecimal, two digits per byte, the high one first.
pub open spec fn hex_lower(bytes: Seq<u8>) -> Seq<u8>
    decreases bytes.len(),
{
    if bytes.len() == 0 {
        seq![]
    } else {
        let b = bytes.last();
        hex_lower(bytes.drop_last()) + seq![hex_digit(b / 16), hex_digit(b % 16)]
    }
}

fn hex_digit_byte(n: u8) -> (d: u8)
    requires
        n < 16,
    ensures
        d == hex_digit(n),
        d < 0x80,
{
    if n < 10 {
        0x30 + n
    } else {
        0x61 + n - 10
    }
}

/// The name of the cache file for the source file at `absolute_path`: the
/// hexadecimal BLAKE3 digest of the path's bytes, with `.json` appended.
pub fn cache_file_name(absolute_path: &[u8]) -> (name: String)
    ensures
        name@ == ascii_chars(hex_lower(blake3_digest(absolute_path@))) + ".json"@,
{
    let digest = blake3_hash(absolute_path);
    let ghost d = digest@;
    let mut hex: Vec<u8> = Vec::new();
    let mut i: usize = 0;
    assert(d.take(0) =~= Seq::<u8>::empty());
    while i < 32
        invariant
            d == digest@,
            d.len() == 32,
            0 <= i <= 32,
            hex@ == hex_lower(d.take(i as int)),
            is_ascii_bytes(hex@),
        decreases 32 - i,
    {
        let b = digest[i];
        let ghost before = hex@;
        hex.push(hex_digit_byte(b / 16));
        hex.push(hex_digit_byte(b % 16));
        assert(d.take(i + 1).drop_last() =~= d.take(i as int));
        assert(hex@ =~= before + seq![hex_digit(b / 16), hex_digit(b % 16)]);
        i += 1;
    }
    assert(d.take(32) =~= d);
    let len = hex.len();
    let mut name = ascii_string(hex.as_slice(), 0, len);
    assert(hex@.subrange(0, len as int) =~= hex@);
    name.append(".json");
    name
}

/* ---------------------------------------------------------------------------
 * qstr definitions
 * ------------------------------------------------------------------------- */

/// Whether the regular expression `pattern` compiles: a function of the
/// pattern alone.
pub uninterp spec fn regex_compiles(pattern: Seq<char>) -> bool;

/// Whether the regular expression `pattern` matches somewhere in
/// `haystack`: a function of the two alone.
pub uninterp spec fn regex_finds(pattern: Seq<char>, haystack: Seq<u8>) -> bool;

/// Whether the bytes of a line hold `Q(` followed, later on the same line,
/// by `)`: where the pattern `Q\(.*\)` matches, `.` matching any character
/// but a line feed.
pub open spec fn defines_qstr(h: Seq<u8>) -> bool {
    exists|i: int, j: int|
        #![trigger h[i], h[j]]
        0 <= i && i + 2 <= j < h.len() && h[i] == 0x51 && h[i + 1] == 0x28 && h[j] == 0x29
            && forall|k: int| i + 2 <= k < j ==> #[trigger] h[k] != 0x0a
}

/// `regex::bytes::Regex::new` followed by `is_match`: nothing when the
/// pattern does not compile. What a match is, is left to the names, except
/// for the pattern `Q\(.*\)`: it compiles, and on UTF-8 text it matches
/// exactly where `Q(` is followed, later on the same line, by `)`.
#[verifier::external_body]
fn regex_is_match(pattern: &str, haystack: &[u8]) -> (r: Option<bool>)
    ensures
        r is Some <==> regex_compiles(pattern@),
        r matches Some(found) ==> found == regex_finds(pattern@, haystack@),
        pattern@ == qstr_pattern() && valid_utf8(haystack@) ==> r == Some(
            defines_qstr(haystack@),
        ),
{
    match regex::bytes::Regex::new(pattern) {
        Ok(re) => Some(re.is_match(haystack)),
        Err(_) => None,
    }
}

/// The pattern of the lines that define a qstr: `Q\(.*\)`.
pub open spec fn qstr_pattern() -> Seq<char> {
    "Q\\(.*\\)"@
}

/// A line that defines a qstr is put in double quotes, so that the
/// preprocessor leaves it alone.
pub open spec fn quoted_qstrdef(line: Seq<char>, defines_qstr: bool) -> Seq<char> {
    if defines_qstr {
        "\""@ + line + "\""@
    } else {
        line
    }
}

/// Quotes a line of `qstrdefs.h` if it defines a qstr.
pub fn quote_qstrdef_line(line: &str) -> (s: String)
    ensures
        s@ == quoted_qstrdef(line@, defines_qstr(line.spec_bytes())),
{
    broadcast use encode_utf8_valid_utf8;

    match regex_is_match("Q\\(.*\\)", line.as_bytes()) {
        Some(true) => {
            let mut s = "\"".to_owned();
            s.append(line);
            s.append("\"");
            s
        },
        _ => line.to_owned(),
    }
}

/// The line for a qstr found in Rust sources.
pub fn qstr_line(qstr: &str) -> (line: String)
    ensures
        line@ == "\"Q("@ + qstr@ + ")\""@,
{
    let mut line = "\"Q(".to_owned();
    line.append(qstr);
    line.append(")\"");
    line
}

/// A preprocessed line that defines a qstr loses the quotes it was given;
/// the line between them, or nothing when it has none.
pub open spec fn unquoted_qstrdef(line: Seq<char>, defines_qstr: bool) -> Option<Seq<char>> {
    if !defines_qstr {
        Some(line)
    } else if line.len() >= 2 && line[0] == '"' && line[line.len() - 1] == '"' {
        Some(line.subrange(1, line.len() - 1))
    } else {
        None
    }
}

/// Takes the quotes off a preprocessed line that defines a qstr: nothing when
/// such a line is not quoted.
pub fn unquote_qstrdef_line(line: &str) -> (r: Option<String>)
    ensures
        match unquoted_qstrdef(line@, defines_qstr(line.spec_bytes())) {
            Some(s) => r matches Some(t) && t@ == s,
            None => r is None,
        },
{
    broadcast use encode_utf8_valid_utf8;

    match regex_is_match("Q\\(.*\\)", line.as_bytes()) {
        Some(true) => {
            let n = line.unicode_len();
            if n >= 2 && line.get_char(0) == '"' && line.get_char(n - 1) == '"' {
                Some(line.substring_char(1, n - 1).to_owned())
            } else {
                None
            }
        },
        _ => Some(line.to_owned()),
    }
}

/* ---------------------------------------------------------------------------
 * Sources and what scanning them finds
 * ------------------------------------------------------------------------- */

/// The C sources of the MicroPython core and the Rust sources of the
/// project's crates, as path bytes.
#[derive(Debug, Clone, PartialEq, Eq)]
pub struct ProjectSearch {
    pub c_srcs: Vec<Vec<u8>>,
    pub rust_srcs: Vec<Vec<u8>>,
}

/// What scanning one source file finds.
#[derive(Debug, Clone, PartialEq, Eq)]
pub struct ScanItem {
    pub qstrs: Vec<String>,
    pub moduledefs: Vec<String>,
    pub root_pointers: Vec<String>,
}

/// The cached scan of a C source: its path, the hash of the preprocessor
/// context it was scanned in, the hashes of the headers it depends on, and
/// what the scan found.
#[derive(Debug, Clone, PartialEq, Eq)]
pub struct CCacheItem {
    pub src_path: Vec<u8>,
    pub context_hash: String,
    pub deps: Vec<(Vec<u8>, String)>,
    pub qstrs: Vec<String>,
    pub moduledefs: Vec<String>,
    pub root_pointers: Vec<String>,
}

/// The position of the last `.` in `name`, if any.
pub open spec fn last_dot(name: Seq<u8>) -> Option<int>
    decreases name.len(),
{
    if name.len() == 0 {
        None
    } else if name.last() == 0x2e {
        Some(name.len() - 1)
    } else {
        last_dot(name.drop_last())
    }
}

/// `Path::extension` of a file name: what follows its last `.`, unless that
/// `.` starts the name or the name is `..`.
pub open spec fn extension(name: Seq<u8>) -> Option<Seq<u8>> {
    if name == seq![0x2eu8, 0x2e] {
        None
    } else {
        match last_dot(name) {
            Some(i) if i > 0 => Some(name.subrange(i + 1, name.len() as int)),
            _ => None,
        }
    }
}

proof fn lemma_last_dot(name: Seq<u8>)
    ensures
        last_dot(name) matches Some(i) ==> 0 <= i < name.len() && name[i] == 0x2e && forall|
            j: int,
        | i < j < name.len() ==> name[j] != 0x2e,
        last_dot(name) is None ==> forall|j: int| 0 <= j < name.len() ==> name[j] != 0x2e,
    decreases name.len(),
{
    if name.len() > 0 && name.last() != 0x2e {
        lemma_last_dot(name.drop_last());
        assert forall|j: int| 0 <= j < name.len() - 1 implies name[j] == name.drop_last()[j] by {}
    }
}

/// Whether a file name has the extension `wanted`, as `Path::extension`
/// tells extensions.
pub fn has_extension(file_name: &[u8], wanted: &[u8]) -> (b: bool)
    ensures
        b == (extension(file_name@) == Some(wanted@)),
{
    let n = file_name.len();
    if n == 2 && file_name[0] == 0x2e && file_name[1] == 0x2e {
        assert(file_name@ =~= seq![0x2eu8, 0x2e]);
        return false;
    }
    proof {
        if file_name@ == seq![0x2eu8, 0x2e] {
            assert(file_name@[0] == 0x2e && file_name@[1] == 0x2e);
        }
        lemma_last_dot(file_name@);
    }
    let mut i = n;
    assert(file_name@.take(n as int) =~= file_name@);
    while i > 0 && file_name[i - 1] != 0x2e
        invariant
            0 <= i <= n == file_name@.len(),
            last_dot(file_name@) == last_dot(file_name@.take(i as int)),
        decreases i,
    {
        assert(file_name@.take(i as int).drop_last() =~= file_name@.take(i - 1));
        i -= 1;
    }
    if i <= 1 {
        proof {
            if i == 1 {
                assert(file_name@.take(1).last() == 0x2e);
            }
            assert(file_name@.take(0) =~= Seq::<u8>::empty());
        }
        return false;
    }
    assert(file_name@.take(i as int).last() == 0x2e);
    assert(extension(file_name@) == Some(file_name@.subrange(i as int, n as int)));
    let tail_len = n - i;
    if tail_len != wanted.len() {
        assert(file_name@.subrange(i as int, n as int).len() != wanted@.len());
        return false;
    }
    let mut k: usize = 0;
    while k < tail_len
        invariant
            extension(file_name@) == Some(file_name@.subrange(i as int, n as int)),
            0 <= k <= tail_len,
            tail_len == wanted@.len(),
            i + tail_len == n == file_name@.len(),
            forall|j: int| 0 <= j < k ==> file_name@[i + j] == wanted@[j],
        decreases tail_len - k,
    {
        if file_name[i + k] != wanted[k] {
            assert(file_name@.subrange(i as int, n as int)[k as int] != wanted@[k as int]);
            return false;
        }
        k += 1;
    }
    assert(file_name@.subrange(i as int, n as int) =~= wanted@);
    true
}

/// Every qstr that the scans found, in order, one line each.
pub open spec fn qstr_lines_of(items: Seq<ScanItem>) -> Seq<Seq<char>>
    decreases items.len(),
{
    if items.len() == 0 {
        seq![]
    } else {
        qstr_lines_of(items.drop_last()) + items.last().qstrs@.map_values(
            |q: String| "\"Q("@ + q@ + ")\""@,
        )
    }
}

/// The lines that the qstrs of the scans add to `qstrdefs.h`.
pub fn qstr_lines(items: &[ScanItem]) -> (lines: Vec<String>)
    ensures
        lines@.map_values(|l: String| l@) == qstr_lines_of(items@),
{
    let mut lines: Vec<String> = Vec::new();
    let mut i: usize = 0;
    assert(items@.take(0) =~= Seq::<ScanItem>::empty());
    assert(lines@.map_values(|l: String| l@) =~= Seq::<Seq<char>>::empty());
    while i < items.len()
        invariant
            0 <= i <= items@.len(),
            lines@.map_values(|l: String| l@) == qstr_lines_of(items@.take(i as int)),
        decreases items@.len() - i,
    {
        let qstrs = &items[i].qstrs;
        let ghost before = lines@.map_values(|l: String| l@);
        let mut k: usize = 0;
        assert(qstrs@.take(0).map_values(|q: String| "\"Q("@ + q@ + ")\""@) =~= Seq::<Seq<char>>::empty());
        while k < qstrs.len()
            invariant
                0 <= k <= qstrs@.len(),
                lines@.map_values(|l: String| l@) == before + qstrs@.take(k as int).map_values(
                    |q: String| "\"Q("@ + q@ + ")\""@,
                ),
            decreases qstrs@.len() - k,
        {
            let line = qstr_line(qstrs[k].as_str());
            let ghost mid = lines@.map_values(|l: String| l@);
            lines.push(line);
            assert(lines@.map_values(|l: String| l@) =~= mid.push(line@));
            assert(qstrs@.take(k + 1).map_values(|q: String| "\"Q("@ + q@ + ")\""@) =~= qstrs@.take(
                k as int,
            ).map_values(|q: String| "\"Q("@ + q@ + ")\""@).push(line@));
            k += 1;
        }
        assert(qstrs@.take(qstrs@.len() as int) =~= qstrs@);
        assert(items@.take(i + 1).drop_last() =~= items@.take(i as int));
        assert(items@.take(i + 1).last() == items@[i as int]);
        i += 1;
    }
    assert(items@.take(items@.len() as int) =~= items@);
    lines
}

/// Each line of `src`, followed by `suffix`.
pub open spec fn suffixed(src: Seq<String>, suffix: Seq<char>) -> Seq<Seq<char>> {
    src.map_values(|l: String| l@ + suffix)
}

/// Every module definition that the scans found, in order.
pub open spec fn moduledef_lines_of(items: Seq<ScanItem>) -> Seq<Seq<char>>
    decreases items.len(),
{
    if items.len() == 0 {
        seq![]
    } else {
        moduledef_lines_of(items.drop_last()) + suffixed(items.last().moduledefs@, ""@)
    }
}

/// Every root pointer that the scans found, in order, each ended by `;`.
pub open spec fn root_pointer_lines_of(items: Seq<ScanItem>) -> Seq<Seq<char>>
    decreases items.len(),
{
    if items.len() == 0 {
        seq![]
    } else {
        root_pointer_lines_of(items.drop_last()) + suffixed(items.last().root_pointers@, ";"@)
    }
}

/// Appends each line of `src` to `lines`, followed by `suffix`.
fn push_suffixed(lines: &mut Vec<String>, src: &Vec<String>, suffix: &str)
    ensures
        final(lines)@.map_values(|l: String| l@) == old(lines)@.map_values(|l: String| l@)
            + suffixed(src@, suffix@),
{
    let ghost before = lines@.map_values(|l: String| l@);
    let mut k: usize = 0;
    assert(suffixed(src@.take(0), suffix@) =~= Seq::<Seq<char>>::empty());
    assert(lines@.map_values(|l: String| l@) =~= before + suffixed(src@.take(0), suffix@));
    while k < src.len()
        invariant
            0 <= k <= src@.len(),
            before == old(lines)@.map_values(|l: String| l@),
            lines@.map_values(|l: String| l@) == before + suffixed(src@.take(k as int), suffix@),
        decreases src@.len() - k,
    {
        let mut line = src[k].as_str().to_owned();
        line.append(suffix);
        let ghost mid = lines@.map_values(|l: String| l@);
        lines.push(line);
        assert(lines@.map_values(|l: String| l@) =~= mid.push(line@));
        assert(suffixed(src@.take(k + 1), suffix@) =~= suffixed(src@.take(k as int), suffix@).push(
            line@,
        ));
        k += 1;
    }
    assert(src@.take(src@.len() as int) =~= src@);
}

/// The lines of `moduledefs.collected`: every module definition found.
pub fn moduledef_lines(items: &[ScanItem]) -> (lines: Vec<String>)
    ensures
        lines@.map_values(|l: String| l@) == moduledef_lines_of(items@),
{
    let mut lines: Vec<String> = Vec::new();
    let mut i: usize = 0;
    assert(items@.take(0) =~= Seq::<ScanItem>::empty());
    assert(lines@.map_values(|l: String| l@) =~= Seq::<Seq<char>>::empty());
    while i < items.len()
        invariant
            0 <= i <= items@.len(),
            lines@.map_values(|l: String| l@) == moduledef_lines_of(items@.take(i as int)),
        decreases items@.len() - i,
    {
        push_suffixed(&mut lines, &items[i].moduledefs, "");
        assert(items@.take(i + 1).drop_last() =~= items@.take(i as int));
        assert(items@.take(i + 1).last() == items@[i as int]);
        i += 1;
    }
    assert(items@.take(items@.len() as int) =~= items@);
    lines
}

/// The lines of `root_pointers.h`: every root pointer found, ended by `;`.
pub fn root_pointer_lines(items: &[ScanItem]) -> (lines: Vec<String>)
    ensures
        lines@.map_values(|l: String| l@) == root_pointer_lines_of(items@),
{
    let mut lines: Vec<String> = Vec::new();
    let mut i: usize = 0;
    assert(items@.take(0) =~= Seq::<ScanItem>::empty());
    assert(lines@.map_values(|l: String| l@) =~= Seq::<Seq<char>>::empty());
    while i < items.len()
        invariant
            0 <= i <= items@.len(),
            lines@.map_values(|l: String| l@) == root_pointer_lines_of(items@.take(i as int)),
        decreases items@.len() - i,
    {
        push_suffixed(&mut lines, &items[i].root_pointers, ";");
        assert(items@.take(i + 1).drop_last() =~= items@.take(i as int));
        assert(items@.take(i + 1).last() == items@[i as int]);
        i += 1;
    }
    assert(items@.take(items@.len() as int) =~= items@);
    lines
}

/// The string that marks a qstr in macro-expanded Rust source: `qstr!`
/// expands, while scanning, to a tuple of this string and the qstr's text.
pub const QSTR_MARKER: &'static str = "__MICROPYTHON_RS_QSTR_VALUE__";

/// The qstr that a tuple of the string literals `first` and `second` marks,
/// if it is a marker tuple.
pub fn marked_qstr(first: &str, second: &str) -> (r: Option<String>)
    ensures
        r is Some <==> first@ == QSTR_MARKER@,
        r matches Some(q) ==> q@ == second@,
{
    if str_equal(first, QSTR_MARKER) {
        Some(second.to_owned())
    } else {
        None
    }
}

} // verus!

//! Which C compiler to run: from the command line, from the environment, or
//! the default `cc`, and how its command line splits into words.

use vstd::prelude::*;
use vstd::string::StringSliceAdditionalSpecFns;
use vstd::utf8::*;

use crate::text::copy_range;

verus! {

/// Where the compiler command came from.
#[derive(Debug, Clone, Copy, PartialEq, Eq, Structural)]
pub enum RawCcSource {
    CliArg,
    CcTargetEnvVar,
    CcTargetUnderscoredEnvVar,
    CcEnvVar,
    CcFallback,
}

/// A compiler command as given, and where it came from.
#[derive(Debug, Clone, PartialEq, Eq)]
pub struct RawCc {
    pub s: String,
    pub source: RawCcSource,
}

/// What the environment holds for a variable.
#[derive(Debug, Clone, PartialEq, Eq)]
pub enum EnvValue {
    NotPresent,
    Present(String),
    NotUnicode,
}

/// An environment variable that had to be read holds invalid UTF-8.
#[derive(Debug, Clone, PartialEq, Eq)]
pub struct EnvError {
    pub key: String,
}

pub open spec fn target_key(target: Seq<char>) -> Seq<char> {
    "CC_"@ + target
}

/// `-` and `.` become `_`.
pub open spec fn underscored(target: Seq<char>) -> Seq<char> {
    target.map_values(|c: char| if c == '-' || c == '.' { '_' } else { c })
}

/// `str::replace` of `-` and `.` by `_`.
#[verifier::external_body]
fn replace_separators(s: &str) -> (r: String)
    ensures
        r@ == underscored(s@),
{
    s.replace(['-', '.'], "_")
}

/// The variable that names the compiler for `target`: `CC_<target>`.
pub fn target_env_key(target: &str) -> (key: String)
    ensures
        key@ == target_key(target@),
{
    let mut key = "CC_".to_owned();
    key.append(target);
    key
}

/// The same variable with `-` and `.` in the target written as `_`.
pub fn underscored_env_key(target: &str) -> (key: String)
    ensures
        key@ == target_key(underscored(target@)),
{
    let mut key = "CC_".to_owned();
    key.append(replace_separators(target).as_str());
    key
}

pub struct RawCcView {
    pub s: Seq<char>,
    pub source: RawCcSource,
}

/// The variable `CC`, or the default.
pub open spec fn from_cc_var(cc_var: EnvValue) -> Result<RawCcView, Seq<char>> {
    match cc_var {
        EnvValue::Present(v) => Ok(RawCcView { s: v@, source: RawCcSource::CcEnvVar }),
        EnvValue::NotUnicode => Err("CC"@),
        EnvValue::NotPresent => Ok(RawCcView { s: "cc"@, source: RawCcSource::CcFallback }),
    }
}

/// The compiler command: the one given on the command line; else, with a
/// target, `CC_<target>`, then `CC_<target>` with `-` and `.` written as
/// `_`; else `CC`; else `cc`. A variable that had to be read and holds
/// invalid UTF-8 is an error naming it.
pub open spec fn raw_cc(
    cc: Option<String>,
    target: Option<String>,
    target_var: EnvValue,
    underscored_var: EnvValue,
    cc_var: EnvValue,
) -> Result<RawCcView, Seq<char>> {
    match cc {
        Some(c) => Ok(RawCcView { s: c@, source: RawCcSource::CliArg }),
        None => match target {
            Some(t) => match target_var {
                EnvValue::Present(v) => Ok(RawCcView { s: v@, source: RawCcSource::CcTargetEnvVar }),
                EnvValue::NotUnicode => Err(target_key(t@)),
                EnvValue::NotPresent => match underscored_var {
                    EnvValue::Present(v) => Ok(
                        RawCcView { s: v@, source: RawCcSource::CcTargetUnderscoredEnvVar },
                    ),
                    EnvValue::NotUnicode => Err(target_key(underscored(t@))),
                    EnvValue::NotPresent => from_cc_var(cc_var),
                },
            },
            None => from_cc_var(cc_var),
        },
    }
}

/// The order in which the compiler is chosen. A compiler given on the
/// command line wins over everything. Without one, and with a target,
/// `CC_<target>` wins when set, then its form with `-` and `.` written as
/// `_`; either of them holding invalid UTF-8 is an error naming it. Whenever neither
/// of those decides (no target, or neither variable set), `CC` decides the
/// same way whatever the target: its value when set, an error naming `CC`
/// when it is not UTF-8, and the default `cc` only when it is unset.
pub proof fn lemma_compiler_order(
    cc: Option<String>,
    target: Option<String>,
    target_var: EnvValue,
    underscored_var: EnvValue,
    cc_var: EnvValue,
)
    ensures
        cc matches Some(c) ==> raw_cc(cc, target, target_var, underscored_var, cc_var) == Ok::<
            RawCcView,
            Seq<char>,
        >(RawCcView { s: c@, source: RawCcSource::CliArg }),
        cc is None && target is Some ==> (target_var matches EnvValue::Present(v) ==> raw_cc(
            cc,
            target,
            target_var,
            underscored_var,
            cc_var,
        ) == Ok::<RawCcView, Seq<char>>(
            RawCcView { s: v@, source: RawCcSource::CcTargetEnvVar },
        )),
        cc is None ==> (target matches Some(t) ==> (target_var is NotUnicode ==> raw_cc(
            cc,
            target,
            target_var,
            underscored_var,
            cc_var,
        ) == Err::<RawCcView, Seq<char>>("CC_"@ + t@))),
        cc is None ==> (target matches Some(t) ==> (target_var is NotPresent && underscored_var
            is NotUnicode ==> raw_cc(cc, target, target_var, underscored_var, cc_var) == Err::<
            RawCcView,
            Seq<char>,
        >("CC_"@ + t@.map_values(|ch: char| if ch == '-' || ch == '.' { '_' } else { ch })))),
        cc is None && target is Some && target_var is NotPresent ==> (
        underscored_var matches EnvValue::Present(v) ==> raw_cc(
            cc,
            target,
            target_var,
            underscored_var,
            cc_var,
        ) == Ok::<RawCcView, Seq<char>>(
            RawCcView { s: v@, source: RawCcSource::CcTargetUnderscoredEnvVar },
        )),
        cc is None && (target is None || (target_var is NotPresent && underscored_var is NotPresent))
            ==> raw_cc(cc, target, target_var, underscored_var, cc_var) == raw_cc(
            None,
            None,
            EnvValue::NotPresent,
            EnvValue::NotPresent,
            cc_var,
        ),
        cc_var matches EnvValue::Present(v) ==> raw_cc(
            None,
            None,
            EnvValue::NotPresent,
            EnvValue::NotPresent,
            cc_var,
        ) == Ok::<RawCcView, Seq<char>>(RawCcView { s: v@, source: RawCcSource::CcEnvVar }),
        raw_cc(None, None, EnvValue::NotPresent, EnvValue::NotPresent, EnvValue::NotUnicode)
            == Err::<RawCcView, Seq<char>>("CC"@),
        raw_cc(None, None, EnvValue::NotPresent, EnvValue::NotPresent, EnvValue::NotPresent)
            == Ok::<RawCcView, Seq<char>>(RawCcView { s: "cc"@, source: RawCcSource::CcFallback }),
{
}

/// Chooses the compiler command. `target_var`, `underscored_var` and
/// `cc_var` are what the environment holds for `CC_<target>`, for the same
/// with `-` and `.` written as `_`, and for `CC`.
pub fn get_raw_cc(
    cc: Option<String>,
    target: Option<String>,
    target_var: EnvValue,
    underscored_var: EnvValue,
    cc_var: EnvValue,
) -> (r: Result<RawCc, EnvError>)
    ensures
        match r {
            Ok(raw) => raw_cc(cc, target, target_var, underscored_var, cc_var) == Ok::<
                RawCcView,
                Seq<char>,
            >(RawCcView { s: raw.s@, source: raw.source }),
            Err(e) => raw_cc(cc, target, target_var, underscored_var, cc_var) == Err::<
                RawCcView,
                Seq<char>,
            >(e.key@),
        },
{
    if let Some(cc) = cc {
        return Ok(RawCc { s: cc, source: RawCcSource::CliArg });
    }
    if let Some(target) = target {
        match target_var {
            EnvValue::Present(v) => {
                return Ok(RawCc { s: v, source: RawCcSource::CcTargetEnvVar });
            },
            EnvValue::NotUnicode => {
                return Err(EnvError { key: target_env_key(target.as_str()) });
            },
            EnvValue::NotPresent => {},
        }
        match underscored_var {
            EnvValue::Present(v) => {
                return Ok(RawCc { s: v, source: RawCcSource::CcTargetUnderscoredEnvVar });
            },
            EnvValue::NotUnicode => {
                return Err(EnvError { key: underscored_env_key(target.as_str()) });
            },
            EnvValue::NotPresent => {},
        }
    }
    match cc_var {
        EnvValue::Present(v) => Ok(RawCc { s: v, source: RawCcSource::CcEnvVar }),
        EnvValue::NotUnicode => Err(EnvError { key: "CC".to_owned() }),
        EnvValue::NotPresent => Ok(RawCc { s: "cc".to_owned(), source: RawCcSource::CcFallback }),
    }
}

/// The words of the first `n` bytes of a command line split at each space,
/// empty words included.
pub open spec fn words(b: Seq<u8>, n: int) -> Seq<Seq<u8>>
    decreases n,
{
    if n <= 0 {
        seq![seq![]]
    } else {
        let w = words(b, n - 1);
        if b[n - 1] == 0x20 {
            w.push(seq![])
        } else {
            w.update(w.len() - 1, w.last().push(b[n - 1]))
        }
    }
}

pub proof fn lemma_words_len(b: Seq<u8>, n: int)
    ensures
        words(b, n).len() >= 1,
    decreases n,
{
    if n > 0 {
        lemma_words_len(b, n - 1);
    }
}

pub open spec fn words_view(ws: Seq<Vec<u8>>) -> Seq<Seq<u8>> {
    ws.map_values(|w: Vec<u8>| w@)
}

/// Splits a command line at each space, as `str::split(' ')` does: the
/// first word is the program and the others are its arguments.
pub fn command_words(command: &[u8]) -> (ws: Vec<Vec<u8>>)
    ensures
        words_view(ws@) == words(command@, command@.len() as int),
        ws@.len() >= 1,
{
    let mut ws: Vec<Vec<u8>> = Vec::new();
    let mut current: Vec<u8> = Vec::new();
    let mut i: usize = 0;
    assert(words_view(ws@).push(current@) =~= words(command@, 0));
    while i < command.len()
        invariant
            0 <= i <= command@.len(),
            words_view(ws@).push(current@) == words(command@, i as int),
        decreases command@.len() - i,
    {
        let ghost before = words_view(ws@);
        let ghost w = words(command@, i as int);
        proof {
            lemma_words_len(command@, i as int);
        }
        if command[i] == 0x20 {
            let done = current;
            current = Vec::new();
            ws.push(done);
            assert(words_view(ws@) =~= before.push(done@));
            assert(words_view(ws@).push(current@) =~= w.push(seq![]));
        } else {
            current.push(command[i]);
            assert(words_view(ws@).push(current@) =~= w.update(w.len() - 1, w.last().push(command@[i as int])));
        }
        i += 1;
    }
    let ghost before = words_view(ws@);
    ws.push(current);
    assert(words_view(ws@) =~= before.push(current@));
    ws
}

/// The characters that `char::is_whitespace` accepts: those with Unicode's
/// `White_Space` property.
pub open spec fn is_white_space(c: char) -> bool {
    let n = c as u32;
    (0x9 <= n <= 0xd) || n == 0x20 || n == 0x85 || n == 0xa0 || n == 0x1680 || (0x2000 <= n
        <= 0x200a) || n == 0x2028 || n == 0x2029 || n == 0x202f || n == 0x205f || n == 0x3000
}

/// A text without its leading white space.
pub open spec fn trim_start(text: Seq<char>) -> Seq<char>
    decreases text.len(),
{
    if text.len() > 0 && is_white_space(text[0]) {
        trim_start(text.drop_first())
    } else {
        text
    }
}

/// A text without its trailing white space.
pub open spec fn trim_end(text: Seq<char>) -> Seq<char>
    decreases text.len(),
{
    if text.len() > 0 && is_white_space(text.last()) {
        trim_end(text.drop_last())
    } else {
        text
    }
}

/// A text without its leading and trailing white space.
pub open spec fn trimmed(text: Seq<char>) -> Seq<char> {
    trim_end(trim_start(text))
}

/// `str::trim`: the text without its leading and trailing white space.
#[verifier::external_body]
fn trim_text(text: &str) -> (r: String)
    ensures
        r@ == trimmed(text@),
{
    text.trim().to_owned()
}

/// The compiler command without leading and trailing whitespace.
pub fn trimmed_command(raw: &RawCc) -> (s: String)
    ensures
        s@ == trimmed(raw.s@),
{
    trim_text(raw.s.as_str())
}

/// The words joined back with one space between each two.
pub open spec fn joined(ws: Seq<Seq<u8>>) -> Seq<u8>
    decreases ws.len(),
{
    if ws.len() == 0 {
        seq![]
    } else if ws.len() == 1 {
        ws[0]
    } else {
        joined(ws.drop_last()) + seq![0x20u8] + ws.last()
    }
}

proof fn lemma_words_prefix(b: Seq<u8>, n: int)
    requires
        0 <= n <= b.len(),
    ensures
        joined(words(b, n)) == b.take(n),
        forall|i: int, j: int|
            0 <= i < words(b, n).len() && 0 <= j < words(b, n)[i].len() ==> #[trigger] words(
                b,
                n,
            )[i][j] != 0x20,
    decreases n,
{
    if n == 0 {
        assert(b.take(0) =~= Seq::<u8>::empty());
    } else {
        lemma_words_prefix(b, n - 1);
        lemma_words_len(b, n - 1);
        let w = words(b, n - 1);
        let c = b[n - 1];
        assert(b.take(n) =~= b.take(n - 1).push(c));
        if c == 0x20 {
            let v = w.push(seq![]);
            assert(v.drop_last() =~= w);
            assert(joined(v) =~= joined(w) + seq![0x20u8]);
        } else {
            let v = w.update(w.len() - 1, w.last().push(c));
            if w.len() == 1 {
                assert(joined(v) =~= w[0].push(c));
            } else {
                assert(v.drop_last() =~= w.drop_last());
                assert(joined(v) =~= joined(w.drop_last()) + seq![0x20u8] + w.last().push(c));
                assert(joined(w) =~= joined(w.drop_last()) + seq![0x20u8] + w.last());
            }
            assert forall|i: int, j: int|
                0 <= i < v.len() && 0 <= j < v[i].len() implies #[trigger] v[i][j] != 0x20 by {
                if i == w.len() - 1 && j == w.last().len() {
                } else {
                    assert(v[i][j] == w[i][j]);
                }
            }
        }
    }
}

/// Splitting a command line loses nothing: the words contain no space,
/// and joined with single spaces they give back the command line.
pub proof fn lemma_words_join(command: Seq<u8>)
    ensures
        joined(words(command, command.len() as int)) == command,
        forall|i: int, j: int|
            0 <= i < words(command, command.len() as int).len() && 0 <= j < words(
                command,
                command.len() as int,
            )[i].len() ==> #[trigger] words(command, command.len() as int)[i][j] != 0x20,
{
    lemma_words_prefix(command, command.len() as int);
    assert(command.take(command.len() as int) =~= command);
}

/// A compiler to run: the program and its arguments.
#[derive(Debug, Clone, PartialEq, Eq)]
pub struct CcCommand {
    pub program: Vec<u8>,
    pub args: Vec<Vec<u8>>,
}

/// How the compiler is run once the file system has said whether the
/// trimmed command names an existing file: that file, with no arguments;
/// otherwise the command splits at each space, its first word being the
/// program and the others its arguments.
pub fn cc_command(raw: &RawCc, exists: bool) -> (c: CcCommand)
    ensures
        exists ==> c.program@ == encode_utf8(trimmed(raw.s@)) && c.args@.len() == 0,
        !exists ==> seq![c.program@] + words_view(c.args@) == words(
            encode_utf8(trimmed(raw.s@)),
            encode_utf8(trimmed(raw.s@)).len() as int,
        ),
{
    let command = trimmed_command(raw);
    let bytes = command.as_str().as_bytes();
    if exists {
        CcCommand { program: copy_range(bytes, 0, bytes.len()), args: Vec::new() }
    } else {
        let mut ws = command_words(bytes);
        let ghost all = words_view(ws@);
        let program = ws.remove(0);
        assert(seq![program@] + words_view(ws@) =~= all);
        CcCommand { program, args: ws }
    }
}

} // verus!

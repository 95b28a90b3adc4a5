//! Validation of a `#[pyfunction]` signature: the Python-facing argument
//! list, when one is given, against the parameters of the Rust function.
//!
//! Context-token parameters (`MicroPython`, `MicroPythonMut`, `Gc`) take no
//! part in the Python signature and may stand anywhere among the Rust
//! parameters; every other Rust parameter must match the next argument of the
//! Python signature by name.

use vstd::prelude::*;

use crate::config_map::str_equal;

verus! {

/// A parameter that hands the function a context token instead of a Python
/// argument.
#[derive(Debug, Clone, Copy, PartialEq, Eq, Structural)]
pub enum TokenType {
    MicroPython,
    MicroPythonMut,
    Gc,
}

/// How a Python argument may be passed.
#[derive(Debug, Clone, Copy, PartialEq, Eq, Structural)]
pub enum ArgKind {
    Positional,
    PositionalOrKeyword,
    Keyword,
}

/// Where in the source an argument comes from, or an error points: an
/// element of the Python signature or a parameter of the Rust function, by
/// position.
#[derive(Debug, Clone, Copy, PartialEq, Eq, Structural)]
pub enum Site {
    Elem(usize),
    Param(usize),
}

/// An element of a Python signature such as `(a, /, b = 42, *args, c, **kwargs)`.
#[derive(Debug, Clone, PartialEq, Eq)]
pub enum Elem {
    /// `/`
    Slash,
    /// A bare `*`.
    Star,
    /// `name` or `name = default`.
    Arg { name: String, has_default: bool },
    /// `*name`
    StarArgs { name: String },
    /// `**name`
    StarKwargs { name: String },
}

/// A parameter of the Rust function.
#[derive(Debug, Clone, PartialEq, Eq)]
pub enum RustParam {
    /// `self`, `&self` or `&mut self`.
    Receiver,
    /// A typed parameter; `name` is absent when its pattern is not a plain
    /// identifier, `token` is present when its type is a context token.
    Typed { name: Option<String>, token: Option<TokenType> },
}

/// An argument of the validated signature, in the order of the Rust
/// parameters.
#[derive(Debug, Clone, PartialEq, Eq)]
pub enum ValidatedArg {
    Token(TokenType),
    /// A Python argument; `param` is the Rust parameter that receives it.
    PythonArg { name: String, kind: ArgKind, has_default: bool, origin: Site, param: usize },
    StarArgs { name: String, origin: Site },
    StarKwargs { name: String, origin: Site },
}

pub enum ArgView {
    Token(TokenType),
    PythonArg { name: Seq<char>, kind: ArgKind, has_default: bool, origin: Site, param: int },
    StarArgs { name: Seq<char>, origin: Site },
    StarKwargs { name: Seq<char>, origin: Site },
}

impl View for ValidatedArg {
    type V = ArgView;

    open spec fn view(&self) -> ArgView {
        match self {
            ValidatedArg::Token(t) => ArgView::Token(*t),
            ValidatedArg::PythonArg { name, kind, has_default, origin, param } => ArgView::PythonArg {
                name: name@,
                kind: *kind,
                has_default: *has_default,
                origin: *origin,
                param: *param as int,
            },
            ValidatedArg::StarArgs { name, origin } => ArgView::StarArgs {
                name: name@,
                origin: *origin,
            },
            ValidatedArg::StarKwargs { name, origin } => ArgView::StarKwargs {
                name: name@,
                origin: *origin,
            },
        }
    }
}

pub open spec fn args_view(args: Seq<ValidatedArg>) -> Seq<ArgView> {
    args.map_values(|a: ValidatedArg| a@)
}

/// A validated signature.
#[derive(Debug)]
pub struct ValidatedSignature {
    pub args: Vec<ValidatedArg>,
}

/// What is wrong with a signature.
#[derive(Debug, Clone, Copy, PartialEq, Eq, Structural)]
pub enum SignatureErrorKind {
    /// `**kwargs must be last`
    KwargsNotLast,
    /// `duplicate signature argument`
    DuplicateArgument,
    /// `` `/` must follow positional arguments and precede `*` ``
    MisplacedSlash,
    /// `` `*` may only appear once ``
    RepeatedStar,
    /// `required positional argument follows an argument with a default`
    RequiredAfterDefault,
    /// `` bare `*` must be followed by a keyword-only argument ``
    BareStarWithoutKeyword,
    /// `pyfunction parameters must be identifiers (optionally `mut`)`
    NotIdentifier,
    /// `freestanding pyfunction cannot have a receiver`
    Receiver,
    /// `Rust parameter is missing from the Python signature`
    MissingFromSignature,
    /// The Rust parameter `param` stands where the signature expects
    /// another argument.
    NameMismatch { param: usize },
    /// `signature argument has no matching Rust parameter`
    UnmatchedArgument,
}

/// A signature error and where it points.
#[derive(Debug, Clone, Copy, PartialEq, Eq, Structural)]
pub struct SignatureError {
    pub kind: SignatureErrorKind,
    pub site: Site,
}

pub open spec fn sig_error(kind: SignatureErrorKind, site: Site) -> SignatureError {
    SignatureError { kind, site }
}

/// Which context token a type whose path ends in `segment` is.
pub open spec fn token_of(segment: Seq<char>) -> Option<TokenType> {
    if segment == "MicroPython"@ {
        Some(TokenType::MicroPython)
    } else if segment == "MicroPythonMut"@ {
        Some(TokenType::MicroPythonMut)
    } else if segment == "Gc"@ {
        Some(TokenType::Gc)
    } else {
        None
    }
}

/// The context token that a type path ending in `segment` names, if any.
pub fn token_type(segment: &str) -> (t: Option<TokenType>)
    ensures
        t == token_of(segment@),
{
    if str_equal(segment, "MicroPython") {
        Some(TokenType::MicroPython)
    } else if str_equal(segment, "MicroPythonMut") {
        Some(TokenType::MicroPythonMut)
    } else if str_equal(segment, "Gc") {
        Some(TokenType::Gc)
    } else {
        None
    }
}

/* ---------------------------------------------------------------------------
 * The Python side
 * ------------------------------------------------------------------------- */

/// What reading the Python signature has established so far.
pub struct Reading {
    pub args: Seq<ArgView>,
    pub names: Seq<Seq<char>>,
    pub slash_seen: bool,
    pub keyword_only: bool,
    pub kwargs_seen: bool,
    pub default_seen: bool,
    pub bare_star: Option<int>,
    pub keyword_count: int,
}

pub open spec fn start_reading() -> Reading {
    Reading {
        args: seq![],
        names: seq![],
        slash_seen: false,
        keyword_only: false,
        kwargs_seen: false,
        default_seen: false,
        bare_star: None,
        keyword_count: 0,
    }
}

/// The name an element binds, if it binds one.
pub open spec fn elem_name(e: Elem) -> Option<Seq<char>> {
    match e {
        Elem::Arg { name, .. } => Some(name@),
        Elem::StarArgs { name } => Some(name@),
        Elem::StarKwargs { name } => Some(name@),
        _ => None,
    }
}

/// A `/` makes every argument before it positional-only.
pub open spec fn positional(a: ArgView) -> ArgView {
    match a {
        ArgView::PythonArg { name, kind: _, has_default, origin, param } => ArgView::PythonArg {
            name,
            kind: ArgKind::Positional,
            has_default,
            origin,
            param,
        },
        _ => a,
    }
}

/// Reads element `e`, the `i`-th of the signature.
pub open spec fn read_elem(r: Reading, e: Elem, i: int) -> Result<Reading, SignatureError> {
    let site = Site::Elem(i as usize);
    if r.kwargs_seen {
        Err(sig_error(SignatureErrorKind::KwargsNotLast, site))
    } else if elem_name(e) matches Some(n) && r.names.contains(n) {
        Err(sig_error(SignatureErrorKind::DuplicateArgument, site))
    } else {
        let names = match elem_name(e) {
            Some(n) => r.names.push(n),
            None => r.names,
        };
        match e {
            Elem::Slash => if r.slash_seen || r.keyword_only || r.args.len() == 0 {
                Err(sig_error(SignatureErrorKind::MisplacedSlash, site))
            } else {
                Ok(
                    Reading {
                        args: r.args.map_values(|a: ArgView| positional(a)),
                        names,
                        slash_seen: true,
                        ..r
                    },
                )
            },
            Elem::Star => if r.keyword_only {
                Err(sig_error(SignatureErrorKind::RepeatedStar, site))
            } else {
                Ok(Reading { names, keyword_only: true, bare_star: Some(i), ..r })
            },
            Elem::StarArgs { name } => if r.keyword_only {
                Err(sig_error(SignatureErrorKind::RepeatedStar, site))
            } else {
                Ok(
                    Reading {
                        args: r.args.push(ArgView::StarArgs { name: name@, origin: site }),
                        names,
                        keyword_only: true,
                        ..r
                    },
                )
            },
            Elem::StarKwargs { name } => Ok(
                Reading {
                    args: r.args.push(ArgView::StarKwargs { name: name@, origin: site }),
                    names,
                    kwargs_seen: true,
                    ..r
                },
            ),
            Elem::Arg { name, has_default } => if r.keyword_only {
                Ok(
                    Reading {
                        args: r.args.push(
                            ArgView::PythonArg {
                                name: name@,
                                kind: ArgKind::Keyword,
                                has_default,
                                origin: site,
                                param: 0,
                            },
                        ),
                        names,
                        keyword_count: r.keyword_count + 1,
                        ..r
                    },
                )
            } else if r.default_seen && !has_default {
                Err(sig_error(SignatureErrorKind::RequiredAfterDefault, site))
            } else {
                Ok(
                    Reading {
                        args: r.args.push(
                            ArgView::PythonArg {
                                name: name@,
                                kind: ArgKind::PositionalOrKeyword,
                                has_default,
                                origin: site,
                                param: 0,
                            },
                        ),
                        names,
                        default_seen: r.default_seen || has_default,
                        ..r
                    },
                )
            },
        }
    }
}

/// Reads the first `n` elements.
pub open spec fn read_elems(elems: Seq<Elem>, n: int) -> Result<Reading, SignatureError>
    decreases n,
{
    if n <= 0 {
        Ok(start_reading())
    } else {
        match read_elems(elems, n - 1) {
            Err(e) => Err(e),
            Ok(r) => read_elem(r, elems[n - 1], n - 1),
        }
    }
}

/// The Python arguments that a signature declares, in its order.
pub open spec fn signature_args(elems: Seq<Elem>) -> Result<Seq<ArgView>, SignatureError> {
    match read_elems(elems, elems.len() as int) {
        Err(e) => Err(e),
        Ok(r) => match r.bare_star {
            Some(j) if r.keyword_count == 0 => Err(
                sig_error(SignatureErrorKind::BareStarWithoutKeyword, Site::Elem(j as usize)),
            ),
            _ => Ok(r.args),
        },
    }
}

/// Without a signature, every Rust parameter that is not a context token is
/// a positional-or-keyword argument; the first `n` parameters.
pub open spec fn parameter_args(params: Seq<RustParam>, n: int) -> Result<
    Seq<ArgView>,
    SignatureError,
>
    decreases n,
{
    if n <= 0 {
        Ok(seq![])
    } else {
        match parameter_args(params, n - 1) {
            Err(e) => Err(e),
            Ok(args) => match params[n - 1] {
                RustParam::Typed { name, token: None } => match name {
                    None => Err(
                        sig_error(SignatureErrorKind::NotIdentifier, Site::Param((n - 1) as usize)),
                    ),
                    Some(name) => Ok(
                        args.push(
                            ArgView::PythonArg {
                                name: name@,
                                kind: ArgKind::PositionalOrKeyword,
                                has_default: false,
                                origin: Site::Param((n - 1) as usize),
                                param: 0,
                            },
                        ),
                    ),
                },
                _ => Ok(args),
            },
        }
    }
}

/* ---------------------------------------------------------------------------
 * Matching the Rust parameters
 * ------------------------------------------------------------------------- */

pub open spec fn arg_name(a: ArgView) -> Seq<char> {
    match a {
        ArgView::PythonArg { name, .. } => name,
        ArgView::StarArgs { name, .. } => name,
        ArgView::StarKwargs { name, .. } => name,
        ArgView::Token(_) => seq![],
    }
}

pub open spec fn arg_origin(a: ArgView) -> Site {
    match a {
        ArgView::PythonArg { origin, .. } => origin,
        ArgView::StarArgs { origin, .. } => origin,
        ArgView::StarKwargs { origin, .. } => origin,
        ArgView::Token(_) => Site::Param(0),
    }
}

/// A Python argument bound to the Rust parameter `i`.
pub open spec fn bound_to(a: ArgView, i: int) -> ArgView {
    match a {
        ArgView::PythonArg { name, kind, has_default, origin, param: _ } => ArgView::PythonArg {
            name,
            kind,
            has_default,
            origin,
            param: i,
        },
        _ => a,
    }
}

/// Matches the first `n` Rust parameters against the Python arguments: the
/// validated arguments so far and how many Python arguments they used.
pub open spec fn match_params(params: Seq<RustParam>, n: int, python: Seq<ArgView>) -> Result<
    (Seq<ArgView>, int),
    SignatureError,
>
    decreases n,
{
    if n <= 0 {
        Ok((seq![], 0))
    } else {
        match match_params(params, n - 1, python) {
            Err(e) => Err(e),
            Ok((out, used)) => {
                let i = n - 1;
                let site = Site::Param(i as usize);
                match params[i] {
                    RustParam::Receiver => Err(sig_error(SignatureErrorKind::Receiver, site)),
                    RustParam::Typed { name: None, .. } => Err(
                        sig_error(SignatureErrorKind::NotIdentifier, site),
                    ),
                    RustParam::Typed { name: Some(_), token: Some(t) } => Ok(
                        (out.push(ArgView::Token(t)), used),
                    ),
                    RustParam::Typed { name: Some(name), token: None } => if used >= python.len() {
                        Err(sig_error(SignatureErrorKind::MissingFromSignature, site))
                    } else if arg_name(python[used]) != name@ {
                        Err(
                            sig_error(
                                SignatureErrorKind::NameMismatch { param: i as usize },
                                arg_origin(python[used]),
                            ),
                        )
                    } else {
                        Ok((out.push(bound_to(python[used], i)), used + 1))
                    },
                }
            },
        }
    }
}

/// The Python arguments: those of the signature, or without one those that
/// the parameters give.
pub open spec fn python_args(params: Seq<RustParam>, signature: Option<Seq<Elem>>) -> Result<
    Seq<ArgView>,
    SignatureError,
> {
    match signature {
        Some(elems) => signature_args(elems),
        None => parameter_args(params, params.len() as int),
    }
}

/// The validated signature of a function with parameters `params` and the
/// Python signature `signature`, if one was given.
pub open spec fn validated(params: Seq<RustParam>, signature: Option<Seq<Elem>>) -> Result<
    Seq<ArgView>,
    SignatureError,
> {
    match python_args(params, signature) {
        Err(e) => Err(e),
        Ok(python) => match match_params(params, params.len() as int, python) {
            Err(e) => Err(e),
            Ok((out, used)) => if used < python.len() {
                Err(sig_error(SignatureErrorKind::UnmatchedArgument, arg_origin(python[used])))
            } else {
                Ok(out)
            },
        },
    }
}

/* ---------------------------------------------------------------------------
 * A failure stays a failure
 * ------------------------------------------------------------------------- */

pub proof fn lemma_read_elems_failed(elems: Seq<Elem>, n: int, m: int)
    requires
        0 <= n <= m,
        read_elems(elems, n) is Err,
    ensures
        read_elems(elems, m) == read_elems(elems, n),
    decreases m - n,
{
    if n < m {
        lemma_read_elems_failed(elems, n, m - 1);
    }
}

pub proof fn lemma_parameter_args_failed(params: Seq<RustParam>, n: int, m: int)
    requires
        0 <= n <= m,
        parameter_args(params, n) is Err,
    ensures
        parameter_args(params, m) == parameter_args(params, n),
    decreases m - n,
{
    if n < m {
        lemma_parameter_args_failed(params, n, m - 1);
    }
}

pub proof fn lemma_match_params_failed(params: Seq<RustParam>, n: int, m: int, python: Seq<ArgView>)
    requires
        0 <= n <= m,
        match_params(params, n, python) is Err,
    ensures
        match_params(params, m, python) == match_params(params, n, python),
    decreases m - n,
{
    if n < m {
        lemma_match_params_failed(params, n, m - 1, python);
    }
}

/* ---------------------------------------------------------------------------
 * Validation
 * ------------------------------------------------------------------------- */

pub open spec fn names_view(names: Seq<String>) -> Seq<Seq<char>> {
    names.map_values(|s: String| s@)
}

pub open spec fn star_view(bare_star: Option<usize>) -> Option<int> {
    match bare_star {
        Some(j) => Some(j as int),
        None => None,
    }
}

fn contains_name(names: &Vec<String>, name: &str) -> (b: bool)
    ensures
        b == names_view(names@).contains(name@),
{
    let mut i: usize = 0;
    while i < names.len()
        invariant
            0 <= i <= names@.len(),
            forall|k: int| 0 <= k < i ==> #[trigger] names@[k]@ != name@,
        decreases names@.len() - i,
    {
        if str_equal(names[i].as_str(), name) {
            assert(names_view(names@)[i as int] == name@);
            return true;
        }
        i += 1;
    }
    assert(!names_view(names@).contains(name@)) by {
        if names_view(names@).contains(name@) {
            let k = choose|k: int| 0 <= k < names@.len() && names_view(names@)[k] == name@;
            assert(names@[k]@ != name@);
        }
    }
    false
}

fn make_positional(a: &ValidatedArg) -> (r: ValidatedArg)
    ensures
        r@ == positional(a@),
{
    match a {
        ValidatedArg::PythonArg { name, kind: _, has_default, origin, param } => {
            ValidatedArg::PythonArg {
                name: name.clone(),
                kind: ArgKind::Positional,
                has_default: *has_default,
                origin: *origin,
                param: *param,
            }
        },
        ValidatedArg::Token(t) => ValidatedArg::Token(*t),
        ValidatedArg::StarArgs { name, origin } => ValidatedArg::StarArgs {
            name: name.clone(),
            origin: *origin,
        },
        ValidatedArg::StarKwargs { name, origin } => ValidatedArg::StarKwargs {
            name: name.clone(),
            origin: *origin,
        },
    }
}

fn bind(a: &ValidatedArg, i: usize) -> (r: ValidatedArg)
    ensures
        r@ == bound_to(a@, i as int),
{
    match a {
        ValidatedArg::PythonArg { name, kind, has_default, origin, param: _ } => {
            ValidatedArg::PythonArg {
                name: name.clone(),
                kind: *kind,
                has_default: *has_default,
                origin: *origin,
                param: i,
            }
        },
        ValidatedArg::Token(t) => ValidatedArg::Token(*t),
        ValidatedArg::StarArgs { name, origin } => ValidatedArg::StarArgs {
            name: name.clone(),
            origin: *origin,
        },
        ValidatedArg::StarKwargs { name, origin } => ValidatedArg::StarKwargs {
            name: name.clone(),
            origin: *origin,
        },
    }
}

fn name_and_origin(a: &ValidatedArg) -> (r: (&str, Site))
    ensures
        r.0@ == arg_name(a@),
        r.1 == arg_origin(a@),
{
    match a {
        ValidatedArg::PythonArg { name, origin, .. } => (name.as_str(), *origin),
        ValidatedArg::StarArgs { name, origin } => (name.as_str(), *origin),
        ValidatedArg::StarKwargs { name, origin } => (name.as_str(), *origin),
        ValidatedArg::Token(_) => {
            proof {
                reveal_strlit("");
            }
            ("", Site::Param(0))
        },
    }
}

/// The Python arguments that a signature declares, in its order.
fn read_signature(elems: &[Elem]) -> (r: Result<Vec<ValidatedArg>, SignatureError>)
    ensures
        match r {
            Ok(args) => signature_args(elems@) == Ok::<Seq<ArgView>, SignatureError>(
                args_view(args@),
            ),
            Err(e) => signature_args(elems@) == Err::<Seq<ArgView>, SignatureError>(e),
        },
{
    let mut args: Vec<ValidatedArg> = Vec::new();
    let mut names: Vec<String> = Vec::new();
    let mut slash_seen = false;
    let mut keyword_only = false;
    let mut kwargs_seen = false;
    let mut default_seen = false;
    let mut bare_star: Option<usize> = None;
    let mut keyword_count: usize = 0;
    let mut i: usize = 0;
    assert(args_view(args@) =~= Seq::<ArgView>::empty());
    assert(names_view(names@) =~= Seq::<Seq<char>>::empty());
    while i < elems.len()
        invariant
            0 <= i <= elems@.len(),
            keyword_count <= i,
            read_elems(elems@, i as int) == Ok::<Reading, SignatureError>(
                Reading {
                    args: args_view(args@),
                    names: names_view(names@),
                    slash_seen,
                    keyword_only,
                    kwargs_seen,
                    default_seen,
                    bare_star: star_view(bare_star),
                    keyword_count: keyword_count as int,
                },
            ),
        decreases elems@.len() - i,
    {
        let site = Site::Elem(i);
        proof {
            if read_elems(elems@, i + 1) is Err {
                lemma_read_elems_failed(elems@, i + 1, elems@.len() as int);
            }
        }
        if kwargs_seen {
            return Err(SignatureError { kind: SignatureErrorKind::KwargsNotLast, site });
        }
        let elem = &elems[i];
        let ghost old_names = names_view(names@);
        match elem {
            Elem::Arg { name, .. } | Elem::StarArgs { name } | Elem::StarKwargs { name } => {
                if contains_name(&names, name.as_str()) {
                    return Err(SignatureError { kind: SignatureErrorKind::DuplicateArgument, site });
                }
                names.push(name.clone());
                assert(names_view(names@) =~= old_names.push(name@));
            },
            _ => {},
        }
        let ghost old_args = args_view(args@);
        match elem {
            Elem::Slash => {
                if slash_seen || keyword_only || args.len() == 0 {
                    return Err(SignatureError { kind: SignatureErrorKind::MisplacedSlash, site });
                }
                slash_seen = true;
                let mut converted: Vec<ValidatedArg> = Vec::new();
                let mut k: usize = 0;
                assert(args_view(converted@) =~= old_args.take(0).map_values(
                    |a: ArgView| positional(a),
                ));
                while k < args.len()
                    invariant
                        old_args == args_view(args@),
                        0 <= k <= args@.len(),
                        args_view(converted@) == old_args.take(k as int).map_values(
                            |a: ArgView| positional(a),
                        ),
                    decreases args@.len() - k,
                {
                    let ghost before = args_view(converted@);
                    let c = make_positional(&args[k]);
                    converted.push(c);
                    assert(old_args[k as int] == args@[k as int]@);
                    assert(args_view(converted@) =~= before.push(c@));
                    assert(old_args.take(k + 1).map_values(|a: ArgView| positional(a)) =~= old_args.take(
                        k as int,
                    ).map_values(|a: ArgView| positional(a)).push(positional(old_args[k as int])));
                    k += 1;
                }
                assert(old_args.take(args@.len() as int) =~= old_args);
                args = converted;
            },
            Elem::Star => {
                if keyword_only {
                    return Err(SignatureError { kind: SignatureErrorKind::RepeatedStar, site });
                }
                keyword_only = true;
                bare_star = Some(i);
            },
            Elem::StarArgs { name } => {
                if keyword_only {
                    return Err(SignatureError { kind: SignatureErrorKind::RepeatedStar, site });
                }
                keyword_only = true;
                args.push(ValidatedArg::StarArgs { name: name.clone(), origin: site });
                assert(args_view(args@) =~= old_args.push(
                    ArgView::StarArgs { name: name@, origin: site },
                ));
            },
            Elem::StarKwargs { name } => {
                kwargs_seen = true;
                args.push(ValidatedArg::StarKwargs { name: name.clone(), origin: site });
                assert(args_view(args@) =~= old_args.push(
                    ArgView::StarKwargs { name: name@, origin: site },
                ));
            },
            Elem::Arg { name, has_default } => {
                let kind = if keyword_only {
                    keyword_count += 1;
                    ArgKind::Keyword
                } else {
                    if default_seen && !*has_default {
                        return Err(
                            SignatureError { kind: SignatureErrorKind::RequiredAfterDefault, site },
                        );
                    }
                    default_seen = default_seen || *has_default;
                    ArgKind::PositionalOrKeyword
                };
                args.push(
                    ValidatedArg::PythonArg {
                        name: name.clone(),
                        kind,
                        has_default: *has_default,
                        origin: site,
                        param: 0,
                    },
                );
                assert(args_view(args@) =~= old_args.push(
                    ArgView::PythonArg {
                        name: name@,
                        kind,
                        has_default: *has_default,
                        origin: site,
                        param: 0,
                    },
                ));
            },
        }
        i += 1;
    }
    match bare_star {
        Some(j) => {
            if keyword_count == 0 {
                return Err(
                    SignatureError {
                        kind: SignatureErrorKind::BareStarWithoutKeyword,
                        site: Site::Elem(j),
                    },
                );
            }
        },
        None => {},
    }
    Ok(args)
}

/// Without a signature: the Rust parameters that are not context tokens.
fn read_parameters(params: &[RustParam]) -> (r: Result<Vec<ValidatedArg>, SignatureError>)
    ensures
        match r {
            Ok(args) => parameter_args(params@, params@.len() as int) == Ok::<
                Seq<ArgView>,
                SignatureError,
            >(args_view(args@)),
            Err(e) => parameter_args(params@, params@.len() as int) == Err::<
                Seq<ArgView>,
                SignatureError,
            >(e),
        },
{
    let mut args: Vec<ValidatedArg> = Vec::new();
    let mut i: usize = 0;
    assert(args_view(args@) =~= Seq::<ArgView>::empty());
    while i < params.len()
        invariant
            0 <= i <= params@.len(),
            parameter_args(params@, i as int) == Ok::<Seq<ArgView>, SignatureError>(
                args_view(args@),
            ),
        decreases params@.len() - i,
    {
        proof {
            if parameter_args(params@, i + 1) is Err {
                lemma_parameter_args_failed(params@, i + 1, params@.len() as int);
            }
        }
        match &params[i] {
            RustParam::Typed { name, token: None } => match name {
                None => {
                    return Err(
                        SignatureError {
                            kind: SignatureErrorKind::NotIdentifier,
                            site: Site::Param(i),
                        },
                    );
                },
                Some(name) => {
                    let ghost old_args = args_view(args@);
                    args.push(
                        ValidatedArg::PythonArg {
                            name: name.clone(),
                            kind: ArgKind::PositionalOrKeyword,
                            has_default: false,
                            origin: Site::Param(i),
                            param: 0,
                        },
                    );
                    assert(args_view(args@) =~= old_args.push(
                        ArgView::PythonArg {
                            name: name@,
                            kind: ArgKind::PositionalOrKeyword,
                            has_default: false,
                            origin: Site::Param(i),
                            param: 0,
                        },
                    ));
                },
            },
            _ => {},
        }
        i += 1;
    }
    Ok(args)
}

/// Validates a function's parameters against its Python signature, or,
/// without one, derives the signature from the parameters.
pub fn validate_signature(params: &[RustParam], signature: Option<&[Elem]>) -> (r: Result<
    ValidatedSignature,
    SignatureError,
>)
    ensures
        match r {
            Ok(v) => validated(
                params@,
                match signature {
                    Some(s) => Some(s@),
                    None => None,
                },
            ) == Ok::<Seq<ArgView>, SignatureError>(args_view(v.args@)),
            Err(e) => validated(
                params@,
                match signature {
                    Some(s) => Some(s@),
                    None => None,
                },
            ) == Err::<Seq<ArgView>, SignatureError>(e),
        },
{
    let python = match signature {
        Some(elems) => read_signature(elems),
        None => read_parameters(params),
    };
    let python = match python {
        Err(e) => {
            return Err(e);
        },
        Ok(p) => p,
    };
    let ghost py = args_view(python@);
    let mut args: Vec<ValidatedArg> = Vec::new();
    let mut used: usize = 0;
    let mut i: usize = 0;
    assert(args_view(args@) =~= Seq::<ArgView>::empty());
    while i < params.len()
        invariant
            py == args_view(python@),
            python_args(
                params@,
                match signature {
                    Some(s) => Some(s@),
                    None => None,
                },
            ) == Ok::<Seq<ArgView>, SignatureError>(py),
            0 <= i <= params@.len(),
            used <= python@.len(),
            match_params(params@, i as int, py) == Ok::<(Seq<ArgView>, int), SignatureError>(
                (args_view(args@), used as int),
            ),
        decreases params@.len() - i,
    {
        let site = Site::Param(i);
        let ghost old_args = args_view(args@);
        proof {
            if match_params(params@, i + 1, py) is Err {
                lemma_match_params_failed(params@, i + 1, params@.len() as int, py);
            }
        }
        match &params[i] {
            RustParam::Receiver => {
                return Err(SignatureError { kind: SignatureErrorKind::Receiver, site });
            },
            RustParam::Typed { name: None, .. } => {
                return Err(SignatureError { kind: SignatureErrorKind::NotIdentifier, site });
            },
            RustParam::Typed { name: Some(_), token: Some(t) } => {
                args.push(ValidatedArg::Token(*t));
                assert(args_view(args@) =~= old_args.push(ArgView::Token(*t)));
            },
            RustParam::Typed { name: Some(name), token: None } => {
                if used >= python.len() {
                    return Err(
                        SignatureError { kind: SignatureErrorKind::MissingFromSignature, site },
                    );
                }
                let (expected, origin) = name_and_origin(&python[used]);
                if !str_equal(expected, name.as_str()) {
                    return Err(
                        SignatureError {
                            kind: SignatureErrorKind::NameMismatch { param: i },
                            site: origin,
                        },
                    );
                }
                args.push(bind(&python[used], i));
                assert(args_view(args@) =~= old_args.push(bound_to(py[used as int], i as int)));
                used += 1;
            },
        }
        i += 1;
    }
    if used < python.len() {
        let (_, origin) = name_and_origin(&python[used]);
        return Err(SignatureError { kind: SignatureErrorKind::UnmatchedArgument, site: origin });
    }
    Ok(ValidatedSignature { args })
}

/* ---------------------------------------------------------------------------
 * What a validated signature looks like
 * ------------------------------------------------------------------------- */

/// The validated argument for the Rust parameter `i`: a context token stays
/// a token; any other parameter receives the Python argument of its name.
pub open spec fn fits_param(p: RustParam, a: ArgView, i: int) -> bool {
    match p {
        RustParam::Typed { name: Some(name), token: Some(t) } => a == ArgView::Token(t),
        RustParam::Typed { name: Some(name), token: None } => !(a is Token) && arg_name(a)
            == name@ && (a matches ArgView::PythonArg { param, .. } ==> param == i),
        _ => false,
    }
}

proof fn lemma_match_params_shape(params: Seq<RustParam>, n: int, python: Seq<ArgView>)
    requires
        0 <= n <= params.len(),
        no_tokens(python),
    ensures
        match_params(params, n, python) matches Ok((out, used)) ==> out.len() == n && 0 <= used
            <= python.len() && forall|i: int|
            0 <= i < n ==> #[trigger] fits_param(params[i], out[i], i),
    decreases n,
{
    if n > 0 {
        lemma_match_params_shape(params, n - 1, python);
    }
}

pub open spec fn no_tokens(args: Seq<ArgView>) -> bool {
    forall|k: int| 0 <= k < args.len() ==> !(#[trigger] args[k] is Token)
}

proof fn lemma_no_tokens(params: Seq<RustParam>, signature: Option<Seq<Elem>>)
    ensures
        python_args(params, signature) matches Ok(python) ==> no_tokens(python),
{
    match signature {
        Some(elems) => lemma_reading_no_tokens(elems, elems.len() as int),
        None => lemma_parameters_no_tokens(params, params.len() as int),
    }
}

proof fn lemma_reading_no_tokens(elems: Seq<Elem>, n: int)
    ensures
        read_elems(elems, n) matches Ok(r) ==> forall|k: int|
            0 <= k < r.args.len() ==> !(#[trigger] r.args[k] is Token),
    decreases n,
{
    if n > 0 {
        lemma_reading_no_tokens(elems, n - 1);
        if let Ok(r) = read_elems(elems, n - 1) {
            if let Ok(s) = read_elem(r, elems[n - 1], n - 1) {
                assert forall|k: int| 0 <= k < s.args.len() implies !(#[trigger] s.args[k] is Token) by {
                    if k < r.args.len() {
                        assert(!(r.args[k] is Token));
                    }
                }
            }
        }
    }
}

proof fn lemma_parameters_no_tokens(params: Seq<RustParam>, n: int)
    ensures
        parameter_args(params, n) matches Ok(args) ==> forall|k: int|
            0 <= k < args.len() ==> !(#[trigger] args[k] is Token),
    decreases n,
{
    if n > 0 {
        lemma_parameters_no_tokens(params, n - 1);
    }
}

/// A validated signature has one argument per Rust parameter, in the same
/// order: context tokens stay where they are, and every other parameter is
/// bound to the Python argument of the same name.
pub proof fn lemma_validated_shape(params: Seq<RustParam>, signature: Option<Seq<Elem>>)
    ensures
        validated(params, signature) matches Ok(out) ==> out.len() == params.len() && forall|
            i: int,
        | 0 <= i < params.len() ==> #[trigger] fits_param(params[i], out[i], i),
{
    lemma_no_tokens(params, signature);
    if let Ok(py) = python_args(params, signature) {
        lemma_match_params_shape(params, params.len() as int, py);
    }
}


/// A bare `*` or `*args` stands before element `j`.
pub open spec fn star_before(elems: Seq<Elem>, j: int) -> bool {
    exists|k: int| 0 <= k < j && (#[trigger] elems[k] is Star || elems[k] is StarArgs)
}

/// A `/` stands after element `j` among the first `n` elements.
pub open spec fn slash_after(elems: Seq<Elem>, j: int, n: int) -> bool {
    exists|k: int| j < k < n && #[trigger] elems[k] is Slash
}

/// How the argument of element `j` may be passed, the first `n` elements
/// read: keyword-only after a bare `*` or `*args`, positional-only before a
/// `/`, positional-or-keyword otherwise.
pub open spec fn kind_in(elems: Seq<Elem>, j: int, n: int) -> ArgKind {
    if star_before(elems, j) {
        ArgKind::Keyword
    } else if slash_after(elems, j, n) {
        ArgKind::Positional
    } else {
        ArgKind::PositionalOrKeyword
    }
}

/// `a`, if it is a Python argument, comes from the element `name` or
/// `name = default` among the first `n` of `elems` that it names as its
/// origin: it has that name, has a default exactly when the element gives
/// one, and is passed as `kind_in` says.
pub open spec fn elem_source(elems: Seq<Elem>, n: int, a: ArgView) -> bool {
    match a {
        ArgView::PythonArg { name, kind, has_default, origin, .. } => match origin {
            Site::Elem(j) => j < n && j < elems.len() && match elems[j as int] {
                Elem::Arg { name: nm, has_default: d } => nm@ == name && d == has_default && kind
                    == kind_in(elems, j as int, n),
                _ => false,
            },
            Site::Param(_) => false,
        },
        _ => true,
    }
}

/// `a`, if it is a Python argument, comes from an element of the whole
/// signature `elems`, as `elem_source` says.
pub open spec fn from_signature_elem(elems: Seq<Elem>, a: ArgView) -> bool {
    elem_source(elems, elems.len() as int, a)
}

proof fn lemma_read_elems_origins(elems: Seq<Elem>, n: int)
    requires
        0 <= n <= elems.len() <= usize::MAX,
    ensures
        read_elems(elems, n) matches Ok(r) ==> {
            &&& r.keyword_only == star_before(elems, n)
            &&& forall|k: int| 0 <= k < r.args.len() ==> elem_source(elems, n, #[trigger] r.args[k])
        },
    decreases n,
{
    if n > 0 {
        lemma_read_elems_origins(elems, n - 1);
        if let Ok(r) = read_elems(elems, n - 1) {
            let e = elems[n - 1];
            if let Ok(s) = read_elem(r, e, n - 1) {
                assert(s.keyword_only == star_before(elems, n)) by {
                    if e is Star || e is StarArgs {
                        assert(elems[n - 1] is Star || elems[n - 1] is StarArgs);
                    } else {
                        if star_before(elems, n) {
                            let k = choose|k: int|
                                0 <= k < n && (#[trigger] elems[k] is Star || elems[k] is StarArgs);
                            assert(k < n - 1);
                        }
                    }
                }
                assert forall|k: int| 0 <= k < s.args.len() implies elem_source(
                    elems,
                    n,
                    #[trigger] s.args[k],
                ) by {
                    if k < r.args.len() {
                        let x = r.args[k];
                        assert(elem_source(elems, n - 1, x));
                        if let ArgView::PythonArg { origin: Site::Elem(j), .. } = x {
                            let j = j as int;
                            if e is Slash {
                                assert(s.args[k] == positional(x));
                                assert(!star_before(elems, n - 1));
                                assert(!star_before(elems, j)) by {
                                    if star_before(elems, j) {
                                        let q = choose|q: int|
                                            0 <= q < j && (#[trigger] elems[q] is Star
                                                || elems[q] is StarArgs);
                                        assert(0 <= q < n - 1 && (elems[q] is Star
                                            || elems[q] is StarArgs));
                                    }
                                }
                                assert(elems[n - 1] is Slash);
                                assert(slash_after(elems, j, n));
                            } else {
                                assert(s.args[k] == x);
                                assert(slash_after(elems, j, n) == slash_after(elems, j, n - 1))
                                    by {
                                    if slash_after(elems, j, n) {
                                        let q = choose|q: int| j < q < n && #[trigger] elems[q] is Slash;
                                        assert(q < n - 1);
                                    }
                                }
                            }
                        } else {
                            if e is Slash {
                                assert(s.args[k] == positional(x));
                            } else {
                                assert(s.args[k] == x);
                            }
                        }
                    } else {
                        assert(((n - 1) as usize) as int == n - 1);
                        assert(!slash_after(elems, n - 1, n));
                    }
                }
            }
        }
    }
}

proof fn lemma_match_params_origins(
    elems: Seq<Elem>,
    params: Seq<RustParam>,
    n: int,
    python: Seq<ArgView>,
)
    requires
        0 <= n <= params.len(),
        forall|k: int| 0 <= k < python.len() ==> from_signature_elem(elems, #[trigger] python[k]),
    ensures
        match_params(params, n, python) matches Ok((out, used)) ==> 0 <= used && forall|k: int|
            0 <= k < out.len() ==> from_signature_elem(elems, #[trigger] out[k]),
    decreases n,
{
    if n > 0 {
        lemma_match_params_origins(elems, params, n - 1, python);
        if let Ok((out, used)) = match_params(params, n - 1, python) {
            if let Ok((out2, used2)) = match_params(params, n, python) {
                assert forall|k: int| 0 <= k < out2.len() implies from_signature_elem(
                    elems,
                    #[trigger] out2[k],
                ) by {
                    match params[n - 1] {
                        RustParam::Typed { name: Some(_), token: Some(tok) } => {
                            assert(out2 == out.push(ArgView::Token(tok)));
                            if k < out.len() {
                                assert(out2[k] == out[k]);
                            }
                        },
                        _ => {
                            assert(0 <= used < python.len());
                            assert(out2 == out.push(bound_to(python[used], n - 1)));
                            assert(from_signature_elem(elems, python[used]));
                            if k < out.len() {
                                assert(out2[k] == out[k]);
                            }
                        },
                    }
                }
            }
        }
    }
}

/// Every Python argument of a signature validated against `elems` comes from
/// an element `name` or `name = default` of it, with that name; it has a
/// default exactly when the element gives one, whether the argument is
/// positional, positional-or-keyword or keyword-only; and it is keyword-only
/// after a bare `*` or `*args`, positional-only before a `/`, and
/// positional-or-keyword otherwise.
pub proof fn lemma_defaults_follow_signature(params: Seq<RustParam>, elems: Seq<Elem>)
    requires
        elems.len() <= usize::MAX,
    ensures
        validated(params, Some(elems)) matches Ok(out) ==> forall|k: int|
            0 <= k < out.len() ==> #[trigger] from_signature_elem(elems, out[k]),
{
    lemma_read_elems_origins(elems, elems.len() as int);
    if let Ok(python) = python_args(params, Some(elems)) {
        assert forall|k: int| 0 <= k < python.len() implies from_signature_elem(
            elems,
            #[trigger] python[k],
        ) by {
            assert(elem_source(elems, elems.len() as int, python[k]));
        }
        lemma_match_params_origins(elems, params, params.len() as int, python);
    }
}

} // verus!

use micropython_build::signature::{
    token_type, validate_signature, ArgKind, Elem, RustParam, Site, SignatureError,
    SignatureErrorKind, TokenType, ValidatedArg, ValidatedSignature,
};

fn arg(name: &str) -> Elem {
    Elem::Arg { name: name.to_owned(), has_default: false }
}

fn arg_with_default(name: &str) -> Elem {
    Elem::Arg { name: name.to_owned(), has_default: true }
}

fn star_args(name: &str) -> Elem {
    Elem::StarArgs { name: name.to_owned() }
}

fn star_kwargs(name: &str) -> Elem {
    Elem::StarKwargs { name: name.to_owned() }
}

fn param(name: &str) -> RustParam {
    RustParam::Typed { name: Some(name.to_owned()), token: None }
}

fn token(name: &str, token: TokenType) -> RustParam {
    RustParam::Typed { name: Some(name.to_owned()), token: Some(token) }
}

fn validate(rust: &[RustParam], python: Option<&[Elem]>) -> Result<ValidatedSignature, SignatureError> {
    validate_signature(rust, python)
}

fn a_b() -> Vec<RustParam> {
    vec![param("a"), param("b")]
}

#[test]
fn classifies_arguments_and_skips_tokens() {
    let rust = [
        token("py", TokenType::MicroPython),
        param("a"),
        param("b"),
        token("gc", TokenType::Gc),
        param("rest"),
        param("c"),
        param("kw"),
        token("pm", TokenType::MicroPythonMut),
    ];
    let python = [
        arg("a"),
        Elem::Slash,
        arg_with_default("b"),
        star_args("rest"),
        arg("c"),
        star_kwargs("kw"),
    ];
    let result = validate(&rust, Some(&python)).unwrap();
    assert_eq!(result.args.len(), 8);
    assert!(matches!(result.args[0], ValidatedArg::Token(TokenType::MicroPython)));
    assert!(
        matches!(&result.args[1], ValidatedArg::PythonArg { kind, has_default, .. } if matches!(kind, ArgKind::Positional) && !has_default)
    );
    assert!(
        matches!(&result.args[2], ValidatedArg::PythonArg { kind, has_default, .. } if matches!(kind, ArgKind::PositionalOrKeyword) && *has_default)
    );
    assert!(matches!(result.args[3], ValidatedArg::Token(TokenType::Gc)));
    assert!(matches!(result.args[4], ValidatedArg::StarArgs { .. }));
    assert!(
        matches!(&result.args[5], ValidatedArg::PythonArg { kind, .. } if matches!(kind, ArgKind::Keyword))
    );
    assert!(matches!(result.args[6], ValidatedArg::StarKwargs { .. }));
    assert!(matches!(result.args[7], ValidatedArg::Token(TokenType::MicroPythonMut)));
}

#[test]
fn rejects_invalid_layouts() {
    let signatures: Vec<(&str, Vec<Elem>)> = vec![
        ("(/, a, b)", vec![Elem::Slash, arg("a"), arg("b")]),
        ("(a, /, /, b)", vec![arg("a"), Elem::Slash, Elem::Slash, arg("b")]),
        ("(a, *, /, b)", vec![arg("a"), Elem::Star, Elem::Slash, arg("b")]),
        ("(a, *, *b)", vec![arg("a"), Elem::Star, star_args("b")]),
        ("(*a, *b)", vec![star_args("a"), star_args("b")]),
        ("(a, *)", vec![arg("a"), Elem::Star]),
        ("(*, **b)", vec![Elem::Star, star_kwargs("b")]),
        ("(**a, b)", vec![star_kwargs("a"), arg("b")]),
        ("(**a, **b)", vec![star_kwargs("a"), star_kwargs("b")]),
        ("(a, a)", vec![arg("a"), arg("a")]),
        ("(a = 1, b)", vec![arg_with_default("a"), arg("b")]),
        ("(a = 1, /, b)", vec![arg_with_default("a"), Elem::Slash, arg("b")]),
        ("(b, a)", vec![arg("b"), arg("a")]),
        ("(a)", vec![arg("a")]),
        ("(a, b, c)", vec![arg("a"), arg("b"), arg("c")]),
    ];
    for (signature, elems) in signatures {
        assert!(validate(&a_b(), Some(&elems)).is_err(), "{signature}");
    }
}

#[test]
fn accepts_defaults_and_keyword_only_arguments() {
    let signatures: Vec<(&str, Vec<Elem>)> = vec![
        ("(a, b)", vec![arg("a"), arg("b")]),
        ("(a, /, b)", vec![arg("a"), Elem::Slash, arg("b")]),
        ("(a, b, /)", vec![arg("a"), arg("b"), Elem::Slash]),
        ("(a = 1, *, b)", vec![arg_with_default("a"), Elem::Star, arg("b")]),
        ("(*, a = 1, b)", vec![Elem::Star, arg_with_default("a"), arg("b")]),
        ("(*a, **b)", vec![star_args("a"), star_kwargs("b")]),
    ];
    for (signature, elems) in signatures {
        assert!(validate(&a_b(), Some(&elems)).is_ok(), "{signature}");
    }
    assert!(validate(&[], Some(&[])).is_ok());
    assert!(validate(&[token("py", TokenType::MicroPython)], Some(&[])).is_ok());
    assert!(validate(&[param("type")], Some(&[arg("type")])).is_ok());
}

#[test]
fn validates_rust_parameters() {
    assert!(validate(&[param("a"), token("gc", TokenType::Gc)], None).is_ok());
    assert!(validate(&[RustParam::Receiver], None).is_err());
    assert!(validate(&[RustParam::Typed { name: None, token: None }], None).is_err());
    assert!(validate(&[token("py", TokenType::MicroPython)], Some(&[arg("py")])).is_err());
}

#[test]
fn reports_what_is_wrong_and_where() {
    let error = validate(&a_b(), Some(&[arg("a"), Elem::Star])).unwrap_err();
    assert_eq!(error.kind, SignatureErrorKind::BareStarWithoutKeyword);
    assert_eq!(error.site, Site::Elem(1));
    let error = validate(&a_b(), Some(&[arg("a"), arg("a")])).unwrap_err();
    assert_eq!(error.kind, SignatureErrorKind::DuplicateArgument);
    assert_eq!(error.site, Site::Elem(1));
    let error = validate(&a_b(), Some(&[star_kwargs("a"), arg("b")])).unwrap_err();
    assert_eq!(error.kind, SignatureErrorKind::KwargsNotLast);
    let error = validate(&a_b(), Some(&[Elem::Slash, arg("a"), arg("b")])).unwrap_err();
    assert_eq!(error.kind, SignatureErrorKind::MisplacedSlash);
    assert_eq!(error.site, Site::Elem(0));
    let error = validate(&a_b(), Some(&[star_args("a"), star_args("b")])).unwrap_err();
    assert_eq!(error.kind, SignatureErrorKind::RepeatedStar);
    let error = validate(&a_b(), Some(&[arg_with_default("a"), arg("b")])).unwrap_err();
    assert_eq!(error.kind, SignatureErrorKind::RequiredAfterDefault);
    let error = validate(&a_b(), Some(&[arg("b"), arg("a")])).unwrap_err();
    assert_eq!(error.kind, SignatureErrorKind::NameMismatch { param: 0 });
    assert_eq!(error.site, Site::Elem(0));
    let error = validate(&a_b(), Some(&[arg("a")])).unwrap_err();
    assert_eq!(error.kind, SignatureErrorKind::MissingFromSignature);
    assert_eq!(error.site, Site::Param(1));
    let error = validate(&a_b(), Some(&[arg("a"), arg("b"), arg("c")])).unwrap_err();
    assert_eq!(error.kind, SignatureErrorKind::UnmatchedArgument);
    assert_eq!(error.site, Site::Elem(2));
    let error = validate(&[RustParam::Receiver], None).unwrap_err();
    assert_eq!(error.kind, SignatureErrorKind::Receiver);
    let error = validate(&[param("a"), RustParam::Typed { name: None, token: None }], None).unwrap_err();
    assert_eq!(error.kind, SignatureErrorKind::NotIdentifier);
    assert_eq!(error.site, Site::Param(1));
}

#[test]
fn binds_python_arguments_to_their_parameters() {
    let rust = [token("py", TokenType::MicroPython), param("a"), param("b")];
    let result = validate(&rust, None).unwrap();
    assert_eq!(result.args.len(), 3);
    match &result.args[2] {
        ValidatedArg::PythonArg { name, kind, param, origin, .. } => {
            assert_eq!(name, "b");
            assert_eq!(*kind, ArgKind::PositionalOrKeyword);
            assert_eq!(*param, 2);
            assert_eq!(*origin, Site::Param(2));
        }
        other => panic!("unexpected {other:?}"),
    }
}

#[test]
fn recognises_context_tokens() {
    assert_eq!(token_type("MicroPython"), Some(TokenType::MicroPython));
    assert_eq!(token_type("MicroPythonMut"), Some(TokenType::MicroPythonMut));
    assert_eq!(token_type("Gc"), Some(TokenType::Gc));
    assert_eq!(token_type("Args"), None);
}

use micropython_build::sig::{
    parse_signature, Delimiter, ParsedElem, ParsedSignature, SigSyntaxError, SigSyntaxErrorKind,
    SigToken,
};
use proc_macro2::{TokenStream, TokenTree};
use syn::parse::{ParseStream, Parser};

fn sig_token(tt: &TokenTree) -> SigToken {
    match tt {
        TokenTree::Punct(p) => SigToken::Punct(p.as_char()),
        TokenTree::Ident(i) => SigToken::Ident(i.to_string()),
        TokenTree::Literal(_) => SigToken::Literal,
        TokenTree::Group(g) => SigToken::Group(match g.delimiter() {
            proc_macro2::Delimiter::Parenthesis => Delimiter::Parenthesis,
            proc_macro2::Delimiter::Brace => Delimiter::Brace,
            proc_macro2::Delimiter::Bracket => Delimiter::Bracket,
            proc_macro2::Delimiter::None => Delimiter::Invisible,
        }),
    }
}

fn expr_len(tokens: &[TokenTree], start: usize) -> Option<usize> {
    let stream: TokenStream = tokens[start..].iter().cloned().collect();
    let rest = (|input: ParseStream| {
        let _: syn::Expr = input.parse()?;
        input.parse::<TokenStream>()
    })
    .parse2(stream)
    .ok()?;
    Some(tokens.len() - start - rest.into_iter().count())
}

struct Parsed {
    content: Vec<TokenTree>,
    signature: ParsedSignature,
}

fn parse(source: &str) -> Result<Parsed, Option<SigSyntaxError>> {
    let stream: TokenStream = source.parse().map_err(|_| None)?;
    let outer: Vec<TokenTree> = stream.into_iter().collect();
    let content: Vec<TokenTree> = match outer.first() {
        Some(TokenTree::Group(g)) if g.delimiter() == proc_macro2::Delimiter::Parenthesis => {
            g.stream().into_iter().collect()
        }
        _ => Vec::new(),
    };
    let outer_tokens: Vec<SigToken> = outer.iter().map(sig_token).collect();
    let content_tokens: Vec<SigToken> = content.iter().map(sig_token).collect();
    let lens: Vec<Option<usize>> = (0..content.len()).map(|i| expr_len(&content, i)).collect();
    let signature = parse_signature(&outer_tokens, &content_tokens, &lens).map_err(Some)?;
    Ok(Parsed { content, signature })
}

fn name(parsed: &Parsed, at: usize) -> String {
    parsed.content[at].to_string()
}

fn default_expr(parsed: &Parsed, elem: &ParsedElem) -> Option<syn::Expr> {
    match elem {
        ParsedElem::Arg { default: Some(d), .. } => {
            Some(syn::parse2(parsed.content[d.start..d.end].iter().cloned().collect()).unwrap())
        }
        _ => None,
    }
}

#[test]
fn parses_empty_signature() {
    let signature = parse("()").unwrap();
    assert!(signature.signature.elems.is_empty());
}

#[test]
fn parses_all_element_kinds() {
    let parsed = parse("(a, /, b = 42, *args, c, **kwargs,)").unwrap();
    let elems = &parsed.signature.elems;
    assert_eq!(elems.len(), 6);
    assert!(matches!(elems[0], ParsedElem::Arg { name: n, default: None } if name(&parsed, n) == "a"));
    assert!(matches!(elems[1], ParsedElem::Slash { .. }));
    assert!(matches!(elems[2], ParsedElem::Arg { name: n, default: Some(_) } if name(&parsed, n) == "b"));
    assert!(matches!(default_expr(&parsed, &elems[2]), Some(syn::Expr::Lit(_))));
    assert!(matches!(elems[3], ParsedElem::StarArgs { name: n, .. } if name(&parsed, n) == "args"));
    assert!(matches!(elems[4], ParsedElem::Arg { name: n, default: None } if name(&parsed, n) == "c"));
    assert!(matches!(elems[5], ParsedElem::StarKwargs { name: n, .. } if name(&parsed, n) == "kwargs"));
    assert!(parsed.signature.trailing_comma);
}

#[test]
fn parses_bare_star_and_expression_defaults() {
    let parsed = parse("(*, a = call(1, 2), b = (3, 4))").unwrap();
    let elems = &parsed.signature.elems;
    assert_eq!(elems.len(), 3);
    assert!(matches!(elems[0], ParsedElem::Star { .. }));
    assert!(matches!(default_expr(&parsed, &elems[1]), Some(syn::Expr::Call(_))));
    assert!(matches!(default_expr(&parsed, &elems[2]), Some(syn::Expr::Tuple(_))));
    assert!(!parsed.signature.trailing_comma);
}

#[test]
fn rejects_malformed_signatures() {
    for source in [
        "a",
        "(a",
        "(a b)",
        "(,)",
        "(a,,)",
        "(a =)",
        "(**)",
        "(***args)",
        "(*args = 1)",
        "(**kwargs = 1)",
        "(/ = 1)",
        "() extra",
    ] {
        assert!(parse(source).is_err(), "{source}");
    }
}

#[test]
fn syntax_errors_point_at_their_token() {
    let kind_at = |source: &str| parse(source).err().flatten().map(|e| (e.kind, e.at));
    assert_eq!(kind_at("a"), Some((SigSyntaxErrorKind::ExpectedParentheses, 0)));
    assert_eq!(kind_at("() extra"), Some((SigSyntaxErrorKind::UnexpectedToken, 1)));
    assert_eq!(kind_at("(a b)"), Some((SigSyntaxErrorKind::ExpectedComma, 1)));
    assert_eq!(kind_at("(a,,)"), Some((SigSyntaxErrorKind::ExpectedIdentifier, 2)));
    assert_eq!(kind_at("(a =)"), Some((SigSyntaxErrorKind::ExpectedExpression, 2)));
    assert_eq!(kind_at("(**)"), Some((SigSyntaxErrorKind::ExpectedIdentifier, 2)));
    assert_eq!(kind_at("(type)"), Some((SigSyntaxErrorKind::ExpectedIdentifier, 0)));
    assert_eq!(kind_at("(*type)"), Some((SigSyntaxErrorKind::ExpectedComma, 1)));
}

#[test]
fn raw_identifiers_are_names() {
    let parsed = parse("(r#type, *, r#in = 1)").unwrap();
    let elems = &parsed.signature.elems;
    assert_eq!(elems.len(), 3);
    assert!(matches!(elems[0], ParsedElem::Arg { name: n, default: None } if name(&parsed, n) == "r#type"));
    assert!(matches!(elems[2], ParsedElem::Arg { name: n, default: Some(_) } if name(&parsed, n) == "r#in"));
}

#[test]
fn reserved_words_are_not_names() {
    let kind_at = |source: &str| parse(source).err().flatten().map(|e| (e.kind, e.at));
    for word in ["_", "Self", "self", "yield", "async", "abstract", "typeof"] {
        let source = format!("({word})");
        assert_eq!(kind_at(&source), Some((SigSyntaxErrorKind::ExpectedIdentifier, 0)), "{word}");
    }
    for word in ["gen", "union", "_x", "a1"] {
        let source = format!("({word})");
        assert!(parse(&source).is_ok(), "{word}");
    }
}

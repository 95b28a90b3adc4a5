use micropython_build::depfile::{parse, DepfileError};

#[test]
fn parses_a_clang_rule() {
    let depfile = parse(b"out.o: /tmp/tail.c a.h \\\n  dir/b.h\n").unwrap();
    assert_eq!(depfile.targets, vec![b"out.o".to_vec()]);
    assert_eq!(
        depfile.dependencies,
        vec![b"/tmp/tail.c".to_vec(), b"a.h".to_vec(), b"dir/b.h".to_vec()]
    );
}

#[test]
fn decodes_escapes_and_dollars() {
    let depfile = parse(b"a\\ b.o c\\:d.o: with\\ space.h cost$$.h x:y.h\r\n").unwrap();
    assert_eq!(depfile.targets, vec![b"a b.o".to_vec(), b"c:d.o".to_vec()]);
    assert_eq!(
        depfile.dependencies,
        vec![b"with space.h".to_vec(), b"cost$.h".to_vec(), b"x:y.h".to_vec()]
    );
}

#[test]
fn accepts_trailing_comments_and_crlf_continuations() {
    let depfile = parse(b"t: a.h \\\r\n b.h # trailing\n\n# comment\n  \n").unwrap();
    assert_eq!(depfile.dependencies, vec![b"a.h".to_vec(), b"b.h".to_vec()]);
    let depfile = parse(b"t:").unwrap();
    assert!(depfile.dependencies.is_empty());
}

#[test]
fn reports_each_error() {
    assert_eq!(parse(b"t a.h").unwrap_err(), DepfileError::ExpectedColon { offset: 5 });
    assert_eq!(parse(b"t\n: a.h").unwrap_err(), DepfileError::ExpectedColon { offset: 1 });
    assert_eq!(parse(b": a.h").unwrap_err(), DepfileError::NoTarget);
    assert_eq!(parse(b"t: a.h \\").unwrap_err(), DepfileError::DanglingEscape { offset: 7 });
    assert_eq!(parse(b"t: a.h\nu: b.h").unwrap_err(), DepfileError::SecondRule { offset: 7 });
    assert_eq!(parse(b"").unwrap_err(), DepfileError::ExpectedColon { offset: 0 });
}

#[test]
fn reads_back_an_escaped_path() {
    let path = b"a b$#:\\\r.h\t".to_vec();
    let mut input = b"t: ".to_vec();
    input.extend_from_slice(b"a\\ b$$\\#\\:\\\\\\\r.h\\\t");
    let depfile = parse(&input).unwrap();
    assert_eq!(depfile.targets, vec![b"t".to_vec()]);
    assert_eq!(depfile.dependencies, vec![path]);
}

#[test]
fn written_rule_with_several_escaped_paths_reads_back() {
    let input = b"out.o dir/x\\:y.o: a\\ b.c $$HOME/c.h \\#d.h e\\\\f.h\n";
    let depfile = parse(input).unwrap();
    assert_eq!(depfile.targets, vec![b"out.o".to_vec(), b"dir/x:y.o".to_vec()]);
    assert_eq!(
        depfile.dependencies,
        vec![b"a b.c".to_vec(), b"$HOME/c.h".to_vec(), b"#d.h".to_vec(), b"e\\f.h".to_vec()]
    );
    let no_deps = parse(b"t.o: \n").unwrap();
    assert_eq!(no_deps.targets, vec![b"t.o".to_vec()]);
    assert!(no_deps.dependencies.is_empty());
}

use micropython_build::tail_parser::{
    describe_error, error_context, parse_tail, read_tail, scan_tail, TailFailure,
};

#[test]
fn parses_preprocessed_tail() {
    let input = r#"
# 1 "tail.c"
struct mp_rs_config_entry { const char *name; const char *value; };
static const struct mp_rs_config_entry mp_rs_config[] = {
    { "MICROPY_EMPTY", "" },
    { "MICROPY_ENABLE_GC", "(1)" },
    { "MICROPY_HOOK", "do { foo(\"x\"); } while (0)" },
    { "MICROPY_VERSION_STRING", "\"1\" \".\" \"28\"" },
};
"#;

    let parsed = parse_tail(input).unwrap();
    assert_eq!(parsed.len(), 4);
    assert_eq!(parsed.get("MICROPY_EMPTY").unwrap(), "");
    assert_eq!(parsed.get("MICROPY_ENABLE_GC").unwrap(), "(1)");
    assert_eq!(parsed.get("MICROPY_HOOK").unwrap(), "do { foo(\"x\"); } while (0)");
    assert_eq!(parsed.get("MICROPY_VERSION_STRING").unwrap(), "\"1\" \".\" \"28\"");
}

#[test]
fn accepts_comments_and_c_escapes() {
    let input = r#"
static int mp_rs_config_entry;
static const int mp_rs_config [ ] = {
    /* first */ { "MICROPY_TEXT", "line\\n\\x41\\101" }, // entry
};
"#;

    let parsed = parse_tail(input).unwrap();
    assert_eq!(parsed.get("MICROPY_TEXT").unwrap(), "line\\n\\x41\\101");
}

#[test]
fn rejects_duplicate_names() {
    let input = r#"
int mp_rs_config[] = {
    { "MICROPY_A", "0" },
    { "MICROPY_A", "1" },
};
"#;

    let error = parse_tail(input).unwrap_err();
    assert!(error.message.contains("duplicate"));
    assert!(error.line > 1);
}

#[test]
fn reports_missing_array() {
    let error = parse_tail("int unrelated[] = {};").unwrap_err();
    assert!(error.message.contains("not found"));
    assert_eq!(error.offset, 21);
}

#[test]
fn decodes_every_kind_of_escape() {
    let input = "mp_rs_config[]={{\"MICROPY_E\",\"\\a\\b\\f\\n\\r\\t\\v\\'\\\"\\?\\\\\\x41\\101\\0\\u00e9\\U0001F600x\\\ny\"},};";
    let parsed = parse_tail(input).unwrap();
    assert_eq!(
        parsed.get("MICROPY_E").unwrap(),
        "\u{7}\u{8}\u{c}\n\r\t\u{b}'\"?\\AA\0\u{e9}\u{1F600}xy"
    );
}

#[test]
fn reports_escape_errors() {
    let cases = [
        ("\\x\"", "hexadecimal escape has no digits"),
        ("\\x100\"", "byte escape is outside the range 0..=255"),
        ("\\400\"", "byte escape is outside the range 0..=255"),
        ("\\x123456789\"", "hexadecimal escape is too large"),
        ("\\u12\"", "non-hexadecimal digit in Unicode escape"),
        ("\\ud800\"", "invalid Unicode scalar value in escape"),
        ("\\q\"", "unsupported escape sequence `\\q`"),
        ("\\xff\"", "C string literal is not valid UTF-8"),
    ];
    for (body, message) in cases {
        let input = format!("mp_rs_config[]={{{{\"MICROPY_E\",\"{body}}},}};");
        let error = parse_tail(&input).unwrap_err();
        assert_eq!(error.message, message, "{input}");
    }
}

#[test]
fn reports_structural_errors() {
    let cases = [
        ("mp_rs_config = {};", "expected `[` after `mp_rs_config`", 13),
        ("mp_rs_config[ = {};", "expected `]` in `mp_rs_config` declaration", 14),
        ("mp_rs_config[] {};", "expected `=` before `mp_rs_config` initializer", 15),
        ("mp_rs_config[] = ;", "expected `{` to start `mp_rs_config` initializer", 17),
        ("mp_rs_config[] = { x };", "expected `{` to start a config entry", 19),
        ("mp_rs_config[] = {}", "expected `;` after `mp_rs_config` initializer", 19),
        ("mp_rs_config[] = { { \"FOO\", \"1\" }, };", "invalid configuration name `FOO`", 26),
        ("mp_rs_config[] = { { \"MICROPY_A\" \"1\" }, };", "expected `,` between config name and value", 33),
        ("mp_rs_config[] = { { \"MICROPY_A\", 1 }, };", "expected a C string literal", 34),
        ("mp_rs_config[] = { { \"MICROPY_A\", \"1\" , };", "expected `}` after config entry", 38),
        ("mp_rs_config[] = { { \"MICROPY_A\", \"1\" } };", "expected `,` after config entry", 40),
        ("mp_rs_config[] = { /* open", "unterminated block comment", 21),
        ("mp_rs_config[] = { { \"MICROPY_A\", \"1", "unterminated C string literal", 36),
        ("mp_rs_config[] = { { \"MICROPY_A\", \"1\n\" } };", "unescaped newline in C string literal", 37),
    ];
    for (input, message, offset) in cases {
        let error = parse_tail(input).unwrap_err();
        assert_eq!(error.message, message, "{input}");
        assert_eq!(error.offset, offset, "{input}");
    }
}

#[test]
fn accepts_config_name_forms() {
    for name in ["MP_INT_TYPE", "MP_INT_TYPE_LONGLONG", "MICROPY_X1"] {
        let input = format!("mp_rs_config[] = {{ {{ \"{name}\", \"1\" }}, }};");
        let parsed = parse_tail(&input).unwrap();
        assert_eq!(parsed.get(name).unwrap(), "1");
    }
    for name in ["MICROPY_", "MP_INT_TYPE_", "MICROPY_A-B", "MP_INT_TYPEX"] {
        let input = format!("mp_rs_config[] = {{ {{ \"{name}\", \"1\" }}, }};");
        let error = parse_tail(&input).unwrap_err();
        assert_eq!(error.message, format!("invalid configuration name `{name}`"));
    }
}

#[test]
fn locates_errors_by_line_and_column() {
    let input = "\n\nmp_rs_config[] = {\n  oops\n};";
    let error = parse_tail(input).unwrap_err();
    assert_eq!(error.line, 4);
    assert_eq!(error.column, 3);
    assert_eq!(error.offset, 23);
    assert_eq!(error.context, "near `oops\\n};`");
}

#[test]
fn escapes_the_context_of_an_error() {
    let error = describe_error("a\t\"b\"", 0, "m".to_owned());
    assert_eq!(error.context, "near `a\\t\\\"b\\\"`");
    assert_eq!(error.line, 1);
    assert_eq!(error.column, 1);
    let error = describe_error("abc", 3, "m".to_owned());
    assert_eq!(error.context, "<end of input>");
    assert_eq!(error.column, 4);
    let long = "x".repeat(50);
    let error = describe_error(&long, 0, "m".to_owned());
    assert_eq!(error.context, format!("near `{}`", "x".repeat(40)));
    assert_eq!(error_context(""), "<end of input>");
    assert_eq!(error_context("ab"), "near `ab`");
}

#[test]
fn scans_entries_in_name_order_with_raw_offsets() {
    let input = "mp_rs_config[] = { { \"MICROPY_B\", \"2\" }, { \"MICROPY_A\", \"1\" }, };";
    let table = scan_tail(input).unwrap();
    assert_eq!(table.entry(0).0, "MICROPY_A");
    assert_eq!(table.entry(1).0, "MICROPY_B");
    let error = scan_tail("mp_rs_config_x mp_rs_config").unwrap_err();
    assert_eq!(error.offset, 27);
    assert_eq!(error.message, "expected `[` after `mp_rs_config`");
}

#[test]
fn read_tail_locates_failures_between_characters() {
    let input = "\n\nmp_rs_config[] = {\n  oops\n};";
    match read_tail(input) {
        Err(TailFailure::Parse(error)) => {
            assert_eq!((error.offset, error.line, error.column), (23, 4, 3));
            assert_eq!(error.context, "near `oops\\n};`");
        }
        other => panic!("unexpected {other:?}"),
    }
    let table = read_tail("mp_rs_config[] = { { \"MICROPY_A\", \"1\" }, };").unwrap();
    assert_eq!(table.get("MICROPY_A").unwrap(), "1");
}

#[test]
fn read_tail_reports_a_failure_inside_a_character() {
    let input = "mp_rs_config[] = { { \"MICROPY_A\", \"\\\u{e9}\" } };";
    let backslash = input.find('\\').unwrap();
    match read_tail(input) {
        Err(TailFailure::InsideCharacter(offset)) => assert_eq!(offset, backslash + 2),
        other => panic!("unexpected {other:?}"),
    }
}

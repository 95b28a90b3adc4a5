use micropython_build::generate::{
    has_extension, marked_qstr, moduledef_lines, qstr_lines, root_pointer_lines, ScanItem, QSTR_MARKER,
};
use micropython_build::manifest::{Manifest, ManifestError, MicroPython, MANIFEST_FILE_NAME};
use micropython_build::cc_search::{
    command_words, get_raw_cc, target_env_key, trimmed_command, underscored_env_key, EnvValue,
    RawCc, RawCcSource,
};
use micropython_build::generate::{cache_file_name, qstr_line, quote_qstrdef_line, unquote_qstrdef_line};
use micropython_build::obj::{mp_obj_fun_make_sig, mp_obj_iter_buf_nslots, Qstr};

#[test]
fn names_cache_files_by_the_digest_of_the_path() {
    let name = cache_file_name(b"/src/main.rs");
    assert_eq!(name.len(), 64 + 5);
    assert!(name.ends_with(".json"));
    assert!(name[..64].bytes().all(|b| b.is_ascii_digit() || (b'a'..=b'f').contains(&b)));
    assert_eq!(
        cache_file_name(b""),
        "af1349b9f5f9a1a6a0404dea36dcc9499bcb25c9adc112b7cc9a93cae41f3262.json"
    );
    assert_ne!(cache_file_name(b"a"), cache_file_name(b"b"));
}

#[test]
fn quotes_lines_that_define_qstrs() {
    assert_eq!(quote_qstrdef_line("Q(foo)"), "\"Q(foo)\"");
    assert_eq!(quote_qstrdef_line("#define X 1"), "#define X 1");
    assert_eq!(quote_qstrdef_line("Q(\n)"), "Q(\n)");
    assert_eq!(quote_qstrdef_line("x Q(a) y"), "\"x Q(a) y\"");
    assert_eq!(quote_qstrdef_line("Q("), "Q(");
    assert_eq!(unquote_qstrdef_line("\"Q(foo)\"").unwrap(), "Q(foo)");
    assert_eq!(unquote_qstrdef_line("int x;").unwrap(), "int x;");
    assert_eq!(unquote_qstrdef_line("Q(foo)"), None);
    assert_eq!(qstr_line("bar"), "\"Q(bar)\"");
}

#[test]
fn chooses_the_compiler_in_order() {
    let raw = get_raw_cc(Some("clang".into()), None, EnvValue::NotPresent, EnvValue::NotPresent, EnvValue::NotPresent).unwrap();
    assert_eq!(raw.s, "clang");
    assert_eq!(raw.source, RawCcSource::CliArg);
    let raw = get_raw_cc(
        None,
        Some("thumbv7em-none-eabi".into()),
        EnvValue::NotPresent,
        EnvValue::Present("arm-gcc".into()),
        EnvValue::Present("gcc".into()),
    )
    .unwrap();
    assert_eq!(raw.source, RawCcSource::CcTargetUnderscoredEnvVar);
    assert_eq!(raw.s, "arm-gcc");
    let raw = get_raw_cc(None, None, EnvValue::Present("x".into()), EnvValue::NotPresent, EnvValue::NotPresent).unwrap();
    assert_eq!(raw.s, "cc");
    assert_eq!(raw.source, RawCcSource::CcFallback);
    let error = get_raw_cc(None, Some("a.b".into()), EnvValue::NotPresent, EnvValue::NotUnicode, EnvValue::NotPresent).unwrap_err();
    assert_eq!(error.key, "CC_a_b");
    let error = get_raw_cc(None, None, EnvValue::NotPresent, EnvValue::NotPresent, EnvValue::NotUnicode).unwrap_err();
    assert_eq!(error.key, "CC");
    assert_eq!(target_env_key("x86_64-unknown.linux"), "CC_x86_64-unknown.linux");
    assert_eq!(underscored_env_key("x86_64-unknown.linux"), "CC_x86_64_unknown_linux");
}

#[test]
fn splits_the_compiler_command() {
    let raw = RawCc { s: "  ccache  gcc -O2 \n".into(), source: RawCcSource::CcEnvVar };
    let trimmed = trimmed_command(&raw);
    assert_eq!(trimmed, "ccache  gcc -O2");
    let words = command_words(trimmed.as_bytes());
    assert_eq!(
        words,
        vec![b"ccache".to_vec(), b"".to_vec(), b"gcc".to_vec(), b"-O2".to_vec()]
    );
    assert_eq!(command_words(b""), vec![Vec::<u8>::new()]);
}

#[test]
fn computes_object_layout_values() {
    assert_eq!(mp_obj_fun_make_sig(1, 3, true), (1 << 17) | (3 << 1) | 1);
    assert_eq!(mp_obj_iter_buf_nslots(32, 8), 4);
    assert_eq!(mp_obj_iter_buf_nslots(33, 8), 5);
    assert_eq!(mp_obj_iter_buf_nslots(0, 8), 0);
    assert_eq!(Qstr::from_raw(17).into_raw(), 17);
}

#[test]
fn tells_source_files_by_extension() {
    assert!(has_extension(b"objstr.c", b"c"));
    assert!(has_extension(b"a.b.rs", b"rs"));
    assert!(!has_extension(b".c", b"c"));
    assert!(!has_extension(b"c", b"c"));
    assert!(!has_extension(b"a.cc", b"c"));
    assert!(!has_extension(b"..", b""));
    assert!(has_extension(b"a.", b""));
}

#[test]
fn lists_the_qstrs_of_every_scan() {
    let items = [
        ScanItem { qstrs: vec!["a".into(), "b".into()], moduledefs: vec![], root_pointers: vec![] },
        ScanItem { qstrs: vec![], moduledefs: vec![], root_pointers: vec![] },
        ScanItem { qstrs: vec!["c".into()], moduledefs: vec![], root_pointers: vec![] },
    ];
    assert_eq!(qstr_lines(&items), vec!["\"Q(a)\"", "\"Q(b)\"", "\"Q(c)\""]);
}

#[test]
fn requires_the_sections_the_build_needs() {
    let manifest = Manifest { port: None, micropython: Some(MicroPython { path: b"mp".to_vec() }), crates: vec![] };
    assert_eq!(manifest.required_port().unwrap_err(), ManifestError::PortRequired);
    assert_eq!(manifest.required_micropython().unwrap().path, b"mp".to_vec());
    assert_eq!(MANIFEST_FILE_NAME, "micropython-rs.toml");
}

#[test]
fn allows_only_core_headers() {
    assert_eq!(
        micropython_build::bindings::header_allowlist("/home/u/mp.v1/py"),
        "/home/u/mp\\.v1/py/.*\\.h"
    );
}

#[test]
fn moduledef_and_root_pointer_lines_keep_scan_order() {
    let items = vec![
        ScanItem {
            qstrs: vec![],
            moduledefs: vec!["MP_REGISTER_MODULE(MP_QSTR_a, a_module)".to_string()],
            root_pointers: vec!["mp_obj_t a_state".to_string(), "int b_count".to_string()],
        },
        ScanItem {
            qstrs: vec!["x".to_string()],
            moduledefs: vec!["MP_REGISTER_MODULE(MP_QSTR_b, b_module)".to_string()],
            root_pointers: vec![],
        },
    ];
    assert_eq!(
        moduledef_lines(&items),
        vec!["MP_REGISTER_MODULE(MP_QSTR_a, a_module)", "MP_REGISTER_MODULE(MP_QSTR_b, b_module)"]
    );
    assert_eq!(root_pointer_lines(&items), vec!["mp_obj_t a_state;", "int b_count;"]);
    assert!(root_pointer_lines(&[]).is_empty());
}

#[test]
fn only_marker_tuples_name_qstrs() {
    assert_eq!(marked_qstr(QSTR_MARKER, "hello"), Some("hello".to_owned()));
    assert_eq!(marked_qstr("__MICROPYTHON_RS_QSTR_VALUE__", "x"), Some("x".to_owned()));
    assert_eq!(marked_qstr("other", "hello"), None);
    assert_eq!(marked_qstr("", ""), None);
}

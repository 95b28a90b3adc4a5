use micropython_build::config::{selected_enum_constant, value_enables_cfg, Config};
use micropython_build::config_map::ConfigMap;
use micropython_build::expression::evaluate_config;

fn table(entries: &[(&str, &str)]) -> ConfigMap<String> {
    let mut map = ConfigMap::new();
    for (name, value) in entries {
        map.insert((*name).to_owned(), (*value).to_owned());
    }
    map
}

#[test]
fn assembles_a_configuration_without_the_wrapper() {
    let deps = vec![b"/tmp/w.c".to_vec(), b"a.h".to_vec(), b"/tmp/w.c".to_vec()];
    let config = Config::assemble(table(&[("MICROPY_A", "1")]), deps, b"/tmp/w.c");
    assert_eq!(config.deps(), &vec![b"a.h".to_vec(), b"/tmp/w.c".to_vec()]);
    assert_eq!(config.definitions().get("MICROPY_A").unwrap().integer(), Some(1));
    let (definitions, deps) = config.into_inner();
    assert_eq!(definitions.len(), 1);
    assert_eq!(deps.len(), 2);
}

#[test]
fn selects_the_enum_constant_of_equal_value() {
    let definitions = evaluate_config(table(&[
        ("MICROPY_LONGINT_IMPL", "(2)"),
        ("MICROPY_LONGINT_IMPL_NONE", "(0)"),
        ("MICROPY_LONGINT_IMPL_LONGLONG", "(1)"),
        ("MICROPY_LONGINT_IMPL_MPZ", "(2)"),
    ]));
    let constants = [
        "MICROPY_LONGINT_IMPL_NONE",
        "MICROPY_LONGINT_IMPL_LONGLONG",
        "MICROPY_LONGINT_IMPL_MPZ",
    ];
    assert_eq!(
        selected_enum_constant(&definitions, "MICROPY_LONGINT_IMPL", &constants),
        Some("MICROPY_LONGINT_IMPL_MPZ")
    );
    assert_eq!(selected_enum_constant(&definitions, "MICROPY_MISSING", &constants), None);
    assert_eq!(
        selected_enum_constant(&definitions, "MICROPY_LONGINT_IMPL", &constants[..2]),
        None
    );
}

#[test]
fn enables_cfgs_for_true_and_empty_values() {
    let constants: &[&str] = &["MICROPY_E_ONE", "MICROPY_E_TWO"];
    let enums = [("MICROPY_E", constants)];
    let config = Config::assemble(
        table(&[
            ("MICROPY_ON", "1"),
            ("MICROPY_OFF", "0"),
            ("MICROPY_EMPTY", ""),
            ("MICROPY_TEXT", "\"x\""),
            ("MICROPY_E", "2"),
            ("MICROPY_E_ONE", "1"),
            ("MICROPY_E_TWO", "2"),
        ]),
        vec![b"w.c".to_vec()],
        b"w.c",
    );
    assert_eq!(config.enabled_cfgs(&enums), vec!["MICROPY_EMPTY".to_owned(), "MICROPY_ON".to_owned()]);
    assert_eq!(config.selected_cfgs(&enums), vec!["MICROPY_E_TWO".to_owned()]);
    let on = config.definitions().get("MICROPY_ON").unwrap();
    assert!(value_enables_cfg(on));
    let text = config.definitions().get("MICROPY_TEXT").unwrap();
    assert!(!value_enables_cfg(text));
}

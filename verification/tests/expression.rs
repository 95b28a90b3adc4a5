use micropython_build::config_map::ConfigMap;
use micropython_build::expression::{
    evaluate_config, evaluate_integer_expression, EvalErrorKind, EvaluatedValue,
};

fn eval(expression: &str) -> i128 {
    evaluate_integer_expression(expression).unwrap()
}

#[test]
fn evaluates_precedence_and_integer_literals() {
    assert_eq!(eval("1 + 2 * 3"), 7);
    assert_eq!(eval("(1 + 2) * 3"), 9);
    assert_eq!(eval("0xffU + 010 + 0b10"), 265);
    assert_eq!(eval("1 << 16 | 26 << 8 | 0"), 72_192);
}

#[test]
fn evaluates_comparison_boolean_and_bitwise_operators() {
    assert_eq!(eval("30 >= 10 && 2 != 3"), 1);
    assert_eq!(eval("0 || 0 || 4"), 1);
    assert_eq!(eval("!0 + !!7"), 2);
    assert_eq!(eval("(~0 & 15) ^ 3"), 12);
}

#[test]
fn evaluates_conditional_and_short_circuit_expressions() {
    assert_eq!(eval("0 ? 1 / 0 : 42"), 42);
    assert_eq!(eval("1 ? 7 : 1 / 0"), 7);
    assert_eq!(eval("0 && (1 / 0)"), 0);
    assert_eq!(eval("1 || (1 / 0)"), 1);
}

#[test]
fn treats_undefined_micropython_identifiers_as_zero() {
    assert_eq!(eval("MICROPY_EMIT_NATIVE_DEBUG || 1"), 1);
    assert_eq!(eval("MICROPY_PY_SSL_ECDSA_SIGN_ALT"), 0);
}

#[test]
fn handles_empty_macro_definitions_explicitly() {
    let mut raw = ConfigMap::new();
    raw.insert("MICROPY_HOOK".to_owned(), String::new());
    raw.insert("MICROPY_VALUE".to_owned(), "(1)".to_owned());
    let config = evaluate_config(raw);

    assert_eq!(
        config.get("MICROPY_HOOK").unwrap().evaluated,
        Ok(EvaluatedValue::EmptyDefinition)
    );
    assert!(config.get("MICROPY_HOOK").unwrap().is_empty_definition());
    assert_eq!(config.get("MICROPY_VALUE").unwrap().integer(), Some(1));
}

#[test]
fn preserves_non_integer_values_as_errors() {
    for expression in [
        "",
        "size_t",
        "&mp_plat_print",
        "sizeof(mp_uint_t)",
        "\"MicroPython\"",
        "MP_SMALL_INT_POSITIVE_MASK + 1",
    ] {
        let error = evaluate_integer_expression(expression).unwrap_err();
        assert!(matches!(
            error.kind,
            EvalErrorKind::Unsupported | EvalErrorKind::Syntax
        ));
    }
}

#[test]
fn reports_arithmetic_errors() {
    let error = evaluate_integer_expression("1 / 0").unwrap_err();
    assert_eq!(error.kind, EvalErrorKind::Arithmetic);
    assert_eq!(error.offset, 2);
}

#[test]
fn reports_overflow_and_shift_errors() {
    let error = evaluate_integer_expression("170141183460469231731687303715884105727 + 1").unwrap_err();
    assert_eq!(error.kind, EvalErrorKind::Arithmetic);
    let error = evaluate_integer_expression("1 << 128").unwrap_err();
    assert_eq!(error.kind, EvalErrorKind::Arithmetic);
    let error = evaluate_integer_expression("1 % 0").unwrap_err();
    assert_eq!(error.kind, EvalErrorKind::Arithmetic);
    assert_eq!(error.offset, 2);
}

#[test]
fn evaluates_unary_minus_and_suffixes() {
    assert_eq!(eval("-5 + 3"), -2);
    assert_eq!(eval("10UL - 0x10L"), -6);
    assert_eq!(eval("7 / 2"), 3);
    assert_eq!(eval("-7 / 2"), -3);
    assert_eq!(eval("-7 % 2"), -1);
    assert_eq!(eval("(3 < 4) + (4 <= 4) + (5 > 6) + (1 == 1)"), 3);
    assert_eq!(eval("1 ? 2 ? 3 : 4 : 5"), 3);
}

#[test]
fn keeps_order_and_errors_when_evaluating_a_table() {
    let mut raw = ConfigMap::new();
    raw.insert("MICROPY_B".to_owned(), "2 * 21".to_owned());
    raw.insert("MICROPY_A".to_owned(), "size_t".to_owned());
    let config = evaluate_config(raw);
    assert_eq!(config.len(), 2);
    let (first, value) = config.entry(0);
    assert_eq!(first, "MICROPY_A");
    assert!(value.evaluated.is_err());
    assert_eq!(value.integer(), None);
    assert!(!value.is_empty_definition());
    let (second, value) = config.entry(1);
    assert_eq!(second, "MICROPY_B");
    assert_eq!(value.integer(), Some(42));
    assert_eq!(value.raw, "2 * 21");
}

#[test]
fn parenthesising_negating_and_or_with_zero_agree_with_the_value() {
    for e in ["7", "1 + 2 * 3", "0", "MICROPY_X", "-5 % 3", "(1 << 4) | 2", "2 > 1 ? 9 : 8"] {
        let v = evaluate_integer_expression(e).unwrap();
        assert_eq!(evaluate_integer_expression(&format!("({e})")), Ok(v));
        assert_eq!(evaluate_integer_expression(&format!("!({e})")), Ok((v == 0) as i128));
        assert_eq!(evaluate_integer_expression(&format!("~({e})")), Ok(!v));
        assert_eq!(evaluate_integer_expression(&format!("({e}) || 0")), Ok((v != 0) as i128));
    }
}

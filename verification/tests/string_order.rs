use micropython_build::string_order::str_le;

#[test]
fn strings_compare_byte_by_byte() {
    assert!(str_le("MICROPY_A", "MICROPY_B"));
    assert!(!str_le("MICROPY_B", "MICROPY_A"));
    assert!(str_le("MICROPY", "MICROPY_A"));
    assert!(!str_le("MICROPY_A", "MICROPY"));
    assert!(str_le("same", "same"));
    assert!(str_le("Z", "a"));
    assert!(str_le("z", "é"));
    assert!(str_le("", "a") && !str_le("a", ""));
}

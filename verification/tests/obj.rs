use micropython_build::obj::{
    mp_const_false, mp_const_none, mp_const_true, mp_obj_is_bool, mp_obj_new_bool, repr_a, repr_b,
    repr_c, repr_d, Obj, Qstr,
};

#[test]
fn small_ints_qstrs_and_immediates_read_back() {
    let o = Obj::from_small_int(-21);
    assert!(o.is_small_int());
    assert!(!o.is_qstr() && !o.is_immediate() && !o.is_ptr());
    assert_eq!(o.small_int(), Some(-21));
    assert_eq!(o.qstr(), None);
    let q = Obj::from_qstr(Qstr::from_raw(1234));
    assert!(q.is_qstr());
    assert_eq!(q.qstr(), Some(Qstr::from_raw(1234)));
    assert_eq!(q.small_int(), None);
    let i = Obj::from_immediate(3);
    assert!(i.is_immediate());
    assert_eq!(i.immediate(), Some(3));
    assert_eq!(i.into_raw(), (3 << 3) | 6);
    let p = Obj::from_raw(0x1000);
    assert!(p.is_ptr());
    assert_eq!(p.immediate(), None);
}

#[test]
fn representation_d_round_trips() {
    let o = repr_d::new_small_int(-5);
    assert!(repr_d::is_small_int(o));
    assert_eq!(repr_d::small_int_value(o), -5);
    let o = repr_d::new_small_int((1 << 46) - 1);
    assert_eq!(repr_d::small_int_value(o), (1 << 46) - 1);
    let q = repr_d::new_qstr(77);
    assert!(repr_d::is_qstr(q) && !repr_d::is_ptr(q));
    assert_eq!(repr_d::qstr_value(q), 77);
    let i = repr_d::new_immediate(2);
    assert!(repr_d::is_immediate(i));
    assert_eq!(repr_d::immediate_value(i), 2);
    assert!(repr_d::is_ptr(0x7fff_0000));
    assert_eq!(repr_a::small_int_value(repr_a::new_small_int(-1)), -1);
    assert_eq!(repr_a::qstr_value(repr_a::new_qstr(9)), 9);
}

#[test]
fn repr_b_tags_and_values() {
    let i = repr_b::new_small_int(-9);
    assert!(repr_b::is_small_int(i) && !repr_b::is_qstr(i) && !repr_b::is_obj(i));
    assert_eq!(repr_b::small_int_value(i), -9);
    let q = repr_b::new_qstr(77);
    assert_eq!(q, (77 << 3) | 3);
    assert!(repr_b::is_qstr(q) && !repr_b::is_immediate(q) && !repr_b::is_small_int(q));
    assert_eq!(repr_b::qstr_value(q), 77);
    let m = repr_b::new_immediate(2);
    assert!(repr_b::is_immediate(m) && !repr_b::is_qstr(m));
    assert_eq!(repr_b::immediate_value(m), 2);
    assert!(repr_b::is_obj(0x1000));
}

#[test]
fn repr_c_tags_values_and_floats() {
    let i = repr_c::new_small_int(-5);
    assert!(repr_c::is_small_int(i) && !repr_c::mp_obj_is_float(i));
    assert_eq!(repr_c::small_int_value(i), -5);
    let q = repr_c::new_qstr(300);
    assert_eq!(q, (300 << 4) | 6);
    assert!(repr_c::is_qstr(q) && !repr_c::is_immediate(q) && !repr_c::mp_obj_is_float(q));
    assert_eq!(repr_c::qstr_value(q), 300);
    let m = repr_c::new_immediate(3);
    assert!(repr_c::is_immediate(m) && !repr_c::mp_obj_is_float(m));
    assert_eq!(repr_c::immediate_value(m), 3);
    assert!(repr_c::mp_obj_is_float(0x4000_0002));
    assert!(!repr_c::mp_obj_is_float(0x1000) && repr_c::is_obj(0x1000));
}

#[test]
fn repr_d_floats_are_the_untagged_rest() {
    assert!(!repr_d::mp_obj_is_float(repr_d::new_small_int(12)));
    assert!(!repr_d::mp_obj_is_float(repr_d::new_qstr(12)));
    assert!(!repr_d::mp_obj_is_float(repr_d::new_immediate(1)));
    assert!(!repr_d::mp_obj_is_float(0x0000_7fff_0000_1000));
    assert!(repr_d::mp_obj_is_float(0x8004_0000_0000_0000));
}

#[test]
fn immediate_constants_and_booleans() {
    assert_eq!(mp_const_none(), 6);
    assert_eq!(mp_const_false(), 14);
    assert_eq!(mp_const_true(), 30);
    assert_eq!(mp_obj_new_bool(-2), mp_const_true());
    assert_eq!(mp_obj_new_bool(0), mp_const_false());
    assert!(mp_obj_is_bool(mp_obj_new_bool(5)) && mp_obj_is_bool(mp_const_false()));
    assert!(!mp_obj_is_bool(mp_const_none()));
    assert_eq!(Obj::from_immediate(3).into_raw(), mp_const_true());
}

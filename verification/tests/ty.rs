use micropython_build::obj::Qstr;
use micropython_build::ty::{
    TypeStorage, MP_TYPE_FLAG_ITER_IS_CUSTOM, MP_TYPE_FLAG_ITER_IS_ITERNEXT,
    MP_TYPE_FLAG_ITER_IS_STREAM,
};

#[test]
fn new_type_has_name_flags_and_no_callbacks() {
    let t = TypeStorage::new(Qstr::from_raw(42), 0x0040, 4);
    assert_eq!(t.as_type().name().into_raw(), 42);
    assert_eq!(t.as_type().flags(), 0x0040);
    assert_eq!(t.capacity(), 4);
    assert_eq!(t.slot_count(), 0);
    assert_eq!(t.as_type().call_raw(), None);
    assert_eq!(t.as_type().getiter_raw(), None);
    assert!(!t.as_type().is_stream_iter_raw());
}

#[test]
fn callbacks_are_read_back_by_kind() {
    let mut t = TypeStorage::new(Qstr::from_raw(1), 0, 3);
    t.set_print_raw(Some(0x100));
    t.set_attr_raw(Some(0x200));
    t.set_locals_dict_raw(Some(0x300));
    assert_eq!(t.as_type().print_raw(), Some(0x100));
    assert_eq!(t.as_type().attr_raw(), Some(0x200));
    assert_eq!(t.as_type().locals_dict_raw(), Some(0x300));
    assert_eq!(t.as_type().make_new_raw(), None);
    assert_eq!(t.slot_count(), 3);
    t.set_attr_raw(None);
    assert_eq!(t.slot_count(), 2);
    t.set_parents_raw(Some(0x400));
    assert_eq!(t.as_type().parent_raw(), Some(0x400));
    t.set_parent_raw(Some(0x500));
    assert_eq!(t.as_type().parent_raw(), Some(0x500));
}

#[test]
fn iterator_setters_set_the_mode_with_the_slot() {
    let mut t = TypeStorage::new(Qstr::from_raw(1), 0x0001, 2);
    t.set_iternext_raw(Some(0x10));
    assert_eq!(t.as_type().flags(), 0x0001 | MP_TYPE_FLAG_ITER_IS_ITERNEXT);
    assert_eq!(t.as_type().iternext_raw(), Some(0x10));
    assert_eq!(t.as_type().getiter_raw(), None);
    assert_eq!(t.as_type().custom_iter_raw(), None);
    t.set_custom_iter_raw(Some(0x20));
    assert_eq!(t.as_type().flags(), 0x0001 | MP_TYPE_FLAG_ITER_IS_CUSTOM);
    assert_eq!(t.as_type().custom_iter_raw(), Some(0x20));
    assert_eq!(t.as_type().iternext_raw(), None);
    t.set_getiter_raw(Some(0x30));
    assert_eq!(t.as_type().flags(), 0x0001);
    assert_eq!(t.as_type().getiter_raw(), Some(0x30));
    t.set_stream_iter_raw();
    assert_eq!(t.as_type().flags(), 0x0001 | MP_TYPE_FLAG_ITER_IS_STREAM);
    assert!(t.as_type().is_stream_iter_raw());
    assert_eq!(t.as_type().getiter_raw(), None);
    assert_eq!(t.slot_count(), 0);
    t.set_iternext_raw(None);
    assert_eq!(t.as_type().flags(), 0x0001);
}

#[test]
fn flags_and_name_can_be_replaced() {
    let mut t = TypeStorage::new(Qstr::from_raw(5), 0, 1);
    t.set_name(Qstr::from_raw(6));
    assert_eq!(t.as_type().name().into_raw(), 6);
    t.set_flags(0x0200);
    assert_eq!(t.as_type().flags(), 0x0200);
}

#[test]
fn resize_keeps_callbacks_name_and_flags() {
    let mut t = TypeStorage::new(Qstr::from_raw(9), 0x0004, 12);
    t.set_subscr_raw(Some(7));
    t.set_buffer_raw(Some(8));
    t.set_call_raw(Some(9));
    let t = t.resize(3);
    assert_eq!(t.capacity(), 3);
    assert_eq!(t.slot_count(), 3);
    assert_eq!(t.as_type().subscr_raw(), Some(7));
    assert_eq!(t.as_type().buffer_raw(), Some(8));
    assert_eq!(t.as_type().call_raw(), Some(9));
    assert_eq!(t.as_type().flags(), 0x0004);
    assert_eq!(t.as_type().name().into_raw(), 9);
}

use micropython_build::type_slots::{TypeSlots, MAX_SLOTS};

#[test]
fn sets_reads_and_clears_slots() {
    let mut t = TypeSlots::new(3);
    assert_eq!(t.slot_count(), 0);
    t.set_slot(7, Some(0x1000));
    t.set_slot(2, Some(0x2000));
    assert_eq!(t.slot(7), Some(0x1000));
    assert_eq!(t.slot(2), Some(0x2000));
    assert_eq!(t.slot(0), None);
    assert_eq!(t.slot_count(), 2);
    let indices = t.slot_indices();
    assert_eq!(indices.len(), MAX_SLOTS);
    assert_eq!(indices[7], 1);
    assert_eq!(indices[2], 2);
    t.set_slot(7, Some(0x3000));
    assert_eq!(t.slot(7), Some(0x3000));
    assert_eq!(t.slot_indices()[7], 1);
    t.set_slot(7, None);
    assert_eq!(t.slot(7), None);
    assert_eq!(t.slot_count(), 1);
    t.set_slot(11, Some(0x4000));
    assert_eq!(t.slot_indices()[11], 1);
    t.set_slot(4, None);
    assert_eq!(t.slot_count(), 2);
}

#[test]
fn resizing_keeps_every_callback() {
    let mut t = TypeSlots::new(12);
    t.set_slot(9, Some(9));
    t.set_slot(1, Some(1));
    t.set_slot(5, Some(5));
    t.set_slot(9, None);
    let r = t.resize(2);
    assert_eq!(r.table().len(), 2);
    assert_eq!(r.slot(1), Some(1));
    assert_eq!(r.slot(5), Some(5));
    assert_eq!(r.slot(9), None);
    assert_eq!(r.slot_count(), 2);
    assert_eq!(r.slot_indices()[1], 1);
    assert_eq!(r.slot_indices()[5], 2);
}

use micropython_build::bitfields::{
    mp_map_elem_t, mp_map_slot_is_filled, mp_map_t, mp_set_slot_is_filled, qstr_pool_t,
};

#[test]
fn map_flags_read_back_and_keep_used() {
    let mut map = mp_map_t { _bitfield_1: 0, alloc: 8 };
    map.set_used(5);
    map.set_all_keys_are_qstrs(true);
    map.set_is_ordered(true);
    assert!(map.all_keys_are_qstrs());
    assert!(!map.is_fixed());
    assert!(map.is_ordered());
    assert_eq!(map.used(), 5);
    assert_eq!(map._bitfield_1, (5 << 3) | 1 | 4);
    map.set_is_fixed(true);
    map.set_all_keys_are_qstrs(false);
    assert!(!map.all_keys_are_qstrs());
    assert!(map.is_fixed());
    assert_eq!(map.used(), 5);
    assert_eq!(map.alloc, 8);
}

#[test]
fn map_set_used_keeps_flags() {
    let mut map = mp_map_t { _bitfield_1: 7 | (3 << 3), alloc: 0 };
    map.set_used(100);
    assert_eq!(map.used(), 100);
    assert!(map.all_keys_are_qstrs() && map.is_fixed() && map.is_ordered());
}

#[test]
fn qstr_pool_fields_do_not_disturb_each_other() {
    let mut pool = qstr_pool_t { _bitfield_1: 0, alloc: 10, len: 2 };
    pool.set_total_prev_len(1234);
    pool.set_is_sorted(true);
    assert_eq!(pool.total_prev_len(), 1234);
    assert!(pool.is_sorted());
    assert_eq!(pool._bitfield_1, 1234 | (1usize << (usize::BITS - 1)));
    pool.set_total_prev_len(7);
    assert!(pool.is_sorted());
    assert_eq!(pool.total_prev_len(), 7);
    pool.set_is_sorted(false);
    assert!(!pool.is_sorted());
    assert_eq!(pool.total_prev_len(), 7);
    assert_eq!((pool.alloc, pool.len), (10, 2));
}

#[test]
fn map_from_raw_packs_flags_and_fill_count() {
    let map = mp_map_t::from_raw(true, false, true, 9, 16);
    assert!(map.all_keys_are_qstrs());
    assert!(!map.is_fixed());
    assert!(map.is_ordered());
    assert_eq!(map.used(), 9);
    assert_eq!(map.alloc, 16);
    assert_eq!(map._bitfield_1, 1 | 4 | (9 << 3));
    let big = mp_map_t::from_raw(false, true, false, usize::MAX, 0);
    assert_eq!(big.used(), usize::MAX >> 3);
    assert!(big.is_fixed() && !big.all_keys_are_qstrs() && !big.is_ordered());
}

#[test]
fn filled_slots_are_neither_empty_nor_deleted() {
    let map = mp_map_t::from_raw(false, false, false, 1, 3);
    let table = [
        mp_map_elem_t { key: 0, value: 0 },
        mp_map_elem_t { key: 4, value: 0 },
        mp_map_elem_t { key: 0x1002, value: 7 },
    ];
    assert!(!mp_map_slot_is_filled(&map, &table, 0));
    assert!(!mp_map_slot_is_filled(&map, &table, 1));
    assert!(mp_map_slot_is_filled(&map, &table, 2));
    let set = [14usize, 0, 4];
    assert!(mp_set_slot_is_filled(&set, 0));
    assert!(!mp_set_slot_is_filled(&set, 1));
    assert!(!mp_set_slot_is_filled(&set, 2));
}

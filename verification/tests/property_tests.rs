use dense_table::Table;

#[test]
fn round_trip_many() {
    let mut table: Table<u64> = Table::default();
    let mut keys = Vec::new();
    for v in 0..20u64 {
        keys.push(table.add(v));
    }
    for (v, key) in keys.iter().enumerate() {
        assert_eq!(table.get(*key), Some(&(v as u64)));
    }
}

#[test]
fn idempotent_removal() {
    let mut table: Table<i32> = Table::default();
    let key = table.add(5);
    let other = table.add(6);
    assert_eq!(table.remove(key), Some(5));
    assert_eq!(table.remove(key), None);
    assert_eq!(table.count(), 1);
    assert_eq!(table.get(other), Some(&6));
}

#[test]
fn count_after_adds_and_removes() {
    let mut table: Table<u32> = Table::default();
    for i in 0..5u128 {
        table.add_with_key(i, i as u32 * 10);
    }
    assert_eq!(table.count(), 5);
    assert_eq!(table.remove(1), Some(10));
    assert_eq!(table.remove(3), Some(30));
    assert_eq!(table.count(), 3);
}

#[test]
fn swap_compaction_preserves_others() {
    let mut table: Table<&'static str> = Table::default();
    let key_a = table.add("a");
    let key_b = table.add("b");
    let key_c = table.add("c");
    let key_d = table.add("d");
    // Remove a non-last element: the last value is relocated into its slot.
    assert_eq!(table.remove(key_b), Some("b"));
    assert_eq!(table.count(), 3);
    assert_eq!(table.get(key_a), Some(&"a"));
    assert_eq!(table.get(key_c), Some(&"c"));
    assert_eq!(table.get(key_d), Some(&"d"));
    assert_eq!(table.get(key_b), None);
}

#[test]
fn overwrite_keeps_later_value() {
    let mut table: Table<i32> = Table::default();
    table.add_with_key(77, 1);
    let before = table.count();
    table.add_with_key(77, 2);
    assert_eq!(table.get(77), Some(&2));
    assert_eq!(table.count(), before);
}

#[test]
fn iteration_is_complete() {
    let mut table: Table<u64> = Table::default();
    let mut keys = Vec::new();
    for v in 0..10u64 {
        keys.push(table.add(v * v));
    }
    table.remove(keys[2]);
    table.remove(keys[7]);
    assert_eq!(table.values().len(), table.count());
    let mut seen: Vec<u64> = table.values().iter().copied().collect();
    seen.sort();
    let mut expected: Vec<u64> = (0..10u64).filter(|v| *v != 2 && *v != 7).map(|v| v * v).collect();
    expected.sort();
    assert_eq!(seen, expected);
}

#[test]
fn keys_are_the_live_keys() {
    let mut table: Table<i32> = Table::default();
    table.add_with_key(3, 30);
    table.add_with_key(1, 10);
    table.add_with_key(2, 20);
    table.remove(1);
    let mut keys: Vec<u128> = table.keys().clone();
    keys.sort();
    assert_eq!(keys, vec![2, 3]);
    assert_eq!(table.keys().len(), table.count());
}

#[test]
fn get_mut_updates_in_place() {
    let mut table: Table<String> = Table::default();
    let key = table.add(String::from("old"));
    let other = table.add(String::from("other"));
    match table.get_mut(key) {
        Some(value) => *value = String::from("new"),
        None => panic!("key should be live"),
    }
    assert_eq!(table.get(key), Some(&String::from("new")));
    assert_eq!(table.get(other), Some(&String::from("other")));
    assert_eq!(table.count(), 2);
    assert!(table.get_mut(424242).is_none());
}

#[test]
fn clear_empties_everything() {
    let mut table: Table<i32> = Table::default();
    let key = table.add(1);
    table.add(2);
    table.clear();
    assert_eq!(table.count(), 0);
    assert_eq!(table.get(key), None);
    assert!(table.values().is_empty());
    assert!(table.keys().is_empty());
    // The table is still usable after a clear.
    let key2 = table.add(9);
    assert_eq!(table.get(key2), Some(&9));
}

#[test]
fn scenario_three_adds_one_removal() {
    let mut table: Table<i32> = Table::default();
    table.add(10);
    let key_of_20 = table.add(20);
    table.add(30);
    assert_eq!(table.count(), 3);
    assert_eq!(table.remove(key_of_20), Some(20));
    assert_eq!(table.count(), 2);
    let mut values: Vec<i32> = table.values().iter().copied().collect();
    values.sort();
    assert_eq!(values, vec![10, 30]);
    assert_eq!(table.get(key_of_20), None);
}

#[test]
fn scenario_rekeying() {
    let mut table: Table<&'static str> = Table::default();
    table.add_with_key(7, "a");
    table.add_with_key(7, "b");
    assert_eq!(table.get(7), Some(&"b"));
    assert_eq!(table.count(), 1);
}

#[test]
fn scenario_remove_from_empty() {
    let mut table: Table<i32> = Table::default();
    assert_eq!(table.remove(999), None);
    assert_eq!(table.count(), 0);
}

#[test]
fn scenario_capacity_is_only_a_hint() {
    let mut sized: Table<u32> = Table::with_capacity(1000);
    let mut plain: Table<u32> = Table::default();
    for i in 0..1000u32 {
        sized.add_with_key(i as u128, i);
        plain.add_with_key(i as u128, i);
    }
    assert_eq!(sized.count(), 1000);
    assert_eq!(sized.count(), plain.count());
    for i in 0..1000u32 {
        assert_eq!(sized.get(i as u128), plain.get(i as u128));
        assert_eq!(sized.get(i as u128), Some(&i));
    }
    // Random-key adds also behave the same: the key comes back, the value is
    // found under it.
    let k1 = sized.add(123456);
    let k2 = plain.add(123456);
    assert_eq!(sized.get(k1), Some(&123456));
    assert_eq!(plain.get(k2), Some(&123456));
}

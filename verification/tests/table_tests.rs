use tcap_bench::table::SeriesTable;

#[test]
fn empty_table_has_no_keys() {
    let t: SeriesTable<u128> = SeriesTable::new();
    assert!(t.sorted_keys().is_empty());
    assert!(t.get(0).is_none());
    assert!(!t.contains_key(0));
}

#[test]
fn insert_then_get_gives_back_the_series() {
    let mut t: SeriesTable<u128> = SeriesTable::new();
    t.insert(7, vec![1, 2, 3]);
    assert_eq!(t.get(7), Some(&vec![1, 2, 3]));
    assert!(t.contains_key(7));
    assert!(t.get(8).is_none());
}

#[test]
fn insert_replaces_an_existing_series() {
    let mut t: SeriesTable<u128> = SeriesTable::new();
    t.insert(3, vec![1]);
    t.insert(4, vec![9]);
    t.insert(3, vec![5, 6]);
    assert_eq!(t.get(3), Some(&vec![5, 6]));
    assert_eq!(t.get(4), Some(&vec![9]));
    assert_eq!(t.sorted_keys(), vec![3, 4]);
}

#[test]
fn push_appends_to_one_series_only() {
    let mut t: SeriesTable<u128> = SeriesTable::new();
    t.insert(1, Vec::new());
    t.insert(2, vec![10]);
    t.push(2, 11);
    t.push(1, 4);
    t.push(2, 12);
    assert_eq!(t.get(1), Some(&vec![4]));
    assert_eq!(t.get(2), Some(&vec![10, 11, 12]));
}

#[test]
fn sorted_keys_are_ascending_whatever_the_insertion_order() {
    let mut t: SeriesTable<u8> = SeriesTable::new();
    for k in [40, -3, 1000000, 0, 17, -200, 5] {
        t.insert(k, Vec::new());
    }
    t.insert(17, vec![1]);
    assert_eq!(t.sorted_keys(), vec![-200, -3, 0, 5, 17, 40, 1000000]);
}

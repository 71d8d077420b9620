use vec_map::VecMap;

#[test]
fn test_insert() {
    let mut vec = VecMap::new();

    for n in (0..30usize).rev() {
        assert!(vec.insert(n, n).is_none());
    }

    assert_eq!(vec.len(), 30);

    for n in (0..30usize).rev() {
        let old = vec.insert(n, 100 - n);

        assert_eq!(n, old.unwrap());
    }

    assert_eq!(vec.len(), 30);
}

#[test]
fn test_remove() {
    let mut vec = VecMap::new();

    for n in 0..30usize {
        vec.insert(n, n);
    }

    for n in 0..30usize {
        assert_eq!(vec.remove(&n), Some(n));
    }

    assert_eq!(vec.len(), 0);
}

#[test]
fn insert_descending_then_replace_middle() {
    let mut map = VecMap::new();

    for n in (0..30usize).rev() {
        map.insert(n, n);
    }

    assert_eq!(map.len(), 30);
    assert_eq!(map.get(&15), Some(&15));

    assert_eq!(map.insert(15, 100 - 15), Some(15));
    assert_eq!(map.len(), 30);
    assert_eq!(map.get(&15), Some(&85));
}

#[test]
fn retain_keeps_order_and_filters() {
    let mut map = VecMap::new();
    map.insert(1usize, 10);
    map.insert(2usize, 11);

    map.retain(|_k, v| *v > 10);

    assert_eq!(map.len(), 1);
    assert_eq!(map.into_iter().collect(), vec![(2usize, 11)]);
}

#[test]
fn remove_all_in_insertion_order() {
    let mut map = VecMap::new();

    for n in 0..30usize {
        map.insert(n, n);
    }

    for n in 0..30usize {
        assert_eq!(map.remove(&n), Some(n));
    }

    assert_eq!(map.len(), 0);
    assert!(map.is_empty());
}

#[test]
fn get_and_contains_on_empty_and_absent() {
    let mut map: VecMap<u64> = VecMap::new();
    assert!(map.is_empty());
    assert_eq!(map.len(), 0);
    assert_eq!(map.get(&0), None);
    assert!(!map.contains_key(&7));
    assert_eq!(map.remove(&3), None);

    map.insert(4, 44);
    assert!(map.contains_key(&4));
    assert!(!map.contains_key(&3));
    assert_eq!(map.get(&5), None);
}

#[test]
fn remove_not_last_relocates_last_entry() {
    let mut map = VecMap::new();
    map.insert(10usize, 'a');
    map.insert(20usize, 'b');
    map.insert(30usize, 'c');

    // Key 10 sits at dense position 0; removing it moves (30, 'c') there.
    assert_eq!(map.remove(&10), Some('a'));
    assert_eq!(map.len(), 2);
    assert_eq!(map.get(&20), Some(&'b'));
    assert_eq!(map.get(&30), Some(&'c'));

    let pairs: Vec<(usize, char)> = map.into_iter().collect();
    assert_eq!(pairs, vec![(30, 'c'), (20, 'b')]);
}

#[test]
fn clear_empties_the_map() {
    let mut map = VecMap::new();
    map.insert(0usize, 1);
    map.insert(9usize, 2);
    map.clear();
    assert!(map.is_empty());
    assert_eq!(map.get(&9), None);
    map.insert(9usize, 3);
    assert_eq!(map.get(&9), Some(&3));
}

#[test]
fn get_mut_changes_single_value() {
    let mut map = VecMap::with_capacity(4);
    map.insert(2usize, 5i64);
    map.insert(6usize, 7i64);

    if let Some(v) = map.get_mut(&2) {
        *v = -1;
    }
    assert_eq!(map.get(&2), Some(&-1));
    assert_eq!(map.get(&6), Some(&7));
    assert_eq!(map.get_mut(&100), None);
}

#[test]
fn shrink_to_fit_preserves_entries_and_is_idempotent() {
    let mut map = VecMap::new();
    for n in 0..10usize {
        map.insert(n * 3, n);
    }
    for n in 5..10usize {
        map.remove(&(n * 3));
    }

    map.shrink_to_fit();
    assert_eq!(map.len(), 5);
    for n in 0..5usize {
        assert_eq!(map.get(&(n * 3)), Some(&n));
    }

    map.shrink_to_fit();
    assert_eq!(map.len(), 5);
    for n in 0..5usize {
        assert_eq!(map.get(&(n * 3)), Some(&n));
    }

    let mut empty: VecMap<u8> = VecMap::new();
    empty.insert(40, 1);
    empty.remove(&40);
    empty.shrink_to_fit();
    assert!(empty.is_empty());
}

#[test]
fn retain_all_and_none() {
    let mut all = VecMap::new();
    for n in 0..8usize {
        all.insert(n, n as u32);
    }
    all.retain(|_k, _v| true);
    assert_eq!(all.len(), 8);
    for n in 0..8usize {
        assert_eq!(all.get(&n), Some(&(n as u32)));
    }

    let mut none = VecMap::new();
    for n in 0..8usize {
        none.insert(n, n as u32);
    }
    none.retain(|_k, _v| false);
    assert_eq!(none.len(), 0);
    assert_eq!(none.get(&3), None);
    // A removed slot can be refilled after a full purge.
    none.insert(3, 33);
    assert_eq!(none.get(&3), Some(&33));
}

#[test]
fn retain_preserves_relative_order() {
    let mut map = VecMap::new();
    for n in 0..10usize {
        map.insert(n, n);
    }
    map.retain(|k, _v| k % 2 == 0);
    let pairs: Vec<(usize, usize)> = map.into_iter().collect();
    assert_eq!(pairs, vec![(0, 0), (2, 2), (4, 4), (6, 6), (8, 8)]);
}

#[test]
fn round_trip_rebuilds_equal_map() {
    let mut map = VecMap::new();
    map.insert(5usize, "five");
    map.insert(1usize, "one");
    map.insert(9usize, "nine");
    map.remove(&1);

    let pairs: Vec<(usize, &str)> = map.into_iter().collect();
    let rebuilt = VecMap::from_iter(pairs.clone());

    let rebuilt_pairs: Vec<(usize, &str)> = rebuilt.into_iter().collect();
    assert_eq!(rebuilt_pairs, pairs);
}

#[test]
fn from_iter_replaces_duplicates() {
    let map = VecMap::from_iter(vec![(1usize, 10), (2usize, 20), (1usize, 30)]);
    assert_eq!(map.len(), 2);
    assert_eq!(map.get(&1), Some(&30));
    assert_eq!(map.get(&2), Some(&20));
}

#[test]
fn extend_inserts_in_order() {
    let mut map = VecMap::new();
    map.insert(0usize, 0u8);
    map.extend(vec![(4, 1), (0, 9), (7, 2)]);
    assert_eq!(map.len(), 3);
    assert_eq!(map.get(&0), Some(&9));
    assert_eq!(map.get(&4), Some(&1));
    assert_eq!(map.get(&7), Some(&2));
}

#[test]
fn contains_tracks_insert_remove_history() {
    let mut map = VecMap::new();
    map.insert(1usize, 'a');
    map.insert(2usize, 'b');
    assert!(map.contains_key(&1));
    map.remove(&1);
    assert!(!map.contains_key(&1));
    assert!(map.contains_key(&2));
    map.insert(1usize, 'c');
    assert!(map.contains_key(&1));
    map.remove(&2);
    map.remove(&2);
    assert!(!map.contains_key(&2));
    assert_eq!(map.get(&1), Some(&'c'));
}

#[test]
fn default_is_empty() {
    let map: VecMap<u16> = Default::default();
    assert!(map.is_empty());
}

#[test]
fn equality_compares_dense_sequences_only() {
    let mut a = VecMap::new();
    let mut b = VecMap::new();
    a.insert(1usize, 5i32);
    a.insert(50usize, 6i32);
    b.insert(1usize, 5i32);
    b.insert(50usize, 6i32);
    assert!(a == b);

    // A different index-array history does not break equality.
    b.insert(80, 9);
    b.remove(&80);
    assert!(a == b);

    b.insert(50, 7);
    assert!(a != b);

    // The same entries in a different dense order are not equal.
    let mut c = VecMap::new();
    c.insert(50usize, 6i32);
    c.insert(1usize, 5i32);
    assert!(a != c);
}

#[test]
fn clone_is_independent_of_the_original() {
    let mut map = VecMap::new();
    map.insert(2usize, String::from("two"));
    map.insert(5usize, String::from("five"));

    let copy = map.clone();
    map.remove(&2);

    assert_eq!(copy.len(), 2);
    assert_eq!(copy.get(&2).map(|s| s.as_str()), Some("two"));
    assert_eq!(copy.get(&5).map(|s| s.as_str()), Some("five"));
    assert_eq!(map.get(&2), None);
}

#[test]
fn sparse_large_key_grows_the_index() {
    let mut map = VecMap::new();
    map.insert(10_000usize, 1u8);
    map.insert(0usize, 2u8);
    assert_eq!(map.len(), 2);
    assert_eq!(map.get(&10_000), Some(&1));
    assert_eq!(map.get(&0), Some(&2));
    assert_eq!(map.get(&9_999), None);
    map.remove(&10_000);
    map.shrink_to_fit();
    assert_eq!(map.get(&0), Some(&2));
    assert_eq!(map.len(), 1);
}

use vec_map::Entry;
use vec_map::VecMap;

#[test]
fn or_insert_with_inserts_closure_result() {
    let mut map: VecMap<String> = VecMap::new();
    let s = "hoho".to_string();

    map.entry(2).or_insert_with(|| s);

    assert_eq!(map.get(&2).unwrap().clone(), "hoho".to_string());
}

#[test]
fn or_insert_on_vacant_and_occupied() {
    let mut map = VecMap::new();
    *map.entry(3).or_insert(7) += 1;
    assert_eq!(map.get(&3), Some(&8));

    // The key is occupied now, so the default is ignored.
    let v = map.entry(3).or_insert(100);
    assert_eq!(*v, 8);
    assert_eq!(map.len(), 1);
}

#[test]
fn and_modify_touches_only_occupied() {
    let mut map = VecMap::new();
    map.insert(1usize, 10);

    map.entry(1).and_modify(|v| *v += 5).or_insert(0);
    assert_eq!(map.get(&1), Some(&15));

    map.entry(2).and_modify(|v| *v += 5).or_insert(42);
    assert_eq!(map.get(&2), Some(&42));
}

#[test]
fn or_default_inserts_default_value() {
    let mut map: VecMap<u32> = VecMap::new();
    map.insert(5, 9);
    assert_eq!(*map.entry(8).or_default(), 0);
    assert_eq!(*map.entry(5).or_default(), 9);
    assert_eq!(map.len(), 2);
}

#[test]
fn entry_key_reports_the_key() {
    let mut map: VecMap<i8> = VecMap::new();
    assert_eq!(*map.entry(12).key(), 12);
    map.insert(12, 1);
    assert_eq!(*map.entry(12).key(), 12);
}

#[test]
fn occupied_entry_operations() {
    let mut map = VecMap::new();
    map.insert(4usize, 40);
    map.insert(9usize, 90);

    match map.entry(4) {
        Entry::Occupied(mut o) => {
            assert_eq!(*o.key(), 4);
            assert_eq!(*o.get(), 40);
            *o.get_mut() += 1;
            assert_eq!(o.insert(50), 41);
        },
        Entry::Vacant(_) => panic!("key 4 should be occupied"),
    }
    assert_eq!(map.get(&4), Some(&50));

    match map.entry(9) {
        Entry::Occupied(o) => {
            let v = o.into_mut();
            *v = 99;
        },
        Entry::Vacant(_) => panic!("key 9 should be occupied"),
    }
    assert_eq!(map.get(&9), Some(&99));

    match map.entry(4) {
        Entry::Occupied(o) => assert_eq!(o.remove(), 50),
        Entry::Vacant(_) => panic!("key 4 should be occupied"),
    }
    assert!(!map.contains_key(&4));

    match map.entry(9) {
        Entry::Occupied(o) => assert_eq!(o.remove_entry(), (9, 99)),
        Entry::Vacant(_) => panic!("key 9 should be occupied"),
    }
    assert!(map.is_empty());
}

#[test]
fn vacant_entry_operations() {
    let mut map: VecMap<&str> = VecMap::new();

    match map.entry(6) {
        Entry::Vacant(v) => {
            assert_eq!(*v.key(), 6);
            assert_eq!(v.into_key(), 6);
        },
        Entry::Occupied(_) => panic!("key 6 should be vacant"),
    }
    assert!(map.is_empty());

    match map.entry(6) {
        Entry::Vacant(v) => {
            let slot = v.insert("six");
            assert_eq!(*slot, "six");
            *slot = "SIX";
        },
        Entry::Occupied(_) => panic!("key 6 should be vacant"),
    }
    assert_eq!(map.get(&6), Some(&"SIX"));
}

#[test]
fn iter_walks_dense_order_both_ends() {
    let mut map = VecMap::new();
    map.insert(2usize, 'x');
    map.insert(0usize, 'y');
    map.insert(5usize, 'z');

    let mut it = map.iter();
    assert_eq!(it.size_hint(), (3, Some(3)));
    assert_eq!(it.next(), Some((2, &'x')));
    assert_eq!(it.next_back(), Some((5, &'z')));
    assert_eq!(it.next(), Some((0, &'y')));
    assert_eq!(it.next(), None);
    assert_eq!(it.next_back(), None);

    // Restartable from a fresh borrow.
    assert_eq!(map.iter().count(), 3);
}

#[test]
fn keys_and_values_project_entries() {
    let mut map = VecMap::new();
    map.insert(3usize, 30);
    map.insert(1usize, 10);

    let mut keys = map.keys();
    assert_eq!(keys.size_hint(), (2, Some(2)));
    assert_eq!(keys.next(), Some(3));
    assert_eq!(keys.next_back(), Some(1));
    assert_eq!(keys.next(), None);
    assert_eq!(map.keys().count(), 2);

    let mut values = map.values();
    assert_eq!(values.size_hint(), (2, Some(2)));
    assert_eq!(values.next(), Some(&30));
    assert_eq!(values.next_back(), Some(&10));
    assert_eq!(values.next(), None);
    assert_eq!(map.values().count(), 2);
}

#[test]
fn cloned_iterator_is_independent() {
    let mut map = VecMap::new();
    map.insert(1usize, 10);
    map.insert(2usize, 20);

    let mut it = map.iter();
    it.next();
    let mut copy = it.clone();
    assert_eq!(it.next(), Some((2, &20)));
    assert_eq!(copy.next(), Some((2, &20)));
    assert_eq!(copy.next(), None);
}

#[test]
fn iter_mut_walks_both_ends() {
    let mut map = VecMap::new();
    map.insert(1usize, 10);
    map.insert(2usize, 20);
    map.insert(3usize, 30);

    let mut it = map.iter_mut();
    match it.next_back() {
        Some((k, v)) => {
            assert_eq!(k, 3);
            *v += 1;
        },
        None => panic!("expected a back entry"),
    }
    match it.next() {
        Some((k, v)) => {
            assert_eq!(k, 1);
            *v += 2;
        },
        None => panic!("expected a front entry"),
    }
    assert_eq!(it.count(), 1);

    assert_eq!(map.get(&1), Some(&12));
    assert_eq!(map.get(&2), Some(&20));
    assert_eq!(map.get(&3), Some(&31));
}

#[test]
fn iter_mut_rewrites_every_value() {
    let mut map = VecMap::new();
    for n in 0..10usize {
        map.insert(n, n);
    }

    let mut it = map.iter_mut();
    assert_eq!(it.size_hint(), (10, Some(10)));
    while let Some((_k, v)) = it.next() {
        *v = *v * 2;
    }

    assert_eq!(map.len(), 10);
    for n in 0..10usize {
        assert_eq!(map.get(&n), Some(&(n * 2)));
    }
}

#[test]
fn values_mut_rewrites_every_value() {
    let mut map = VecMap::new();
    map.insert(3usize, 5i32);
    map.insert(8usize, 6i32);

    let mut it = map.values_mut();
    assert_eq!(it.size_hint(), (2, Some(2)));
    while let Some(v) = it.next() {
        *v += 1;
    }

    assert_eq!(map.get(&3), Some(&6));
    assert_eq!(map.get(&8), Some(&7));
}

#[test]
fn into_iter_drains_both_ends() {
    let mut map = VecMap::new();
    map.insert(1usize, 100);
    map.insert(2usize, 200);
    map.insert(3usize, 300);

    let mut it = map.into_iter();
    assert_eq!(it.size_hint(), (3, Some(3)));
    assert_eq!(it.next(), Some((1, 100)));
    assert_eq!(it.next_back(), Some((3, 300)));
    assert_eq!(it.next(), Some((2, 200)));
    assert_eq!(it.next(), None);
    assert_eq!(it.next_back(), None);
}

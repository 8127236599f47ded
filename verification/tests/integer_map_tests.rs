use frozen_collections::specialized_maps::hash_table::CapacityExceeded;
use frozen_collections::specialized_maps::integer_map::IntegerMap;

#[test]
fn test_from_iter_empty() {
    let pairs: Vec<(u32, u32)> = vec![];
    let map: IntegerMap<u32, u32, u32> = IntegerMap::from_iter(pairs.into_iter()).unwrap();
    assert!(map.is_empty());
}

#[test]
fn test_from_iter_single() {
    let pairs = vec![(1, 2)];
    let map: IntegerMap<u32, u32, u32> = IntegerMap::from_iter(pairs.into_iter()).unwrap();
    assert_eq!(map.get(&1), Some(&2));
}

#[test]
fn test_from_iter_multiple() {
    let pairs = vec![(1, 2), (3, 4), (5, 6)];
    let map: IntegerMap<u32, u32, u32> = IntegerMap::from_iter(pairs.into_iter()).unwrap();
    assert_eq!(map.get(&1), Some(&2));
    assert_eq!(map.get(&3), Some(&4));
    assert_eq!(map.get(&5), Some(&6));
}

#[test]
fn integer_map_finds_negative_keys() {
    let map =
        IntegerMap::<i64, &str, u8>::from_vec(vec![(-5, "a"), (7, "b"), (-300, "c"), (1 << 40, "d")])
            .unwrap();
    assert_eq!(map.get(&-5), Some(&"a"));
    assert_eq!(map.get(&7), Some(&"b"));
    assert_eq!(map.get(&-300), Some(&"c"));
    assert_eq!(map.get(&(1 << 40)), Some(&"d"));
    assert_eq!(map.get(&5), None);
    assert_eq!(map.get(&-7), None);
    assert!(map.contains_key(&-300));
    assert_eq!(map.get_key_value(&7), Some((&7, &"b")));
}

#[test]
fn integer_map_rejects_more_entries_than_its_descriptors_count() {
    let mut payload = Vec::new();
    for i in 0..256u32 {
        payload.push((i * 3, i));
    }
    let r = IntegerMap::<u32, u32, u8>::from_vec(payload.clone());
    match r {
        Err(e) => assert_eq!(e, CapacityExceeded { len: 256, capacity: 255 }),
        Ok(_) => panic!("256 entries do not fit 8-bit descriptors"),
    }
    payload.pop();
    let map = IntegerMap::<u32, u32, u8>::from_vec(payload).unwrap();
    assert_eq!(map.len(), 255);
    for i in 0..255u32 {
        assert_eq!(map.get(&(i * 3)), Some(&i));
        assert_eq!(map.get(&(i * 3 + 1)), None);
    }
    let mut payload = Vec::new();
    for i in 0..300u32 {
        payload.push((i * 7, i));
    }
    let map = IntegerMap::<u32, u32, u16>::from_vec(payload).unwrap();
    assert_eq!(map.get(&(299 * 7)), Some(&299));
}

#[test]
fn integer_map_get_mut_changes_one_value() {
    let mut map = IntegerMap::<u32, u32, usize>::from_vec(vec![(1, 2), (3, 4), (5, 6)]).unwrap();
    *map.get_mut(&3).unwrap() = 40;
    assert_eq!(map.get(&1), Some(&2));
    assert_eq!(map.get(&3), Some(&40));
    assert_eq!(map.get(&5), Some(&6));
    assert!(map.get_mut(&4).is_none());
}

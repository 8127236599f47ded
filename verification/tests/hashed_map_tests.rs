use frozen_collections::specialized_maps::common_map::CommonMap;
use frozen_collections::specialized_maps::debug::debug_list_string;
use frozen_collections::specialized_maps::debug::debug_map_string;
use frozen_collections::specialized_maps::debug::join;
use frozen_collections::specialized_maps::debug::list_text;
use frozen_collections::specialized_maps::debug::map_text;
use frozen_collections::specialized_maps::integer_map::integer_hash;
use frozen_collections::specialized_maps::left_slice_map::left_slice_hash;
use frozen_collections::specialized_maps::left_slice_map::LeftSliceMap;
use frozen_collections::specialized_maps::length_map::length_hash;
use frozen_collections::specialized_maps::length_map::LengthMap;
use frozen_collections::specialized_maps::map_ops::MapOps;
use frozen_collections::specialized_maps::right_slice_map::right_slice_hash;
use frozen_collections::specialized_maps::right_slice_map::RightSliceMap;
use frozen_collections::specialized_maps::scanning_map::ScanningMap;
use frozen_collections::traits::byte_hasher::hash_window;
use frozen_collections::traits::byte_hasher::ByteHasher;
use frozen_collections::traits::byte_hasher::DefaultByteHasher;
use frozen_collections::traits::len::Len;

fn strings(keys: &[&str]) -> Vec<(String, usize)> {
    keys.iter().enumerate().map(|(i, k)| (k.to_string(), i)).collect()
}

#[test]
fn integer_hash_is_the_key_reduced_to_64_bits() {
    assert_eq!(integer_hash(&0u8), 0);
    assert_eq!(integer_hash(&255u8), 255);
    assert_eq!(integer_hash(&u64::MAX), u64::MAX);
    assert_eq!(integer_hash(&-1i32), u64::MAX);
    assert_eq!(integer_hash(&-2i8), u64::MAX - 1);
    assert_eq!(integer_hash(&i64::MIN), 1u64 << 63);
    assert_eq!(integer_hash(&usize::MAX), usize::MAX as u64);
    assert_eq!(integer_hash(&u128::MAX), u64::MAX);
    assert_eq!(integer_hash(&((7u128 << 64) + 3)), 3);
    assert_eq!(integer_hash(&i128::MIN), 0);
    // keys that are no integers all get the same code
    assert_eq!(integer_hash(&"abc".to_string()), 0);
    assert_eq!(integer_hash(&true), 0);
}

#[test]
fn length_hash_is_the_number_of_bytes() {
    assert_eq!(length_hash(&"".to_string()), 0);
    assert_eq!(length_hash(&"abc".to_string()), 3);
    assert_eq!(length_hash(&"é".to_string()), 2);
    assert_eq!(length_hash(&vec![1u8, 2, 3, 4]), 4);
    assert_eq!(length_hash(&77u32), 0);
}

#[test]
fn slice_hashes_are_hashes_of_the_window() {
    let bh = DefaultByteHasher::new();
    let key = "abcdef".to_string();
    assert_eq!(left_slice_hash(&key, &bh, 1, 3), bh.hash_bytes("bc".as_bytes()));
    assert_eq!(right_slice_hash(&key, &bh, 1, 3), bh.hash_bytes("de".as_bytes()));
    assert_eq!(left_slice_hash(&key, &bh, 0, 6), bh.hash_bytes("abcdef".as_bytes()));
    assert_eq!(right_slice_hash(&key, &bh, 0, 6), bh.hash_bytes("abcdef".as_bytes()));
    assert_eq!(left_slice_hash(&key, &bh, 2, 2), bh.hash_bytes("".as_bytes()));
    assert_eq!(hash_window("abcdef".as_bytes(), &bh, 4, 6), bh.hash_bytes("ef".as_bytes()));
    // keys that are too short, windows that end before they begin, and keys
    // that are no byte strings get the code zero
    assert_eq!(left_slice_hash(&key, &bh, 0, 7), 0);
    assert_eq!(right_slice_hash(&key, &bh, 5, 7), 0);
    assert_eq!(left_slice_hash(&key, &bh, 3, 2), 0);
    assert_eq!(right_slice_hash(&key, &bh, 3, 2), 0);
    assert_eq!(left_slice_hash(&5u32, &bh, 0, 0), 0);
    assert_eq!(right_slice_hash(&5u32, &bh, 0, 0), 0);
    assert!(bh.hash_bytes("bc".as_bytes()) != bh.hash_bytes("de".as_bytes()));
}

#[test]
fn left_slice_map_finds_keys_of_any_length() {
    let payload = strings(&["0-zero", "1-one", "2-two", "3", ""]);
    let map = LeftSliceMap::<String, usize, u8>::from_vec(payload.clone(), 0..1).unwrap();
    assert_eq!(map.range, 0..1);
    for (k, v) in &payload {
        assert_eq!(map.get(k), Some(v));
        assert_eq!(map.get_key_value(k), Some((k, v)));
        assert!(map.contains_key(k));
    }
    assert_eq!(map.get(&"0-zer".to_string()), None);
    assert_eq!(map.get(&"4".to_string()), None);
    assert_eq!(map.len(), 5);
    let r = map.get_hash_info(&"2-two".to_string());
    assert!(r.clone().any(|p| map.get_by_index(p).unwrap().0 == "2-two"));
    assert_eq!(map.position(&"nothing".to_string()), None);
    let map = LeftSliceMap::<String, usize, u16>::from(
        [("ab".to_string(), 1), ("cd".to_string(), 2)],
        1..2,
    )
    .unwrap();
    assert_eq!(map.get(&"cd".to_string()), Some(&2));
    let map =
        LeftSliceMap::<String, usize, usize>::from_iter(payload.clone().into_iter(), 2..4).unwrap();
    assert_eq!(map.get(&"1-one".to_string()), Some(&1));
    assert_eq!(map.hasher().hash_bytes(&[1]), DefaultByteHasher::new().hash_bytes(&[1]));
}

#[test]
fn right_slice_map_finds_keys_of_any_length() {
    let payload = strings(&["zero-0", "one-1", "two-2", "3", ""]);
    let map = RightSliceMap::<String, usize, u8>::from_vec(payload.clone(), 0..1).unwrap();
    for (k, v) in &payload {
        assert_eq!(map.get(k), Some(v));
    }
    assert_eq!(map.get(&"ero-0".to_string()), None);
    assert_eq!(map.get(&"0".to_string()), None);
    let mut map = RightSliceMap::<String, usize, u8>::with_hasher(
        [("ab".to_string(), 1), ("cd".to_string(), 2), ("xb".to_string(), 3)],
        0..1,
        DefaultByteHasher::new(),
    )
    .unwrap();
    *map.get_mut(&"xb".to_string()).unwrap() = 30;
    assert_eq!(map.get(&"ab".to_string()), Some(&1));
    assert_eq!(map.get(&"xb".to_string()), Some(&30));
    let ab = "ab".to_string();
    let xb = "xb".to_string();
    {
        let [x, a] = map.get_many_mut([&xb, &ab]).unwrap();
        std::mem::swap(x, a);
    }
    assert_eq!(map.get(&ab), Some(&30));
    assert_eq!(map.get(&xb), Some(&1));
    assert!(map.get_many_mut([&xb, &ab, &xb]).is_none());
    let map = RightSliceMap::<String, usize, u8>::from_iter_with_hasher(
        payload.into_iter(),
        1..3,
        DefaultByteHasher::new(),
    )
    .unwrap();
    assert_eq!(map.get(&"two-2".to_string()), Some(&2));
    assert_eq!(map.range, 1..3);
}

#[test]
fn length_map_tells_keys_of_one_length_apart() {
    let payload = strings(&["a", "bb", "cc", "ddd"]);
    let map = LengthMap::<String, usize, u8>::from_vec(payload.clone()).unwrap();
    for (k, v) in &payload {
        assert_eq!(map.get(k), Some(v));
    }
    assert_eq!(map.get(&"b".to_string()), None);
    assert_eq!(map.get(&"dd".to_string()), None);
    assert_eq!(map.get(&"dddd".to_string()), None);
    let r = map.get_hash_info(&"xx".to_string());
    assert_eq!(r.len(), 2);
    let map = LengthMap::<Vec<u8>, usize, u8>::from([(vec![1], 1), (vec![1, 2], 2)]).unwrap();
    assert_eq!(map.get(&vec![1, 2]), Some(&2));
    assert_eq!(map.get(&vec![2, 1]), None);
}

#[test]
fn common_map_finds_keys_of_every_kind() {
    let map = CommonMap::<char, u32, u8>::from_vec(vec![('a', 1), ('b', 2), ('é', 3)]).unwrap();
    assert_eq!(map.get(&'a'), Some(&1));
    assert_eq!(map.get(&'é'), Some(&3));
    assert_eq!(map.get(&'c'), None);
    let map = CommonMap::<i16, u32, u8>::from([(-1, 1), (1, 2)]).unwrap();
    assert_eq!(map.get(&-1), Some(&1));
    assert_eq!(map.get(&0), None);
    let payload = strings(&["one", "two", "three", "four", "five"]);
    let map = CommonMap::<String, usize, u16>::from_iter(payload.clone().into_iter()).unwrap();
    for (k, v) in &payload {
        assert_eq!(map.get(k), Some(v));
        assert_eq!(map.index(k), v);
    }
    assert_eq!(map.get(&"six".to_string()), None);
    let payload: Vec<(u32, u32)> = (0..256).map(|i| (i, i)).collect();
    assert!(CommonMap::<u32, u32, u8>::from_vec(payload.clone()).is_err());
    assert!(CommonMap::<u32, u32, u8>::from_iter_with_hasher(
        payload.clone().into_iter(),
        DefaultByteHasher::new()
    )
    .is_err());
    let map = CommonMap::<u32, u32, u16>::from_vec_with_hasher(payload, DefaultByteHasher::new())
        .unwrap();
    assert_eq!(map.get(&255), Some(&255));
    assert_eq!(Len::len(&map), 256);
    assert!(!Len::is_empty(&map));
}

#[test]
fn maps_of_different_kinds_compare_by_their_entries() {
    let scanning = ScanningMap::<String, usize>::from_vec(strings(&["a", "bb", "ccc"]));
    let by_length = LengthMap::<String, usize, u8>::from_vec(strings(&["a", "bb", "ccc"])).unwrap();
    let common = CommonMap::<String, usize, u8>::from_vec(vec![
        ("ccc".to_string(), 2),
        ("a".to_string(), 0),
        ("bb".to_string(), 1),
    ])
    .unwrap();
    let other = CommonMap::<String, usize, u8>::from_vec(strings(&["a", "bb", "ccd"])).unwrap();
    assert!(scanning.equals(&by_length));
    assert!(by_length.equals(&common));
    assert!(common.equals(&scanning));
    assert!(!common.equals(&other));
    assert!(!other.equals(&scanning));
    assert_eq!(MapOps::get(&common, &"bb".to_string()), Some(&1));
    assert_eq!(MapOps::get_by_index(&scanning, 2), Some((&"ccc".to_string(), &2)));
}

#[test]
fn debug_strings_list_the_entries_in_their_order() {
    let map = ScanningMap::<String, Option<i32>>::from([
        ("a".to_string(), Some(1)),
        ("b".to_string(), None),
    ]);
    assert_eq!(map.debug_string(), "{\"a\": Some(1), \"b\": None}");
    let map = ScanningMap::<u8, u8>::from_iter(Vec::new().into_iter());
    assert_eq!(map.debug_string(), "{}");
    let map = LengthMap::<String, i32, u8>::from_vec(vec![("k".to_string(), 7)]).unwrap();
    assert_eq!(map.debug_string(), "{\"k\": 7}");
}

#[test]
fn texts_of_maps_and_lists_are_put_together_from_the_texts_of_their_parts() {
    let words = |items: &[&str]| items.iter().map(|s| s.to_string()).collect::<Vec<String>>();
    assert_eq!(join(&words(&[]), ", "), "");
    assert_eq!(join(&words(&["a"]), ", "), "a");
    assert_eq!(join(&words(&["a", "b", "c"]), ", "), "a, b, c");
    assert_eq!(join(&words(&["a", "", "c"]), "-"), "a--c");
    assert_eq!(join(&words(&["a", "b"]), ""), "ab");
    assert_eq!(map_text(&words(&[]), &words(&[])), "{}");
    assert_eq!(map_text(&words(&["k"]), &words(&["v"])), "{k: v}");
    assert_eq!(map_text(&words(&["a", "b"]), &words(&["1", "2"])), "{a: 1, b: 2}");
    assert_eq!(list_text(&words(&[])), "[]");
    assert_eq!(list_text(&words(&["x"])), "[x]");
    assert_eq!(list_text(&words(&["x", "y", "z"])), "[x, y, z]");
    assert_eq!(debug_map_string(&[(1u8, 'a'), (2, 'b')]), "{1: 'a', 2: 'b'}");
    assert_eq!(debug_map_string::<u8, u8>(&[]), "{}");
    assert_eq!(debug_list_string(&[("a", ()), ("b", ())]), "[\"a\", \"b\"]");
    assert_eq!(debug_list_string::<u8>(&[]), "[]");
}

use frozen_collections::facades::frozen_map::FrozenMap;
use frozen_collections::facades::frozen_map::Representation;
use frozen_collections::traits::byte_hasher::ByteHasher;
use frozen_collections::traits::byte_hasher::DefaultByteHasher;
use frozen_collections::traits::len::Len;

fn strings(keys: &[&str]) -> Vec<(String, usize)> {
    keys.iter().enumerate().map(|(i, k)| (k.to_string(), i)).collect()
}

#[test]
fn dense_integers_choose_the_range_representation() {
    let map = FrozenMap::<u32, u32>::from_vec(vec![(0, 0), (1, 1), (2, 2), (3, 3), (4, 4)]);
    assert_eq!(map.representation(), Representation::IntegerRange);
    assert_eq!(map.get(&4), Some(&4));
    assert_eq!(map.get(&5), None);
}

#[test]
fn sparse_integers_choose_the_integer_representation() {
    let map = FrozenMap::<u32, u32>::from_vec(vec![(0, 1), (2, 3), (4, 5), (6, 7), (8, 9)]);
    assert_eq!(map.representation(), Representation::Integer);
    assert_eq!(map.get(&4), Some(&5));
    assert_eq!(map.get(&3), None);
}

#[test]
fn a_hole_in_a_range_chooses_the_integer_representation() {
    let dense: Vec<(i64, i64)> = (10..20).map(|k| (k, -k)).collect();
    let map = FrozenMap::<i64, i64>::from_vec(dense.clone());
    assert_eq!(map.representation(), Representation::IntegerRange);
    let mut holed = dense;
    holed.remove(4);
    let map = FrozenMap::<i64, i64>::from_vec(holed);
    assert_eq!(map.representation(), Representation::Integer);
    assert_eq!(map.get(&13), Some(&-13));
    assert_eq!(map.get(&14), None);
    assert_eq!(map.get(&15), Some(&-15));
}

#[test]
fn a_repeated_integer_chooses_the_integer_representation() {
    let map = FrozenMap::<u8, char>::from_vec(vec![(1, 'a'), (2, 'b'), (2, 'c'), (4, 'd')]);
    assert_eq!(map.representation(), Representation::Integer);
    assert_eq!(map.len(), 4);
    assert!(map.get(&2) == Some(&'b') || map.get(&2) == Some(&'c'));
}

#[test]
fn color_strings_are_found() {
    let map = FrozenMap::<String, usize>::from_vec(strings(&[
        "Red", "Green", "Blue", "Cyan", "Magenta", "Purple",
    ]));
    // "Blue" and "Cyan" are equally long, so the lengths do not tell the keys
    // apart; the first byte does.
    assert_eq!(
        map.representation(),
        Representation::LeftSlice { subslice_index: 0, subslice_len: 1 }
    );
    assert!(map.contains_key(&"Cyan".to_string()));
    assert!(!map.contains_key(&"Yellow".to_string()));
    assert_eq!(map.get(&"Magenta".to_string()), Some(&4));
    assert_eq!(map.get(&"".to_string()), None);
}

#[test]
fn strings_of_different_lengths_choose_the_length_representation() {
    let map = FrozenMap::<String, usize>::from_vec(strings(&["a", "bb", "ccc", "dddd", "eeeee"]));
    assert_eq!(map.representation(), Representation::Length);
    assert_eq!(map.get(&"ccc".to_string()), Some(&2));
    assert_eq!(map.get(&"ccd".to_string()), None);
    assert_eq!(map.get(&"cccccc".to_string()), None);
}

#[test]
fn common_prefix_strings_choose_the_right_slice() {
    let mut payload = Vec::new();
    for i in 0..6 {
        payload.push((format!("abcdefghi{i}"), i));
    }
    let map = FrozenMap::<String, i32>::from_vec(payload);
    assert_eq!(
        map.representation(),
        Representation::RightSlice { subslice_index: 0, subslice_len: 1 }
    );
    assert_eq!(map.get(&"abcdefghi3".to_string()), Some(&3));
    assert_eq!(map.get(&"abcdefghi9".to_string()), None);
    assert_eq!(map.get(&"3".to_string()), None);
    assert_eq!(map.get(&"".to_string()), None);
}

#[test]
fn strings_that_differ_in_the_first_byte_choose_the_left_slice() {
    let map =
        FrozenMap::<String, usize>::from_vec(strings(&["0tail", "1tail", "2tail", "3tail", "4tail"]));
    assert_eq!(
        map.representation(),
        Representation::LeftSlice { subslice_index: 0, subslice_len: 1 }
    );
    assert_eq!(map.get(&"3tail".to_string()), Some(&3));
    assert_eq!(map.get(&"3tai".to_string()), None);
}

#[test]
fn strings_without_a_telling_window_are_hashed_whole() {
    // every window of the shortest length 1 repeats: "a", "b" occur twice
    let map = FrozenMap::<String, usize>::from_vec(strings(&["a", "b", "ab", "ba", "a"]));
    assert_eq!(map.representation(), Representation::Common);
    assert_eq!(map.get(&"ab".to_string()), Some(&2));
    assert_eq!(map.get(&"ba".to_string()), Some(&3));
    assert_eq!(map.get(&"bb".to_string()), None);
}

#[test]
fn tiny_map_is_scanned() {
    let map = FrozenMap::<String, i32>::from_vec(vec![("a".to_string(), 1), ("b".to_string(), 2)]);
    assert_eq!(map.representation(), Representation::Scanning);
    assert_eq!(map.get(&"a".to_string()), Some(&1));
    assert_eq!(map.get(&"b".to_string()), Some(&2));
    assert_eq!(map.get(&"c".to_string()), None);
}

#[test]
fn empty_map_finds_nothing() {
    let map = FrozenMap::<u32, u32>::from_vec(vec![]);
    assert_eq!(map.representation(), Representation::Scanning);
    assert_eq!(map.get(&0), None);
    assert_eq!(map.get(&7), None);
    assert!(map.is_empty());
    assert_eq!(map.len(), 0);
    assert_eq!(map.iter().next(), None);
    assert_eq!(map.keys().next(), None);
    assert_eq!(map.values().next(), None);
}

#[test]
fn up_to_three_entries_are_scanned_and_four_are_not() {
    for n in 1..=3u32 {
        let payload: Vec<(u32, u32)> = (0..n).map(|k| (k * 10, k)).collect();
        let map = FrozenMap::<u32, u32>::from_vec(payload.clone());
        assert_eq!(map.representation(), Representation::Scanning);
        assert_eq!(map.len(), n as usize);
        for (k, v) in &payload {
            assert_eq!(map.get(k), Some(v));
            assert_eq!(map.get_key_value(k), Some((k, v)));
            assert!(map.contains_key(k));
            assert_eq!(map.get(&(k + 1)), None);
        }
        // a scanned map keeps the order of the payload
        let mut it = map.iter();
        for (k, v) in &payload {
            assert_eq!(it.next(), Some((k, v)));
        }
        assert_eq!(it.next(), None);
    }
    let map = FrozenMap::<u32, u32>::from_vec(vec![(0, 0), (10, 1), (20, 2), (30, 3)]);
    assert_eq!(map.representation(), Representation::Integer);
    let map = FrozenMap::<bool, u32>::from_vec(vec![(true, 0), (false, 1), (true, 2), (false, 3)]);
    assert_eq!(map.representation(), Representation::Common);
    assert_eq!(map.len(), 4);
}

#[test]
fn get_many_mut() {
    let mut map = FrozenMap::<String, i32>::from_vec(vec![
        ("Bodleian Library".to_string(), 1602),
        ("Athenaeum".to_string(), 1807),
        ("Herzogin-Anna-Amalia-Bibliothek".to_string(), 1691),
        ("Library of Congress".to_string(), 1800),
    ]);
    let a = "Athenaeum".to_string();
    let l = "Library of Congress".to_string();
    let n = "New York Public Library".to_string();
    {
        let got = map.get_many_mut([&a, &l]);
        let [v1, v2] = got.unwrap();
        assert_eq!((*v1, *v2), (1807, 1800));
        *v1 += 1;
        *v2 -= 1;
    }
    assert_eq!(map.get(&a), Some(&1808));
    assert_eq!(map.get(&l), Some(&1799));
    assert_eq!(map.get(&"Bodleian Library".to_string()), Some(&1602));
    assert!(map.get_many_mut([&a, &a]).is_none());
    assert!(map.get_many_mut([&a, &n]).is_none());
    {
        let [v2, v1] = map.get_many_mut([&l, &a]).unwrap();
        assert_eq!((*v1, *v2), (1808, 1799));
    }
    assert_eq!(map.len(), 4);
}

#[test]
fn every_key_of_the_payload_is_found_and_no_other() {
    let payload: Vec<(u64, u64)> = (0..1000).map(|i| (i * i + 7, i)).collect();
    let map = FrozenMap::<u64, u64>::from_vec(payload.clone());
    assert_eq!(map.representation(), Representation::Integer);
    assert_eq!(map.len(), payload.len());
    for (k, v) in &payload {
        assert_eq!(map.get(k), Some(v));
        assert_eq!(map.get_key_value(k), Some((k, v)));
        assert!(map.contains_key(k));
    }
    for k in [0u64, 1, 6, 9, 12, 1_000_000_000] {
        assert_eq!(map.get(&k), None);
        assert!(!map.contains_key(&k));
    }
}

#[test]
fn a_walk_visits_each_entry_of_the_payload_once() {
    let payload: Vec<(String, usize)> = (0..300).map(|i| (format!("key-{i}-{}", i % 7), i)).collect();
    let map = FrozenMap::<String, usize>::from_vec(payload.clone());
    let mut seen: Vec<(String, usize)> = Vec::new();
    let mut it = map.iter();
    assert_eq!(it.len(), 300);
    while let Some((k, v)) = it.next() {
        seen.push((k.clone(), *v));
    }
    assert_eq!(seen.len(), map.len());
    let mut keys = Vec::new();
    let mut kit = map.keys();
    while let Some(k) = kit.next() {
        keys.push(k.clone());
    }
    let mut values = Vec::new();
    let mut vit = map.values();
    while let Some(v) = vit.next() {
        values.push(*v);
    }
    assert_eq!(keys, seen.iter().map(|e| e.0.clone()).collect::<Vec<_>>());
    assert_eq!(values, seen.iter().map(|e| e.1).collect::<Vec<_>>());
    let mut sorted = seen.clone();
    sorted.sort();
    let mut expected = payload;
    expected.sort();
    assert_eq!(sorted, expected);
    for i in 0..300 {
        assert_eq!(map.get_by_index(i), Some((&seen[i].0, &seen[i].1)));
    }
    assert_eq!(map.get_by_index(300), None);
}

#[test]
fn large_string_maps_use_wide_descriptors() {
    let payload: Vec<(String, usize)> = (0..1000).map(|i| (format!("{i:04}"), i)).collect();
    let map = FrozenMap::<String, usize>::from_vec(payload.clone());
    // neither one byte nor two tell a thousand keys apart; of the windows of
    // three bytes the first tried is the left one at the beginning, which is
    // the same for "0000" and "0001", and the second is the last three bytes
    assert_eq!(
        map.representation(),
        Representation::RightSlice { subslice_index: 0, subslice_len: 3 }
    );
    for (k, v) in &payload {
        assert_eq!(map.get(k), Some(v));
    }
    assert_eq!(map.get(&"1000".to_string()), None);
    let different: Vec<(String, usize)> = (0..300).map(|i| ("x".repeat(i), i)).collect();
    let map = FrozenMap::<String, usize>::from_vec(different);
    // lengths tell the keys apart, however many keys there are
    assert_eq!(map.representation(), Representation::Length);
    for i in 0..300 {
        assert_eq!(map.get(&"x".repeat(i)), Some(&i));
        assert_eq!(map.get(&"y".repeat(i + 1)), None);
    }
    assert_eq!(map.get(&"x".repeat(299)), Some(&299));
    assert_eq!(map.get(&"x".repeat(300)), None);
}

#[test]
fn get_mut_and_index_change_one_value() {
    let mut map = FrozenMap::<i32, String>::from_vec(vec![
        (-1, "a".to_string()),
        (5, "b".to_string()),
        (9, "c".to_string()),
        (100, "d".to_string()),
    ]);
    map.get_mut(&5).unwrap().push('!');
    map.index_mut(&100).push('?');
    assert_eq!(map.index(&5), "b!");
    assert_eq!(map.index(&100), "d?");
    assert_eq!(map.get(&-1), Some(&"a".to_string()));
    assert!(map.get_mut(&6).is_none());
    assert_eq!(map.debug_string().len(), "{-1: \"a\", 5: \"b!\", 9: \"c\", 100: \"d?\"}".len());
}

struct Reverse;

impl ByteHasher for Reverse {
    fn spec_hash_bytes(&self, _bytes: vstd::seq::Seq<u8>) -> u64 {
        unreachable!()
    }

    fn hash_bytes(&self, bytes: &[u8]) -> u64 {
        bytes.iter().rev().fold(0u64, |h, b| h.wrapping_mul(31).wrapping_add(*b as u64))
    }
}

#[test]
fn a_hasher_of_the_caller_serves_as_well() {
    let payload = strings(&["ab", "ba", "aa", "bb", "ab-", "ba-"]);
    let map = FrozenMap::from_vec_with_hasher(payload.clone(), Reverse);
    for (k, v) in &payload {
        assert_eq!(map.get(k), Some(v));
    }
    assert_eq!(map.get(&"a".to_string()), None);
    let map = FrozenMap::with_hasher([(true, 1), (false, 0), (true, 2), (false, 3)], Reverse);
    assert!(map.get(&true) == Some(&1) || map.get(&true) == Some(&2));
    let map = FrozenMap::from_iter_with_hasher(payload.clone().into_iter(), DefaultByteHasher::new());
    assert_eq!(Len::len(&map), 6);
    let map = FrozenMap::from_iter(payload.clone().into_iter());
    assert_eq!(map.get(&"bb".to_string()), Some(&3));
    let map = FrozenMap::from([(1u16, 'a'), (2, 'b')]);
    assert_eq!(map.get(&2), Some(&'b'));
}

#[test]
fn maps_with_the_same_entries_are_equal() {
    let a = FrozenMap::<u32, u32>::from_vec(vec![(1, 10), (2, 20), (3, 30), (5, 50)]);
    let b = FrozenMap::<u32, u32>::from_vec(vec![(5, 50), (3, 30), (2, 20), (1, 10)]);
    let c = FrozenMap::<u32, u32>::from_vec(vec![(5, 50), (3, 31), (2, 20), (1, 10)]);
    let d = FrozenMap::<u32, u32>::from_vec(vec![(5, 50), (3, 30), (2, 20)]);
    assert!(a.equals(&b));
    assert!(b.equals(&a));
    assert!(!a.equals(&c));
    assert!(!a.equals(&d));
    assert!(!d.equals(&a));
}

#[test]
fn integers_of_128_bits_without_a_sign_take_the_integer_path() {
    let top = u128::MAX;
    let dense: Vec<(u128, u8)> = (0..6).map(|i| (top - i as u128, i)).collect();
    let map = FrozenMap::<u128, u8>::from_vec(dense.clone());
    assert_eq!(map.representation(), Representation::IntegerRange);
    for (k, v) in &dense {
        assert_eq!(map.get(k), Some(v));
    }
    assert_eq!(map.get(&(top - 6)), None);
    assert_eq!(map.get(&0), None);
    let mut holed = dense;
    holed.remove(2);
    let map = FrozenMap::<u128, u8>::from_vec(holed.clone());
    assert_eq!(map.representation(), Representation::Integer);
    for (k, v) in &holed {
        assert_eq!(map.get(k), Some(v));
    }
    assert_eq!(map.get(&(top - 2)), None);
    // keys that differ above the 64th bit only share a hash code and are told apart all the same
    let far: Vec<(u128, u8)> = (0..5).map(|i| ((i as u128) << 64, i)).collect();
    let map = FrozenMap::<u128, u8>::from_vec(far.clone());
    assert_eq!(map.representation(), Representation::Integer);
    for (k, v) in &far {
        assert_eq!(map.get(k), Some(v));
    }
    assert_eq!(map.get(&(5u128 << 64)), None);
    let map = FrozenMap::<i128, u8>::from_vec(vec![(-2, 0), (-1, 1), (0, 2), (1, 3)]);
    assert_eq!(map.representation(), Representation::IntegerRange);
    assert_eq!(map.get(&-2), Some(&0));
}

#[test]
fn string_slices_are_keys_as_strings_are() {
    let map = FrozenMap::<&str, i32>::from_vec(vec![("a", 1), ("b", 2)]);
    assert_eq!(map.representation(), Representation::Scanning);
    assert_eq!(map.get(&"a"), Some(&1));
    assert_eq!(map.get(&"b"), Some(&2));
    assert_eq!(map.get(&"c"), None);
    let map = FrozenMap::<&str, usize>::from_vec(vec![
        ("abcdefghi0", 0),
        ("abcdefghi1", 1),
        ("abcdefghi2", 2),
        ("abcdefghi3", 3),
    ]);
    assert_eq!(
        map.representation(),
        Representation::RightSlice { subslice_index: 0, subslice_len: 1 }
    );
    assert_eq!(map.get(&"abcdefghi3"), Some(&3));
    assert_eq!(map.get(&"abcdefghi9"), None);
    let map = FrozenMap::<&str, usize>::from_vec(vec![("a", 0), ("bb", 1), ("ccc", 2), ("dddd", 3)]);
    assert_eq!(map.representation(), Representation::Length);
    assert!(map.contains_key(&"ccc"));
    assert!(!map.contains_key(&"ccd"));
}

#[test]
fn maps_built_from_an_iterator_hold_what_it_yields() {
    let pairs = vec![(1u8, 'a'), (2, 'b'), (3, 'c'), (4, 'd')];
    let map = FrozenMap::<u8, char>::from_iter(pairs.clone().into_iter());
    assert_eq!(map.representation(), Representation::IntegerRange);
    assert_eq!(map.len(), 4);
    for (k, v) in &pairs {
        assert_eq!(map.get(k), Some(v));
    }
    assert_eq!(map.get(&5), None);
    let map = FrozenMap::<u8, char>::from_iter(pairs[..3].to_vec().into_iter());
    assert_eq!(map.representation(), Representation::Scanning);
    assert_eq!(map.get_by_index(0), Some((&1, &'a')));
    assert_eq!(map.get_by_index(2), Some((&3, &'c')));
    let map = FrozenMap::<u8, char>::from_iter(Vec::new().into_iter());
    assert!(map.is_empty());
}

use frozen_collections::macros::frozen_map::payload_size;
use frozen_collections::macros::frozen_map::select_map;
use frozen_collections::macros::frozen_map::KeyVariety;
use frozen_collections::macros::frozen_map::MapKind;
use frozen_collections::macros::frozen_map::MapSelection;
use frozen_collections::macros::frozen_map::PayloadSize;
use frozen_collections::analyzers::int_key_analyzer::IntKeyAnalysisResult;
use frozen_collections::analyzers::slice_key_analyzer::SliceKeyAnalysisResult;
use frozen_collections::specialized_maps::integer_range_map::int_values;
use frozen_collections::specialized_maps::iterators::Iter;
use frozen_collections::specialized_maps::iterators::Keys;
use frozen_collections::specialized_maps::iterators::Values;
use frozen_collections::specialized_maps::many_mut::ascending_order;
use frozen_collections::specialized_maps::many_mut::keys_are_distinct;
use frozen_collections::specialized_maps::many_mut::refs_at;
use frozen_collections::specialized_maps::many_mut::refs_in_order;
use frozen_collections::traits::byte_hasher::bytes_eq;
use frozen_collections::traits::byte_hasher::ByteHasher;
use frozen_collections::traits::byte_hasher::DefaultByteHasher;
use frozen_collections::traits::int_value::IntValue::Signed;
use frozen_collections::traits::int_value::IntValue::Unsigned;
use frozen_collections::traits::key::hash_int;
use frozen_collections::traits::key::Key;
use frozen_collections::traits::key::KeyCategory;
use frozen_collections::traits::key::KeyForm;
use frozen_collections::traits::len::Len;
use frozen_collections::traits::slice_hash::SliceHash;
use frozen_collections::traits::slot_index::SlotIndex;
use std::collections::BTreeMap;
use std::collections::BTreeSet;
use std::collections::HashMap;
use std::collections::HashSet;
use std::collections::VecDeque;
use std::hash::Hasher;
use std::rc::Rc;
use std::sync::Arc;

#[test]
fn len_counts_bytes_and_items() {
    assert_eq!(Len::len(&"héllo".to_string()), 6);
    assert!(Len::is_empty(&String::new()));
    assert_eq!(Len::len(&vec![1, 2, 3]), 3);
    assert!(Len::is_empty(&Vec::<u8>::new()));
    assert_eq!(Len::len(&Box::new(vec![1, 2])), 2);
    assert_eq!(Len::len(&Rc::new("abc".to_string())), 3);
    assert_eq!(Len::len(&Arc::new(vec![0u8; 5])), 5);
    assert_eq!(Len::len(&VecDeque::from(vec![1, 2, 3, 4])), 4);
    assert_eq!(Len::len(&HashMap::from([(1, 2), (3, 4)])), 2);
    assert_eq!(Len::len(&HashSet::from([1, 2, 3])), 3);
    assert_eq!(Len::len(&BTreeMap::from([(1, 2)])), 1);
    assert_eq!(Len::len(&BTreeSet::<u8>::new()), 0);
    assert!(Len::is_empty(&BTreeSet::<u8>::new()));
}

#[test]
fn default_hasher_is_the_standard_default_hasher() {
    let bh = DefaultByteHasher::new();
    for bytes in [&b""[..], &b"a"[..], &b"frozen"[..], &[0u8, 255, 7][..]] {
        let mut h = std::collections::hash_map::DefaultHasher::new();
        h.write(bytes);
        assert_eq!(bh.hash_bytes(bytes), h.finish());
    }
    assert!(bh.hash_bytes(b"a") != bh.hash_bytes(b"b"));
}

#[test]
fn slice_hash_hashes_the_window_only() {
    let bh = DefaultByteHasher::new();
    let s = "hello world".to_string();
    assert_eq!(SliceHash::hash(&s, &bh, 0..5), bh.hash_bytes(b"hello"));
    assert_eq!(SliceHash::hash(&s, &bh, 6..11), bh.hash_bytes(b"world"));
    assert_eq!(SliceHash::hash(&s, &bh, 3..3), bh.hash_bytes(b""));
    let v = vec![1u8, 2, 3, 4];
    assert_eq!(SliceHash::hash(&v, &bh, 1..3), bh.hash_bytes(&[2, 3]));
}

#[test]
fn bytes_are_equal_when_they_are_the_same_bytes() {
    assert!(bytes_eq(b"", b""));
    assert!(bytes_eq(b"abc", b"abc"));
    assert!(!bytes_eq(b"abc", b"abd"));
    assert!(!bytes_eq(b"abc", b"ab"));
    assert!(!bytes_eq(b"", b"a"));
}

#[test]
fn keys_say_what_they_are() {
    assert_eq!(u8::category(), KeyCategory::Integer);
    assert_eq!(i64::category(), KeyCategory::Integer);
    assert_eq!(usize::category(), KeyCategory::Integer);
    assert_eq!(String::category(), KeyCategory::ByteSlice);
    assert_eq!(Vec::<u8>::category(), KeyCategory::ByteSlice);
    assert_eq!(i128::category(), KeyCategory::Integer);
    assert_eq!(u128::category(), KeyCategory::Integer);
    assert_eq!(<&str>::category(), KeyCategory::ByteSlice);
    assert!(matches!(i128::MIN.form(), KeyForm::Integer(Signed(i128::MIN))));
    assert!(matches!(u128::MAX.form(), KeyForm::Integer(Unsigned(u128::MAX))));
    assert!(matches!("ab".form(), KeyForm::ByteSlice(b) if b == b"ab"));
    assert!("ab".key_eq(&"ab"));
    assert!(!"ab".key_eq(&"ac"));
    assert!(!"ab".key_eq(&"abc"));
    assert!(u128::MAX.key_eq(&u128::MAX));
    assert!(!7i128.key_eq(&-7));
    assert_eq!(bool::category(), KeyCategory::Opaque);
    assert_eq!(char::category(), KeyCategory::Opaque);
    assert!(matches!(200u8.form(), KeyForm::Integer(Unsigned(200))));
    assert!(matches!((-200i16).form(), KeyForm::Integer(Signed(-200))));
    assert!(matches!(u64::MAX.form(), KeyForm::Integer(Unsigned(18446744073709551615))));
    assert!(matches!(i64::MIN.form(), KeyForm::Integer(Signed(-9223372036854775808))));
    assert!(matches!((-1isize).form(), KeyForm::Integer(Signed(-1))));
    assert!(matches!("ab".to_string().form(), KeyForm::ByteSlice(b) if b == b"ab"));
    assert!(matches!(vec![7u8].form(), KeyForm::ByteSlice(b) if b == [7]));
    assert!(matches!(true.form(), KeyForm::Opaque));
    assert!(matches!('x'.form(), KeyForm::Opaque));
    assert!(5u16.key_eq(&5));
    assert!(!5u16.key_eq(&6));
    assert!((-3i32).key_eq(&-3));
    assert!("a".to_string().key_eq(&"a".to_string()));
    assert!(!"a".to_string().key_eq(&"b".to_string()));
    assert!(vec![1u8, 2].key_eq(&vec![1, 2]));
    assert!(!vec![1u8, 2].key_eq(&vec![1]));
    assert!(true.key_eq(&true));
    assert!(!'a'.key_eq(&'b'));
    assert_eq!(int_values(&vec![(3u8, 'a'), (200, 'b')]), vec![Unsigned(3), Unsigned(200)]);
    assert_eq!(
        int_values(&vec![(-3i64, 'a'), (i64::MAX, 'b')]),
        vec![Signed(-3), Signed(i64::MAX as i128)]
    );
    assert_eq!(int_values(&vec![(u128::MAX, 'a')]), vec![Unsigned(u128::MAX)]);
    assert_eq!(int_values(&vec![("a".to_string(), 'a')]), vec![Signed(0)]);
}

#[test]
fn whole_keys_are_hashed_by_their_bytes() {
    let bh = DefaultByteHasher::new();
    assert_eq!("abc".to_string().hash_code(&bh), bh.hash_bytes(b"abc"));
    assert_eq!(vec![1u8, 2].hash_code(&bh), bh.hash_bytes(&[1, 2]));
    // integers are hashed by the eight bytes of their 64-bit code, low byte first
    assert_eq!(258u32.hash_code(&bh), bh.hash_bytes(&[2, 1, 0, 0, 0, 0, 0, 0]));
    assert_eq!((-1i8).hash_code(&bh), bh.hash_bytes(&[255; 8]));
    assert_eq!(hash_int(Signed(-2), &bh), bh.hash_bytes(&[254, 255, 255, 255, 255, 255, 255, 255]));
    assert_eq!(hash_int(Signed(1 << 64), &bh), bh.hash_bytes(&[0; 8]));
    assert_eq!(true.hash_code(&bh), bh.hash_bytes(&[1, 0, 0, 0, 0, 0, 0, 0]));
    assert_eq!(false.hash_code(&bh), bh.hash_bytes(&[0; 8]));
    assert_eq!('a'.hash_code(&bh), bh.hash_bytes(&[97, 0, 0, 0, 0, 0, 0, 0]));
    assert_eq!(7u64.hash_code(&bh), 7i16.hash_code(&bh));
    assert_eq!((-1i128).hash_code(&bh), u64::MAX.hash_code(&bh));
    assert_eq!(258u128.hash_code(&bh), bh.hash_bytes(&[2, 1, 0, 0, 0, 0, 0, 0]));
    assert_eq!(u128::MAX.hash_code(&bh), bh.hash_bytes(&[255; 8]));
    assert_eq!("abc".hash_code(&bh), bh.hash_bytes(b"abc"));
    assert_eq!(usize::MAX.hash_code(&bh), (usize::MAX as u64).hash_code(&bh));
}

#[test]
fn slot_indices_count_as_far_as_their_type() {
    assert_eq!(<u8 as SlotIndex>::max_value(), 255);
    assert_eq!(<u16 as SlotIndex>::max_value(), 65535);
    assert_eq!(<u32 as SlotIndex>::max_value(), 4294967295);
    assert_eq!(<usize as SlotIndex>::max_value(), usize::MAX);
    assert_eq!(<u64 as SlotIndex>::max_value(), usize::MAX);
    assert_eq!(<u64 as SlotIndex>::from_usize(1 << 40).to_usize(), 1 << 40);
    assert_eq!(<u64 as SlotIndex>::from_usize(usize::MAX).to_usize(), usize::MAX);
    assert_eq!(<u8 as SlotIndex>::from_usize(200).to_usize(), 200);
    assert_eq!(<u16 as SlotIndex>::from_usize(60000).to_usize(), 60000);
    assert_eq!(<u32 as SlotIndex>::from_usize(70000).to_usize(), 70000);
    assert_eq!(<usize as SlotIndex>::from_usize(usize::MAX).to_usize(), usize::MAX);
}

#[test]
fn map_cursors_walk_the_entries_in_order() {
    let entries = vec![(1, 'a'), (2, 'b'), (3, 'c')];
    let mut it = Iter::new(&entries);
    assert_eq!(it.size_hint(), (3, Some(3)));
    assert_eq!(it.next(), Some((&1, &'a')));
    let rest = it.duplicate();
    assert_eq!(rest.count(), 2);
    assert_eq!(it.next(), Some((&2, &'b')));
    assert_eq!(it.len(), 1);
    assert_eq!(it.next(), Some((&3, &'c')));
    assert_eq!(it.next(), None);
    assert_eq!(it.next(), None);
    assert_eq!(it.len(), 0);
    let mut keys = Keys::new(&entries);
    assert_eq!(keys.len(), 3);
    assert_eq!(keys.next(), Some(&1));
    assert_eq!(keys.duplicate().count(), 2);
    assert_eq!(keys.size_hint(), (2, Some(2)));
    assert_eq!(keys.next(), Some(&2));
    assert_eq!(keys.next(), Some(&3));
    assert_eq!(keys.next(), None);
    let mut values = Values::new(&entries);
    assert_eq!(values.size_hint(), (3, Some(3)));
    assert_eq!(values.next(), Some(&'a'));
    assert_eq!(values.len(), 2);
    assert_eq!(values.duplicate().count(), 2);
    assert_eq!(values.next(), Some(&'b'));
    assert_eq!(values.next(), Some(&'c'));
    assert_eq!(values.next(), None);
}

#[test]
fn references_to_several_values_are_handed_out_in_the_order_asked() {
    let mut entries = vec![('a', 0), ('b', 10), ('c', 20), ('d', 30), ('e', 40)];
    {
        let refs = refs_in_order(&mut entries, &vec![1, 3, 4]);
        assert_eq!(refs.len(), 3);
        let mut n = 1;
        for r in refs {
            *r += n;
            n += 1;
        }
    }
    assert_eq!(entries, vec![('a', 0), ('b', 11), ('c', 20), ('d', 32), ('e', 43)]);
    {
        let [e, a, c]: [&mut i32; 3] = refs_at(&mut entries, &vec![4, 0, 2]);
        assert_eq!((*e, *a, *c), (43, 0, 20));
        *e = -1;
        *a = -2;
        *c = -3;
    }
    assert_eq!(entries, vec![('a', -2), ('b', 11), ('c', -3), ('d', 32), ('e', -1)]);
    let none: [&mut i32; 0] = refs_at(&mut entries, &vec![]);
    assert_eq!(none.len(), 0);
    assert_eq!(ascending_order(&vec![4, 0, 2], 5), vec![1, 2, 0]);
    assert_eq!(ascending_order(&vec![], 5), Vec::<usize>::new());
    assert_eq!(ascending_order(&vec![0, 1, 2, 3], 4), vec![0, 1, 2, 3]);
    assert_eq!(ascending_order(&vec![9, 8, 7], 10), vec![2, 1, 0]);
    assert!(keys_are_distinct(&[&1, &2, &3]));
    assert!(!keys_are_distinct(&[&1, &2, &1]));
    assert!(keys_are_distinct::<u8, 0>(&[]));
}

#[test]
fn map_selection_follows_the_analysis() {
    assert_eq!(payload_size(0), PayloadSize::U8);
    assert_eq!(payload_size(255), PayloadSize::U8);
    assert_eq!(payload_size(256), PayloadSize::U16);
    assert_eq!(payload_size(65535), PayloadSize::U16);
    assert_eq!(payload_size(65536), PayloadSize::Usize);
    let normal = SliceKeyAnalysisResult::Normal;
    let left = SliceKeyAnalysisResult::LeftHandSubslice { subslice_index: 2, subslice_len: 3 };
    let right = SliceKeyAnalysisResult::RightHandSubslice { subslice_index: 1, subslice_len: 4 };
    let plain = |kind, size| MapSelection { kind, size, subslice_index: 0, subslice_len: 0 };
    for variety in [KeyVariety::Common, KeyVariety::Integer, KeyVariety::String] {
        for len in 0..4 {
            assert_eq!(
                select_map(variety, IntKeyAnalysisResult::Range, left, len),
                plain(MapKind::ScanningMap, PayloadSize::U8)
            );
        }
    }
    assert_eq!(
        select_map(KeyVariety::Integer, IntKeyAnalysisResult::Range, normal, 4),
        plain(MapKind::IntegerRangeMap, PayloadSize::U8)
    );
    assert_eq!(
        select_map(KeyVariety::Integer, IntKeyAnalysisResult::Normal, left, 300),
        plain(MapKind::IntegerMap, PayloadSize::U16)
    );
    assert_eq!(
        select_map(KeyVariety::Common, IntKeyAnalysisResult::Range, left, 70000),
        plain(MapKind::CommonMap, PayloadSize::Usize)
    );
    assert_eq!(
        select_map(KeyVariety::String, IntKeyAnalysisResult::Range, normal, 5),
        plain(MapKind::CommonMap, PayloadSize::U8)
    );
    assert_eq!(
        select_map(KeyVariety::String, IntKeyAnalysisResult::Normal, SliceKeyAnalysisResult::Length, 5),
        plain(MapKind::LengthMap, PayloadSize::U8)
    );
    assert_eq!(
        select_map(KeyVariety::String, IntKeyAnalysisResult::Normal, left, 5),
        MapSelection {
            kind: MapKind::LeftSliceMap,
            size: PayloadSize::U8,
            subslice_index: 2,
            subslice_len: 3
        }
    );
    assert_eq!(
        select_map(KeyVariety::String, IntKeyAnalysisResult::Normal, right, 256),
        MapSelection {
            kind: MapKind::RightSliceMap,
            size: PayloadSize::U16,
            subslice_index: 1,
            subslice_len: 4
        }
    );
}

#[test]
fn basic() {
    let keys = ["first_key", "second_key", "third_key", "fourth_key", "fifth_key"];
    let slices: Vec<&[u8]> = keys.iter().map(|k| k.as_bytes()).collect();
    let analysis = frozen_collections::analyzers::slice_key_analyzer::analyze_slice_keys(
        &slices,
        &DefaultByteHasher::new(),
    );
    // the third byte is the first that differs from key to key
    assert_eq!(
        analysis,
        SliceKeyAnalysisResult::LeftHandSubslice { subslice_index: 2, subslice_len: 1 }
    );
    let selection = select_map(KeyVariety::String, IntKeyAnalysisResult::Normal, analysis, keys.len());
    assert_eq!(
        selection,
        MapSelection {
            kind: MapKind::LeftSliceMap,
            size: PayloadSize::U8,
            subslice_index: 2,
            subslice_len: 1
        }
    );
    println!("{selection:?}");
}

use frozen_collections::facades::frozen_map::Representation;
use frozen_collections::facades::frozen_set::FrozenSet;
use frozen_collections::specialized_sets::common_set::CommonSet;
use frozen_collections::specialized_sets::integer_range_set::IntegerRangeSet;
use frozen_collections::specialized_sets::integer_set::IntegerSet;
use frozen_collections::specialized_sets::iterators::checked_sum;
use frozen_collections::specialized_sets::iterators::next_where;
use frozen_collections::specialized_sets::iterators::Difference;
use frozen_collections::specialized_sets::iterators::Intersection;
use frozen_collections::specialized_sets::iterators::SymmetricDifference;
use frozen_collections::specialized_sets::iterators::Union;
use frozen_collections::specialized_sets::left_slice_set::LeftSliceSet;
use frozen_collections::specialized_sets::length_set::LengthSet;
use frozen_collections::specialized_sets::right_slice_set::RightSliceSet;
use frozen_collections::specialized_sets::scanning_set::ScanningSet;
use frozen_collections::specialized_sets::set::pair_with_unit;
use frozen_collections::specialized_sets::set::strip_unit;
use frozen_collections::specialized_sets::set::SetOps;
use frozen_collections::specialized_sets::set_ops::all_contained;
use frozen_collections::specialized_sets::set_ops::difference_of;
use frozen_collections::specialized_sets::set_ops::intersection_of;
use frozen_collections::specialized_sets::set_ops::symmetric_difference_of;
use frozen_collections::specialized_sets::set_ops::union_of;
use frozen_collections::specialized_sets::set_ops::is_disjoint;
use frozen_collections::specialized_sets::set_ops::is_subset;
use frozen_collections::specialized_sets::set_ops::is_superset;
use frozen_collections::specialized_sets::set_ops::none_contained;
use frozen_collections::traits::byte_hasher::DefaultByteHasher;
use frozen_collections::traits::int_value::IntValue;
use frozen_collections::traits::len::Len;

fn words(items: &[&str]) -> Vec<String> {
    items.iter().map(|s| s.to_string()).collect()
}

#[test]
fn pairing_with_unit_keeps_the_order() {
    assert_eq!(pair_with_unit(vec![3, 1, 2]), vec![(3, ()), (1, ()), (2, ())]);
    assert_eq!(pair_with_unit(Vec::<u8>::new()), vec![]);
}

#[test]
fn scanning_set_holds_its_items_in_order() {
    let set = ScanningSet::from_vec(vec![10, 30, 50]);
    assert!(set.contains(&10));
    assert!(!set.contains(&20));
    assert_eq!(set.get(&30), Some(&30));
    assert_eq!(set.get(&31), None);
    assert_eq!(set.len(), 3);
    assert_eq!(set.get_by_index(2), Some(&50));
    assert_eq!(set.get_by_index(3), None);
    let mut it = set.iter();
    assert_eq!(it.size_hint(), (3, Some(3)));
    assert_eq!(it.next(), Some(&10));
    assert_eq!(it.len(), 2);
    let mut copy = it.duplicate();
    assert_eq!(it.next(), Some(&30));
    assert_eq!(it.next(), Some(&50));
    assert_eq!(it.next(), None);
    assert_eq!(it.next(), None);
    assert_eq!(copy.next(), Some(&30));
    assert_eq!(copy.count(), 1);
    assert_eq!(ScanningSet::from([1u8, 2]).debug_string(), "{1: (), 2: ()}");
    assert_eq!(ScanningSet::from_iter(vec![1u8].into_iter()).len(), 1);
}

#[test]
fn integer_sets_find_their_items() {
    let set = IntegerSet::<i32, u8>::from_vec(vec![-4, 8, 15, 16, 23, 42]).unwrap();
    for v in [-4, 8, 15, 16, 23, 42] {
        assert!(set.contains(&v));
        assert_eq!(set.get(&v), Some(&v));
    }
    assert!(!set.contains(&4));
    assert_eq!(Len::len(&set), 6);
    assert!(IntegerSet::<u32, u8>::from_iter(0..256u32).is_err());
    assert_eq!(IntegerSet::<u32, u16>::from_iter(0..256u32).unwrap().len(), 256);
    assert!(IntegerSet::<u32, u8>::from([1, 2, 3]).unwrap().contains(&3));
    let set = IntegerRangeSet::<i8>::from_vec(vec![-1, 1, 0, -2]);
    assert_eq!(set.map.min, IntValue::Signed(-2));
    assert_eq!(set.map.max, IntValue::Signed(1));
    assert!(set.contains(&-2));
    assert!(set.contains(&1));
    assert!(!set.contains(&2));
    assert!(!set.contains(&-3));
    let mut it = set.iter();
    assert_eq!(it.next(), Some(&-2));
    assert_eq!(it.next(), Some(&-1));
    assert!(IntegerRangeSet::<u32>::from_vec(vec![]).is_empty());
}

#[test]
fn string_sets_find_their_items() {
    let items = words(&["Red", "Green", "Blue", "Cyan", "Magenta", "Purple"]);
    let left = LeftSliceSet::<String, u8>::from_vec(items.clone(), 0..1).unwrap();
    let right = RightSliceSet::<String, u8>::from_vec(items.clone(), 0..2).unwrap();
    let common = CommonSet::<String, u8>::from_vec(items.clone()).unwrap();
    let by_length =
        LengthSet::<String, u8>::from_vec(words(&["a", "bb", "ccc"])).unwrap();
    for item in &items {
        assert!(left.contains(item));
        assert!(right.contains(item));
        assert!(common.contains(item));
        assert_eq!(left.get(item), Some(item));
    }
    let yellow = "Yellow".to_string();
    assert!(!left.contains(&yellow));
    assert!(!right.contains(&yellow));
    assert!(!common.contains(&yellow));
    assert!(by_length.contains(&"bb".to_string()));
    assert!(!by_length.contains(&"cc".to_string()));
    assert_eq!(left.map.range, 0..1);
    assert_eq!(left.get_by_index(6), None);
    assert!(left.equals(&right));
    assert!(common.equals(&left));
    assert!(!by_length.equals(&left));
    let many: Vec<String> = (0..256).map(|i| i.to_string()).collect();
    assert!(LeftSliceSet::<String, u8>::from_vec(many.clone(), 0..1).is_err());
    assert!(RightSliceSet::<String, u16>::from_iter(many.clone().into_iter(), 0..1).is_ok());
    assert!(CommonSet::<String, u8>::from_iter(many.clone().into_iter()).is_err());
    assert!(LengthSet::<String, u16>::from_vec(many).is_ok());
    let set = CommonSet::<u8, u8>::from([3, 1, 2]).unwrap();
    assert_eq!(set.debug_string().len(), "[1, 2, 3]".len());
    let set = RightSliceSet::<String, u8>::with_hasher(
        ["ab".to_string(), "cd".to_string()],
        0..1,
        DefaultByteHasher::new(),
    )
    .unwrap();
    assert!(set.contains(&"cd".to_string()));
    let set = LeftSliceSet::<String, u8>::from(["ab".to_string(), "cd".to_string()], 1..2).unwrap();
    assert!(set.contains(&"ab".to_string()));
}

#[test]
fn frozen_sets_choose_as_frozen_maps_do() {
    let set = FrozenSet::<u32>::from_vec(vec![0, 1, 2, 3, 4]);
    assert_eq!(set.representation(), Representation::IntegerRange);
    assert!(set.contains(&4));
    assert!(!set.contains(&5));
    let set = FrozenSet::<u32>::from_vec(vec![0, 2, 4, 6, 8]);
    assert_eq!(set.representation(), Representation::Integer);
    assert!(set.contains(&4));
    assert!(!set.contains(&3));
    let set = FrozenSet::<u128>::from_vec(vec![u128::MAX, u128::MAX - 1, u128::MAX - 3, u128::MAX - 2]);
    assert_eq!(set.representation(), Representation::IntegerRange);
    assert!(set.contains(&(u128::MAX - 3)));
    assert!(!set.contains(&(u128::MAX - 4)));
    let set = FrozenSet::<u128>::from_vec(vec![u128::MAX, u128::MAX - 1, u128::MAX - 4, u128::MAX - 2]);
    assert_eq!(set.representation(), Representation::Integer);
    assert!(set.contains(&(u128::MAX - 4)));
    assert!(!set.contains(&(u128::MAX - 3)));
    let set = FrozenSet::<&str>::from_vec(vec!["Red", "Green", "Blue", "Cyan"]);
    assert_eq!(
        set.representation(),
        Representation::LeftSlice { subslice_index: 0, subslice_len: 1 }
    );
    assert!(set.contains(&"Cyan"));
    assert!(!set.contains(&"Yellow"));
    let set = FrozenSet::<String>::from_vec(words(&[
        "Red", "Green", "Blue", "Cyan", "Magenta", "Purple",
    ]));
    assert_eq!(
        set.representation(),
        Representation::LeftSlice { subslice_index: 0, subslice_len: 1 }
    );
    assert!(set.contains(&"Cyan".to_string()));
    assert!(!set.contains(&"Yellow".to_string()));
    let set = FrozenSet::<String>::from_vec((0..6).map(|i| format!("abcdefghi{i}")).collect());
    assert_eq!(
        set.representation(),
        Representation::RightSlice { subslice_index: 0, subslice_len: 1 }
    );
    assert_eq!(set.get(&"abcdefghi3".to_string()), Some(&"abcdefghi3".to_string()));
    assert_eq!(set.get(&"abcdefghi9".to_string()), None);
    let set = FrozenSet::<String>::from_vec(words(&["a", "bb", "ccc", "dddd"]));
    assert_eq!(set.representation(), Representation::Length);
    let set = FrozenSet::<String>::from_vec((0..300).map(|i| "z".repeat(i)).collect());
    assert_eq!(set.representation(), Representation::Length);
    assert!(set.contains(&"z".repeat(299)));
    assert!(!set.contains(&"z".repeat(300)));
    assert!(!set.contains(&"y".repeat(299)));
    let set = FrozenSet::<String>::from_vec(words(&["a", "b"]));
    assert_eq!(set.representation(), Representation::Scanning);
    assert!(set.contains(&"a".to_string()));
    assert!(!set.contains(&"c".to_string()));
    let set = FrozenSet::<char>::from_vec(vec!['a', 'b', 'c', 'd', 'e']);
    assert_eq!(set.representation(), Representation::Common);
    assert!(set.contains(&'e'));
    assert!(!set.contains(&'f'));
    let set = FrozenSet::<u32>::from_vec(vec![]);
    assert!(set.is_empty());
    assert!(!set.contains(&0));
    assert_eq!(set.iter().next(), None);
    let set = FrozenSet::<u32>::from_vec((0..1000).map(|i| i * 3).collect());
    assert_eq!(set.len(), 1000);
    assert_eq!(Len::len(&set), 1000);
    let mut seen: Vec<u32> = Vec::new();
    let mut it = set.iter();
    while let Some(v) = it.next() {
        seen.push(*v);
    }
    seen.sort();
    assert_eq!(seen, (0..1000).map(|i| i * 3).collect::<Vec<u32>>());
    assert_eq!(set.get_by_index(1000), None);
    assert_eq!(FrozenSet::from([1u8, 2, 3]).len(), 3);
    assert_eq!(FrozenSet::from_iter(0..10u64).representation(), Representation::IntegerRange);
    assert_eq!(
        FrozenSet::with_hasher([1u8, 3, 5, 7], DefaultByteHasher::new()).representation(),
        Representation::Integer
    );
    assert_eq!(
        FrozenSet::from_vec_with_hasher(vec![true, false, true, false], DefaultByteHasher::new())
            .len(),
        4
    );
    assert_eq!(
        FrozenSet::from_iter_with_hasher(0..3u8, DefaultByteHasher::new()).debug_string(),
        "{0: (), 1: (), 2: ()}"
    );
}

fn drain<'a, T>(mut next: impl FnMut() -> Option<&'a T>) -> Vec<T>
where
    T: Clone + 'a,
{
    let mut out = Vec::new();
    while let Some(v) = next() {
        out.push(v.clone());
    }
    out
}

#[test]
fn set_cursors_visit_what_the_sets_have_in_common_or_not() {
    let a = ScanningSet::from_vec(vec![1, 2, 3]);
    let b = ScanningSet::from_vec(vec![4, 2, 3, 5]);
    // the longer set first, then what only the shorter one holds
    let mut u = Union::new(&a, &b);
    assert_eq!(u.size_hint(), (3, Some(7)));
    assert_eq!(drain(|| u.next()), vec![4, 2, 3, 5, 1]);
    assert_eq!(u.next(), None);
    let mut u = b.union(&a);
    assert_eq!(drain(|| u.next()), vec![4, 2, 3, 5, 1]);
    let mut u = a.union(&a);
    assert_eq!(drain(|| u.next()), vec![1, 2, 3]);
    let mut i = Intersection::new(&a, &b);
    assert_eq!(i.size_hint(), (0, Some(4)));
    assert_eq!(drain(|| i.next()), vec![2, 3]);
    let mut i = b.intersection(&a);
    assert_eq!(drain(|| i.next()), vec![2, 3]);
    let mut d = Difference::new(&a, &b);
    assert_eq!(d.size_hint(), (0, Some(3)));
    assert_eq!(drain(|| d.next()), vec![1]);
    let mut d = b.difference(&a);
    assert_eq!(drain(|| d.next()), vec![4, 5]);
    let mut s = SymmetricDifference::new(&a, &b);
    assert_eq!(s.size_hint(), (0, Some(7)));
    assert_eq!(drain(|| s.next()), vec![1, 4, 5]);
    assert_eq!(s.next(), None);
    let mut s = b.symmetric_difference(&a);
    assert_eq!(drain(|| s.next()), vec![4, 5, 1]);
    let empty = ScanningSet::<i32>::from_vec(vec![]);
    let mut u = empty.union(&empty);
    assert_eq!(u.next(), None);
    let mut i = a.intersection(&empty);
    assert_eq!(i.next(), None);
    let mut d = a.difference(&empty);
    assert_eq!(drain(|| d.next()), vec![1, 2, 3]);
    let frozen = FrozenSet::<i32>::from_vec(vec![9, 3, 7, 1, 5]);
    let mut i = frozen.intersection(&a);
    assert_eq!(drain(|| i.next()), vec![1, 3]);
    let mut it = b.iter();
    assert_eq!(next_where(&mut it, &a, true), Some(&2));
    assert_eq!(next_where(&mut it, &a, false), Some(&5));
    assert_eq!(next_where(&mut it, &a, false), None);
    assert_eq!(checked_sum(3, 4), Some(7));
    assert_eq!(checked_sum(usize::MAX, 1), None);
    assert_eq!(checked_sum(usize::MAX, 0), Some(usize::MAX));
}

#[test]
fn sets_compare_by_their_items() {
    let a = ScanningSet::from_vec(vec![1, 2, 3]);
    let b = IntegerSet::<i32, u8>::from_vec(vec![4, 2, 3, 5, 1]).unwrap();
    let c = IntegerRangeSet::<i32>::from_vec(vec![7, 8, 9]);
    let d = FrozenSet::<i32>::from_vec(vec![3, 2, 1]);
    assert!(is_subset(&a, &b));
    assert!(!is_subset(&b, &a));
    assert!(is_superset(&b, &a));
    assert!(!is_superset(&a, &b));
    assert!(is_subset(&a, &a));
    assert!(is_superset(&a, &d));
    assert!(is_disjoint(&a, &c));
    assert!(is_disjoint(&c, &b));
    assert!(!is_disjoint(&a, &b));
    assert!(a.is_subset(&b));
    assert!(b.is_superset(&d));
    assert!(c.is_disjoint(&d));
    assert!(d.is_subset(&a));
    assert!(a.equals(&d));
    assert!(d.equals(&a));
    assert!(!a.equals(&b));
    assert!(!a.equals(&c));
    assert!(all_contained(&d, &b));
    assert!(!all_contained(&b, &d));
    assert!(none_contained(&c, &a));
    assert!(!none_contained(&b, &a));
    // a set with an item twice is longer than the set of its items
    let twice = ScanningSet::from_vec(vec![1, 1]);
    let once = ScanningSet::from_vec(vec![1]);
    assert!(all_contained(&twice, &once));
    assert!(!is_subset(&twice, &once));
    assert!(is_superset(&twice, &once));
    assert_eq!(SetOps::iter(&a).len(), 3);
    assert!(SetOps::contains(&b, &4));
}

#[test]
fn set_operators_give_the_values_that_their_cursors_visit() {
    let a = ScanningSet::from_vec(vec![1, 2, 3]);
    let b = ScanningSet::from_vec(vec![4, 2, 3, 5]);
    assert_eq!(a.union_vec(&b), vec![4, 2, 3, 5, 1]);
    assert_eq!(b.union_vec(&a), vec![4, 2, 3, 5, 1]);
    assert_eq!(a.intersection_vec(&b), vec![2, 3]);
    assert_eq!(a.difference_vec(&b), vec![1]);
    assert_eq!(b.difference_vec(&a), vec![4, 5]);
    assert_eq!(a.symmetric_difference_vec(&b), vec![1, 4, 5]);
    assert_eq!(b.symmetric_difference_vec(&a), vec![4, 5, 1]);
    assert_eq!(union_of(&a, &a), vec![1, 2, 3]);
    assert_eq!(intersection_of(&b, &a), vec![2, 3]);
    assert_eq!(difference_of(&a, &a), Vec::<i32>::new());
    assert_eq!(symmetric_difference_of(&a, &a), Vec::<i32>::new());
    let words = FrozenSet::<String>::from_vec(words(&["Red", "Green", "Blue", "Cyan", "Magenta"]));
    let some = CommonSet::<String, u8>::from_vec(vec!["Cyan".to_string(), "Black".to_string()])
        .unwrap();
    assert_eq!(words.intersection_vec(&some), vec!["Cyan".to_string()]);
    assert_eq!(some.difference_vec(&words), vec!["Black".to_string()]);
    let mut all = words.union_vec(&some);
    all.sort();
    assert_eq!(all, vec!["Black", "Blue", "Cyan", "Green", "Magenta", "Red"]);
    let mut odd = some.symmetric_difference_vec(&words);
    odd.sort();
    assert_eq!(odd, vec!["Black", "Blue", "Green", "Magenta", "Red"]);
    let range = IntegerRangeSet::<u8>::from_vec(vec![3, 1, 2]);
    let ints = IntegerSet::<u8, u8>::from_vec(vec![2, 9]).unwrap();
    assert_eq!(range.difference_vec(&ints), vec![1, 3]);
    assert_eq!(ints.intersection_vec(&range), vec![2]);
}

#[test]
fn sets_are_taken_apart_into_their_items() {
    assert_eq!(strip_unit(vec![(3, ()), (1, ()), (2, ())]), vec![3, 1, 2]);
    assert_eq!(strip_unit(Vec::<(u8, ())>::new()), vec![]);
    assert_eq!(ScanningSet::from_vec(vec![5, 4, 6]).into_vec(), vec![5, 4, 6]);
    assert_eq!(IntegerRangeSet::<i8>::from_vec(vec![1, -1, 0]).into_vec(), vec![-1, 0, 1]);
    let set = FrozenSet::<u32>::from_vec(vec![10, 30, 20, 50, 40, 70]);
    let visited: Vec<u32> = {
        let mut out = Vec::new();
        let mut it = set.iter();
        while let Some(v) = it.next() {
            out.push(*v);
        }
        out
    };
    assert_eq!(set.into_vec(), visited);
    let mut items = CommonSet::<String, u8>::from_vec(words(&["b", "a", "c"])).unwrap().into_vec();
    items.sort();
    assert_eq!(items, vec!["a", "b", "c"]);
    let mut items = LengthSet::<String, u8>::from_vec(words(&["bb", "a"])).unwrap().into_vec();
    items.sort();
    assert_eq!(items, vec!["a", "bb"]);
    assert_eq!(FrozenSet::<String>::from_vec(vec![]).into_vec(), Vec::<String>::new());
}

#[test]
fn collections_built_from_an_iterator_hold_what_it_yields() {
    let set = ScanningSet::from_iter(vec![7, 5, 6].into_iter());
    assert_eq!(set.into_vec(), vec![7, 5, 6]);
    let set = FrozenSet::<u16>::from_iter(vec![1, 2, 3, 4, 5].into_iter());
    assert_eq!(set.representation(), Representation::IntegerRange);
    assert_eq!(set.len(), 5);
    assert!(set.contains(&5));
    assert!(!set.contains(&6));
    let set = IntegerSet::<u16, u8>::from_iter(vec![1, 20, 3].into_iter()).unwrap();
    assert_eq!(set.len(), 3);
    assert!(set.contains(&20));
    let refused = IntegerSet::<u16, u8>::from_iter(0..300u16);
    assert_eq!(refused.err().map(|e| (e.len, e.capacity)), Some((300, 255)));
}

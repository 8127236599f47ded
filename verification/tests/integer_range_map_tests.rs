use frozen_collections::specialized_maps::integer_range_map::IntegerRangeMap;
use frozen_collections::traits::int_value::IntValue;
use frozen_collections::traits::len::Len;

#[test]
fn range_map_test() {
    const MIN: [i32; 5] = [-11, -10, -9, 0, 1];

    for min in MIN {
        let mut v = Vec::new();
        for i in 0..10 {
            v.push((min + i, i));
        }

        let mut m = IntegerRangeMap::<i32, i32>::from_vec(v);

        assert_eq!(10, Len::len(&m));
        for i in 0..9 {
            let index = min + i;
            assert_eq!(i, *m.get(&index).unwrap());
            assert_eq!(i, *m.get_mut(&index).unwrap());

            let (k, v) = m.get_key_value(&index).unwrap();
            assert_eq!((index, i), (*k, *v));
        }

        let below = min - 1;
        assert_eq!(None, m.get(&below));
        assert_eq!(None, m.get_mut(&below));
        assert_eq!(None, m.get_key_value(&below));

        let above = min + 10;
        assert_eq!(None, m.get(&above));
        assert_eq!(None, m.get_mut(&above));
        assert_eq!(None, m.get_key_value(&above));

        if min == -11 {
            assert_eq!(
                "{-11: 0, -10: 1, -9: 2, -8: 3, -7: 4, -6: 5, -5: 6, -4: 7, -3: 8, -2: 9}",
                m.debug_string()
            );
        }
    }
}

#[test]
fn range_map_orders_a_shuffled_payload() {
    let m = IntegerRangeMap::<u8, char>::from_vec(vec![(7, 'c'), (5, 'a'), (8, 'd'), (6, 'b')]);
    assert_eq!(m.min, IntValue::Unsigned(5));
    assert_eq!(m.max, IntValue::Unsigned(8));
    let mut it = m.iter();
    assert_eq!(it.next(), Some((&5, &'a')));
    assert_eq!(it.next(), Some((&6, &'b')));
    assert_eq!(it.next(), Some((&7, &'c')));
    assert_eq!(it.next(), Some((&8, &'d')));
    assert_eq!(it.next(), None);
    assert_eq!(m.get(&4), None);
    assert_eq!(m.get(&9), None);
    assert_eq!(m.get(&8), Some(&'d'));
}

#[test]
fn range_map_of_nothing_finds_nothing() {
    let m = IntegerRangeMap::<u32, u32>::from_vec(vec![]);
    assert_eq!(m.get(&0), None);
    assert_eq!(m.get(&1), None);
    assert!(m.is_empty());
}

#[test]
fn try_from_vec_accepts_ranges_only() {
    assert!(IntegerRangeMap::<i32, i32>::try_from_vec(vec![]).is_ok());
    assert!(IntegerRangeMap::<i32, i32>::try_from_vec(vec![(3, 0)]).is_ok());
    assert!(IntegerRangeMap::<i32, i32>::try_from_vec(vec![(3, 0), (2, 1), (4, 2)]).is_ok());
    let gap = IntegerRangeMap::<i32, i32>::try_from_vec(vec![(3, 0), (5, 1)]);
    assert_eq!(gap.err(), Some(vec![(3, 0), (5, 1)]));
    let twice = IntegerRangeMap::<i32, i32>::try_from_vec(vec![(1, 0), (1, 1), (3, 2)]);
    assert!(twice.is_err());
    let strings =
        IntegerRangeMap::<String, i32>::try_from_vec(vec![("a".to_string(), 0)]);
    assert!(strings.is_err());
    let wide = IntegerRangeMap::<i64, i32>::try_from_vec(vec![(i64::MIN, 0), (i64::MAX, 1)]);
    assert!(wide.is_err());
}

#[test]
fn range_map_reaches_the_greatest_integers() {
    let top = u128::MAX;
    let m = IntegerRangeMap::<u128, u8>::from_vec(vec![(top - 1, 1), (top, 2), (top - 2, 0)]);
    assert_eq!(m.min, IntValue::Unsigned(top - 2));
    assert_eq!(m.max, IntValue::Unsigned(top));
    assert_eq!(m.get(&top), Some(&2));
    assert_eq!(m.get(&(top - 2)), Some(&0));
    assert_eq!(m.get(&(top - 3)), None);
    assert_eq!(m.get(&0), None);
    assert_eq!(m.position(&(top - 1)), Some(1));
    let m = IntegerRangeMap::<i128, u8>::from_vec(vec![(i128::MIN + 1, 1), (i128::MIN, 0)]);
    assert_eq!(m.min, IntValue::Signed(i128::MIN));
    assert_eq!(m.get(&(i128::MIN + 1)), Some(&1));
    assert_eq!(m.get(&i128::MAX), None);
    assert!(IntegerRangeMap::<u128, u8>::try_from_vec(vec![(0, 0), (top, 1)]).is_err());
}

#[test]
fn range_map_from_an_iterator_takes_ranges_only() {
    let m = IntegerRangeMap::<i32, char>::from_iter(vec![(2, 'b'), (1, 'a'), (3, 'c')].into_iter())
        .unwrap();
    assert_eq!(m.get(&1), Some(&'a'));
    assert_eq!(m.get(&3), Some(&'c'));
    assert_eq!(m.len(), 3);
    let back = IntegerRangeMap::<i32, char>::from_iter(vec![(2, 'b'), (4, 'd')].into_iter());
    assert_eq!(back.err(), Some(vec![(2, 'b'), (4, 'd')]));
    assert!(IntegerRangeMap::<i32, char>::from_iter(Vec::new().into_iter()).unwrap().is_empty());
}

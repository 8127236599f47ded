use frozen_collections::specialized_maps::scanning_map::ScanningMap;
use frozen_collections::traits::len::Len;

#[test]
fn new_creates_scanning_map_with_given_payload() {
    let payload = vec![(10, 20), (30, 40), (50, 60)];
    let map = ScanningMap::<i32, i32>::from_vec(payload.clone());
    assert_eq!(payload.len(), Len::len(&map));
}

#[test]
fn get_returns_some_for_existing_keys() {
    let payload = vec![(10, 20), (30, 40), (50, 60)];
    let map = ScanningMap::<i32, i32>::from_vec(payload);
    assert_eq!(&20, map.get(&10).unwrap());
    assert_eq!(&40, map.get(&30).unwrap());
    assert_eq!(&60, map.get(&50).unwrap());
}

#[test]
fn get_returns_none_for_non_existing_keys() {
    let payload = vec![(10, 20), (30, 40), (50, 60)];
    let map = ScanningMap::<i32, i32>::from_vec(payload);
    assert_eq!(None, map.get(&0));
}

#[test]
fn get_mut_returns_some_for_existing_keys() {
    let payload = vec![(10, 20), (30, 40), (50, 60)];
    let mut map = ScanningMap::<i32, i32>::from_vec(payload);
    assert_eq!(&20, map.get_mut(&10).unwrap());
    assert_eq!(&40, map.get_mut(&30).unwrap());
    assert_eq!(&60, map.get_mut(&50).unwrap());
}

#[test]
fn get_mut_returns_none_for_non_existing_keys() {
    let payload = vec![(10, 20), (30, 40), (50, 60)];
    let mut map = ScanningMap::<i32, i32>::from_vec(payload);
    assert_eq!(None, map.get_mut(&0));
}

#[test]
fn get_key_value_returns_some_for_existing_keys() {
    let payload = vec![(10, 20), (30, 40), (50, 60)];
    let map = ScanningMap::<i32, i32>::from_vec(payload);
    assert_eq!((&10, &20), map.get_key_value(&10).unwrap());
    assert_eq!((&30, &40), map.get_key_value(&30).unwrap());
    assert_eq!((&50, &60), map.get_key_value(&50).unwrap());
}

#[test]
fn get_key_value_returns_none_for_non_existing_keys() {
    let payload = vec![(10, 20), (30, 40), (50, 60)];
    let map = ScanningMap::<i32, i32>::from_vec(payload);
    assert_eq!(None, map.get_key_value(&0));
}

#[test]
fn debug_format_is_correct() {
    let payload = vec![(10, 20)];
    let map = ScanningMap::<i32, i32>::from_vec(payload);
    assert_eq!("{10: 20}", map.debug_string());
}

#[test]
fn scanning_map_answers_with_the_first_of_two_equal_keys() {
    let map = ScanningMap::<i32, i32>::from_vec(vec![(1, 10), (2, 20), (1, 30)]);
    assert_eq!(map.get(&1), Some(&10));
    assert_eq!(map.position(&1), Some(0));
    assert_eq!(map.position(&2), Some(1));
    assert_eq!(map.position(&3), None);
    assert_eq!(map.len(), 3);
}

#[test]
fn scanning_map_get_many_mut_hands_out_distinct_values() {
    let mut map = ScanningMap::<i32, i32>::from_vec(vec![(1, 10), (2, 20), (3, 30)]);
    {
        let [c, a] = map.get_many_mut([&3, &1]).unwrap();
        assert_eq!((*c, *a), (30, 10));
        *c += 1;
        *a += 2;
    }
    assert_eq!(map.get(&1), Some(&12));
    assert_eq!(map.get(&2), Some(&20));
    assert_eq!(map.get(&3), Some(&31));
    assert!(map.get_many_mut([&1, &1]).is_none());
    assert!(map.get_many_mut([&1, &4]).is_none());
    assert!(map.get_many_mut::<0>([]).is_some());
}

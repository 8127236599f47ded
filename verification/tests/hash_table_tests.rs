use frozen_collections::specialized_maps::hash_table::hash_codes;
use frozen_collections::specialized_maps::hash_table::CapacityExceeded;
use frozen_collections::specialized_maps::hash_table::HashTable;

fn table(payload: Vec<(u32, char)>, slots: usize) -> HashTable<u32, char, u8> {
    HashTable::new(payload, slots, |k: &u32| *k as u64).unwrap()
}

#[test]
fn entries_of_one_bucket_lie_side_by_side() {
    let t = table(vec![(1, 'a'), (5, 'b'), (2, 'c'), (9, 'd')], 4);
    assert_eq!(t.len(), 4);
    // bucket 1 holds the keys 1, 5 and 9, bucket 2 holds the key 2
    assert_eq!(t.get_hash_info(1), 0..3);
    assert_eq!(t.get_hash_info(5), 0..3);
    assert_eq!(t.get_hash_info(13), 0..3);
    assert_eq!(t.get_hash_info(2), 3..4);
    // empty buckets are described by the empty range at the front
    assert_eq!(t.get_hash_info(0), 0..0);
    assert_eq!(t.get_hash_info(3), 0..0);
    let mut first: Vec<u32> = t.entries[0..3].iter().map(|e| e.0).collect();
    first.sort();
    assert_eq!(first, vec![1, 5, 9]);
    assert_eq!(t.entries[3], (2, 'c'));
}

#[test]
fn every_entry_lies_in_the_bucket_of_its_key() {
    let payload: Vec<(u32, char)> = (0..200).map(|i| (i * 37 % 1009, 'x')).collect();
    for slots in [1usize, 2, 7, 64, 256, 1000] {
        let t = table(payload.clone(), slots);
        assert_eq!(t.len(), payload.len());
        let mut covered = 0;
        for b in 0..slots as u64 {
            let r = t.get_hash_info(b);
            assert!(r.start <= r.end && r.end <= t.len());
            for p in r.clone() {
                assert_eq!(t.entries[p].0 as u64 % slots as u64, b);
            }
            covered += r.len();
        }
        assert_eq!(covered, t.len());
        let mut kept: Vec<u32> = t.entries.iter().map(|e| e.0).collect();
        kept.sort();
        let mut given: Vec<u32> = payload.iter().map(|e| e.0).collect();
        given.sort();
        assert_eq!(kept, given);
    }
}

#[test]
fn find_answers_with_the_first_entry_of_the_key() {
    let t = table(vec![(1, 'a'), (5, 'b'), (2, 'c'), (9, 'd')], 4);
    for (k, v) in [(1u32, 'a'), (5, 'b'), (2, 'c'), (9, 'd')] {
        let i = t.find(k as u64, &k).unwrap();
        assert_eq!(t.entries[i], (k, v));
        assert_eq!(t.get_by_index(i), Some((&k, &v)));
    }
    assert_eq!(t.find(13, &13), None);
    assert_eq!(t.find(0, &0), None);
    assert_eq!(t.get_by_index(4), None);
}

#[test]
fn an_empty_table_has_one_bucket() {
    let t = table(vec![], 16);
    assert_eq!(t.len(), 0);
    for code in [0u64, 1, 15, 16, u64::MAX] {
        assert_eq!(t.get_hash_info(code), 0..0);
        assert_eq!(t.find(code, &3), None);
    }
    assert_eq!(t.slots.len(), 1);
}

#[test]
fn too_many_entries_are_refused() {
    let payload: Vec<(u32, char)> = (0..256).map(|i| (i, 'x')).collect();
    let r: Result<HashTable<u32, char, u8>, CapacityExceeded> =
        HashTable::new(payload.clone(), 256, |k: &u32| *k as u64);
    assert_eq!(r.err(), Some(CapacityExceeded { len: 256, capacity: 255 }));
    let r: Result<HashTable<u32, char, u16>, CapacityExceeded> =
        HashTable::new(payload.clone(), 256, |k: &u32| *k as u64);
    assert!(r.is_ok());
    let r: Result<HashTable<u32, char, usize>, CapacityExceeded> =
        HashTable::new(payload, 256, |k: &u32| *k as u64);
    assert!(r.is_ok());
    let many: Vec<(u32, char)> = (0..65536).map(|i| (i, 'x')).collect();
    let r: Result<HashTable<u32, char, u16>, CapacityExceeded> =
        HashTable::new(many.clone(), 4, |k: &u32| *k as u64);
    assert_eq!(r.err(), Some(CapacityExceeded { len: 65536, capacity: 65535 }));
    let r: Result<HashTable<u32, char, u32>, CapacityExceeded> =
        HashTable::new(many, 4, |k: &u32| *k as u64);
    assert_eq!(r.unwrap().len(), 65536);
}

#[test]
fn hash_codes_are_those_of_the_keys_in_order() {
    let payload = vec![(3u32, 'a'), (1, 'b'), (2, 'c')];
    assert_eq!(hash_codes(&payload, &|k: &u32| (*k as u64) * 10), vec![30, 10, 20]);
}

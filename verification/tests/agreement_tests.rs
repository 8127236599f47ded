use frozen_collections::facades::frozen_map::FrozenMap;
use frozen_collections::facades::frozen_map::Representation;
use frozen_collections::facades::frozen_set::FrozenSet;
use frozen_collections::traits::len::Len;
use frozen_collections::traits::slice_hash::SliceHash;
use frozen_collections::traits::byte_hasher::ByteHasher;
use frozen_collections::traits::byte_hasher::DefaultByteHasher;
use std::collections::HashMap;

struct Lcg(u64);

impl Lcg {
    fn next(&mut self) -> u64 {
        self.0 = self.0.wrapping_mul(6364136223846793005).wrapping_add(1442695040888963407);
        self.0 >> 33
    }
}

#[test]
fn frozen_maps_of_integers_agree_with_a_hash_map() {
    let mut rng = Lcg(7);
    for round in 0..60 {
        let n = (rng.next() % 600) as usize;
        let spread = 1 + rng.next() % 2000;
        let mut expected: HashMap<i64, u64> = HashMap::new();
        let mut payload = Vec::new();
        while payload.len() < n {
            let k = (rng.next() % spread) as i64 - (spread / 2) as i64;
            if expected.contains_key(&k) {
                if expected.len() as u64 >= spread {
                    break;
                }
                continue;
            }
            let v = rng.next();
            expected.insert(k, v);
            payload.push((k, v));
        }
        let mut map = FrozenMap::<i64, u64>::from_vec(payload.clone());
        assert_eq!(map.len(), expected.len(), "round {round}");
        let probes = -(spread as i64)..spread as i64;
        for k in probes {
            assert_eq!(map.get(&k), expected.get(&k), "round {round}, key {k}");
            assert_eq!(map.contains_key(&k), expected.contains_key(&k));
            assert_eq!(map.get_key_value(&k), expected.get_key_value(&k));
            assert_eq!(map.get_mut(&k).map(|v| *v), expected.get(&k).copied());
        }
        let dense = payload.len() >= 4 && {
            let min = payload.iter().map(|e| e.0).min().unwrap();
            let max = payload.iter().map(|e| e.0).max().unwrap();
            (max - min + 1) as usize == payload.len()
        };
        let expected_representation = if payload.len() < 4 {
            Representation::Scanning
        } else if dense {
            Representation::IntegerRange
        } else {
            Representation::Integer
        };
        assert_eq!(map.representation(), expected_representation);
    }
}

#[test]
fn frozen_maps_of_strings_agree_with_a_hash_map() {
    let mut rng = Lcg(11);
    for round in 0..40 {
        let n = (rng.next() % 400) as usize;
        let alphabet = 1 + rng.next() % 4;
        let longest = 1 + rng.next() % 6;
        let mut expected: HashMap<String, u64> = HashMap::new();
        let mut payload = Vec::new();
        let mut tries = 0;
        while payload.len() < n && tries < 10 * n {
            tries += 1;
            let len = rng.next() % (longest + 1);
            let k: String =
                (0..len).map(|_| (b'a' + (rng.next() % alphabet) as u8) as char).collect();
            if expected.contains_key(&k) {
                continue;
            }
            let v = rng.next();
            expected.insert(k.clone(), v);
            payload.push((k, v));
        }
        let map = FrozenMap::<String, u64>::from_vec(payload.clone());
        assert_eq!(map.len(), expected.len(), "round {round}");
        for (k, v) in &payload {
            assert_eq!(map.get(k), Some(v), "round {round}, key {k:?}");
        }
        for _ in 0..500 {
            let len = rng.next() % (longest + 2);
            let k: String =
                (0..len).map(|_| (b'a' + (rng.next() % (alphabet + 1)) as u8) as char).collect();
            assert_eq!(map.get(&k), expected.get(&k), "round {round}, key {k:?}");
        }
        // whatever was chosen tells the keys apart as it claims
        match map.representation() {
            Representation::Length => {
                let mut lens: Vec<usize> = payload.iter().map(|e| e.0.len()).collect();
                lens.sort();
                lens.dedup();
                assert_eq!(lens.len(), payload.len());
            }
            Representation::LeftSlice { subslice_index, subslice_len } => {
                let mut w: Vec<&[u8]> = payload
                    .iter()
                    .map(|e| &e.0.as_bytes()[subslice_index..subslice_index + subslice_len])
                    .collect();
                w.sort();
                w.dedup();
                assert_eq!(w.len(), payload.len());
            }
            Representation::RightSlice { subslice_index, subslice_len } => {
                let mut w: Vec<&[u8]> = payload
                    .iter()
                    .map(|e| {
                        let b = e.0.as_bytes();
                        &b[b.len() - subslice_index - subslice_len..b.len() - subslice_index]
                    })
                    .collect();
                w.sort();
                w.dedup();
                assert_eq!(w.len(), payload.len());
            }
            Representation::Scanning => assert!(payload.len() < 4),
            Representation::Common => assert!(payload.len() >= 4),
            other => panic!("strings got {other:?}"),
        }
        let set = FrozenSet::<String>::from_vec(payload.iter().map(|e| e.0.clone()).collect());
        assert_eq!(set.representation(), map.representation());
        for (k, _) in &payload {
            assert!(set.contains(k));
        }
    }
}

#[test]
fn clones_and_defaults_are_maps_of_their_own() {
    let mut map = FrozenMap::<u32, String>::from_vec(vec![
        (1, "a".to_string()),
        (2, "b".to_string()),
        (3, "c".to_string()),
        (9, "d".to_string()),
    ]);
    let copy = map.clone();
    map.get_mut(&2).unwrap().push('!');
    assert_eq!(map.get(&2), Some(&"b!".to_string()));
    assert_eq!(copy.get(&2), Some(&"b".to_string()));
    assert!(!map.equals(&copy));
    let empty = FrozenMap::<u32, String>::default();
    assert!(empty.is_empty());
    assert_eq!(empty.representation(), Representation::Scanning);
    assert_eq!(empty.get(&1), None);
    let empty = FrozenSet::<String>::default();
    assert_eq!(empty.len(), 0);
    assert!(!empty.contains(&String::new()));
    let set = FrozenSet::<u8>::from_vec(vec![1, 2, 3, 5, 8]);
    assert!(set.clone().equals(&set));
}

#[test]
fn unsized_strings_and_slices_have_lengths_and_windows() {
    assert_eq!(Len::len("héllo"), 6);
    assert!(Len::is_empty(""));
    assert_eq!(Len::len(&[1u16, 2, 3][..]), 3);
    let bh = DefaultByteHasher::new();
    let bytes: &[u8] = b"abcdef";
    assert_eq!(SliceHash::hash(bytes, &bh, 2..4), bh.hash_bytes(b"cd"));
}

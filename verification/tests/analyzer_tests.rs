use frozen_collections::analyzers::hash_code_analyzer::analyze_hash_codes;
use frozen_collections::analyzers::int_key_analyzer::analyze_int_keys;
use frozen_collections::analyzers::int_key_analyzer::key_bounds;
use frozen_collections::analyzers::int_key_analyzer::IntKeyAnalysisResult;
use frozen_collections::analyzers::slice_key_analyzer::analyze_slice_keys;
use frozen_collections::analyzers::slice_key_analyzer::byte_keys;
use frozen_collections::analyzers::slice_key_analyzer::key_window;
use frozen_collections::analyzers::slice_key_analyzer::lengths_are_unique;
use frozen_collections::analyzers::slice_key_analyzer::shortest_len;
use frozen_collections::analyzers::slice_key_analyzer::window_discriminates;
use frozen_collections::analyzers::slice_key_analyzer::window_discriminates_exactly;
use frozen_collections::analyzers::slice_key_analyzer::SliceKeyAnalysisResult;
use frozen_collections::traits::byte_hasher::ByteHasher;
use frozen_collections::traits::int_value::IntValue;
use frozen_collections::traits::int_value::IntValue::Signed;
use frozen_collections::traits::int_value::IntValue::Unsigned;
use frozen_collections::traits::byte_hasher::DefaultByteHasher;

fn signed(keys: &[i128]) -> Vec<IntValue> {
    keys.iter().map(|k| Signed(*k)).collect()
}

fn unsigned(keys: &[u128]) -> Vec<IntValue> {
    keys.iter().map(|k| Unsigned(*k)).collect()
}

fn slices<'a>(keys: &[&'a str]) -> Vec<&'a [u8]> {
    keys.iter().map(|k| k.as_bytes()).collect()
}

fn analyze(keys: &[&str]) -> SliceKeyAnalysisResult {
    analyze_slice_keys(&slices(keys), &DefaultByteHasher::new())
}

#[test]
fn bucket_count_is_the_next_power_of_two() {
    let expected = [
        (0usize, 1usize),
        (1, 1),
        (2, 2),
        (3, 4),
        (4, 4),
        (5, 8),
        (8, 8),
        (9, 16),
        (255, 256),
        (256, 256),
        (257, 512),
        (1000, 1024),
    ];
    for (n, b) in expected {
        let codes: Vec<u64> = (0..n as u64).map(|c| c * 977).collect();
        assert_eq!(analyze_hash_codes(&codes).num_hash_slots, b);
    }
    // the codes themselves do not matter, their number does
    assert_eq!(analyze_hash_codes(&[7, 7, 7, 7, 7]).num_hash_slots, 8);
}

#[test]
fn int_keys_that_fill_a_range_are_a_range() {
    assert_eq!(analyze_int_keys(&signed(&[0, 1, 2, 3, 4])), IntKeyAnalysisResult::Range);
    assert_eq!(analyze_int_keys(&signed(&[3, 1, 4, 2, 0])), IntKeyAnalysisResult::Range);
    assert_eq!(analyze_int_keys(&signed(&[-2, -1, 0, 1])), IntKeyAnalysisResult::Range);
    assert_eq!(analyze_int_keys(&signed(&[7, 8])), IntKeyAnalysisResult::Range);
    assert_eq!(
        analyze_int_keys(&signed(&[i128::MAX, i128::MAX - 1, i128::MAX - 2])),
        IntKeyAnalysisResult::Range
    );
    assert_eq!(analyze_int_keys(&signed(&[i128::MIN + 1, i128::MIN])), IntKeyAnalysisResult::Range);
}

#[test]
fn other_int_keys_are_normal() {
    assert_eq!(analyze_int_keys(&signed(&[])), IntKeyAnalysisResult::Normal);
    assert_eq!(analyze_int_keys(&signed(&[5])), IntKeyAnalysisResult::Normal);
    assert_eq!(analyze_int_keys(&signed(&[0, 2, 4, 6, 8])), IntKeyAnalysisResult::Normal);
    assert_eq!(analyze_int_keys(&signed(&[0, 1, 3, 4])), IntKeyAnalysisResult::Normal);
    assert_eq!(analyze_int_keys(&signed(&[1, 1])), IntKeyAnalysisResult::Normal);
    assert_eq!(analyze_int_keys(&signed(&[1, 2, 2, 3])), IntKeyAnalysisResult::Normal);
    // as many keys as the range is long, but one twice and one missing
    assert_eq!(analyze_int_keys(&signed(&[1, 1, 3])), IntKeyAnalysisResult::Normal);
    assert_eq!(analyze_int_keys(&signed(&[1, 3, 3])), IntKeyAnalysisResult::Normal);
    assert_eq!(analyze_int_keys(&signed(&[i128::MIN, i128::MAX])), IntKeyAnalysisResult::Normal);
    assert_eq!(analyze_int_keys(&signed(&[-1, i128::MAX])), IntKeyAnalysisResult::Normal);
    assert_eq!(analyze_int_keys(&signed(&[0, 1 << 70])), IntKeyAnalysisResult::Normal);
}

#[test]
fn int_keys_without_a_sign_are_analyzed_as_far_as_they_reach() {
    assert_eq!(analyze_int_keys(&unsigned(&[0, 1, 2, 3])), IntKeyAnalysisResult::Range);
    assert_eq!(
        analyze_int_keys(&unsigned(&[u128::MAX, u128::MAX - 2, u128::MAX - 1, u128::MAX - 3])),
        IntKeyAnalysisResult::Range
    );
    assert_eq!(
        analyze_int_keys(&unsigned(&[u128::MAX, u128::MAX - 2, u128::MAX - 4, u128::MAX - 3])),
        IntKeyAnalysisResult::Normal
    );
    assert_eq!(analyze_int_keys(&unsigned(&[0, u128::MAX])), IntKeyAnalysisResult::Normal);
    assert_eq!(
        analyze_int_keys(&unsigned(&[1 << 127, (1 << 127) + 1])),
        IntKeyAnalysisResult::Range
    );
    // values with and without a sign are the integers they stand for
    assert_eq!(
        analyze_int_keys(&[Signed(-1), Unsigned(1), Signed(0), Unsigned(2)]),
        IntKeyAnalysisResult::Range
    );
    assert_eq!(
        analyze_int_keys(&[Signed(1), Unsigned(1), Signed(0), Unsigned(2)]),
        IntKeyAnalysisResult::Normal
    );
    assert_eq!(
        analyze_int_keys(&[Signed(i128::MAX), Unsigned(1 << 127)]),
        IntKeyAnalysisResult::Range
    );
    assert_eq!(
        analyze_int_keys(&[Signed(i128::MIN), Unsigned(u128::MAX)]),
        IntKeyAnalysisResult::Normal
    );
}

#[test]
fn int_values_are_ordered_and_measured_as_integers() {
    assert!(Signed(-1).is_lt(&Unsigned(0)));
    assert!(!Unsigned(0).is_lt(&Signed(-1)));
    assert!(Signed(3).is_lt(&Unsigned(4)));
    assert!(!Signed(4).is_lt(&Unsigned(4)));
    assert!(Unsigned(4).is_lt(&Signed(5)));
    assert!(!Unsigned(u128::MAX).is_lt(&Signed(i128::MAX)));
    assert!(Signed(i128::MAX).is_lt(&Unsigned(u128::MAX)));
    assert!(Signed(-5).is_lt(&Signed(-4)));
    assert!(Unsigned(7).is_lt(&Unsigned(8)));
    assert!(!Unsigned(8).is_lt(&Unsigned(8)));
    assert!(Signed(8).is_same(&Unsigned(8)));
    assert!(!Signed(-8).is_same(&Unsigned(8)));
    assert_eq!(Signed(10).offset_from(&Signed(-5)), Some(15));
    assert_eq!(Signed(-5).offset_from(&Signed(10)), None);
    assert_eq!(Signed(i128::MAX).offset_from(&Signed(i128::MIN)), None);
    assert_eq!(Signed(i128::MIN + 9).offset_from(&Signed(i128::MIN)), Some(9));
    assert_eq!(Unsigned(u128::MAX).offset_from(&Unsigned(u128::MAX - 3)), Some(3));
    assert_eq!(Unsigned(u128::MAX).offset_from(&Unsigned(0)), None);
    assert_eq!(Unsigned(3).offset_from(&Unsigned(4)), None);
    assert_eq!(Unsigned(7).offset_from(&Signed(-3)), Some(10));
    assert_eq!(Unsigned(0).offset_from(&Signed(-1)), Some(1));
    assert_eq!(Unsigned(7).offset_from(&Signed(3)), Some(4));
    assert_eq!(Unsigned(0).offset_from(&Signed(i128::MIN)), None);
    assert_eq!(Unsigned(usize::MAX as u128).offset_from(&Signed(-1)), None);
    assert_eq!(Unsigned(usize::MAX as u128 - 1).offset_from(&Signed(-1)), Some(usize::MAX));
    assert_eq!(Signed(7).offset_from(&Unsigned(3)), Some(4));
    assert_eq!(Signed(-7).offset_from(&Unsigned(0)), None);
    assert_eq!(Signed(usize::MAX as i128).offset_from(&Unsigned(0)), Some(usize::MAX));
    assert_eq!(Signed(usize::MAX as i128 + 1).offset_from(&Unsigned(0)), None);
    assert_eq!(Signed(-1).code(), u64::MAX);
    assert_eq!(Signed(1 << 64).code(), 0);
    assert_eq!(Signed(i128::MIN).code(), 0);
    assert_eq!(Unsigned(u128::MAX).code(), u64::MAX);
    assert_eq!(Unsigned((1 << 64) + 5).code(), 5);
    assert_eq!(Unsigned(77).code(), 77);
}

#[test]
fn key_bounds_are_the_least_and_the_greatest_key() {
    assert_eq!(key_bounds(&signed(&[5])), (Signed(5), Signed(5)));
    assert_eq!(key_bounds(&signed(&[3, -7, 12, 0])), (Signed(-7), Signed(12)));
    assert_eq!(key_bounds(&signed(&[i128::MAX, i128::MIN])), (Signed(i128::MIN), Signed(i128::MAX)));
    assert_eq!(
        key_bounds(&[Unsigned(7), Signed(-1), Unsigned(u128::MAX), Signed(i128::MAX)]),
        (Signed(-1), Unsigned(u128::MAX))
    );
}

#[test]
fn lengths_that_differ_are_found_first() {
    assert_eq!(analyze(&[]), SliceKeyAnalysisResult::Length);
    assert_eq!(analyze(&["solo"]), SliceKeyAnalysisResult::Length);
    assert_eq!(analyze(&["", "a", "aa", "aaa"]), SliceKeyAnalysisResult::Length);
    assert_eq!(analyze(&["abc", "ab", "a"]), SliceKeyAnalysisResult::Length);
    assert!(lengths_are_unique(&slices(&["abc", "ab", "a"])));
    assert!(!lengths_are_unique(&slices(&["abc", "ab", "xyz"])));
    assert!(lengths_are_unique(&slices(&[])));
}

#[test]
fn the_first_window_that_tells_the_keys_apart_is_found() {
    // the first byte does
    assert_eq!(
        analyze(&["apple", "berry", "cocoa"]),
        SliceKeyAnalysisResult::LeftHandSubslice { subslice_index: 0, subslice_len: 1 }
    );
    // the first byte does not, the last byte does: at one place the left
    // window is tried before the right one
    assert_eq!(
        analyze(&["abcdefghi0", "abcdefghi1", "abcdefghi2"]),
        SliceKeyAnalysisResult::RightHandSubslice { subslice_index: 0, subslice_len: 1 }
    );
    // neither edge does, the second byte does
    assert_eq!(
        analyze(&["a1z", "a2z", "a3z"]),
        SliceKeyAnalysisResult::LeftHandSubslice { subslice_index: 1, subslice_len: 1 }
    );
    // both edges do: left wins
    assert_eq!(
        analyze(&["ab", "ba"]),
        SliceKeyAnalysisResult::LeftHandSubslice { subslice_index: 0, subslice_len: 1 }
    );
    // a window nearer to the edge wins over one further in, whatever its side
    assert_eq!(
        analyze(&["xa--0", "xb--0", "yc--1", "yd--1"]),
        SliceKeyAnalysisResult::LeftHandSubslice { subslice_index: 1, subslice_len: 1 }
    );
    assert_eq!(
        analyze(&["0--ax", "0--bx", "1--cy", "1--dy"]),
        SliceKeyAnalysisResult::RightHandSubslice { subslice_index: 1, subslice_len: 1 }
    );
    // no single byte does, two bytes do
    assert_eq!(
        analyze(&["aa", "ab", "ba", "bb"]),
        SliceKeyAnalysisResult::LeftHandSubslice { subslice_index: 0, subslice_len: 2 }
    );
    // keys of different lengths: the right window is counted from the end
    assert_eq!(
        analyze(&["x1", "xx2", "xxx3", "x4"]),
        SliceKeyAnalysisResult::RightHandSubslice { subslice_index: 0, subslice_len: 1 }
    );
}

#[test]
fn keys_without_a_telling_window_are_normal() {
    assert_eq!(analyze(&["same", "same"]), SliceKeyAnalysisResult::Normal);
    // windows reach as far as the shortest key only
    assert_eq!(analyze(&["a", "ab", "ac", "a"]), SliceKeyAnalysisResult::Normal);
    assert_eq!(analyze(&["", "", "x"]), SliceKeyAnalysisResult::Normal);
}

#[test]
fn windows_are_taken_from_either_side() {
    let key = "abcdef".as_bytes();
    assert_eq!(key_window(key, 0, 2, true), "ab".as_bytes());
    assert_eq!(key_window(key, 1, 3, true), "bcd".as_bytes());
    assert_eq!(key_window(key, 0, 2, false), "ef".as_bytes());
    assert_eq!(key_window(key, 1, 3, false), "cde".as_bytes());
    assert_eq!(key_window(key, 0, 6, false), key);
    assert_eq!(key_window(key, 6, 0, true), "".as_bytes());
}

struct Constant;

impl ByteHasher for Constant {
    fn spec_hash_bytes(&self, _bytes: vstd::seq::Seq<u8>) -> u64 {
        unreachable!()
    }

    fn hash_bytes(&self, _bytes: &[u8]) -> u64 {
        42
    }
}

#[test]
fn the_hasher_does_not_change_the_analysis() {
    let sets: [&[&str]; 5] = [
        &["apple", "berry", "cocoa"],
        &["abcdefghi0", "abcdefghi1", "abcdefghi2"],
        &["aa", "ab", "ba", "bb"],
        &["a", "ab", "ac", "a"],
        &["x1", "xx2", "xxx3", "x4"],
    ];
    for keys in sets {
        assert_eq!(analyze_slice_keys(&slices(keys), &Constant), analyze(keys));
    }
    let keys = slices(&["aa", "ab", "ba", "bb"]);
    for start in 0..2 {
        for left in [true, false] {
            assert_eq!(
                window_discriminates(&keys, start, 1, left, &Constant),
                window_discriminates_exactly(&keys, start, 1, left)
            );
            assert!(!window_discriminates(&keys, start, 1, left, &DefaultByteHasher::new()));
        }
    }
    assert!(window_discriminates(&keys, 0, 2, true, &Constant));
    assert!(window_discriminates(&keys, 0, 2, false, &DefaultByteHasher::new()));
    assert_eq!(shortest_len(&slices(&["abc", "a", "ab"])), 1);
}

#[test]
fn byte_keys_are_the_bytes_of_string_keys_and_nothing_of_others() {
    let payload = vec![("ab".to_string(), 1), ("".to_string(), 2), ("é".to_string(), 3)];
    assert_eq!(byte_keys(&payload), vec!["ab".as_bytes(), "".as_bytes(), "é".as_bytes()]);
    let payload = vec![(vec![1u8, 2], 1), (vec![], 2)];
    assert_eq!(byte_keys(&payload), vec![&[1u8, 2][..], &[][..]]);
    let payload = vec![(17u32, 1), (4, 2)];
    assert_eq!(byte_keys(&payload), vec![&[][..], &[][..]] as Vec<&[u8]>);
}

use concurrent_arena::layout::bucket_limit;
use concurrent_arena::layout::bucket_of;
use concurrent_arena::layout::check_const_generics;
use concurrent_arena::layout::checked_slot;
use concurrent_arena::layout::entry_of;
use concurrent_arena::layout::rotated;
use concurrent_arena::layout::slot_at;

#[test]
fn config_of_one_word() {
    let bits = usize::BITS as usize;
    assert_eq!(bits, 64);
    assert!(check_const_generics::<1, 64>());
    assert!(check_const_generics::<2, 128>());
    assert!(check_const_generics::<512, 32768>());
}

#[test]
fn config_is_refused() {
    assert!(!check_const_generics::<1, 100>());
    assert!(!check_const_generics::<0, 0>());
    assert!(!check_const_generics::<1, 0>());
    assert!(!check_const_generics::<2, 64>());
    assert!(!check_const_generics::<1, 128>());
    assert!(!check_const_generics::<67108864, 4294967296>());
}

#[test]
fn bucket_limit_is_a_quotient() {
    assert_eq!(bucket_limit(64), 67108863);
    assert_eq!(bucket_limit(128), 33554431);
    assert_eq!(bucket_limit(1), u32::MAX);
    assert_eq!(bucket_limit(u32::MAX), 1);
}

#[test]
fn slot_is_bucket_times_len_plus_entry() {
    assert_eq!(slot_at(0, 0, 64), 0);
    assert_eq!(slot_at(0, 63, 64), 63);
    assert_eq!(slot_at(1, 0, 64), 64);
    assert_eq!(slot_at(3, 5, 64), 197);
    assert_eq!(slot_at(67108862, 63, 64), 4294967231);
}

#[test]
fn slot_splits_into_bucket_and_entry() {
    assert_eq!(bucket_of(197, 64), 3);
    assert_eq!(entry_of(197, 64), 5);
    assert_eq!(bucket_of(63, 64), 0);
    assert_eq!(entry_of(63, 64), 63);
    assert_eq!(bucket_of(u32::MAX, 64), 67108863);
    assert_eq!(entry_of(u32::MAX, 64), 63);
    for slot in [0u32, 1, 63, 64, 65, 4095, 4096, 1 << 20, u32::MAX - 1, u32::MAX] {
        let bucket = bucket_of(slot, 64);
        let entry = entry_of(slot, 64);
        assert!(entry < 64);
        assert_eq!(checked_slot(bucket, entry, 64), Some(slot));
    }
}

#[test]
fn slot_that_does_not_fit() {
    assert_eq!(checked_slot(67108863, 63, 64), Some(u32::MAX));
    assert_eq!(checked_slot(67108864, 0, 64), None);
    assert_eq!(checked_slot(u32::MAX, 63, 64), None);
    assert_eq!(checked_slot(0, 0, 1), Some(0));
}

#[test]
fn rotation_goes_round_once() {
    assert_eq!(rotated(0, 0, 1), 0);
    assert_eq!(rotated(2, 0, 5), 2);
    assert_eq!(rotated(2, 2, 5), 4);
    assert_eq!(rotated(2, 3, 5), 0);
    assert_eq!(rotated(2, 4, 5), 1);
    assert_eq!(rotated(usize::MAX - 1, usize::MAX - 1, usize::MAX), usize::MAX - 2);
    let mut seen = vec![false; 7];
    for step in 0..7 {
        let pos = rotated(3, step, 7);
        assert!(!seen[pos]);
        seen[pos] = true;
    }
    assert!(seen.iter().all(|hit| *hit));
}

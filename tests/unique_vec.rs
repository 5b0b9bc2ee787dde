use uniquevec::{UniqueVec, UniqueVecEq};

#[test]
fn push_rejects_present_strings() {
    let mut uvec = UniqueVec::new();
    assert_eq!(uvec.push("cellular"), None);
    assert_eq!(uvec.push("_"), None);
    assert_eq!(uvec.push("raza"), None);
    let r = uvec.push("cellular");
    assert_eq!(r, Some("cellular"));
    assert_eq!(uvec[0], "cellular");
    assert_eq!(uvec[1], "_");
    assert_eq!(uvec[2], "raza");
    assert_eq!(uvec.len(), 3);
    let collected: Vec<&str> = uvec.into_iter().collect();
    assert_eq!(collected, vec!["cellular", "_", "raza"]);
}

#[test]
fn push_usize_keeps_first() {
    let mut unique_vec = UniqueVec::new();
    unique_vec.push(1_usize);
    unique_vec.push(2_usize);
    let res = unique_vec.push(1_usize);
    assert!(res.is_some());
    assert_eq!(*unique_vec, vec![1, 2]);
}

#[test]
fn push_rejected_leaves_vector_unchanged() {
    let mut unique_vec = UniqueVec::new();
    assert!(unique_vec.push(1_f64).is_none());
    assert!(unique_vec.push(2_f64).is_none());
    assert_eq!(unique_vec.push(1_f64), Some(1_f64));
    assert_eq!(*unique_vec, vec![1_f64, 2_f64]);
    assert_eq!(unique_vec.push(2_f64), Some(2_f64));
    assert_eq!(unique_vec.len(), 2);
    assert_eq!(*unique_vec, vec![1_f64, 2_f64]);
}

#[test]
fn from_iter_splits_duplicates() {
    let input = vec![1, 33, 2, 0, 33, 4, 56, 2];
    let (unique_vec, rest) = UniqueVec::from_iter(input);
    assert_eq!(*unique_vec, vec![1, 33, 2, 0, 4, 56]);
    assert_eq!(rest, vec![33, 2]);
}

#[test]
fn from_iter_of_empty_input() {
    let (unique_vec, rest) = UniqueVec::<u8>::from_iter(Vec::new());
    assert!(unique_vec.is_empty());
    assert!(rest.is_empty());
}

#[test]
fn from_iter_all_equal() {
    let (unique_vec, rest) = UniqueVec::from_iter(vec![7u32, 7, 7, 7]);
    assert_eq!(*unique_vec, vec![7]);
    assert_eq!(rest, vec![7, 7, 7]);
}

#[test]
fn extend_returns_duplicates_in_order() {
    let mut unique_vec = UniqueVec::from_iter(vec![3, 1, 19]).0;
    let other = unique_vec.extend_from_iter(vec![73, 1843, 19, 3]);
    assert_eq!(other, vec![19, 3]);
    assert_eq!(*unique_vec, vec![3, 1, 19, 73, 1843]);
}

#[test]
fn extend_checks_values_taken_in_same_call() {
    let mut unique_vec = UniqueVec::new();
    let dups = unique_vec.extend_from_iter(vec![5, 6, 5, 6, 7]);
    assert_eq!(*unique_vec, vec![5, 6, 7]);
    assert_eq!(dups, vec![5, 6]);
}

#[test]
fn from_iter_equals_pushes_in_order() {
    let input = vec![4, 9, 4, 1, 9, 9, 2];
    let (built, rest) = UniqueVec::from_iter(input.clone());
    let mut pushed = UniqueVec::new();
    let mut rejected = Vec::new();
    for x in input {
        if let Some(back) = pushed.push(x) {
            rejected.push(back);
        }
    }
    assert_eq!(*built, *pushed);
    assert_eq!(rest, rejected);
    assert_eq!(*built, vec![4, 9, 1, 2]);
    assert_eq!(rest, vec![4, 9, 9]);
}

#[test]
fn from_iter_then_extend_equals_whole_input() {
    let (mut first, mut dups) = UniqueVec::from_iter(vec![2, 8, 2]);
    let more = first.extend_from_iter(vec![8, 3, 2, 3]);
    dups.extend(more);
    let (whole, whole_dups) = UniqueVec::from_iter(vec![2, 8, 2, 8, 3, 2, 3]);
    assert_eq!(*first, *whole);
    assert_eq!(dups, whole_dups);
    assert_eq!(*whole, vec![2, 8, 3]);
    assert_eq!(whole_dups, vec![2, 8, 2, 3]);
}

#[test]
fn accepted_follow_first_occurrence_order() {
    let (unique_vec, _) = UniqueVec::from_iter(vec!['c', 'a', 'c', 'b', 'a', 'd']);
    assert_eq!(*unique_vec, vec!['c', 'a', 'b', 'd']);
}

#[test]
fn round_trip_through_plain_vector() {
    let (unique_vec, _) = UniqueVec::from_iter(vec![10, 20, 10, 30]);
    let plain: Vec<i32> = unique_vec.clone().into_iter().collect();
    assert_eq!(plain, vec![10, 20, 30]);
    let (again, rest) = UniqueVec::from_iter(plain);
    assert_eq!(*again, *unique_vec);
    assert!(rest.is_empty());
}

#[test]
fn nan_is_never_a_duplicate() {
    let mut unique_vec = UniqueVec::new();
    assert!(unique_vec.push(1f64).is_none());
    assert!(unique_vec.push(f64::NAN).is_none());
    assert!(unique_vec.push(f64::NAN).is_none());
    assert_eq!(unique_vec[0], 1f64);
    assert!(unique_vec[1].is_nan());
    assert!(unique_vec[2].is_nan());
    assert_eq!(unique_vec.len(), 3);
}

#[test]
fn pop_on_empty_and_non_empty() {
    let mut empty: UniqueVec<i32> = UniqueVec::new();
    assert_eq!(empty.pop(), None);
    assert!(empty.is_empty());
    let mut two = UniqueVec::from_iter(vec![1, 2]).0;
    assert_eq!(two.pop(), Some(2));
    assert_eq!(*two, vec![1]);
    assert_eq!(two.pop(), Some(1));
    assert_eq!(two.pop(), None);
}

#[test]
fn pop_frees_value_for_push() {
    let mut unique_vec = UniqueVec::from_iter(vec![1, 2]).0;
    assert_eq!(unique_vec.pop(), Some(2));
    assert_eq!(unique_vec.push(2), None);
    assert_eq!(*unique_vec, vec![1, 2]);
}

#[test]
fn clear_empties() {
    let mut unique_vec = UniqueVec::from_iter(vec![1, 2, 3]).0;
    unique_vec.clear();
    assert!(unique_vec.is_empty());
    assert_eq!(unique_vec.push(1), None);
    assert_eq!(*unique_vec, vec![1]);
}

#[test]
fn eq_variant_wraps_and_unwraps() {
    let mut unique_vec: UniqueVecEq<usize> = UniqueVec::new().into();
    assert_eq!(unique_vec.push(1usize), None);
    assert_eq!(unique_vec.push(4usize), None);
    assert_eq!(unique_vec.push(1usize), Some(1));
    assert_eq!(unique_vec.len(), 2);
    assert_eq!(unique_vec[1], 4);
    let back: UniqueVec<usize> = unique_vec.into();
    assert_eq!(*back, vec![1, 4]);
}

#[test]
fn from_vec_drops_later_copies() {
    let unique_vec: UniqueVec<i32> = UniqueVec::from(vec![1, 33, 2, 0, 33, 4, 56, 2]);
    assert_eq!(*unique_vec, vec![1, 33, 2, 0, 4, 56]);
}

#[test]
fn eq_variant_from_vec() {
    let unique_vec: UniqueVecEq<u8> = vec![3u8, 3, 1, 3].into();
    assert_eq!(**unique_vec, vec![3, 1]);
}

#[test]
fn eq_variant_mutable_deref_acts_on_wrapped() {
    let mut unique_vec: UniqueVecEq<i64> = UniqueVec::from_iter(vec![9i64, 8]).0.into();
    let dups = unique_vec.extend_from_iter(vec![8, 7]);
    assert_eq!(dups, vec![8]);
    assert_eq!(unique_vec.pop(), Some(7));
    unique_vec.clear();
    assert!(unique_vec.is_empty());
}

#[test]
fn into_iter_yields_stored_order() {
    let (unique_vec, _) = UniqueVec::from_iter(vec![5u16, 2, 5, 9]);
    let mut it = unique_vec.into_iter();
    assert_eq!(it.next(), Some(5));
    assert_eq!(it.next(), Some(2));
    assert_eq!(it.next(), Some(9));
    assert_eq!(it.next(), None);
}

use rolling_stats::fixed_array::{FixeArrayError, FixedArray};

#[test]
fn new_array_is_empty() {
    let a = FixedArray::<i32, 4>::new();
    assert!(a.is_empty());
    assert_eq!(a.len(), 0);
    assert_eq!(a.iter(), &[] as &[i32]);
}

#[test]
fn push_appends_until_full() {
    let mut a = FixedArray::<i32, 2>::new();
    a.push(10);
    a.push(20);
    // The third push finds the array full and is dropped.
    a.push(30);
    assert_eq!(a.len(), 2);
    assert_eq!(a.iter(), &[10, 20]);
}

#[test]
fn get_returns_held_ranges_only() {
    let mut a = FixedArray::<i32, 4>::new();
    a.push(1);
    a.push(2);
    a.push(3);
    assert_eq!(a.get(0..2).unwrap(), &[1, 2]);
    assert_eq!(a.get(1..3).unwrap(), &[2, 3]);
    assert_eq!(a.get(2..2).unwrap(), &[] as &[i32]);
    // Reversed and out-of-range requests are refused.
    assert!(a.get(2..1).is_none());
    assert!(a.get(0..4).is_none());
}

#[test]
fn clear_resets_length_and_reads() {
    let mut a = FixedArray::<i32, 4>::new();
    a.push(7);
    a.push(8);
    assert_eq!(a.get(0..1).unwrap(), &[7]);
    a.clear();
    assert_eq!(a.len(), 0);
    assert!(a.is_empty());
    assert!(a.get(0..1).is_none());
}

#[test]
fn extend_by_empty_slice_fails() {
    let mut a = FixedArray::<i32, 4>::new();
    a.push(1);
    assert_eq!(a.extend_by_slice(&[]), Err(FixeArrayError::ElementNotFound));
    assert_eq!(a.iter(), &[1]);
}

#[test]
fn extend_past_capacity_fails() {
    let mut a = FixedArray::<i32, 4>::new();
    assert_eq!(a.extend_by_slice(&[1, 2, 3, 4, 5]), Err(FixeArrayError::OutOfTheBounds));
    assert!(a.is_empty());
}

#[test]
fn extend_past_free_space_fails() {
    let mut a = FixedArray::<i32, 4>::new();
    a.push(1);
    a.push(2);
    a.push(3);
    assert_eq!(a.extend_by_slice(&[4, 5]), Err(FixeArrayError::FullCapacity));
    assert_eq!(a.iter(), &[1, 2, 3]);
}

#[test]
fn extend_within_free_space_appends_all() {
    let mut a = FixedArray::<i32, 4>::new();
    a.push(1);
    assert_eq!(a.extend_by_slice(&[2, 3]), Ok(()));
    assert_eq!(a.len(), 3);
    assert_eq!(a.iter(), &[1, 2, 3]);
    assert_eq!(a.extend_by_slice(&[4]), Ok(()));
    assert_eq!(a.len(), 4);
}

#[test]
fn extend_by_array_mirrors_extend_by_slice() {
    let mut src = FixedArray::<i32, 4>::new();
    src.push(5);
    src.push(6);
    let mut dst = FixedArray::<i32, 4>::new();
    dst.push(4);
    assert_eq!(dst.extend_by_array(&src), Ok(()));
    assert_eq!(dst.iter(), &[4, 5, 6]);

    let empty = FixedArray::<i32, 4>::new();
    assert_eq!(dst.extend_by_array(&empty), Err(FixeArrayError::ElementNotFound));

    let mut full = FixedArray::<i32, 4>::new();
    assert_eq!(full.extend_by_array(&dst), Ok(()));
    assert_eq!(full.extend_by_array(&dst), Err(FixeArrayError::FullCapacity));
}

#[test]
fn bytes_array_works_at_small_capacity() {
    let mut a = FixedArray::<u8, 4>::new();
    assert_eq!(a.extend_by_slice(&[9]), Ok(()));
    assert_eq!(a.extend_by_slice(&[1, 2, 3]), Ok(()));
    assert_eq!(a.iter(), &[9, 1, 2, 3]);
    assert_eq!(a.extend_by_slice(&[4]), Err(FixeArrayError::FullCapacity));
}

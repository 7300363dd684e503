use deet::warmup::{add_n, add_n_inplace, dedup};

#[test]
fn test_add_n() {
    assert_eq!(add_n(vec![1], 2), vec![3]);
}

#[test]
fn test_add_n_inplace() {
    let mut v = vec![1];
    add_n_inplace(&mut v, 2);
    assert_eq!(v, vec![3]);
}

#[test]
fn test_dedup() {
    let mut v = vec![3, 1, 0, 1, 4, 4];
    dedup(&mut v);
    assert_eq!(v, vec![3, 1, 0, 4]);
}

#[test]
fn add_n_of_nothing_is_nothing() {
    assert_eq!(add_n(vec![], 7), Vec::<i32>::new());
}

#[test]
fn add_n_reaches_the_ends_of_the_range() {
    assert_eq!(add_n(vec![i32::MAX - 1, i32::MIN, 0], 1), vec![i32::MAX, i32::MIN + 1, 1]);
    assert_eq!(add_n(vec![i32::MIN + 5, -1], -5), vec![i32::MIN, -6]);
}

#[test]
fn add_n_inplace_changes_every_element() {
    let mut v = vec![10, -20, 30, 0];
    add_n_inplace(&mut v, -10);
    assert_eq!(v, vec![0, -30, 20, -10]);
}

#[test]
fn dedup_keeps_a_vector_without_repetitions() {
    let mut v = vec![5, 4, 3, 2, 1];
    dedup(&mut v);
    assert_eq!(v, vec![5, 4, 3, 2, 1]);
}

#[test]
fn dedup_keeps_first_occurrences_in_order() {
    let mut v = vec![2, 2, 2, 1, 2, 1, 3, 1];
    dedup(&mut v);
    assert_eq!(v, vec![2, 1, 3]);
    let mut empty: Vec<i32> = vec![];
    dedup(&mut empty);
    assert!(empty.is_empty());
}

#[test]
fn dedup_twice_is_dedup_once() {
    let mut v = vec![7, 8, 7, 9, 8, 7];
    dedup(&mut v);
    let once = v.clone();
    dedup(&mut v);
    assert_eq!(v, once);
}

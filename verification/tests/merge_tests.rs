use distributed_sort::merge::merge;

#[test]
fn merge_interleaves_and_keeps_duplicates() {
    assert_eq!(merge(&vec![1, 3, 5], &vec![2, 2, 6]), vec![1, 2, 2, 3, 5, 6]);
}

#[test]
fn merge_with_empty_side_returns_other_side() {
    assert_eq!(merge(&vec![], &vec![1, 2, 3]), vec![1, 2, 3]);
    assert_eq!(merge(&vec![1, 2, 3], &vec![]), vec![1, 2, 3]);
    assert_eq!(merge(&vec![], &vec![]), Vec::<i64>::new());
}

#[test]
fn merge_appends_remainder_unchanged() {
    assert_eq!(merge(&vec![1, 2], &vec![3, 4, 5, 6]), vec![1, 2, 3, 4, 5, 6]);
    assert_eq!(merge(&vec![7, 8, 9], &vec![1]), vec![1, 7, 8, 9]);
}

#[test]
fn merge_length_is_sum_of_lengths() {
    let a = vec![-5, -5, 0, 7, 7, 7];
    let b = vec![-9, 0, 0, 8];
    let m = merge(&a, &b);
    assert_eq!(m.len(), a.len() + b.len());
    assert_eq!(m, vec![-9, -5, -5, 0, 0, 0, 7, 7, 7, 8]);
}

#[test]
fn merge_handles_extreme_values() {
    assert_eq!(
        merge(&vec![i64::MIN, 0, i64::MAX], &vec![i64::MIN, i64::MAX]),
        vec![i64::MIN, i64::MIN, 0, i64::MAX, i64::MAX]
    );
}

#[test]
fn merge_on_tie_takes_left_side_first() {
    // With unsorted inputs the side preferred on a tie shows in the result.
    assert_eq!(merge(&vec![5, 1], &vec![5, 0]), vec![5, 1, 5, 0]);
}

#[test]
fn merge_is_commutative_on_ascending_inputs() {
    let a = vec![1, 4, 4, 9];
    let b = vec![2, 4, 10];
    assert_eq!(merge(&a, &b), merge(&b, &a));
}

#[test]
fn merge_is_associative_on_ascending_inputs() {
    let a = vec![1, 5];
    let b = vec![2, 2];
    let c = vec![0, 9];
    assert_eq!(merge(&merge(&a, &b), &c), merge(&a, &merge(&b, &c)));
}

#[test]
fn merge_in_any_arrival_order_gives_same_result() {
    let chunks = [vec![4, 5, 6], vec![1, 2, 3], vec![2, 5, 8]];
    let orders = [[0, 1, 2], [0, 2, 1], [1, 0, 2], [1, 2, 0], [2, 0, 1], [2, 1, 0]];
    for order in orders.iter() {
        let mut acc: Vec<i64> = Vec::new();
        for &i in order.iter() {
            acc = merge(&acc, &chunks[i]);
        }
        assert_eq!(acc, vec![1, 2, 2, 3, 4, 5, 5, 6, 8]);
    }
}

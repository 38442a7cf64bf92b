use disk_cleanup_tool::aggregate::accumulate;

#[test]
fn subtree_totals_of_a_small_forest() {
    // 0 is the root of 1 and 2; 3 is a child of 1; 4 stands alone
    let parents = vec![None, Some(0), Some(0), Some(1), None];
    let depths = vec![1, 2, 2, 3, 1];
    let weights = vec![1, 10, 100, 1000, 7];
    assert_eq!(accumulate(&parents, &depths, &weights), vec![1111, 1010, 100, 1000, 7]);
}

#[test]
fn subtree_totals_do_not_depend_on_the_order_of_the_nodes() {
    // the same forest with the deepest node first and the root last
    let parents = vec![Some(2), None, Some(4), Some(4), None];
    let depths = vec![3, 1, 2, 2, 1];
    let weights = vec![1000, 7, 10, 100, 1];
    assert_eq!(accumulate(&parents, &depths, &weights), vec![1000, 7, 1010, 100, 1111]);
}

#[test]
fn subtree_totals_of_nothing_and_of_zeros() {
    assert_eq!(accumulate(&vec![], &vec![], &vec![]), Vec::<u64>::new());
    assert_eq!(accumulate(&vec![None, Some(0)], &vec![0, 1], &vec![0, 0]), vec![0, 0]);
    assert_eq!(accumulate(&vec![None], &vec![5], &vec![u64::MAX]), vec![u64::MAX]);
}

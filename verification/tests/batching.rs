use asteria::batching::BatchPlanner;

#[test]
fn batch_planner_empty_list_has_no_batches() {
    let batches = BatchPlanner::plan(&[]);
    assert!(batches.is_empty());
}

#[test]
fn batch_planner_splits_where_the_kind_changes() {
    let batches = BatchPlanner::plan(&[false, false, true, true, false]);
    assert_eq!(batches, vec![vec![0, 1], vec![2, 3], vec![4]]);
}

#[test]
fn batch_planner_one_kind_is_one_batch() {
    let batches = BatchPlanner::plan(&[true, true, true]);
    assert_eq!(batches, vec![vec![0, 1, 2]]);
}

#[test]
fn batch_planner_alternating_kinds() {
    let batches = BatchPlanner::plan(&[true, false, true]);
    assert_eq!(batches, vec![vec![0], vec![1], vec![2]]);
}

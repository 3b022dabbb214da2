use traclus::models::merge_indexs::MergeIndexs;

fn entries(table: &MergeIndexs) -> Vec<(usize, usize)> {
    (0..table.len()).map(|at| (table.get_index(at), table.get_slot(at))).collect()
}

#[test]
fn a_new_table_is_empty() {
    let table = MergeIndexs::new();
    assert_eq!(table.len(), 0);
    assert_eq!(table.get_slot_count(), 0);
    assert_eq!(table.map_indexs(), Vec::<Vec<usize>>::new());
}

#[test]
fn push_opens_a_slot_each_time() {
    let mut table = MergeIndexs::new();
    table.push(4);
    table.push(9);
    assert_eq!(entries(&table), vec![(4, 0), (9, 1)]);
    assert_eq!(table.get_slot_count(), 2);
    assert_eq!(table.map_indexs(), vec![vec![4], vec![9]]);
}

#[test]
fn set_to_min_moves_the_named_cores_to_their_lowest_slot() {
    let mut table = MergeIndexs::new();
    table.push(1);
    table.push(2);
    table.push(3);
    table.set_to_min(&vec![3, 2], 7);
    assert_eq!(entries(&table), vec![(1, 0), (2, 1), (3, 1), (7, 1)]);
    assert_eq!(table.get_slot_count(), 3);
    assert_eq!(table.map_indexs(), vec![vec![1], vec![2, 3, 7], vec![]]);
}

#[test]
fn set_to_min_leaves_the_other_cores_of_a_slot() {
    let mut table = MergeIndexs::new();
    table.push(0);
    table.set_to_min(&vec![0], 1);
    table.push(2);
    table.set_to_min(&vec![2], 3);
    table.set_to_min(&vec![1, 3], 4);
    assert_eq!(entries(&table), vec![(0, 0), (1, 0), (2, 1), (3, 0), (4, 0)]);
}

#[test]
fn set_to_min_without_a_recorded_core_opens_a_slot() {
    let mut table = MergeIndexs::new();
    table.push(5);
    table.set_to_min(&vec![8, 9], 6);
    assert_eq!(entries(&table), vec![(5, 0), (6, 1)]);
    assert_eq!(table.get_slot_count(), 2);
    table.set_to_min(&vec![], 7);
    assert_eq!(entries(&table), vec![(5, 0), (6, 1), (7, 2)]);
}

#[test]
fn correct_indexs_closes_the_empty_slots() {
    let mut table = MergeIndexs::new();
    table.push(0);
    table.push(1);
    table.push(2);
    table.push(3);
    table.set_to_min(&vec![1, 0], 4);
    table.set_to_min(&vec![3], 5);
    assert_eq!(entries(&table), vec![(0, 0), (1, 0), (2, 2), (3, 3), (4, 0), (5, 3)]);
    assert_eq!(table.get_slot_count(), 4);
    table.correct_indexs();
    assert_eq!(entries(&table), vec![(0, 0), (1, 0), (2, 1), (3, 2), (4, 0), (5, 2)]);
    assert_eq!(table.get_slot_count(), 3);
    assert_eq!(table.map_indexs(), vec![vec![0, 1, 4], vec![2], vec![3, 5]]);
}

#[test]
fn correct_indexs_changes_nothing_without_a_gap() {
    let mut table = MergeIndexs::new();
    table.push(3);
    table.push(4);
    table.correct_indexs();
    assert_eq!(entries(&table), vec![(3, 0), (4, 1)]);
    assert_eq!(table.get_slot_count(), 2);
}

#[test]
fn after_correct_indexs_no_slot_is_empty() {
    let mut table = MergeIndexs::new();
    for core in 0..6 {
        table.push(core);
    }
    table.set_to_min(&vec![5, 1], 6);
    table.set_to_min(&vec![4, 2], 7);
    table.correct_indexs();
    let groups = table.map_indexs();
    assert_eq!(groups.len(), table.get_slot_count());
    for group in &groups {
        assert!(!group.is_empty());
    }
    assert_eq!(groups, vec![vec![0], vec![1, 5, 6], vec![2, 4, 7], vec![3]]);
}

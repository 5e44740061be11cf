use pandora_core::fenwick::FenwickTree;

#[test]
fn test_from_iter() {
    let f = FenwickTree::from_iter(&[1, 6, 3, 9, 2]);
    assert_eq!(f.inner(), &[1, 7, 3, 19, 2]);
}

#[test]
fn test_push_and_add() {
    let mut f = FenwickTree::from_iter(&[1, 6, 3]);
    f.push(9);
    // Cumulative sizes are [1, 7, 10, 19]; remainder is offset within the item.
    assert_eq!(f.index_of_with_remainder(10), (2, 3));
    f.add_at(0, 1);
    assert_eq!(f.inner()[0], 2);
}

#[test]
fn new_tree_is_empty() {
    let f = FenwickTree::new();
    assert!(f.is_empty());
    assert_eq!(f.len(), 0);
    assert_eq!(f.index_of_with_remainder(5), (0, 5));
}

#[test]
fn push_builds_the_same_tree_as_from_iter() {
    let mut f = FenwickTree::new();
    for v in [1, 6, 3, 9, 2] {
        f.push(v);
    }
    assert_eq!(f, FenwickTree::from_iter(&[1, 6, 3, 9, 2]));
    assert_eq!(f.len(), 5);
    assert!(!f.is_empty());
}

#[test]
fn sub_at_undoes_add_at() {
    let mut f = FenwickTree::from_iter(&[4, 5, 6, 7]);
    let before = f.clone();
    f.add_at(2, 10);
    assert_eq!(f.inner(), &[4, 9, 16, 32]);
    f.sub_at(2, 10);
    assert_eq!(f, before);
}

#[test]
fn add_past_the_end_changes_nothing() {
    let mut f = FenwickTree::from_iter(&[1, 2]);
    f.add_at(7, 3);
    f.sub_at(7, 3);
    assert_eq!(f.inner(), &[1, 3]);
}

#[test]
fn index_of_with_remainder_finds_the_item_holding_an_offset() {
    // Cumulative sizes [1, 7, 10, 19].
    let f = FenwickTree::from_iter(&[1, 6, 3, 9]);
    assert_eq!(f.index_of_with_remainder(0), (0, 0));
    assert_eq!(f.index_of_with_remainder(1), (0, 1));
    assert_eq!(f.index_of_with_remainder(2), (1, 1));
    assert_eq!(f.index_of_with_remainder(7), (1, 6));
    assert_eq!(f.index_of_with_remainder(8), (2, 1));
    assert_eq!(f.index_of_with_remainder(19), (3, 9));
    assert_eq!(f.index_of_with_remainder(25), (4, 6));
}

#[test]
fn zero_sized_items_are_skipped() {
    let f = FenwickTree::from_iter(&[0, 0, 5, 0, 2]);
    assert_eq!(f.index_of_with_remainder(1), (2, 1));
    assert_eq!(f.index_of_with_remainder(6), (4, 1));
}

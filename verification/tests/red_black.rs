use pfds::set::red_black::RedBlackTree;

#[test]
fn test_from_ordered_list() {
    let actual = RedBlackTree::from_ordered_list(vec![1, 2, 3, 4, 5, 6, 7]);

    assert!(RedBlackTree::is_red_has_black(&actual));
    assert!(RedBlackTree::has_same_blacks(&actual));
}

#[test]
fn red_black_test_insert() {
    let actual = RedBlackTree::empty().insert(1).insert(2).insert(3);

    assert!(RedBlackTree::is_red_has_black(&actual));
    assert!(RedBlackTree::has_same_blacks(&actual));
}

#[test]
fn red_black_test_member() {
    let actual = RedBlackTree::empty().insert(1).insert(3).insert(5);
    assert!(actual.member(&1));
    assert!(!actual.member(&2));
}

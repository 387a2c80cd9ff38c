use pfds::btree::UnBlancedTree;

#[test]
fn btree_test_empty() {
    let actual = UnBlancedTree::empty();
    assert!(actual == UnBlancedTree::Empty);
}

#[test]
fn btree_test_member() {
    let actual = UnBlancedTree::Node(
        Box::new(UnBlancedTree::Node(
            Box::new(UnBlancedTree::Node(
                Box::new(UnBlancedTree::Empty),
                3,
                Box::new(UnBlancedTree::Empty),
            )),
            5,
            Box::new(UnBlancedTree::Empty),
        )),
        10,
        Box::new(UnBlancedTree::Node(
            Box::new(UnBlancedTree::Empty),
            15,
            Box::new(UnBlancedTree::Node(
                Box::new(UnBlancedTree::Empty),
                20,
                Box::new(UnBlancedTree::Empty),
            )),
        )),
    );

    assert!(!actual.member(&1));
    assert!(!actual.member(&17));
    assert!(actual.member(&3));
    assert!(actual.member(&5));
    assert!(actual.member(&15));
    assert!(actual.member(&20));
}

#[test]
fn btree_test_insert() {
    let actual = UnBlancedTree::empty().insert(10).insert(5).insert(3).insert(15).insert(20);
    let expect = UnBlancedTree::Node(
        Box::new(UnBlancedTree::Node(
            Box::new(UnBlancedTree::Node(
                Box::new(UnBlancedTree::Empty),
                3,
                Box::new(UnBlancedTree::Empty),
            )),
            5,
            Box::new(UnBlancedTree::Empty),
        )),
        10,
        Box::new(UnBlancedTree::Node(
            Box::new(UnBlancedTree::Empty),
            15,
            Box::new(UnBlancedTree::Node(
                Box::new(UnBlancedTree::Empty),
                20,
                Box::new(UnBlancedTree::Empty),
            )),
        )),
    );

    assert!(actual == expect);
}

#[test]
fn btree_test_insert_ref_equality() {
    let actual = UnBlancedTree::empty().insert(10);
    assert!(&actual == &actual.insert(10));
    assert!(&actual != &actual.insert(11));
}

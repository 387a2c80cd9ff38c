use pfds::set::tree::UnBalancedTree;
use pfds::set::tree::UnBalancedTree::{Empty, Node};

#[test]
fn tree_test_empty() {
    let actual = UnBalancedTree::empty();
    assert!(actual == Empty);
}

#[test]
fn tree_test_member() {
    let actual = Node(
        Box::new(Node(Box::new(Node(Box::new(Empty), 3, Box::new(Empty))), 5, Box::new(Empty))),
        10,
        Box::new(Node(Box::new(Empty), 15, Box::new(Node(Box::new(Empty), 20, Box::new(Empty))))),
    );

    assert!(!actual.member(&1));
    assert!(!actual.member(&17));
    assert!(actual.member(&3));
    assert!(actual.member(&5));
    assert!(actual.member(&15));
    assert!(actual.member(&20));
}

#[test]
fn tree_test_insert() {
    let actual = UnBalancedTree::empty().insert(10).insert(5).insert(3).insert(15).insert(20);
    let expect = Node(
        Box::new(Node(Box::new(Node(Box::new(Empty), 3, Box::new(Empty))), 5, Box::new(Empty))),
        10,
        Box::new(Node(Box::new(Empty), 15, Box::new(Node(Box::new(Empty), 20, Box::new(Empty))))),
    );

    assert!(actual == expect);
}

#[test]
fn tree_test_insert_ref_equality() {
    let actual = UnBalancedTree::empty().insert(10);
    assert!(&actual == &actual.insert(10));
    assert!(&actual != &actual.insert(11));
}

#[test]
fn test_complete() {
    let actual = UnBalancedTree::complete(10, 3);
    let expect = Node(
        Box::new(Node(
            Box::new(Node(Box::new(Empty), 10, Box::new(Empty))),
            10,
            Box::new(Node(Box::new(Empty), 10, Box::new(Empty))),
        )),
        10,
        Box::new(Node(
            Box::new(Node(Box::new(Empty), 10, Box::new(Empty))),
            10,
            Box::new(Node(Box::new(Empty), 10, Box::new(Empty))),
        )),
    );
    assert!(actual == expect);
}

#[test]
fn test_create() {
    let actual = UnBalancedTree::create(10, 3);
    let expect = Node(
        Box::new(Node(
            Box::new(Node(Box::new(Empty), 7, Box::new(Empty))),
            8,
            Box::new(Node(Box::new(Empty), 9, Box::new(Empty))),
        )),
        10,
        Box::new(Node(
            Box::new(Node(Box::new(Empty), 11, Box::new(Empty))),
            12,
            Box::new(Node(Box::new(Empty), 13, Box::new(Empty))),
        )),
    );
    assert!(actual == expect);
}

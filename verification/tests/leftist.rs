use pfds::heap::leftist::LeftistHeap;
use pfds::heap::Heap;

fn create_node(x: i32) -> LeftistHeap {
    LeftistHeap::Node(1, x, Box::new(LeftistHeap::Leaf), Box::new(LeftistHeap::Leaf))
}

#[test]
fn test_weight_biased_leftist() {
    let actual = LeftistHeap::Leaf
        .insert_with_wb(5)
        .insert_with_wb(6)
        .insert_with_wb(4)
        .insert_with_wb(1)
        .insert_with_wb(3)
        .insert_with_wb(3)
        .insert_with_wb(2);

    assert!(LeftistHeap::is_ordered(&actual, &actual.find_min().unwrap()));
    assert!(LeftistHeap::is_leftist(&actual));
}

#[test]
fn leftist_test_find_min() {
    let actual = create_node(3).insert(2).insert(1);
    assert!(actual.find_min() == Some(1));
}

#[test]
fn leftist_test_delete_min() {
    let actual = LeftistHeap::from_list(vec![1, 3, 2, 4, 10, 2, 4]);
    assert!(LeftistHeap::is_ordered(&actual, &actual.find_min().unwrap()));
    assert!(LeftistHeap::is_leftist(&actual));
}

#[test]
fn test_from_list() {
    let actual = LeftistHeap::from_list(vec![1, 3, 2, 4]);
    assert!(LeftistHeap::is_ordered(&actual, &actual.find_min().unwrap()));
    assert!(LeftistHeap::is_leftist(&actual));
}

#[test]
fn leftist_test_insert() {
    let actual = create_node(10).insert(20).insert(30).insert(40);
    assert!(LeftistHeap::is_ordered(&actual, &actual.find_min().unwrap()));
    assert!(LeftistHeap::is_leftist(&actual));
}

#[test]
fn test_insert_large() {
    let actual = create_node(40).insert(30).insert(20).insert(10);
    assert!(LeftistHeap::is_ordered(&actual, &actual.find_min().unwrap()));
    assert!(LeftistHeap::is_leftist(&actual));
}

#[test]
fn leftist_test_merge() {
    let actual = create_node(10).merge(&create_node(20));
    assert!(LeftistHeap::is_ordered(&actual, &actual.find_min().unwrap()));
    assert!(LeftistHeap::is_leftist(&actual));
}

#[test]
fn leftist_test_merge_nest() {
    let actual = create_node(10).merge(&create_node(20)).merge(&create_node(30));
    assert!(LeftistHeap::is_ordered(&actual, &actual.find_min().unwrap()));
    assert!(LeftistHeap::is_leftist(&actual));
}

#[test]
fn leftist_test_make_tree() {
    let actual = create_node(10).make_tree(&create_node(20), 5);
    assert!(LeftistHeap::is_ordered(&actual, &actual.find_min().unwrap()));
    assert!(LeftistHeap::is_leftist(&actual));
}

use pfds::heap::splay::SplayHeap;
use pfds::heap::Heap;

#[test]
fn splay_test_merge() {
    let actual_1 = SplayHeap::from_vec(vec![3, 2, 5]);
    let actual_2 = SplayHeap::from_vec(vec![1, 6, 4]);
    let actual = actual_1.merge(&actual_2);
    assert!(actual.len() == 6);
    assert!(SplayHeap::is_left_node_small(&actual));
    assert!(SplayHeap::is_right_node_big(&actual));
}

#[test]
fn splay_test_delete_min() {
    let actual = SplayHeap::from_vec(vec![3, 2, 5, 1, 6, 4]).delete_min();
    assert!(actual.len() == 5);
    assert!(actual.find_min() == Some(2));
    assert!(SplayHeap::is_left_node_small(&actual));
    assert!(SplayHeap::is_right_node_big(&actual));
}

#[test]
fn splay_test_find_min() {
    let actual = SplayHeap::from_vec(vec![3, 2, 5, 1, 6, 4]).find_min();
    assert!(actual == Some(1));
}

#[test]
fn splay_test_insert() {
    let actual = SplayHeap::from_vec(vec![3, 2, 5, 1, 6, 4]);
    assert!(actual.len() == 6);
    assert!(SplayHeap::is_left_node_small(&actual));
    assert!(SplayHeap::is_right_node_big(&actual));
}

use pfds::heap::binominal::{BinominalHeap, BinominalTree};
use pfds::heap::Heap;

#[test]
fn binominal_test_delete_min() {
    let actual = BinominalHeap::from_element(5)
        .insert(2)
        .insert(1)
        .insert(4)
        .insert(7)
        .delete_min();

    assert!(BinominalHeap::is_ordered_heap(&actual, &0));
    assert!(BinominalHeap::is_correspond_to_binary_representation(&actual));
    assert!(BinominalHeap::size_from_elements(&actual) == 4);
}

#[test]
fn binominal_test_find_min() {
    let actual = BinominalHeap::from_element(5)
        .insert(2)
        .insert(4)
        .insert(4)
        .insert(1)
        .insert(3)
        .find_min();

    assert!(actual == Some(1));
}

#[test]
fn binominal_test_merge() {
    let actual_1 = BinominalHeap::from_element(1).insert(2).insert(3).insert(4).insert(5);
    let actual_2 = BinominalHeap::from_element(5).insert(4).insert(3).insert(2).insert(1);
    let actual = actual_1.merge(&actual_2);

    assert!(BinominalHeap::is_ordered_heap(&actual, &0));
    assert!(BinominalHeap::is_correspond_to_binary_representation(&actual));
}

#[test]
fn binominal_test_insert() {
    let actual = BinominalHeap::from_element(1)
        .insert(4)
        .insert(2)
        .insert(6)
        .insert(7)
        .insert(3)
        .insert(5);

    assert!(BinominalHeap::is_ordered_heap(&actual, &0));
    assert!(BinominalHeap::is_correspond_to_binary_representation(&actual));
    assert!(BinominalHeap::size_from_elements(&actual) == BinominalHeap::size_from_rank(&actual));
}

#[test]
fn test_link() {
    let actual_1 = BinominalTree::new(1).link(&BinominalTree::new(2));
    let actual_2 = BinominalTree::new(3).link(&BinominalTree::new(4));
    let actual = actual_1.link(&actual_2);

    assert!(BinominalTree::is_ordered_tree(&actual, &0));
    assert!(BinominalTree::size_from_element(&actual) == 4);
}

use pfds::heap::LeftistHeap;

fn create_node(x: i32) -> LeftistHeap {
    LeftistHeap::Element(1, x, Box::new(LeftistHeap::empty()), Box::new(LeftistHeap::empty()))
}

#[test]
fn heap_test_merge() {
    let actual = create_node(10).merge(&create_node(20));
    let expect = LeftistHeap::Element(1, 10, Box::new(create_node(20)), Box::new(LeftistHeap::Nil));
    assert!(actual == expect);
}

#[test]
fn heap_test_merge_nest() {
    let actual = create_node(10).merge(&create_node(20)).merge(&create_node(30));
    let expect = LeftistHeap::Element(2, 10, Box::new(create_node(20)), Box::new(create_node(30)));
    assert!(actual == expect);
}

#[test]
fn heap_test_make_tree() {
    let actual = create_node(10).make_tree(&create_node(20), 5);
    assert!(actual == LeftistHeap::Element(2, 5, Box::new(create_node(10)), Box::new(create_node(20))));
}

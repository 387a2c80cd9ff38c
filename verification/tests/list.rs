use pfds::list::{List, Stack};

#[test]
fn list_test_reverse() {
    let actual: Stack<i32> = List::empty();
    let actual = actual.cons(1).cons(2).cons(3).reverse();
    let expect = Stack::Node(1, Box::new(Stack::Node(2, Box::new(Stack::Node(3, Box::new(Stack::Nil))))));
    assert!(actual.head() == expect.head());
}

#[test]
fn list_test_map() {
    let actual: Stack<i32> = List::empty();
    let actual = actual.cons(1).cons(2).cons(3).map(&|x: &i32| *x + 1);
    let expect = Stack::Node(4, Box::new(Stack::Node(3, Box::new(Stack::Node(2, Box::new(Stack::Nil))))));
    assert!(actual == expect);
}

#[test]
fn list_test_foldl() {
    let actual: Stack<i32> = List::empty();
    let actual = actual.cons(1).cons(2).cons(3).foldl(0, &|acc: i32, x: &i32| acc + *x);
    assert!(actual == 6);
}

#[test]
fn list_test_all() {
    let actual: Stack<i32> = List::empty();
    let actual = actual.cons(2).cons(4).cons(6).all(&|x: &i32| *x % 2 == 0);
    assert!(actual);
}

#[test]
fn list_test_is_empty() {
    let list: Stack<i32> = List::empty();
    assert!(list.is_empty());
}

#[test]
fn list_test_cons() {
    let actual: Stack<i32> = List::empty();
    let actual = actual.cons(1).cons(2).cons(3);
    let expect = Stack::Node(3, Box::new(Stack::Node(2, Box::new(Stack::Node(1, Box::new(Stack::Nil))))));
    assert!(actual == expect);
}

#[test]
fn list_test_head() {
    let list: Stack<i32> = List::empty();
    let list = list.cons(1);
    assert!(list.head() == 1);
}

#[test]
#[should_panic]
fn list_test_empty_head() {
    let list: Stack<i32> = List::empty();
    list.head();
}

#[test]
fn list_test_tail() {
    let actual: Stack<i32> = List::empty();
    let actual = actual.cons(1).cons(2).cons(3);
    let expect = Stack::Node(2, Box::new(Stack::Node(1, Box::new(Stack::Nil))));
    assert!(actual.tail() == expect);
}

#[test]
fn list_test_concat() {
    let left: Stack<i32> = List::empty();
    let right: Stack<i32> = List::empty();
    let actual = left.cons(2).cons(1).concat(right.cons(4).cons(3));
    let expect = Stack::Node(
        1,
        Box::new(Stack::Node(2, Box::new(Stack::Node(3, Box::new(Stack::Node(4, Box::new(Stack::Nil))))))),
    );
    assert!(actual == expect);
}

#[test]
fn list_test_update() {
    let actual: Stack<i32> = List::empty();
    let actual = actual.cons(1).cons(2).cons(3).update(1, 9);
    let expect = Stack::Node(3, Box::new(Stack::Node(9, Box::new(Stack::Node(1, Box::new(Stack::Nil))))));
    assert!(actual == expect);
}

#[test]
fn list_test_suffixes() {
    let base: Stack<i32> = List::empty();
    let actual = base.cons(1).cons(2).cons(3).suffixes();
    let empty_i: Stack<i32> = List::empty();
    let empty_s: Stack<Stack<i32>> = List::empty();
    let expect = empty_s
        .cons(empty_i.cons(1))
        .cons(empty_i.cons(1).cons(2))
        .cons(empty_i.cons(1).cons(2).cons(3));
    assert!(actual == expect);
}

use pfds::list::stack::Stack;
use pfds::list::List;

#[test]
fn stack_test_reverse() {
    let base: Stack<i32> = List::empty();
    let actual = base.cons(1).cons(2).cons(3).reverse();
    let expect = Stack::Cell(1, Box::new(Stack::Cell(2, Box::new(Stack::Cell(3, Box::new(Stack::Nil))))));
    assert!(actual.head() == expect.head());
}

#[test]
fn stack_test_map() {
    let base: Stack<i32> = List::empty();
    let actual = base.cons(1).cons(2).cons(3).map(&|x: &i32| *x + 1);
    let expect = Stack::Cell(4, Box::new(Stack::Cell(3, Box::new(Stack::Cell(2, Box::new(Stack::Nil))))));
    assert!(actual == expect);
}

#[test]
fn stack_test_foldl() {
    let base: Stack<i32> = List::empty();
    let actual = base.cons(1).cons(2).cons(3).foldl(0, &|acc: i32, x: &i32| acc + *x);
    assert!(actual == 6);
}

#[test]
fn stack_test_all() {
    let base: Stack<i32> = List::empty();
    let actual = base.cons(2).cons(4).cons(6).all(&|x: &i32| *x % 2 == 0);
    assert!(actual);
}

#[test]
fn stack_test_is_empty() {
    let list: Stack<i32> = List::empty();
    assert!(list.is_empty());
}

#[test]
fn stack_test_cons() {
    let base: Stack<i32> = List::empty();
    let actual = base.cons(1).cons(2).cons(3);
    let expect = Stack::Cell(3, Box::new(Stack::Cell(2, Box::new(Stack::Cell(1, Box::new(Stack::Nil))))));
    assert!(actual == expect);
}

#[test]
fn stack_test_head() {
    let base: Stack<i32> = List::empty();
    let list = base.cons(1);
    assert!(list.head() == 1);
}

#[test]
#[should_panic]
fn stack_test_empty_head() {
    let list: Stack<i32> = List::empty();
    list.head();
}

#[test]
fn stack_test_tail() {
    let base: Stack<i32> = List::empty();
    let actual = base.cons(1).cons(2).cons(3);
    let expect = Stack::Cell(2, Box::new(Stack::Cell(1, Box::new(Stack::Nil))));
    assert!(actual.tail() == expect);
}

#[test]
fn stack_test_concat() {
    let left: Stack<i32> = List::empty();
    let right: Stack<i32> = List::empty();
    let actual = left.cons(2).cons(1).concat(right.cons(4).cons(3));
    let expect = Stack::Cell(
        1,
        Box::new(Stack::Cell(2, Box::new(Stack::Cell(3, Box::new(Stack::Cell(4, Box::new(Stack::Nil))))))),
    );
    assert!(actual == expect);
}

#[test]
fn stack_test_update() {
    let base: Stack<i32> = List::empty();
    let actual = base.cons(1).cons(2).cons(3).update(1, 9);
    let expect = Stack::Cell(3, Box::new(Stack::Cell(9, Box::new(Stack::Cell(1, Box::new(Stack::Nil))))));
    assert!(actual == expect);
}

#[test]
fn stack_test_suffixes() {
    let base: Stack<i32> = List::empty();
    let actual = base.cons(1).cons(2).cons(3).suffixes();
    let empty_i: Stack<i32> = List::empty();
    let empty_s: Stack<Stack<i32>> = List::empty();
    let expect = empty_s
        .cons(empty_i.cons(1))
        .cons(empty_i.cons(1).cons(2))
        .cons(empty_i.cons(1).cons(2).cons(3));
    assert!(actual == expect);
}

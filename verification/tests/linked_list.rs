use pfds::list::linked_list::LinkedList;
use pfds::list::{is_match_with_vec, List};

#[test]
fn linked_list_test_drop() {
    let base: LinkedList<i32> = List::empty();
    let actual = base.cons(1);
    assert!(is_match_with_vec(actual.drop_nth(0), vec![1]));
    assert!(is_match_with_vec(actual.drop_nth(1), vec![]));
}

#[test]
fn linked_list_test_take() {
    let base: LinkedList<i32> = List::empty();
    let actual = base.cons(1);
    assert!(is_match_with_vec(actual.take(0), vec![]));
    assert!(is_match_with_vec(actual.take(1), vec![1]));
}

#[test]
fn test_split() {
    let base: LinkedList<i32> = List::empty();
    let actual = base.snoc(1).snoc(2).snoc(3).split();
    assert!(is_match_with_vec(actual.0, vec![1, 2]));
    assert!(is_match_with_vec(actual.1, vec![3]));

    let actual = base.cons(1).split();
    assert!(is_match_with_vec(actual.0, vec![1]));
    assert!(is_match_with_vec(actual.1, vec![]));
}

#[test]
fn linked_list_test_reverse() {
    let base: LinkedList<i32> = List::empty();
    let actual = base.snoc(1).snoc(2).snoc(3).reverse();
    assert!(is_match_with_vec(actual, vec![3, 2, 1]));
}

#[test]
fn linked_list_test_update() {
    let base: LinkedList<i32> = List::empty();
    let actual = base.snoc(1).snoc(2).snoc(3).update(1, 4);
    assert!(is_match_with_vec(actual, vec![1, 4, 3]));
}

#[test]
fn linked_list_test_concat() {
    let base: LinkedList<i32> = List::empty();
    let actual_1 = base.snoc(1).snoc(2).snoc(3);
    let actual_2 = base.snoc(4).snoc(5).snoc(6);
    let actual = actual_1.concat(actual_2);
    assert!(is_match_with_vec(actual, vec![1, 2, 3, 4, 5, 6]));
}

#[test]
fn linked_list_test_cons() {
    let base: LinkedList<i32> = List::empty();
    let actual = base.cons(3).cons(2).cons(1);
    assert!(is_match_with_vec(actual, vec![1, 2, 3]));
}

#[test]
fn linked_list_test_snoc() {
    let base: LinkedList<i32> = List::empty();
    let actual = base.snoc(1).snoc(2).snoc(3);
    assert!(is_match_with_vec(actual, vec![1, 2, 3]));
}

use pfds::list::deque::Deque;

#[test]
fn test_last() {
    let actual = Deque::empty().snoc(1).snoc(2).snoc(3);
    assert!(actual.last() == 3);
}

#[test]
fn test_init() {
    let actual = Deque::empty().snoc(1).snoc(2).snoc(3);
    assert!(is_match_with_vec(actual.init(), vec![1, 2]));
    assert!(is_match_with_vec(actual.init().init(), vec![1]));
}

#[test]
fn deque_test_tail() {
    let actual = Deque::empty().snoc(1).snoc(2).snoc(3);
    assert!(is_match_with_vec(actual.tail(), vec![2, 3]));
    assert!(is_match_with_vec(actual.tail().tail(), vec![3]));
}

#[test]
fn deque_test_snoc() {
    let actual = Deque::empty().snoc(1).snoc(2).snoc(3);
    assert!(is_match_with_vec(actual, vec![1, 2, 3]));
}

#[test]
fn deque_test_cons() {
    let actual = Deque::empty().cons(3).cons(2).cons(1);
    assert!(is_match_with_vec(actual, vec![1, 2, 3]));
}

fn is_match_with_vec(xs: Deque<i32>, ys: Vec<i32>) -> bool {
    if ys.is_empty() {
        return xs.is_empty();
    }
    let mut cur = xs;
    let mut ok = true;
    for y in ys {
        let head = cur.head();
        let tail = cur.tail();
        ok = ok && head == y;
        cur = tail;
    }
    ok
}

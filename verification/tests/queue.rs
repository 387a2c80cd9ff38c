use pfds::list::queue::BatchedQueue;

#[test]
fn queue_test_cons() {
    let actual = BatchedQueue::empty().cons(1).cons(2).cons(3);
    assert!(is_match_with_vec(actual, vec![1, 2, 3]));
}

fn is_match_with_vec(xs: BatchedQueue<i32>, ys: Vec<i32>) -> bool {
    let mut cur = xs;
    let mut ok = true;
    for y in ys {
        let head = cur.head();
        let tail = cur.tail();
        ok = ok && head == y;
        cur = tail;
    }
    ok
}

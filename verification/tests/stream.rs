use pfds::list::stream::Stream;

#[test]
fn test_insert_sort() {
    let actual = Stream::empty().cons(3).cons(1).cons(2).insert_sort();
    assert!(is_match_with_vec(actual, vec![1, 2, 3]));
}

#[test]
fn stream_test_reverse() {
    let actual = Stream::empty().cons(1).cons(2).cons(3).reverse();
    assert!(is_match_with_vec(actual, vec![3, 2, 1]));
}

#[test]
fn stream_test_drop() {
    let actual = Stream::empty().cons(1).cons(2).cons(3).drop_nth(2);
    assert!(is_match_with_vec(actual, vec![3]));
}

#[test]
fn stream_test_take() {
    let actual = Stream::empty().cons(1).cons(2).cons(3).take(2);
    assert!(is_match_with_vec(actual, vec![1, 2]));
}

#[test]
fn stream_test_cons() {
    let actual = Stream::empty().cons(1).cons(2).cons(3);
    assert!(is_match_with_vec(actual, vec![1, 2, 3]));
}

#[test]
fn stream_test_concat() {
    let actual_1 = Stream::empty().cons(1).cons(2).cons(3);
    let actual_2 = Stream::empty().cons(4).cons(5).cons(6);

    let actual = actual_1.concat(&actual_2);
    assert!(is_match_with_vec(actual, vec![1, 2, 3, 4, 5, 6]));
}

fn is_match_with_vec(xs: Stream, ys: Vec<i32>) -> bool {
    xs.to_vec() == ys
}

#[test]
fn test_sort_scenario() {
    let s = Stream::empty().cons(3).cons(1).cons(2);
    assert_eq!(s.insert_sort().to_vec(), vec![1, 2, 3]);
}

#[test]
fn test_reverse_scenario() {
    let s = Stream::empty().cons(3).cons(1).cons(2);
    assert_eq!(s.reverse().to_vec(), vec![2, 1, 3]);
}

#[test]
fn test_take_scenario() {
    let s = Stream::empty().cons(3).cons(1).cons(2);
    assert_eq!(s.take(2).to_vec(), vec![3, 1]);
}

#[test]
fn test_drop_scenario() {
    let s = Stream::empty().cons(3).cons(1).cons(2);
    assert_eq!(s.drop_nth(2).to_vec(), vec![2]);
}

#[test]
fn test_vec_round_trip() {
    let xs = vec![4, 1, 1, -3, 7];
    assert_eq!(Stream::from_vec(&xs).to_vec(), xs);
    let empty: Vec<i32> = vec![];
    assert_eq!(Stream::from_vec(&empty).to_vec(), empty);
}

#[test]
fn test_concat_associative_scenario() {
    let a = Stream::from_vec(&vec![1, 2]);
    let b = Stream::from_vec(&vec![3]);
    let c = Stream::from_vec(&vec![4, 5]);
    let left = a.concat(&b).concat(&c);
    let right = a.concat(&b.concat(&c));
    assert_eq!(left.to_vec(), right.to_vec());
}

#[test]
fn test_take_drop_complementary_scenario() {
    let xs = vec![9, 8, 7, 6];
    for n in 0..=4 {
        let s = Stream::from_vec(&xs);
        let mut front = s.take(n).to_vec();
        let back = s.drop_nth(n).to_vec();
        front.extend(back);
        assert_eq!(front, xs);
    }
}

#[test]
fn test_reverse_involution_scenario() {
    let xs = vec![5, -2, 5, 0];
    let s = Stream::from_vec(&xs);
    assert_eq!(s.reverse().reverse().to_vec(), xs);
}

#[test]
fn test_sort_permutation_scenario() {
    let s = Stream::from_vec(&vec![2, -1, 2, 0, -1]);
    assert_eq!(s.insert_sort().to_vec(), vec![-1, -1, 0, 2, 2]);
}

#[test]
fn test_force_keeps_sequence() {
    let mut s = Stream::empty().cons(1).cons(2).cons(3);
    s.force();
    s.force();
    assert_eq!(s.to_vec(), vec![1, 2, 3]);
}

#[test]
fn test_clone_unforced_stream() {
    let s = Stream::empty().cons(1).cons(2);
    let t = s.clone();
    assert_eq!(s.to_vec(), vec![1, 2]);
    assert_eq!(t.to_vec(), vec![1, 2]);
}

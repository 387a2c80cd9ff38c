use pfds::lazy::{Ready, Susp};

#[test]
fn test_clone() {
    let actual = Susp::new(Ready(10)).clone();
    assert!(actual != Susp::new(Ready(20)));
    assert!(actual == Susp::new(Ready(10)));
}

#[test]
fn test_ne() {
    assert!(Susp::new(Ready(10)) != Susp::new(Ready(20)));
    assert!(!(Susp::new(Ready(10)) != Susp::new(Ready(10))));
}

#[test]
fn test_eq() {
    assert!(Susp::new(Ready(10)) == Susp::new(Ready(10)));
    assert!(!(Susp::new(Ready(10)) == Susp::new(Ready(20))));
}

#[test]
fn test_susp() {
    let mut actual = Susp::new(Ready(10));
    assert!(actual.unwrap() == 10);
    assert!(actual.unwrap() == 10);
    assert!(actual.unwrap() == 10);
}

#[test]
fn test_thunk() {
    let mut actual = Susp::new(Ready(10));
    assert!(actual.unwrap() == 10);
    assert!(actual.unwrap() == 10);
    assert!(actual.unwrap() == 10);
}

#[test]
fn test_unwrap_repeats_cached_value() {
    let mut s = Susp::new(Ready(42));
    s.force();
    assert_eq!(s.unwrap(), 42);
    assert_eq!(s.unwrap(), 42);
}

#[test]
fn test_clone_before_force() {
    let a = Susp::new(Ready(7));
    let mut b = a.clone();
    let mut a = a;
    assert_eq!(a.unwrap(), 7);
    assert_eq!(b.unwrap(), 7);
}

#[test]
fn test_done_cell_is_forced() {
    let mut s = Susp::done(9);
    assert_eq!(s.unwrap(), 9);
    assert!(s == Susp::new(Ready(9)));
}

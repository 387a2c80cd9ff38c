use pfds::set::map::FiniteMapImpl;

#[test]
fn test_bind() {
    let actual = FiniteMapImpl::empty().bind(String::from("key"), 100);
    let expect = FiniteMapImpl::empty().bind(String::from("key"), 100);

    assert!(actual == expect);
    assert!(actual.bind(String::from("key"), 100) == expect)
}

#[test]
fn test_lookup() {
    let actual = FiniteMapImpl::empty().bind(String::from("key"), 100);
    assert!(actual.lookup(String::from("key")) == Some(100));
    assert!(actual.lookup(String::from("not-exist")) == None);
}

use pfds::heap::binominal::BinominalHeap;
use pfds::heap::explicit_min::ExplicitMin;
use pfds::heap::Heap;

#[test]
fn explicit_min_test_merge() {
    let base: ExplicitMin<BinominalHeap> = Heap::empty();
    let actual_1 = base.insert(3).insert(5).insert(1);
    let actual_2 = base.insert(4).insert(8).insert(6);
    let actual = actual_1.merge(&actual_2);
    assert!(actual.find_min() == Some(1));
}

#[test]
fn explicit_min_test_delete_min() {
    let base: ExplicitMin<BinominalHeap> = Heap::empty();
    let actual = base.insert(1).insert(5).insert(3).delete_min();
    assert!(actual.find_min() == Some(3));
}

#[test]
fn explicit_min_test_find_min() {
    let base: ExplicitMin<BinominalHeap> = Heap::empty();
    let actual = base.insert(1).insert(5).insert(3);
    assert!(actual.find_min() == Some(1));
}

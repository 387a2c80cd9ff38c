//! A wrapper that keeps the minimum element beside an inner heap, so
//! reading the minimum never has to search.
use vstd::prelude::*;
use vstd::multiset::Multiset;

use crate::heap::Heap;

verus! {

/// A heap with its minimum held apart from the rest.
pub enum ExplicitMin<H: Heap> {
    Nil,
    Node(i32, H),
}

/// The bag of elements: the explicit minimum beside the inner heap's bag.
pub open spec fn em_mset<H: Heap>(t: ExplicitMin<H>) -> Multiset<i32> {
    match t {
        ExplicitMin::Nil => Multiset::empty(),
        ExplicitMin::Node(m, h) => h.mset().insert(m),
    }
}

/// Well-formed: the inner heap is, and the held element is no larger than
/// anything inside it.
pub open spec fn em_inv<H: Heap>(t: ExplicitMin<H>) -> bool {
    match t {
        ExplicitMin::Nil => true,
        ExplicitMin::Node(m, h) => h.inv() && forall|y: i32| h.mset().count(y) > 0 ==> m <= y,
    }
}

impl<H: Heap> Heap for ExplicitMin<H> {
    open spec fn mset(&self) -> Multiset<i32> {
        em_mset(*self)
    }

    open spec fn inv(&self) -> bool {
        em_inv(*self)
    }

    fn empty() -> Self {
        ExplicitMin::Nil
    }

    fn dup(&self) -> Self {
        match self {
            ExplicitMin::Nil => ExplicitMin::Nil,
            ExplicitMin::Node(m, h) => ExplicitMin::Node(*m, h.dup()),
        }
    }

    /// Reports empty when the inner heap is, even though the held minimum
    /// still counts as an element.
    fn is_empty_heap(&self) -> (b: bool)
        ensures
            *self is Node && self->Node_1.mset().len() == 0 ==> b,
    {
        match self {
            ExplicitMin::Nil => true,
            ExplicitMin::Node(_, heap) => heap.is_empty_heap(),
        }
    }

    fn insert(&self, x: i32) -> (r: Self) {
        match self {
            ExplicitMin::Nil => {
                let r = ExplicitMin::Node(x, H::empty());
                proof {
                    assert(em_mset(r) =~= em_mset(*self).insert(x));
                }
                r
            },
            ExplicitMin::Node(min, heap) => {
                let r = if *min < x {
                    ExplicitMin::Node(*min, heap.insert(x))
                } else {
                    ExplicitMin::Node(x, heap.insert(*min))
                };
                proof {
                    assert(em_mset(r) =~= em_mset(*self).insert(x));
                }
                r
            },
        }
    }

    fn merge(&self, other: &Self) -> (r: Self) {
        match (self, other) {
            (ExplicitMin::Nil, _) => other.dup(),
            (ExplicitMin::Node(_, _), ExplicitMin::Nil) => self.dup(),
            (ExplicitMin::Node(s_min, s_heap), ExplicitMin::Node(o_min, o_heap)) => {
                let r = if *s_min < *o_min {
                    ExplicitMin::Node(*s_min, s_heap.merge(o_heap).insert(*o_min))
                } else {
                    ExplicitMin::Node(*o_min, o_heap.merge(s_heap).insert(*s_min))
                };
                proof {
                    assert(em_mset(r) =~= em_mset(*self).add(em_mset(*other)));
                }
                r
            },
        }
    }

    fn find_min(&self) -> (m: Option<i32>) {
        match self {
            ExplicitMin::Nil => None,
            ExplicitMin::Node(min, _) => {
                proof {
                    assert(em_mset(*self).count(*min) > 0);
                    assert forall|y: i32| em_mset(*self).count(y) > 0 implies *min <= y by {
                        if y != *min {
                            assert(self->Node_1.mset().count(y) > 0);
                        }
                    }
                }
                Some(*min)
            },
        }
    }

    /// Drops the held minimum and promotes the inner heap's minimum beside
    /// the heap, which keeps its copy of that element.
    fn delete_min(&self) -> (r: Self)
        ensures
            *self is Nil ==> r == *self,
            *self is Node && self->Node_1.mset().len() == 0 ==> r == *self,
            *self is Node && self->Node_1.mset().len() > 0 ==> r is Node && r.mset()
                == self->Node_1.mset().insert(r->Node_0) && self->Node_1.mset().count(r->Node_0)
                > 0 && (forall|y: i32| self->Node_1.mset().count(y) > 0 ==> r->Node_0 <= y),
    {
        match self {
            ExplicitMin::Nil => ExplicitMin::Nil,
            ExplicitMin::Node(min, heap) => {
                match heap.find_min() {
                    None => ExplicitMin::Node(*min, heap.dup()),
                    Some(m) => {
                        let r = ExplicitMin::Node(m, heap.dup());
                        proof {
                            assert(em_mset(r) =~= self->Node_1.mset().insert(m));
                        }
                        r
                    },
                }
            },
        }
    }
}

} // verus!

//! Persistent min-heaps: the common interface and a merge-only leftist
//! heap; submodules hold the full leftist, binominal and splay heaps and
//! the explicit-minimum wrapper.
use vstd::prelude::*;
use vstd::multiset::Multiset;

pub mod binominal;
pub mod explicit_min;
pub mod leftist;
pub mod splay;

verus! {

/// A persistent min-heap: a bag of numbers from which the smallest can be
/// read.  `mset` is the bag of elements, `inv` the shape each heap keeps.
pub trait Heap: Sized {
    /// The bag of elements.
    spec fn mset(&self) -> Multiset<i32>;

    /// The well-formedness the heap's operations rely on and preserve.
    spec fn inv(&self) -> bool;

    /// The heap with no elements.
    fn empty() -> (r: Self)
        ensures
            r.inv(),
            r.mset() == Multiset::<i32>::empty(),
    ;

    /// An exact copy.
    fn dup(&self) -> (r: Self)
        ensures
            r == *self,
    ;

    /// Whether the heap reports itself empty; an empty heap always does.
    fn is_empty_heap(&self) -> (b: bool)
        requires
            self.inv(),
        ensures
            self.mset().len() == 0 ==> b,
    ;

    /// The heap with `x` added.
    fn insert(&self, x: i32) -> (r: Self)
        requires
            self.inv(),
            self.mset().len() < 0x4000_0000,
        ensures
            r.inv(),
            r.mset() == self.mset().insert(x),
    ;

    /// The heap holding both heaps' elements.
    fn merge(&self, other: &Self) -> (r: Self)
        requires
            self.inv(),
            other.inv(),
            self.mset().len() + other.mset().len() < 0x4000_0000,
        ensures
            r.inv(),
            r.mset() == self.mset().add(other.mset()),
    ;

    /// The smallest element, if there is one.
    fn find_min(&self) -> (m: Option<i32>)
        requires
            self.inv(),
        ensures
            m is None <==> self.mset().len() == 0,
            m is Some ==> self.mset().count(m->0) > 0 && forall|y: i32|
                self.mset().count(y) > 0 ==> m->0 <= y,
    ;

    /// The heap with one smallest element taken out; an empty heap comes
    /// back unchanged.
    fn delete_min(&self) -> (r: Self)
        requires
            self.inv(),
            self.mset().len() < 0x4000_0000,
        ensures
            r.inv(),
            self.mset().len() == 0 ==> r.mset() == self.mset(),
    ;
}

/// A leftist-style persistent min-heap, carrying a rank at every node.
#[derive(Debug, PartialEq)]
pub enum LeftistHeap {
    Nil,
    Element(i32, i32, Box<LeftistHeap>, Box<LeftistHeap>),
}

/// The bag of elements a heap holds.
pub open spec fn hp_mset(t: LeftistHeap) -> Multiset<i32>
    decreases t,
{
    match t {
        LeftistHeap::Nil => Multiset::empty(),
        LeftistHeap::Element(_, x, l, r) => hp_mset(*l).add(hp_mset(*r)).insert(x),
    }
}

/// The rank stored at the root.
pub open spec fn hp_rank(t: LeftistHeap) -> int {
    match t {
        LeftistHeap::Nil => 0,
        LeftistHeap::Element(k, _, _, _) => k as int,
    }
}

/// Well-formed: every node's element is no larger than anything below it,
/// and every stored rank is positive and within the subtree's size.
pub open spec fn hp_wf(t: LeftistHeap) -> bool
    decreases t,
{
    match t {
        LeftistHeap::Nil => true,
        LeftistHeap::Element(k, x, l, r) => {
            &&& 1 <= k <= hp_mset(t).len()
            &&& (forall|y: i32| hp_mset(*l).count(y) > 0 ==> x <= y)
            &&& (forall|y: i32| hp_mset(*r).count(y) > 0 ==> x <= y)
            &&& hp_wf(*l)
            &&& hp_wf(*r)
        },
    }
}

/// The leftist discipline over the whole tree: at every node the left
/// child's stored rank is at least the right child's.
pub open spec fn hp_leftist(t: LeftistHeap) -> bool
    decreases t,
{
    match t {
        LeftistHeap::Nil => true,
        LeftistHeap::Element(_, _, l, r) => hp_rank(*l) >= hp_rank(*r) && hp_leftist(*l)
            && hp_leftist(*r),
    }
}

/// A well-formed non-empty heap's root is its smallest element.
pub proof fn lemma_hp_root_min(t: LeftistHeap)
    requires
        hp_wf(t),
        t is Element,
    ensures
        forall|y: i32| hp_mset(t).count(y) > 0 ==> t->Element_1 <= y,
        hp_mset(t).count(t->Element_1) > 0,
        hp_mset(t).len() > 0,
{
    let x = t->Element_1;
    let l = *t->Element_2;
    let r = *t->Element_3;
    assert(hp_mset(t) =~= hp_mset(l).add(hp_mset(r)).insert(x));
    assert forall|y: i32| hp_mset(t).count(y) > 0 implies x <= y by {
        if y != x {
            assert(hp_mset(l).count(y) > 0 || hp_mset(r).count(y) > 0);
        }
    }
    assert(hp_mset(t).count(x) >= 1);
}

impl LeftistHeap {
    /// An exact copy.
    pub fn dup(&self) -> (r: Self)
        ensures
            r == *self,
        decreases *self,
    {
        match self {
            LeftistHeap::Nil => LeftistHeap::Nil,
            LeftistHeap::Element(k, x, l, r) => LeftistHeap::Element(
                *k,
                *x,
                Box::new((&**l).dup()),
                Box::new((&**r).dup()),
            ),
        }
    }

    /// The heap with no elements.
    pub fn empty() -> (r: Self)
        ensures
            r == LeftistHeap::Nil,
            hp_wf(r),
            hp_mset(r) == Multiset::<i32>::empty(),
    {
        LeftistHeap::Nil
    }

    /// Whether the heap has no elements.
    pub fn is_empty(&self) -> (b: bool)
        ensures
            b == (hp_mset(*self).len() == 0),
    {
        match self {
            LeftistHeap::Nil => true,
            LeftistHeap::Element(_, _, _, _) => {
                proof {
                    assert(hp_mset(*self).count(self->Element_1) >= 1);
                }
                false
            },
        }
    }

    /// The stored rank of the root.
    pub fn rank(&self) -> (r: i32)
        ensures
            r == hp_rank(*self),
    {
        match self {
            LeftistHeap::Element(rank, _, _, _) => *rank,
            LeftistHeap::Nil => 0,
        }
    }

    /// A node with `x` on top of these two heaps, the one of lower rank
    /// placed right and the new rank grown from it.
    pub fn make_tree(&self, other: &Self, x: i32) -> (r: Self)
        requires
            hp_wf(*self),
            hp_wf(*other),
            forall|y: i32| hp_mset(*self).count(y) > 0 ==> x <= y,
            forall|y: i32| hp_mset(*other).count(y) > 0 ==> x <= y,
            hp_mset(*self).len() + hp_mset(*other).len() < 0x4000_0000,
        ensures
            hp_wf(r),
            hp_mset(r) == hp_mset(*self).add(hp_mset(*other)).insert(x),
            r is Element,
            hp_leftist(*self) && hp_leftist(*other) ==> hp_leftist(r),
    {
        let self_rank = self.rank();
        let other_rank = other.rank();
        proof {
            lemma_hp_rank_le_size(*self);
            lemma_hp_rank_le_size(*other);
        }
        let r = if self_rank < other_rank {
            LeftistHeap::Element(self_rank + 1, x, Box::new(other.dup()), Box::new(self.dup()))
        } else {
            LeftistHeap::Element(other_rank + 1, x, Box::new(self.dup()), Box::new(other.dup()))
        };
        proof {
            assert(hp_mset(r) =~= hp_mset(*self).add(hp_mset(*other)).insert(x));
        }
        r
    }

    /// The heap holding both heaps' elements; the smaller root wins the
    /// top and its right spine is merged with the other heap.
    pub fn merge(&self, other: &Self) -> (r: Self)
        requires
            hp_wf(*self),
            hp_wf(*other),
            hp_mset(*self).len() + hp_mset(*other).len() < 0x4000_0000,
        ensures
            hp_wf(r),
            hp_mset(r) == hp_mset(*self).add(hp_mset(*other)),
            hp_leftist(*self) && hp_leftist(*other) ==> hp_leftist(r),
        decreases hp_mset(*self).len() + hp_mset(*other).len(),
    {
        match (self, other) {
            (LeftistHeap::Nil, LeftistHeap::Element(_, _, _, _)) => {
                let r = other.dup();
                proof {
                    assert(hp_mset(r) =~= hp_mset(*self).add(hp_mset(*other)));
                }
                r
            },
            (LeftistHeap::Element(_, _, _, _), LeftistHeap::Nil) | (
                LeftistHeap::Nil,
                LeftistHeap::Nil,
            ) => {
                let r = self.dup();
                proof {
                    assert(hp_mset(r) =~= hp_mset(*self).add(hp_mset(*other)));
                }
                r
            },
            (
                LeftistHeap::Element(_, s_element, s_left, s_right),
                LeftistHeap::Element(_, o_element, o_left, o_right),
            ) => {
                proof {
                    lemma_hp_root_min(*self);
                    lemma_hp_root_min(*other);
                    assert(hp_mset(*self) =~= hp_mset(**s_left).add(hp_mset(**s_right)).insert(
                        *s_element,
                    ));
                    assert(hp_mset(*other) =~= hp_mset(**o_left).add(hp_mset(**o_right)).insert(
                        *o_element,
                    ));
                }
                if *s_element <= *o_element {
                    let rest = (&**s_right).merge(other);
                    let r = (&**s_left).make_tree(&rest, *s_element);
                    proof {
                        assert(hp_mset(r) =~= hp_mset(*self).add(hp_mset(*other)));
                    }
                    r
                } else {
                    let rest = (&**o_right).merge(self);
                    let r = (&**o_left).make_tree(&rest, *o_element);
                    proof {
                        assert(hp_mset(r) =~= hp_mset(*self).add(hp_mset(*other)));
                    }
                    r
                }
            },
        }
    }
}

/// A well-formed heap's stored root rank never exceeds its size.
proof fn lemma_hp_rank_le_size(t: LeftistHeap)
    requires
        hp_wf(t),
    ensures
        0 <= hp_rank(t) <= hp_mset(t).len(),
{
}

} // verus!

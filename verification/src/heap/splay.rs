//! A splay-tree persistent min-heap: a search tree whose partitioning
//! rotations keep recently touched elements near the root.
use vstd::prelude::*;
use vstd::multiset::Multiset;

use crate::heap::Heap;

verus! {

/// A persistent splay heap: a binary search tree on element values.
#[derive(Debug, PartialEq)]
pub enum SplayHeap {
    Empty,
    Tree(Box<SplayHeap>, i32, Box<SplayHeap>),
}

/// The bag of elements a heap holds.
pub open spec fn sp_mset(t: SplayHeap) -> Multiset<i32>
    decreases t,
{
    match t {
        SplayHeap::Empty => Multiset::empty(),
        SplayHeap::Tree(l, x, r) => sp_mset(*l).add(sp_mset(*r)).insert(x),
    }
}

/// The search ordering: everything left is no larger, everything right is
/// strictly larger.
pub open spec fn sp_bst(t: SplayHeap) -> bool
    decreases t,
{
    match t {
        SplayHeap::Empty => true,
        SplayHeap::Tree(l, x, r) => {
            &&& (forall|y: i32| sp_mset(*l).count(y) > 0 ==> y <= x)
            &&& (forall|y: i32| sp_mset(*r).count(y) > 0 ==> y >= x)
            &&& sp_bst(*l)
            &&& sp_bst(*r)
        },
    }
}

/// The leftmost element of a non-empty tree.
pub open spec fn sp_min(t: SplayHeap) -> i32
    recommends
        t is Tree,
    decreases t,
{
    match t {
        SplayHeap::Empty => 0,
        SplayHeap::Tree(l, x, _) => if *l is Empty {
            x
        } else {
            sp_min(*l)
        },
    }
}

/// In a search tree the leftmost element is the smallest one.
pub proof fn lemma_sp_min(t: SplayHeap)
    requires
        sp_bst(t),
        t is Tree,
    ensures
        sp_mset(t).count(sp_min(t)) > 0,
        forall|y: i32| sp_mset(t).count(y) > 0 ==> sp_min(t) <= y,
        sp_mset(t).len() > 0,
    decreases t,
{
    let l = *t->Tree_0;
    let x = t->Tree_1;
    let r = *t->Tree_2;
    assert(sp_mset(t) =~= sp_mset(l).add(sp_mset(r)).insert(x));
    if l is Empty {
        assert(sp_mset(l) =~= Multiset::<i32>::empty());
        assert forall|y: i32| sp_mset(t).count(y) > 0 implies sp_min(t) <= y by {
            if y != x {
                assert(sp_mset(r).count(y) > 0);
            }
        }
    } else {
        lemma_sp_min(l);
        assert forall|y: i32| sp_mset(t).count(y) > 0 implies sp_min(t) <= y by {
            if y != x {
                assert(sp_mset(l).count(y) > 0 || sp_mset(r).count(y) > 0);
            }
        }
    }
}

impl SplayHeap {
    /// An exact copy.
    pub fn dup(&self) -> (r: Self)
        ensures
            r == *self,
        decreases *self,
    {
        match self {
            SplayHeap::Empty => SplayHeap::Empty,
            SplayHeap::Tree(l, x, r) => SplayHeap::Tree(
                Box::new((&**l).dup()),
                *x,
                Box::new((&**r).dup()),
            ),
        }
    }

    /// The part of this tree strictly above the pivot, still a search tree.
    #[verifier::rlimit(30)]
    pub fn bigger(&self, pivot: &i32) -> (out: Self)
        requires
            sp_bst(*self),
        ensures
            sp_bst(out),
            sp_mset(out) == sp_mset(*self).filter(|y: i32| y > *pivot),
            sp_mset(out).len() <= sp_mset(*self).len(),
        decreases *self,
    {
        proof {
            broadcast use vstd::multiset::group_multiset_axioms;

            reveal_with_fuel(sp_bst, 3);
            reveal_with_fuel(sp_mset, 3);
        }
        match self {
            SplayHeap::Empty => {
                proof {
                    assert(sp_mset(*self).filter(|y: i32| y > *pivot) =~= Multiset::<
                        i32,
                    >::empty());
                }
                SplayHeap::Empty
            },
            SplayHeap::Tree(left, x, right) => {
                let ghost me = *self;
                proof {
                    assert(sp_mset(me) =~= sp_mset(**left).add(sp_mset(**right)).insert(*x));
                }
                if *x <= *pivot {
                    let out = (&**right).bigger(pivot);
                    proof {
                        assert(sp_mset(out) =~= sp_mset(me).filter(|y: i32| y > *pivot));
                    }
                    out
                } else {
                    match &**left {
                        SplayHeap::Empty => {
                            let out = SplayHeap::Tree(
                                Box::new(SplayHeap::Empty),
                                *x,
                                Box::new((&**right).dup()),
                            );
                            proof {
                                assert(sp_mset(out) =~= sp_mset(me).filter(|y: i32| y > *pivot));
                            }
                            out
                        },
                        SplayHeap::Tree(left2, y, right2) => {
                            proof {
                                assert(sp_mset(**left) =~= sp_mset(**left2).add(sp_mset(
                                    **right2,
                                )).insert(*y));
                            }
                            if *y <= *pivot {
                                let cut = (&**right2).bigger(pivot);
                                let out = SplayHeap::Tree(
                                    Box::new(cut),
                                    *x,
                                    Box::new((&**right).dup()),
                                );
                                proof {
                                    assert forall|z: i32| sp_mset(cut).count(z) > 0 implies z
                                        <= *x by {
                                        assert(sp_mset(**right2).count(z) > 0);
                                        assert(sp_mset(**left).count(z) > 0);
                                    }
                                    assert(sp_mset(out) =~= sp_mset(me).filter(
                                        |y0: i32| y0 > *pivot,
                                    ));
                                }
                                out
                            } else {
                                let cut = (&**left2).bigger(pivot);
                                let inner = SplayHeap::Tree(
                                    Box::new((&**right2).dup()),
                                    *x,
                                    Box::new((&**right).dup()),
                                );
                                let out = SplayHeap::Tree(Box::new(cut), *y, Box::new(inner));
                                proof {
                                    assert forall|z: i32| sp_mset(cut).count(z) > 0 implies z
                                        <= *y by {
                                        assert(sp_mset(**left2).count(z) > 0);
                                    }
                                    assert forall|z: i32| sp_mset(**right2).count(z)
                                        > 0 implies z <= *x && z >= *y by {
                                        assert(sp_mset(**left).count(z) > 0);
                                    }
                                    assert(sp_mset(**left).count(*y) > 0);
                                    assert forall|z: i32| sp_mset(inner).count(z) > 0 implies z
                                        >= *y by {
                                        if z != *x {
                                            assert(sp_mset(**right2).count(z) > 0 || sp_mset(
                                                **right,
                                            ).count(z) > 0);
                                        }
                                    }
                                    assert(sp_bst(inner));
                                    assert(sp_mset(out) =~= sp_mset(me).filter(
                                        |y0: i32| y0 > *pivot,
                                    ));
                                }
                                out
                            }
                        },
                    }
                }
            },
        }
    }

    /// The part of this tree at or below the pivot, still a search tree.
    #[verifier::rlimit(30)]
    pub fn smaller(&self, pivot: &i32) -> (out: Self)
        requires
            sp_bst(*self),
        ensures
            sp_bst(out),
            sp_mset(out) == sp_mset(*self).filter(|y: i32| y <= *pivot),
            sp_mset(out).len() <= sp_mset(*self).len(),
        decreases *self,
    {
        proof {
            broadcast use vstd::multiset::group_multiset_axioms;

            reveal_with_fuel(sp_bst, 3);
            reveal_with_fuel(sp_mset, 3);
        }
        match self {
            SplayHeap::Empty => {
                proof {
                    assert(sp_mset(*self).filter(|y: i32| y <= *pivot) =~= Multiset::<
                        i32,
                    >::empty());
                }
                SplayHeap::Empty
            },
            SplayHeap::Tree(left, x, right) => {
                let ghost me = *self;
                proof {
                    assert(sp_mset(me) =~= sp_mset(**left).add(sp_mset(**right)).insert(*x));
                }
                if *x > *pivot {
                    let out = (&**left).smaller(pivot);
                    proof {
                        assert(sp_mset(out) =~= sp_mset(me).filter(|y: i32| y <= *pivot));
                    }
                    out
                } else {
                    match &**right {
                        SplayHeap::Empty => {
                            let out = SplayHeap::Tree(
                                Box::new((&**left).dup()),
                                *x,
                                Box::new(SplayHeap::Empty),
                            );
                            proof {
                                assert(sp_mset(out) =~= sp_mset(me).filter(|y: i32| y <= *pivot));
                            }
                            out
                        },
                        SplayHeap::Tree(left2, y, right2) => {
                            proof {
                                assert(sp_mset(**right) =~= sp_mset(**left2).add(sp_mset(
                                    **right2,
                                )).insert(*y));
                            }
                            if *y > *pivot {
                                let cut = (&**left2).smaller(pivot);
                                let out = SplayHeap::Tree(
                                    Box::new((&**left).dup()),
                                    *x,
                                    Box::new(cut),
                                );
                                proof {
                                    assert forall|z: i32| sp_mset(cut).count(z) > 0 implies z
                                        >= *x by {
                                        assert(sp_mset(**left2).count(z) > 0);
                                        assert(sp_mset(**right).count(z) > 0);
                                    }
                                    assert(sp_mset(out) =~= sp_mset(me).filter(
                                        |y0: i32| y0 <= *pivot,
                                    ));
                                }
                                out
                            } else {
                                let cut = (&**right2).smaller(pivot);
                                let inner = SplayHeap::Tree(
                                    Box::new((&**left).dup()),
                                    *x,
                                    Box::new((&**left2).dup()),
                                );
                                let out = SplayHeap::Tree(Box::new(inner), *y, Box::new(cut));
                                proof {
                                    assert forall|z: i32| sp_mset(cut).count(z) > 0 implies z
                                        >= *y by {
                                        assert(sp_mset(**right2).count(z) > 0);
                                    }
                                    assert forall|z: i32| sp_mset(**left2).count(z) > 0 implies
                                        z >= *x && z <= *y by {
                                        assert(sp_mset(**right).count(z) > 0);
                                    }
                                    assert(sp_mset(**right).count(*y) > 0);
                                    assert forall|z: i32| sp_mset(inner).count(z) > 0 implies z
                                        <= *y by {
                                        if z != *x {
                                            assert(sp_mset(**left).count(z) > 0 || sp_mset(
                                                **left2,
                                            ).count(z) > 0);
                                        }
                                    }
                                    assert(sp_bst(inner));
                                    assert(sp_mset(out) =~= sp_mset(me).filter(
                                        |y0: i32| y0 <= *pivot,
                                    ));
                                }
                                out
                            }
                        },
                    }
                }
            },
        }
    }

    /// Build a heap holding exactly the given numbers.
    pub fn from_vec(xs: Vec<i32>) -> (r: Self)
        requires
            xs@.len() < 0x4000_0000,
        ensures
            sp_bst(r),
            sp_mset(r) == xs@.to_multiset(),
    {
        let mut acc = SplayHeap::Empty;
        let mut i: usize = 0;
        proof {
            broadcast use vstd::seq_lib::group_to_multiset_ensures;

            assert(xs@.take(0).to_multiset() =~= Multiset::<i32>::empty());
        }
        while i < xs.len()
            invariant
                i <= xs@.len(),
                xs@.len() < 0x4000_0000,
                sp_bst(acc),
                sp_mset(acc) == xs@.take(i as int).to_multiset(),
                sp_mset(acc).len() == i,
            decreases xs@.len() - i,
        {
            let ghost before = acc;
            proof {
                broadcast use vstd::seq_lib::group_to_multiset_ensures;
                broadcast use vstd::multiset::group_multiset_axioms;

            }
            acc = acc.insert(xs[i]);
            proof {
                broadcast use vstd::seq_lib::group_to_multiset_ensures;

                assert(xs@.take(i + 1) =~= xs@.take(i as int).push(xs@[i as int]));
            }
            i = i + 1;
        }
        proof {
            assert(xs@.take(xs@.len() as int) =~= xs@);
        }
        acc
    }

    /// The number of elements.
    pub fn len(&self) -> (n: i32)
        requires
            sp_mset(*self).len() <= i32::MAX,
        ensures
            n == sp_mset(*self).len(),
        decreases *self,
    {
        proof {
            broadcast use vstd::multiset::group_multiset_axioms;

            reveal_with_fuel(sp_bst, 3);
            reveal_with_fuel(sp_mset, 3);
        }
        match self {
            SplayHeap::Empty => 0,
            SplayHeap::Tree(l, _, r) => {
                proof {
                    assert(sp_mset(*self) =~= sp_mset(**l).add(sp_mset(**r)).insert(
                        self->Tree_1,
                    ));
                }
                let a = (&**l).len();
                let b = (&**r).len();
                1 + a + b
            },
        }
    }
}

impl Heap for SplayHeap {
    open spec fn mset(&self) -> Multiset<i32> {
        sp_mset(*self)
    }

    open spec fn inv(&self) -> bool {
        sp_bst(*self)
    }

    fn empty() -> Self {
        SplayHeap::Empty
    }

    fn dup(&self) -> Self {
        SplayHeap::dup(self)
    }

    fn is_empty_heap(&self) -> (b: bool)
        ensures
            b == (self.mset().len() == 0),
    {
        proof {
            broadcast use vstd::multiset::group_multiset_axioms;

            reveal_with_fuel(sp_bst, 3);
            reveal_with_fuel(sp_mset, 3);
        }
        match self {
            SplayHeap::Empty => true,
            SplayHeap::Tree(_, _, _) => {
                proof {
                    lemma_sp_min(*self);
                }
                false
            },
        }
    }

    /// Insert by partitioning the whole tree around the new element.
    fn insert(&self, x: i32) -> (r: Self) {
        proof {
            broadcast use vstd::multiset::group_multiset_axioms;

            reveal_with_fuel(sp_bst, 3);
            reveal_with_fuel(sp_mset, 3);
        }
        let below = self.smaller(&x);
        let above = self.bigger(&x);
        let r = SplayHeap::Tree(Box::new(below), x, Box::new(above));
        proof {
            assert(sp_mset(r) =~= sp_mset(*self).insert(x));
        }
        r
    }

    fn merge(&self, other: &Self) -> (r: Self)
        decreases *self,
    {
        proof {
            broadcast use vstd::multiset::group_multiset_axioms;

            reveal_with_fuel(sp_bst, 3);
            reveal_with_fuel(sp_mset, 3);
        }
        match self {
            SplayHeap::Empty => {
                let r = other.dup();
                proof {
                    assert(sp_mset(r) =~= sp_mset(*self).add(sp_mset(*other)));
                }
                r
            },
            SplayHeap::Tree(left, x, right) => {
                let ghost me = *self;
                proof {
                    assert(sp_mset(me) =~= sp_mset(**left).add(sp_mset(**right)).insert(*x));
                    broadcast use vstd::multiset::group_multiset_axioms;

                }
                let small = other.smaller(x);
                let big = other.bigger(x);
                proof {
                    assert(sp_mset(me).len() == sp_mset(**left).len() + sp_mset(**right).len()
                        + 1);
                }
                let ml = (&**left).merge(&small);
                let mr = (&**right).merge(&big);
                let r = SplayHeap::Tree(Box::new(ml), *x, Box::new(mr));
                proof {
                    assert(sp_mset(r) =~= sp_mset(me).add(sp_mset(*other)));
                }
                r
            },
        }
    }

    fn find_min(&self) -> (m: Option<i32>)
        decreases *self,
    {
        proof {
            reveal_with_fuel(sp_bst, 3);
            reveal_with_fuel(sp_mset, 3);
        }
        match self {
            SplayHeap::Empty => None,
            SplayHeap::Tree(l, x, _) => {
                proof {
                    lemma_sp_min(*self);
                }
                match &**l {
                    SplayHeap::Empty => Some(*x),
                    SplayHeap::Tree(_, _, _) => {
                        let m = (&**l).find_min();
                        proof {
                            lemma_sp_min(**l);
                            assert(sp_mset(*self) =~= sp_mset(**l).add(sp_mset(
                                *self->Tree_2,
                            )).insert(*x));
                        }
                        m
                    },
                }
            },
        }
    }

    #[verifier::rlimit(100)]
    fn delete_min(&self) -> (r: Self)
        ensures
            *self is Empty ==> r == *self,
            *self is Tree ==> r.mset() == self.mset().remove(sp_min(*self)),
        decreases *self,
    {
        proof {
            broadcast use vstd::multiset::group_multiset_axioms;

        }
        match self {
            SplayHeap::Empty => SplayHeap::Empty,
            SplayHeap::Tree(l, y, r2) => {
                let ghost me = *self;
                proof {
                    lemma_sp_min(me);
                    assert(sp_mset(me) =~= sp_mset(**l).add(sp_mset(**r2)).insert(*y));
                }
                match &**l {
                    SplayHeap::Empty => {
                        let out = (&**r2).dup();
                        proof {
                            assert(sp_mset(out) =~= sp_mset(me).remove(sp_min(me)));
                        }
                        out
                    },
                    SplayHeap::Tree(ll, x, lr) => {
                        proof {
                            lemma_sp_min(**l);
                            assert(sp_bst(**l));
                            assert(sp_bst(**ll) && sp_bst(**lr));
                            assert(sp_mset(**l) =~= sp_mset(**ll).add(sp_mset(**lr)).insert(*x));
                            assert(sp_mset(me).len() == sp_mset(**l).len() + sp_mset(
                                **r2,
                            ).len() + 1);
                            assert(sp_mset(**l).len() == sp_mset(**ll).len() + sp_mset(
                                **lr,
                            ).len() + 1);
                        }
                        match &**ll {
                            SplayHeap::Empty => {
                                let out = SplayHeap::Tree(
                                    Box::new((&**lr).dup()),
                                    *y,
                                    Box::new((&**r2).dup()),
                                );
                                proof {
                                    assert(sp_min(me) == sp_min(**l));
                                    assert forall|z: i32| sp_mset(**lr).count(z) > 0 implies z
                                        <= *y by {
                                        assert(sp_mset(**l).count(z) > 0);
                                    }
                                    assert(sp_bst(out));
                                    assert(sp_mset(out) =~= sp_mset(me).remove(sp_min(me)));
                                }
                                out
                            },
                            SplayHeap::Tree(_, _, _) => {
                                let rest = (&**ll).delete_min();
                                let inner = SplayHeap::Tree(
                                    Box::new((&**lr).dup()),
                                    *y,
                                    Box::new((&**r2).dup()),
                                );
                                let out = SplayHeap::Tree(Box::new(rest), *x, Box::new(inner));
                                proof {
                                    lemma_sp_min(**ll);
                                    assert(sp_min(me) == sp_min(**l));
                                    assert(sp_min(**l) == sp_min(**ll));
                                    assert forall|z: i32| sp_mset(rest).count(z) > 0 implies z
                                        <= *x by {
                                        assert(sp_mset(**ll).count(z) > 0);
                                    }
                                    assert forall|z: i32| sp_mset(**lr).count(z) > 0 implies z
                                        >= *x && z <= *y by {
                                        assert(sp_mset(**l).count(z) > 0);
                                    }
                                    assert(sp_mset(**l).count(*x) > 0);
                                    assert forall|z: i32| sp_mset(inner).count(z) > 0 implies z
                                        >= *x by {
                                        if z != *y {
                                            assert(sp_mset(**lr).count(z) > 0 || sp_mset(
                                                **r2,
                                            ).count(z) > 0);
                                        }
                                    }
                                    assert(sp_bst(inner));
                                    assert(sp_bst(out));
                                    assert(sp_mset(inner) =~= sp_mset(**lr).add(sp_mset(
                                        **r2,
                                    )).insert(*y));
                                    assert(sp_mset(out) =~= sp_mset(rest).add(sp_mset(
                                        inner,
                                    )).insert(*x));
                                    assert(sp_mset(rest) == sp_mset(**ll).remove(sp_min(me)));
                                    assert(sp_mset(out) =~= sp_mset(me).remove(sp_min(me)));
                                }
                                out
                            },
                        }
                    },
                }
            },
        }
    }
}


/// Whether every node of the left spine is no larger than its parent.
pub open spec fn left_small_spec(t: SplayHeap, pivot: i32) -> bool
    decreases t,
{
    match t {
        SplayHeap::Empty => true,
        SplayHeap::Tree(l, x, _) => pivot >= x && left_small_spec(*l, x),
    }
}

/// Whether every node of the right spine is larger than its parent.
pub open spec fn right_big_spec(t: SplayHeap, pivot: i32) -> bool
    decreases t,
{
    match t {
        SplayHeap::Empty => true,
        SplayHeap::Tree(_, x, r) => pivot < x && right_big_spec(*r, x),
    }
}

impl SplayHeap {
    /// Walk the left spine checking each element against its parent.
    pub fn is_left_node_small_impl(tree: &SplayHeap, pivot: &i32) -> (r: bool)
        ensures
            r == left_small_spec(*tree, *pivot),
        decreases *tree,
    {
        match tree {
            SplayHeap::Empty => true,
            SplayHeap::Tree(left, element, _) => (*pivot >= *element)
                && SplayHeap::is_left_node_small_impl(&**left, element),
        }
    }

    /// Whether the root's left spine never grows.
    pub fn is_left_node_small(tree: &SplayHeap) -> (r: bool)
        ensures
            r == (match *tree {
                SplayHeap::Empty => true,
                SplayHeap::Tree(l, x, _) => left_small_spec(*l, x),
            }),
    {
        match tree {
            SplayHeap::Empty => true,
            SplayHeap::Tree(left, element, _) => SplayHeap::is_left_node_small_impl(
                &**left,
                element,
            ),
        }
    }

    /// Walk the right spine checking each element against its parent.
    pub fn is_right_node_small_impl(tree: &SplayHeap, pivot: &i32) -> (r: bool)
        ensures
            r == right_big_spec(*tree, *pivot),
        decreases *tree,
    {
        match tree {
            SplayHeap::Empty => true,
            SplayHeap::Tree(_, element, right) => (*pivot < *element)
                && SplayHeap::is_right_node_small_impl(&**right, element),
        }
    }

    /// Whether the root's right spine always grows.
    pub fn is_right_node_big(tree: &SplayHeap) -> (r: bool)
        ensures
            r == (match *tree {
                SplayHeap::Empty => true,
                SplayHeap::Tree(_, x, r0) => right_big_spec(*r0, x),
            }),
    {
        match tree {
            SplayHeap::Empty => true,
            SplayHeap::Tree(_, element, right) => SplayHeap::is_right_node_small_impl(
                &**right,
                element,
            ),
        }
    }
}

} // verus!

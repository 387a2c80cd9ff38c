//! An unbalanced persistent binary search tree used as a set, with the
//! comparison-saving walk: equal keys are chased to the right and settled
//! against the last element passed on the way down.
use vstd::prelude::*;

verus! {

/// An unbalanced persistent search tree over numbers.
#[derive(Debug, PartialEq)]
pub enum UnBlancedTree {
    Empty,
    Node(Box<UnBlancedTree>, i32, Box<UnBlancedTree>),
}

/// The set of numbers a tree holds.
pub open spec fn tree_set(t: UnBlancedTree) -> Set<i32>
    decreases t,
{
    match t {
        UnBlancedTree::Empty => Set::empty(),
        UnBlancedTree::Node(l, x, r) => tree_set(*l).union(tree_set(*r)).insert(x),
    }
}

/// The search-tree ordering: everything left is smaller, everything right
/// is larger, so no number occurs twice.
pub open spec fn tree_ordered(t: UnBlancedTree) -> bool
    decreases t,
{
    match t {
        UnBlancedTree::Empty => true,
        UnBlancedTree::Node(l, x, r) => {
            &&& (forall|y: i32| tree_set(*l).contains(y) ==> y < x)
            &&& (forall|y: i32| tree_set(*r).contains(y) ==> y > x)
            &&& tree_ordered(*l)
            &&& tree_ordered(*r)
        },
    }
}

impl UnBlancedTree {
    /// Walk down comparing once per node, remembering the last element the
    /// walk passed to its right; a leaf settles against that element.
    pub fn member_inner(&self, x: &i32, parent: Option<i32>) -> (r: bool)
        requires
            tree_ordered(*self),
            parent is Some ==> parent->0 <= *x,
            parent is Some ==> forall|y: i32| tree_set(*self).contains(y) ==> y > parent->0,
        ensures
            r == (tree_set(*self).contains(*x) || (parent is Some && parent->0 == *x)),
        decreases *self,
    {
        match self {
            UnBlancedTree::Empty => {
                proof {
                    assert(!tree_set(*self).contains(*x));
                }
                match parent {
                    Some(p) => {
                        let r = *x <= p;
                        proof {
                            assert(parent->0 == p);
                            assert(p <= *x);
                            assert(r == (p == *x));
                            assert(r == (parent is Some && parent->0 == *x));
                        }
                        r
                    },
                    None => false,
                }
            },
            UnBlancedTree::Node(left, elm, right) => {
                let ghost me = *self;
                proof {
                    assert(tree_set(me) =~= tree_set(**left).union(tree_set(**right)).insert(
                        *elm,
                    ));
                    assert(tree_ordered(me));
                    assert(tree_ordered(**left) && tree_ordered(**right));
                    assert(tree_set(me).contains(*elm));
                    assert forall|y: i32| tree_set(**left).contains(y) implies tree_set(
                        me,
                    ).contains(y) by {}
                    assert forall|y: i32| tree_set(**right).contains(y) implies tree_set(
                        me,
                    ).contains(y) by {}
                }
                if *x < *elm {
                    let r = (&**left).member_inner(x, parent);
                    proof {
                        if tree_set(me).contains(*x) {
                            assert(tree_set(**left).contains(*x));
                        }
                    }
                    r
                } else {
                    let r = (&**right).member_inner(x, Some(*elm));
                    proof {
                        if tree_set(me).contains(*x) && *x != *elm {
                            assert(tree_set(**right).contains(*x));
                        }
                    }
                    r
                }
            },
        }
    }

    /// Insert, remembering the last element passed to the right: a leaf
    /// reached with the new number equal to that element means the number
    /// is present already, and the tree comes back unchanged.
    pub fn insert_inner(&self, x: i32, cache: Option<i32>) -> (r: Self)
        requires
            tree_ordered(*self),
            cache is Some ==> cache->0 <= x,
            cache is Some ==> forall|y: i32| tree_set(*self).contains(y) ==> y > cache->0,
        ensures
            tree_ordered(r),
            cache is Some && cache->0 == x ==> r == *self,
            !(cache is Some && cache->0 == x) ==> tree_set(r) == tree_set(*self).insert(x),
            forall|y: i32| tree_set(r).contains(y) ==> tree_set(*self).contains(y) || y == x,
        decreases *self,
    {
        match self {
            UnBlancedTree::Empty => {
                proof {
                    assert(tree_set(*self) =~= Set::<i32>::empty());
                }
                if let Some(c) = cache {
                    if x <= c {
                        proof {
                            assert(c == x);
                            assert(*self == UnBlancedTree::Empty);
                        }
                        return UnBlancedTree::Empty;
                    }
                }
                let r = UnBlancedTree::Node(
                    Box::new(UnBlancedTree::Empty),
                    x,
                    Box::new(UnBlancedTree::Empty),
                );
                proof {
                    assert(tree_set(r) =~= tree_set(*self).insert(x));
                }
                r
            },
            UnBlancedTree::Node(left, elm, right) => {
                let ghost me = *self;
                proof {
                    assert(tree_set(me) =~= tree_set(**left).union(tree_set(**right)).insert(
                        *elm,
                    ));
                    assert(tree_ordered(me));
                    assert(tree_ordered(**left) && tree_ordered(**right));
                    assert(tree_set(me).contains(*elm));
                    assert forall|y: i32| tree_set(**left).contains(y) implies tree_set(
                        me,
                    ).contains(y) by {}
                    assert forall|y: i32| tree_set(**right).contains(y) implies tree_set(
                        me,
                    ).contains(y) by {}
                }
                if x < *elm {
                    let l2 = (&**left).insert_inner(x, cache);
                    let r = UnBlancedTree::Node(Box::new(l2), *elm, Box::new((&**right).dup()));
                    proof {
                        if !(cache is Some && cache->0 == x) {
                            assert(tree_set(r) =~= tree_set(me).insert(x));
                        } else {
                            assert(tree_set(r) =~= tree_set(me));
                            assert(r == me);
                        }
                    }
                    r
                } else {
                    let r2 = (&**right).insert_inner(x, Some(*elm));
                    let r = UnBlancedTree::Node(Box::new((&**left).dup()), *elm, Box::new(r2));
                    proof {
                        if x != *elm {
                            assert(tree_set(r) =~= tree_set(me).insert(x));
                        } else {
                            assert(tree_set(r) =~= tree_set(me));
                            assert(r == me);
                            assert(tree_set(me).contains(x));
                            assert(tree_set(me).insert(x) =~= tree_set(me));
                        }
                    }
                    r
                }
            },
        }
    }

    /// An exact copy.
    pub fn dup(&self) -> (r: Self)
        ensures
            r == *self,
        decreases *self,
    {
        match self {
            UnBlancedTree::Empty => UnBlancedTree::Empty,
            UnBlancedTree::Node(l, x, r) => UnBlancedTree::Node(
                Box::new((&**l).dup()),
                *x,
                Box::new((&**r).dup()),
            ),
        }
    }

    /// The tree with no elements.
    pub fn empty() -> (r: Self)
        ensures
            r == UnBlancedTree::Empty,
            tree_set(r) == Set::<i32>::empty(),
            tree_ordered(r),
    {
        UnBlancedTree::Empty
    }

    /// Whether the tree holds `x`.
    pub fn member(&self, x: &i32) -> (r: bool)
        requires
            tree_ordered(*self),
        ensures
            r == tree_set(*self).contains(*x),
    {
        self.member_inner(x, None)
    }

    /// The tree with `x` added; a tree holding `x` comes back unchanged.
    pub fn insert(&self, x: i32) -> (r: Self)
        requires
            tree_ordered(*self),
        ensures
            tree_ordered(r),
            tree_set(r) == tree_set(*self).insert(x),
    {
        let r = self.insert_inner(x, None);
        proof {
            if tree_set(*self).contains(x) {
                assert(tree_set(r) =~= tree_set(*self).insert(x));
            }
        }
        r
    }
}

} // verus!

//! An unbalanced persistent binary search tree used as a set, with the
//! comparison-saving walk of its sibling at the crate root, plus builders
//! for complete trees and value-spread trees.
use vstd::prelude::*;

verus! {

/// An unbalanced persistent search tree over numbers.
#[derive(Debug, PartialEq)]
pub enum UnBalancedTree {
    Empty,
    Node(Box<UnBalancedTree>, i32, Box<UnBalancedTree>),
}

/// The set of numbers a tree holds.
pub open spec fn utree_set(t: UnBalancedTree) -> Set<i32>
    decreases t,
{
    match t {
        UnBalancedTree::Empty => Set::empty(),
        UnBalancedTree::Node(l, x, r) => utree_set(*l).union(utree_set(*r)).insert(x),
    }
}

/// The search-tree ordering: everything left is smaller, everything right
/// is larger, so no number occurs twice.
pub open spec fn utree_ordered(t: UnBalancedTree) -> bool
    decreases t,
{
    match t {
        UnBalancedTree::Empty => true,
        UnBalancedTree::Node(l, x, r) => {
            &&& (forall|y: i32| utree_set(*l).contains(y) ==> y < x)
            &&& (forall|y: i32| utree_set(*r).contains(y) ==> y > x)
            &&& utree_ordered(*l)
            &&& utree_ordered(*r)
        },
    }
}

impl UnBalancedTree {
    /// Walk down comparing once per node, remembering the last element the
    /// walk passed to its right; a leaf settles against that element.
    pub fn member_inner(&self, x: &i32, parent: Option<i32>) -> (r: bool)
        requires
            utree_ordered(*self),
            parent is Some ==> parent->0 <= *x,
            parent is Some ==> forall|y: i32| utree_set(*self).contains(y) ==> y > parent->0,
        ensures
            r == (utree_set(*self).contains(*x) || (parent is Some && parent->0 == *x)),
        decreases *self,
    {
        match self {
            UnBalancedTree::Empty => {
                proof {
                    assert(!utree_set(*self).contains(*x));
                }
                match parent {
                    Some(p) => {
                        let r = *x <= p;
                        proof {
                            assert(parent->0 == p);
                            assert(p <= *x);
                            assert(r == (p == *x));
                            assert(r == (parent is Some && parent->0 == *x));
                        }
                        r
                    },
                    None => false,
                }
            },
            UnBalancedTree::Node(left, elm, right) => {
                let ghost me = *self;
                proof {
                    assert(utree_set(me) =~= utree_set(**left).union(utree_set(**right)).insert(
                        *elm,
                    ));
                    assert(utree_ordered(me));
                    assert(utree_ordered(**left) && utree_ordered(**right));
                    assert(utree_set(me).contains(*elm));
                    assert forall|y: i32| utree_set(**left).contains(y) implies utree_set(
                        me,
                    ).contains(y) by {}
                    assert forall|y: i32| utree_set(**right).contains(y) implies utree_set(
                        me,
                    ).contains(y) by {}
                }
                if *x < *elm {
                    let r = (&**left).member_inner(x, parent);
                    proof {
                        if utree_set(me).contains(*x) {
                            assert(utree_set(**left).contains(*x));
                        }
                    }
                    r
                } else {
                    let r = (&**right).member_inner(x, Some(*elm));
                    proof {
                        if utree_set(me).contains(*x) && *x != *elm {
                            assert(utree_set(**right).contains(*x));
                        }
                    }
                    r
                }
            },
        }
    }

    /// Insert, remembering the last element passed to the right: a leaf
    /// reached with the new number equal to that element means the number
    /// is present already, and the tree comes back unchanged.
    pub fn insert_inner(&self, x: i32, cache: Option<i32>) -> (r: Self)
        requires
            utree_ordered(*self),
            cache is Some ==> cache->0 <= x,
            cache is Some ==> forall|y: i32| utree_set(*self).contains(y) ==> y > cache->0,
        ensures
            utree_ordered(r),
            cache is Some && cache->0 == x ==> r == *self,
            !(cache is Some && cache->0 == x) ==> utree_set(r) == utree_set(*self).insert(x),
            forall|y: i32| utree_set(r).contains(y) ==> utree_set(*self).contains(y) || y == x,
        decreases *self,
    {
        match self {
            UnBalancedTree::Empty => {
                proof {
                    assert(utree_set(*self) =~= Set::<i32>::empty());
                }
                if let Some(c) = cache {
                    if x <= c {
                        proof {
                            assert(c == x);
                            assert(*self == UnBalancedTree::Empty);
                        }
                        return UnBalancedTree::Empty;
                    }
                }
                let r = UnBalancedTree::Node(
                    Box::new(UnBalancedTree::Empty),
                    x,
                    Box::new(UnBalancedTree::Empty),
                );
                proof {
                    assert(utree_set(r) =~= utree_set(*self).insert(x));
                }
                r
            },
            UnBalancedTree::Node(left, elm, right) => {
                let ghost me = *self;
                proof {
                    assert(utree_set(me) =~= utree_set(**left).union(utree_set(**right)).insert(
                        *elm,
                    ));
                    assert(utree_ordered(me));
                    assert(utree_ordered(**left) && utree_ordered(**right));
                    assert(utree_set(me).contains(*elm));
                    assert forall|y: i32| utree_set(**left).contains(y) implies utree_set(
                        me,
                    ).contains(y) by {}
                    assert forall|y: i32| utree_set(**right).contains(y) implies utree_set(
                        me,
                    ).contains(y) by {}
                }
                if x < *elm {
                    let l2 = (&**left).insert_inner(x, cache);
                    let r = UnBalancedTree::Node(Box::new(l2), *elm, Box::new((&**right).dup()));
                    proof {
                        if !(cache is Some && cache->0 == x) {
                            assert(utree_set(r) =~= utree_set(me).insert(x));
                        } else {
                            assert(utree_set(r) =~= utree_set(me));
                            assert(r == me);
                        }
                    }
                    r
                } else {
                    let r2 = (&**right).insert_inner(x, Some(*elm));
                    let r = UnBalancedTree::Node(Box::new((&**left).dup()), *elm, Box::new(r2));
                    proof {
                        if x != *elm {
                            assert(utree_set(r) =~= utree_set(me).insert(x));
                        } else {
                            assert(utree_set(r) =~= utree_set(me));
                            assert(r == me);
                            assert(utree_set(me).contains(x));
                            assert(utree_set(me).insert(x) =~= utree_set(me));
                        }
                    }
                    r
                }
            },
        }
    }

    /// An exact copy.
    pub fn dup(&self) -> (r: Self)
        ensures
            r == *self,
        decreases *self,
    {
        match self {
            UnBalancedTree::Empty => UnBalancedTree::Empty,
            UnBalancedTree::Node(l, x, r) => UnBalancedTree::Node(
                Box::new((&**l).dup()),
                *x,
                Box::new((&**r).dup()),
            ),
        }
    }

    /// The tree with no elements.
    pub fn empty() -> (r: Self)
        ensures
            r == UnBalancedTree::Empty,
            utree_set(r) == Set::<i32>::empty(),
            utree_ordered(r),
    {
        UnBalancedTree::Empty
    }

    /// Whether the tree holds `x`.
    pub fn member(&self, x: &i32) -> (r: bool)
        requires
            utree_ordered(*self),
        ensures
            r == utree_set(*self).contains(*x),
    {
        self.member_inner(x, None)
    }

    /// The tree with `x` added; a tree holding `x` comes back unchanged.
    pub fn insert(&self, x: i32) -> (r: Self)
        requires
            utree_ordered(*self),
        ensures
            utree_ordered(r),
            utree_set(r) == utree_set(*self).insert(x),
    {
        let r = self.insert_inner(x, None);
        proof {
            if utree_set(*self).contains(x) {
                assert(utree_set(r) =~= utree_set(*self).insert(x));
            }
        }
        r
    }
}


/// The complete tree of depth `d` holding `x` at every node.
pub open spec fn complete_spec(x: i32, d: int) -> UnBalancedTree
    decreases d,
{
    if d <= 1 {
        UnBalancedTree::Node(
            Box::new(UnBalancedTree::Empty),
            x,
            Box::new(UnBalancedTree::Empty),
        )
    } else {
        UnBalancedTree::Node(
            Box::new(complete_spec(x, d - 1)),
            x,
            Box::new(complete_spec(x, d - 1)),
        )
    }
}

/// The tree of depth `d` with `x` in the middle and values spread by the
/// remaining depth on either side.
pub open spec fn create_spec(x: int, d: int) -> UnBalancedTree
    decreases d,
{
    if d <= 1 {
        UnBalancedTree::Node(
            Box::new(UnBalancedTree::Empty),
            x as i32,
            Box::new(UnBalancedTree::Empty),
        )
    } else {
        UnBalancedTree::Node(
            Box::new(create_spec(x - (d - 1), d - 1)),
            x as i32,
            Box::new(create_spec(x + (d - 1), d - 1)),
        )
    }
}

impl UnBalancedTree {
    /// The complete tree of depth `d` holding `x` at every node.
    pub fn complete(x: i32, d: i32) -> (r: Self)
        requires
            d >= 1,
        ensures
            r == complete_spec(x, d as int),
        decreases d,
    {
        if d == 1 {
            UnBalancedTree::Node(Box::new(UnBalancedTree::Empty), x, Box::new(
                UnBalancedTree::Empty,
            ))
        } else {
            UnBalancedTree::Node(
                Box::new(UnBalancedTree::complete(x, d - 1)),
                x,
                Box::new(UnBalancedTree::complete(x, d - 1)),
            )
        }
    }

    /// The tree of depth `d` with `x` in the middle and smaller values to
    /// the left, larger ones to the right, spread by the remaining depth.
    pub fn create(x: i32, d: i32) -> (r: Self)
        requires
            d >= 1,
            x - d * (d - 1) / 2 >= i32::MIN,
            x + d * (d - 1) / 2 <= i32::MAX,
        ensures
            r == create_spec(x as int, d as int),
        decreases d,
    {
        if d == 1 {
            UnBalancedTree::Node(Box::new(UnBalancedTree::Empty), x, Box::new(
                UnBalancedTree::Empty,
            ))
        } else {
            proof {
                assert((d - 1) + (d - 1) * (d - 2) / 2 == d * (d - 1) / 2) by (nonlinear_arith);
            }
            UnBalancedTree::Node(
                Box::new(UnBalancedTree::create(x - (d - 1), d - 1)),
                x,
                Box::new(UnBalancedTree::create(x + (d - 1), d - 1)),
            )
        }
    }
}

} // verus!

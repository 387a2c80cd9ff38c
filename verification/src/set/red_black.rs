//! A red-black persistent search tree used as a set: insertion recolors
//! and rotates on the way up so no red node gets a red child and every
//! path sees the same number of black nodes.
use vstd::prelude::*;

verus! {

/// The color of a node.
#[derive(Debug, PartialEq)]
pub enum Color {
    Red,
    Black,
}

/// A persistent red-black search tree over numbers.
#[derive(Debug, PartialEq)]
pub enum RedBlackTree {
    Leaf,
    Node { color: Color, element: i32, left: Box<RedBlackTree>, right: Box<RedBlackTree> },
}

/// The set of numbers a tree holds.
pub open spec fn rb_set(t: RedBlackTree) -> Set<i32>
    decreases t,
{
    match t {
        RedBlackTree::Leaf => Set::empty(),
        RedBlackTree::Node { color: _, element, left, right } => rb_set(*left).union(
            rb_set(*right),
        ).insert(element),
    }
}

/// The number of nodes.
pub open spec fn rb_size(t: RedBlackTree) -> nat
    decreases t,
{
    match t {
        RedBlackTree::Leaf => 0,
        RedBlackTree::Node { color: _, element: _, left, right } => 1 + rb_size(*left) + rb_size(
            *right,
        ),
    }
}

/// The search ordering: everything left is smaller, everything right is
/// larger, so no number occurs twice.
pub open spec fn rb_bst(t: RedBlackTree) -> bool
    decreases t,
{
    match t {
        RedBlackTree::Leaf => true,
        RedBlackTree::Node { color: _, element, left, right } => {
            &&& (forall|y: i32| rb_set(*left).contains(y) ==> y < element)
            &&& (forall|y: i32| rb_set(*right).contains(y) ==> y > element)
            &&& rb_bst(*left)
            &&& rb_bst(*right)
        },
    }
}

/// The black counts each leaf path reaches, starting from `c`: a leaf
/// counts once more, a black node adds one on both sides, a red node adds
/// nothing.
pub open spec fn count_black_spec(t: RedBlackTree, c: i32) -> Seq<i32>
    decreases t,
{
    match t {
        RedBlackTree::Leaf => seq![(c + 1) as i32],
        RedBlackTree::Node { color, element: _, left, right } => match color {
            Color::Black => count_black_spec(*left, (c + 1) as i32) + count_black_spec(
                *right,
                (c + 1) as i32,
            ),
            Color::Red => count_black_spec(*left, c) + count_black_spec(*right, c),
        },
    }
}

/// Whether no red node sits directly on a red child, at the root.
pub open spec fn red_has_black_spec(t: RedBlackTree) -> bool {
    match t {
        RedBlackTree::Node { color: Color::Red, element: _, left, right } => !((*left) matches
            RedBlackTree::Node { color: Color::Red, .. }) && !((*right) matches
            RedBlackTree::Node { color: Color::Red, .. }),
        _ => true,
    }
}

impl Color {
    /// An exact copy.
    pub fn dup(&self) -> (r: Self)
        ensures
            r == *self,
    {
        match self {
            Color::Red => Color::Red,
            Color::Black => Color::Black,
        }
    }
}

impl RedBlackTree {
    /// An exact copy.
    pub fn dup(&self) -> (r: Self)
        ensures
            r == *self,
        decreases *self,
    {
        match self {
            RedBlackTree::Leaf => RedBlackTree::Leaf,
            RedBlackTree::Node { color, element, left, right } => RedBlackTree::Node {
                color: color.dup(),
                element: *element,
                left: Box::new((&**left).dup()),
                right: Box::new((&**right).dup()),
            },
        }
    }

    /// The tree with no elements.
    pub fn empty() -> (r: Self)
        ensures
            r == RedBlackTree::Leaf,
            rb_set(r) == Set::<i32>::empty(),
            rb_bst(r),
    {
        RedBlackTree::Leaf
    }

    /// Whether the tree holds `x`.
    pub fn member(&self, x: &i32) -> (r: bool)
        requires
            rb_bst(*self),
        ensures
            r == rb_set(*self).contains(*x),
        decreases *self,
    {
        match self {
            RedBlackTree::Leaf => false,
            RedBlackTree::Node { color: _, element, left, right } => {
                let ghost me = *self;
                proof {
                    assert(rb_set(me) =~= rb_set(**left).union(rb_set(**right)).insert(
                        *element,
                    ));
                }
                if *x < *element {
                    let r = (&**left).member(x);
                    proof {
                        if rb_set(me).contains(*x) {
                            assert(rb_set(**left).contains(*x));
                        }
                    }
                    r
                } else if *x > *element {
                    let r = (&**right).member(x);
                    proof {
                        if rb_set(me).contains(*x) {
                            assert(rb_set(**right).contains(*x));
                        }
                    }
                    r
                } else {
                    true
                }
            },
        }
    }

    /// Rebuild one node, rotating any red child with a red grandchild up
    /// into a red parent with two black children.
    pub fn balance(color: &Color, element: &i32, left: &Self, right: &Self) -> (r: Self)
        requires
            rb_bst(*left),
            rb_bst(*right),
            forall|y: i32| rb_set(*left).contains(y) ==> y < *element,
            forall|y: i32| rb_set(*right).contains(y) ==> y > *element,
        ensures
            rb_bst(r),
            rb_set(r) == rb_set(*left).union(rb_set(*right)).insert(*element),
            r is Node,
    {
        let ghost goal = rb_set(*left).union(rb_set(*right)).insert(*element);
        proof {
            reveal_with_fuel(rb_set, 4);
            reveal_with_fuel(rb_bst, 4);
        }
        if matches!(color, Color::Black) {
            // A red left child with a red child of its own.
            if let RedBlackTree::Node { color: Color::Red, element: ly, left: l1, right: l2 } =
                left {
                proof {
                    assert(rb_set(*left) =~= rb_set(**l1).union(rb_set(**l2)).insert(*ly));
                }
                if let RedBlackTree::Node {
                    color: Color::Red,
                    element: x,
                    left: a,
                    right: b,
                } = &**l1 {
                    let ghost l1s = rb_set(**l1);
                    proof {
                        assert(l1s =~= rb_set(**a).union(rb_set(**b)).insert(*x));
                    }
                    let il = RedBlackTree::Node {
                        color: Color::Black,
                        element: *x,
                        left: Box::new((&**a).dup()),
                        right: Box::new((&**b).dup()),
                    };
                    let ir = RedBlackTree::Node {
                        color: Color::Black,
                        element: *element,
                        left: Box::new((&**l2).dup()),
                        right: Box::new(right.dup()),
                    };
                    let r = RedBlackTree::Node {
                        color: Color::Red,
                        element: *ly,
                        left: Box::new(il),
                        right: Box::new(ir),
                    };
                    proof {
                        assert(rb_set(il) =~= l1s);
                        assert(rb_set(ir) =~= rb_set(**l2).union(rb_set(*right)).insert(
                            *element,
                        ));
                        assert(rb_set(*left).contains(*ly));
                        assert forall|z: i32| rb_set(ir).contains(z) implies z > *ly by {
                            if z != *element {
                                assert(rb_set(**l2).contains(z) || rb_set(*right).contains(z));
                                if rb_set(*right).contains(z) {
                                    assert(rb_set(*left).contains(*ly));
                                }
                            }
                        }
                        assert forall|z: i32| rb_set(il).contains(z) implies z < *ly by {
                            assert(rb_set(*left).contains(z));
                        }
                        assert forall|z: i32| rb_set(**l2).contains(z) implies z
                            < *element by {
                            assert(rb_set(*left).contains(z));
                        }
                        assert(rb_bst(r));
                        assert(rb_set(r) =~= goal);
                    }
                    return r;
                }
                if let RedBlackTree::Node {
                    color: Color::Red,
                    element: y2,
                    left: b,
                    right: c,
                } = &**l2 {
                    let ghost l2s = rb_set(**l2);
                    proof {
                        assert(l2s =~= rb_set(**b).union(rb_set(**c)).insert(*y2));
                    }
                    let il = RedBlackTree::Node {
                        color: Color::Black,
                        element: *ly,
                        left: Box::new((&**l1).dup()),
                        right: Box::new((&**b).dup()),
                    };
                    let ir = RedBlackTree::Node {
                        color: Color::Black,
                        element: *element,
                        left: Box::new((&**c).dup()),
                        right: Box::new(right.dup()),
                    };
                    let r = RedBlackTree::Node {
                        color: Color::Red,
                        element: *y2,
                        left: Box::new(il),
                        right: Box::new(ir),
                    };
                    proof {
                        assert(rb_set(il) =~= rb_set(**l1).union(rb_set(**b)).insert(*ly));
                        assert(rb_set(ir) =~= rb_set(**c).union(rb_set(*right)).insert(
                            *element,
                        ));
                        assert(rb_set(*left).contains(*y2));
                        assert forall|z: i32| rb_set(il).contains(z) implies z < *y2 by {
                            if z != *ly {
                                assert(rb_set(**l1).contains(z) || rb_set(**b).contains(z));
                            }
                        }
                        assert forall|z: i32| rb_set(ir).contains(z) implies z > *y2 by {
                            if z != *element {
                                assert(rb_set(**c).contains(z) || rb_set(*right).contains(z));
                                if rb_set(*right).contains(z) {
                                    assert(rb_set(*left).contains(*y2));
                                }
                            } else {
                                assert(rb_set(*left).contains(*y2));
                            }
                        }
                        assert forall|z: i32| rb_set(**l1).contains(z) implies z < *ly by {}
                        assert forall|z: i32| rb_set(**b).contains(z) implies z > *ly by {
                            assert(rb_set(**l2).contains(z));
                        }
                        assert forall|z: i32| rb_set(**c).contains(z) implies z < *element by {
                            assert(rb_set(**l2).contains(z));
                            assert(rb_set(*left).contains(z));
                        }
                        assert(rb_bst(r));
                        assert(rb_set(r) =~= goal);
                    }
                    return r;
                }
            }
            // A red right child with a red child of its own.
            if let RedBlackTree::Node { color: Color::Red, element: ry, left: r1, right: r2 } =
                right {
                proof {
                    assert(rb_set(*right) =~= rb_set(**r1).union(rb_set(**r2)).insert(*ry));
                }
                if let RedBlackTree::Node {
                    color: Color::Red,
                    element: y2,
                    left: b,
                    right: c,
                } = &**r1 {
                    let ghost r1s = rb_set(**r1);
                    proof {
                        assert(r1s =~= rb_set(**b).union(rb_set(**c)).insert(*y2));
                    }
                    let il = RedBlackTree::Node {
                        color: Color::Black,
                        element: *element,
                        left: Box::new(left.dup()),
                        right: Box::new((&**b).dup()),
                    };
                    let ir = RedBlackTree::Node {
                        color: Color::Black,
                        element: *ry,
                        left: Box::new((&**c).dup()),
                        right: Box::new((&**r2).dup()),
                    };
                    let r = RedBlackTree::Node {
                        color: Color::Red,
                        element: *y2,
                        left: Box::new(il),
                        right: Box::new(ir),
                    };
                    proof {
                        assert(rb_set(il) =~= rb_set(*left).union(rb_set(**b)).insert(
                            *element,
                        ));
                        assert(rb_set(ir) =~= rb_set(**c).union(rb_set(**r2)).insert(*ry));
                        assert(rb_set(*right).contains(*y2));
                        assert forall|z: i32| rb_set(**b).contains(z) implies z > *element && z
                            < *y2 by {
                            assert(rb_set(**r1).contains(z));
                            assert(rb_set(*right).contains(z));
                        }
                        assert forall|z: i32| rb_set(**c).contains(z) implies z > *y2 && z
                            < *ry by {
                            assert(rb_set(**r1).contains(z));
                        }
                        assert forall|z: i32| rb_set(il).contains(z) implies z < *y2 by {
                            if z != *element {
                                assert(rb_set(*left).contains(z) || rb_set(**b).contains(z));
                                if rb_set(*left).contains(z) {
                                    assert(rb_set(*right).contains(*y2));
                                }
                            } else {
                                assert(rb_set(*right).contains(*y2));
                            }
                        }
                        assert forall|z: i32| rb_set(ir).contains(z) implies z > *y2 by {
                            if z != *ry {
                                assert(rb_set(**c).contains(z) || rb_set(**r2).contains(z));
                                if rb_set(**r2).contains(z) {
                                    assert(rb_set(*right).contains(*y2));
                                }
                            } else {
                                assert(rb_set(*right).contains(*y2));
                            }
                        }
                        assert(rb_bst(r));
                        assert(rb_set(r) =~= goal);
                    }
                    return r;
                }
                if let RedBlackTree::Node {
                    color: Color::Red,
                    element: z,
                    left: c,
                    right: d,
                } = &**r2 {
                    let ghost r2s = rb_set(**r2);
                    proof {
                        assert(r2s =~= rb_set(**c).union(rb_set(**d)).insert(*z));
                    }
                    let il = RedBlackTree::Node {
                        color: Color::Black,
                        element: *element,
                        left: Box::new(left.dup()),
                        right: Box::new((&**r1).dup()),
                    };
                    let ir = RedBlackTree::Node {
                        color: Color::Black,
                        element: *z,
                        left: Box::new((&**c).dup()),
                        right: Box::new((&**d).dup()),
                    };
                    let r = RedBlackTree::Node {
                        color: Color::Red,
                        element: *ry,
                        left: Box::new(il),
                        right: Box::new(ir),
                    };
                    proof {
                        assert(rb_set(il) =~= rb_set(*left).union(rb_set(**r1)).insert(
                            *element,
                        ));
                        assert(rb_set(ir) =~= rb_set(**c).union(rb_set(**d)).insert(*z));
                        assert(rb_set(*right).contains(*ry));
                        assert forall|z0: i32| rb_set(**r1).contains(z0) implies z0 > *element
                            && z0 < *ry by {
                            assert(rb_set(*right).contains(z0));
                        }
                        assert forall|z0: i32| rb_set(il).contains(z0) implies z0 < *ry by {
                            if z0 != *element {
                                assert(rb_set(*left).contains(z0) || rb_set(**r1).contains(z0));
                                if rb_set(*left).contains(z0) {
                                    assert(rb_set(*right).contains(*ry));
                                }
                            } else {
                                assert(rb_set(*right).contains(*ry));
                            }
                        }
                        assert forall|z0: i32| rb_set(ir).contains(z0) implies z0 > *ry by {
                            if z0 != *z {
                                assert(rb_set(**c).contains(z0) || rb_set(**d).contains(z0));
                                assert(rb_set(**r2).contains(z0));
                            } else {
                                assert(rb_set(**r2).contains(*z));
                            }
                        }
                        assert forall|z0: i32| rb_set(**c).contains(z0) implies z0 < *z by {}
                        assert forall|z0: i32| rb_set(**d).contains(z0) implies z0 > *z by {}
                        assert(rb_bst(r));
                        assert(rb_set(r) =~= goal);
                    }
                    return r;
                }
            }
        }
        let r = RedBlackTree::Node {
            color: color.dup(),
            element: *element,
            left: Box::new(left.dup()),
            right: Box::new(right.dup()),
        };
        proof {
            assert(rb_set(r) =~= goal);
        }
        r
    }

    /// Insert on the way down, balancing on the way up; an element already
    /// present leaves the tree unchanged.
    pub fn insert_inner(&self, x: &i32) -> (r: Self)
        requires
            rb_bst(*self),
        ensures
            rb_bst(r),
            rb_set(r) == rb_set(*self).insert(*x),
            r is Node,
        decreases *self,
    {
        match self {
            RedBlackTree::Leaf => {
                let r = RedBlackTree::Node {
                    color: Color::Red,
                    element: *x,
                    left: Box::new(RedBlackTree::Leaf),
                    right: Box::new(RedBlackTree::Leaf),
                };
                proof {
                    assert(rb_set(r) =~= rb_set(*self).insert(*x));
                }
                r
            },
            RedBlackTree::Node { color, element, left, right } => {
                let ghost me = *self;
                proof {
                    assert(rb_set(me) =~= rb_set(**left).union(rb_set(**right)).insert(
                        *element,
                    ));
                }
                if *x < *element {
                    let grown = (&**left).insert_inner(x);
                    let r = RedBlackTree::balance(color, element, &grown, &**right);
                    proof {
                        assert(rb_set(r) =~= rb_set(me).insert(*x));
                    }
                    r
                } else if *x > *element {
                    let grown = (&**right).insert_inner(x);
                    let r = RedBlackTree::balance(color, element, &**left, &grown);
                    proof {
                        assert(rb_set(r) =~= rb_set(me).insert(*x));
                    }
                    r
                } else {
                    let r = self.dup();
                    proof {
                        assert(rb_set(r) =~= rb_set(me).insert(*x));
                    }
                    r
                }
            },
        }
    }

    /// The tree with `x` added and the root painted black.
    pub fn insert(&self, x: i32) -> (r: Self)
        requires
            rb_bst(*self),
        ensures
            rb_bst(r),
            rb_set(r) == rb_set(*self).insert(x),
    {
        let grown = self.insert_inner(&x);
        match grown {
            RedBlackTree::Node { color: _, element, left, right } => RedBlackTree::Node {
                color: Color::Black,
                element,
                left,
                right,
            },
            RedBlackTree::Leaf => unreached(),
        }
    }

    /// Build a tree holding exactly the given numbers.
    pub fn from_ordered_list(xs: Vec<i32>) -> (r: Self)
        ensures
            rb_bst(r),
            rb_set(r) == xs@.to_set(),
    {
        let mut acc = RedBlackTree::Leaf;
        let mut i: usize = 0;
        proof {
            broadcast use vstd::seq_lib::group_seq_properties;

            assert(xs@.take(0).len() == 0);
            assert(rb_set(acc) =~= xs@.take(0).to_set());
        }
        while i < xs.len()
            invariant
                i <= xs@.len(),
                rb_bst(acc),
                rb_set(acc) == xs@.take(i as int).to_set(),
            decreases xs@.len() - i,
        {
            let ghost before = acc;
            acc = acc.insert(xs[i]);
            proof {
                broadcast use vstd::seq_lib::group_seq_properties;

                assert(xs@.take(i + 1) =~= xs@.take(i as int).push(xs@[i as int]));
                assert forall|y: i32| xs@.take(i + 1).to_set().contains(y) implies rb_set(
                    acc,
                ).contains(y) by {
                    assert(xs@.take(i + 1).contains(y));
                    let k = choose|k: int|
                        0 <= k < xs@.take(i + 1).len() && #[trigger] xs@.take(i + 1)[k] == y;
                    if k < i {
                        assert(xs@.take(i as int)[k] == y);
                        assert(xs@.take(i as int).contains(y));
                    }
                }
                assert forall|y: i32| rb_set(acc).contains(y) implies xs@.take(
                    i + 1,
                ).to_set().contains(y) by {
                    if y != xs@[i as int] {
                        assert(xs@.take(i as int).to_set().contains(y));
                        assert(xs@.take(i as int).contains(y));
                        let k = choose|k: int|
                            0 <= k < xs@.take(i as int).len() && #[trigger] xs@.take(i as int)[k]
                                == y;
                        assert(xs@.take(i + 1)[k] == y);
                        assert(xs@.take(i + 1).contains(y));
                    } else {
                        assert(xs@.take(i + 1)[i as int] == y);
                        assert(xs@.take(i + 1).contains(y));
                    }
                }
                assert(rb_set(acc) =~= xs@.take(i + 1).to_set());
            }
            i = i + 1;
        }
        proof {
            assert(xs@.take(xs@.len() as int) =~= xs@);
        }
        acc
    }

    /// Whether no red node here sits directly on a red child.
    pub fn is_red_has_black(this: &RedBlackTree) -> (r: bool)
        ensures
            r == red_has_black_spec(*this),
    {
        match this {
            RedBlackTree::Node { color: Color::Red, element: _, left, right } => {
                let left_red = matches!(
                    &**left,
                    RedBlackTree::Node { color: Color::Red, .. }
                );
                let right_red = matches!(
                    &**right,
                    RedBlackTree::Node { color: Color::Red, .. }
                );
                !left_red && !right_red
            },
            _ => true,
        }
    }

    /// The black counts every leaf path reaches, starting from `count`.
    pub fn count_black(this: &RedBlackTree, count: i32) -> (v: Vec<i32>)
        requires
            0 <= count,
            count + rb_size(*this) + 1 <= i32::MAX,
        ensures
            v@ == count_black_spec(*this, count),
        decreases *this,
    {
        match this {
            RedBlackTree::Leaf => {
                let mut v = Vec::new();
                v.push(count + 1);
                proof {
                    assert(v@ =~= count_black_spec(*this, count));
                }
                v
            },
            RedBlackTree::Node { color, element: _, left, right } => {
                let ghost me = *this;
                let next = match color {
                    Color::Black => count + 1,
                    Color::Red => count,
                };
                let mut v = RedBlackTree::count_black(&**left, next);
                let mut w = RedBlackTree::count_black(&**right, next);
                v.append(&mut w);
                proof {
                    assert(v@ =~= count_black_spec(me, count));
                }
                v
            },
        }
    }

    /// Whether every leaf path reaches the same black count.
    pub fn has_same_blacks(this: &RedBlackTree) -> (r: bool)
        requires
            rb_size(*this) + 1 <= i32::MAX,
        ensures
            r == (forall|i: int|
                0 <= i < count_black_spec(*this, 0).len() ==> #[trigger] count_black_spec(
                    *this,
                    0,
                )[i] == count_black_spec(*this, 0)[0]),
    {
        let blacks = RedBlackTree::count_black(this, 0);
        if blacks.len() == 0 {
            return true;
        }
        let first = blacks[0];
        let mut i: usize = 0;
        let mut ok = true;
        while i < blacks.len()
            invariant
                i <= blacks@.len(),
                blacks@.len() > 0,
                first == blacks@[0],
                ok == (forall|k: int| 0 <= k < i ==> #[trigger] blacks@[k] == blacks@[0]),
            decreases blacks@.len() - i,
        {
            let ghost old_ok = ok;
            let same_here = blacks[i] == first;
            proof {
                if old_ok && same_here {
                    assert(forall|k: int| 0 <= k < i + 1 ==> #[trigger] blacks@[k] == blacks@[0]);
                }
            }
            ok = ok && same_here;
            i = i + 1;
        }
        ok
    }
}

} // verus!

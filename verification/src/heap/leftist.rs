//! A persistent leftist-style min-heap with rank-directed merging, a
//! pairwise bottom-up builder, and a weight-biased merge variant.
use vstd::prelude::*;
use vstd::multiset::Multiset;

use crate::heap::Heap;

verus! {

/// A persistent min-heap node: rank, element, left and right child.
#[derive(Debug, PartialEq)]
pub enum LeftistHeap {
    Leaf,
    Node(i32, i32, Box<LeftistHeap>, Box<LeftistHeap>),
}

/// The bag of elements a heap holds.
pub open spec fn lh_mset(t: LeftistHeap) -> Multiset<i32>
    decreases t,
{
    match t {
        LeftistHeap::Leaf => Multiset::empty(),
        LeftistHeap::Node(_, x, l, r) => lh_mset(*l).add(lh_mset(*r)).insert(x),
    }
}

/// The rank stored at the root.
pub open spec fn lh_rank(t: LeftistHeap) -> int {
    match t {
        LeftistHeap::Leaf => 0,
        LeftistHeap::Node(k, _, _, _) => k as int,
    }
}

/// Well-formed: every node's element is no larger than anything below it,
/// and every stored rank is positive and at most twice the subtree's size.
pub open spec fn lh_wf(t: LeftistHeap) -> bool
    decreases t,
{
    match t {
        LeftistHeap::Leaf => true,
        LeftistHeap::Node(k, x, l, r) => {
            &&& 1 <= k && k + 1 <= 2 * lh_mset(t).len()
            &&& (forall|y: i32| lh_mset(*l).count(y) > 0 ==> x <= y)
            &&& (forall|y: i32| lh_mset(*r).count(y) > 0 ==> x <= y)
            &&& lh_wf(*l)
            &&& lh_wf(*r)
        },
    }
}

/// The number of nodes below a heap.
pub open spec fn lh_count(t: LeftistHeap) -> nat
    decreases t,
{
    match t {
        LeftistHeap::Leaf => 0,
        LeftistHeap::Node(_, _, l, r) => 1 + lh_count(*l) + lh_count(*r),
    }
}

/// The leftist discipline over the whole tree: at every node the left
/// child's stored rank is at least the right child's.
pub open spec fn lh_leftist(t: LeftistHeap) -> bool
    decreases t,
{
    match t {
        LeftistHeap::Leaf => true,
        LeftistHeap::Node(_, _, l, r) => lh_rank(*l) >= lh_rank(*r) && lh_leftist(*l)
            && lh_leftist(*r),
    }
}

/// The rank comparisons the leftist discipline asks of two siblings.
pub open spec fn leftist_inner(left: LeftistHeap, right: LeftistHeap) -> bool
    decreases lh_count(left) + lh_count(right),
{
    match (left, right) {
        (LeftistHeap::Node(_, _, ll, lr), LeftistHeap::Leaf) => leftist_inner(*ll, *lr),
        (LeftistHeap::Leaf, LeftistHeap::Node(_, _, _, _)) => false,
        (LeftistHeap::Leaf, LeftistHeap::Leaf) => true,
        (LeftistHeap::Node(lk, _, ll, lr), LeftistHeap::Node(rk, _, rl, rr)) => lk >= rk
            && leftist_inner(*ll, *lr) && leftist_inner(*rl, *rr),
    }
}

/// Whether a heap is a non-empty tree whose siblings keep the leftist
/// rank discipline.
pub open spec fn leftist_shape(t: LeftistHeap) -> bool {
    match t {
        LeftistHeap::Node(_, _, l, r) => leftist_inner(*l, *r),
        LeftistHeap::Leaf => false,
    }
}

/// Whether every element of the heap is at least `min`.
pub open spec fn ordered_above(t: LeftistHeap, min: i32) -> bool
    decreases t,
{
    match t {
        LeftistHeap::Leaf => true,
        LeftistHeap::Node(_, x, l, r) => min <= x && ordered_above(*l, x) && ordered_above(*r, x),
    }
}

/// A well-formed non-empty heap's root is its smallest element.
pub proof fn lemma_lh_root_min(t: LeftistHeap)
    requires
        lh_wf(t),
        t is Node,
    ensures
        forall|y: i32| lh_mset(t).count(y) > 0 ==> t->Node_1 <= y,
        lh_mset(t).count(t->Node_1) > 0,
        lh_mset(t).len() > 0,
{
    let x = t->Node_1;
    let l = *t->Node_2;
    let r = *t->Node_3;
    assert(lh_mset(t) =~= lh_mset(l).add(lh_mset(r)).insert(x));
    assert forall|y: i32| lh_mset(t).count(y) > 0 implies x <= y by {
        if y != x {
            assert(lh_mset(l).count(y) > 0 || lh_mset(r).count(y) > 0);
        }
    }
    assert(lh_mset(t).count(x) >= 1);
}

/// The bag of elements held by a vector of heaps.
pub open spec fn heaps_mset(q: Seq<LeftistHeap>) -> Multiset<i32>
    decreases q.len(),
{
    if q.len() == 0 {
        Multiset::empty()
    } else {
        lh_mset(q[0]).add(heaps_mset(q.drop_first()))
    }
}

impl LeftistHeap {
    /// An exact copy.
    pub fn dup(&self) -> (r: Self)
        ensures
            r == *self,
        decreases *self,
    {
        match self {
            LeftistHeap::Leaf => LeftistHeap::Leaf,
            LeftistHeap::Node(k, x, l, r) => LeftistHeap::Node(
                *k,
                *x,
                Box::new((&**l).dup()),
                Box::new((&**r).dup()),
            ),
        }
    }

    /// The stored rank of the root.
    pub fn rank(&self) -> (r: i32)
        ensures
            r == lh_rank(*self),
    {
        match self {
            LeftistHeap::Node(rank, _, _, _) => *rank,
            LeftistHeap::Leaf => 0,
        }
    }

    /// A node with `root` on top of these two heaps, the higher rank
    /// placed left.
    pub fn make_tree(&self, other: &Self, root: i32) -> (r: Self)
        requires
            lh_wf(*self),
            lh_wf(*other),
            forall|y: i32| lh_mset(*self).count(y) > 0 ==> root <= y,
            forall|y: i32| lh_mset(*other).count(y) > 0 ==> root <= y,
            lh_mset(*self).len() + lh_mset(*other).len() < 0x4000_0000,
        ensures
            lh_wf(r),
            lh_mset(r) == lh_mset(*self).add(lh_mset(*other)).insert(root),
            r is Node,
            lh_leftist(*self) && lh_leftist(*other) ==> lh_leftist(r),
    {
        let self_rank = self.rank();
        let other_rank = other.rank();
        proof {
            lemma_lh_rank_le_size(*self);
            lemma_lh_rank_le_size(*other);
        }
        let rank = if self_rank >= other_rank {
            self_rank
        } else {
            other_rank
        } + 1;
        let r = if self_rank >= other_rank {
            LeftistHeap::Node(rank, root, Box::new(self.dup()), Box::new(other.dup()))
        } else {
            LeftistHeap::Node(rank, root, Box::new(other.dup()), Box::new(self.dup()))
        };
        proof {
            assert(lh_mset(r) =~= lh_mset(*self).add(lh_mset(*other)).insert(root));
        }
        r
    }

    /// The weight-biased insert: merge with a fresh one-element node.
    pub fn insert_with_wb(&self, x: i32) -> (r: Self)
        requires
            lh_wf(*self),
            lh_mset(*self).len() < 0x3fff_ffff,
        ensures
            lh_wf(r),
            lh_mset(r) == lh_mset(*self).insert(x),
    {
        let single = LeftistHeap::Node(1, x, Box::new(LeftistHeap::Leaf), Box::new(
            LeftistHeap::Leaf,
        ));
        proof {
            reveal_with_fuel(lh_mset, 3);
            reveal_with_fuel(lh_wf, 3);
            assert(lh_mset(single) =~= Multiset::<i32>::empty().insert(x));
            assert(lh_wf(single));
        }
        let r = self.merge_with_wb(&single);
        proof {
            assert(lh_mset(*self).add(lh_mset(single)) =~= lh_mset(*self).insert(x));
        }
        r
    }

    /// The weight-biased merge: ranks are added instead of recomputed, and
    /// the heavier side keeps its place on the left.
    pub fn merge_with_wb(&self, other: &Self) -> (r: Self)
        requires
            lh_wf(*self),
            lh_wf(*other),
            lh_mset(*self).len() + lh_mset(*other).len() < 0x4000_0000,
        ensures
            lh_wf(r),
            lh_mset(r) == lh_mset(*self).add(lh_mset(*other)),
    {
        match (self, other) {
            (LeftistHeap::Leaf, LeftistHeap::Node(_, _, _, _)) => {
                let r = other.dup();
                proof {
                    assert(lh_mset(r) =~= lh_mset(*self).add(lh_mset(*other)));
                }
                r
            },
            (LeftistHeap::Node(_, _, _, _), LeftistHeap::Leaf) | (
                LeftistHeap::Leaf,
                LeftistHeap::Leaf,
            ) => {
                let r = self.dup();
                proof {
                    assert(lh_mset(r) =~= lh_mset(*self).add(lh_mset(*other)));
                }
                r
            },
            (
                LeftistHeap::Node(s_rank, s_element, s_left, s_right),
                LeftistHeap::Node(o_rank, o_element, o_left, o_right),
            ) => {
                proof {
                    lemma_lh_root_min(*self);
                    lemma_lh_root_min(*other);
                    lemma_lh_rank_le_size(*self);
                    lemma_lh_rank_le_size(*other);
                    assert(lh_mset(*self) =~= lh_mset(**s_left).add(lh_mset(**s_right)).insert(
                        *s_element,
                    ));
                    assert(lh_mset(*other) =~= lh_mset(**o_left).add(lh_mset(**o_right)).insert(
                        *o_element,
                    ));
                }
                let rank = *s_rank + *o_rank + 1;
                if *s_element <= *o_element {
                    proof {
                        assert forall|y: i32|
                            lh_mset(**s_left).add(lh_mset(**s_right)).count(y) > 0 implies
                            *s_element <= y by {
                            assert(lh_mset(**s_left).count(y) > 0 || lh_mset(**s_right).count(y)
                                > 0);
                        }
                        assert forall|y: i32| lh_mset(*other).count(y) > 0 implies *s_element
                            <= y by {}
                    }
                    let inner = (&**s_left).merge(&**s_right);
                    let (left, right) = if *s_rank > *o_rank {
                        (inner, other.dup())
                    } else {
                        (other.dup(), inner)
                    };
                    let r = LeftistHeap::Node(rank, *s_element, Box::new(left), Box::new(right));
                    proof {
                        broadcast use vstd::multiset::group_multiset_axioms;

                        assert(lh_mset(r) =~= lh_mset(*self).add(lh_mset(*other)));
                        assert(lh_mset(left).add(lh_mset(right)) =~= lh_mset(*self).add(lh_mset(
                            *other,
                        )).remove(*s_element));
                        assert(1 <= *s_rank && *s_rank + 1 <= 2 * lh_mset(*self).len());
                        assert(1 <= *o_rank && *o_rank + 1 <= 2 * lh_mset(*other).len());
                        assert(lh_mset(r).len() == lh_mset(*self).len() + lh_mset(
                            *other,
                        ).len());
                        assert(1 <= rank && rank + 1 <= 2 * lh_mset(r).len());
                        assert(lh_wf(r));
                    }
                    r
                } else {
                    proof {
                        assert forall|y: i32|
                            lh_mset(**o_left).add(lh_mset(**o_right)).count(y) > 0 implies
                            *o_element <= y by {
                            assert(lh_mset(**o_left).count(y) > 0 || lh_mset(**o_right).count(y)
                                > 0);
                        }
                        assert forall|y: i32| lh_mset(*self).count(y) > 0 implies *o_element
                            <= y by {}
                    }
                    let inner = (&**o_left).merge(&**o_right);
                    let (left, right) = if *s_rank > *o_rank {
                        (self.dup(), inner)
                    } else {
                        (inner, self.dup())
                    };
                    let r = LeftistHeap::Node(rank, *o_element, Box::new(left), Box::new(right));
                    proof {
                        broadcast use vstd::multiset::group_multiset_axioms;

                        assert(lh_mset(r) =~= lh_mset(*self).add(lh_mset(*other)));
                        assert(lh_mset(left).add(lh_mset(right)) =~= lh_mset(*self).add(lh_mset(
                            *other,
                        )).remove(*o_element));
                        assert(1 <= *s_rank && *s_rank + 1 <= 2 * lh_mset(*self).len());
                        assert(1 <= *o_rank && *o_rank + 1 <= 2 * lh_mset(*other).len());
                        assert(lh_mset(r).len() == lh_mset(*self).len() + lh_mset(
                            *other,
                        ).len());
                        assert(1 <= rank && rank + 1 <= 2 * lh_mset(r).len());
                        assert(lh_wf(r));
                    }
                    r
                }
            },
        }
    }

    /// Merge a vector of heaps pairwise until one heap is left.
    pub fn from_list_impl(xs: Vec<LeftistHeap>) -> (r: Self)
        requires
            forall|i: int| 0 <= i < xs@.len() ==> lh_wf(#[trigger] xs@[i]),
            heaps_mset(xs@).len() < 0x1000_0000,
        ensures
            lh_wf(r),
            lh_mset(r) == heaps_mset(xs@),
        decreases xs@.len(),
    {
        if xs.len() == 0 {
            proof {
                assert(heaps_mset(xs@) =~= Multiset::<i32>::empty());
            }
            LeftistHeap::Leaf
        } else if xs.len() == 1 {
            let r = xs[0].dup();
            proof {
                assert(heaps_mset(xs@) =~= lh_mset(xs@[0]).add(heaps_mset(xs@.drop_first())));
                assert(xs@.drop_first().len() == 0);
                assert(heaps_mset(xs@.drop_first()) =~= Multiset::<i32>::empty());
                assert(lh_mset(r) =~= heaps_mset(xs@));
            }
            r
        } else {
            let mut paired: Vec<LeftistHeap> = Vec::new();
            let mut i: usize = 0;
            proof {
                assert(heaps_mset(xs@.take(0)) =~= Multiset::<i32>::empty());
            }
            while i + 1 < xs.len()
                invariant
                    i % 2 == 0,
                    i <= xs@.len(),
                    forall|k: int| 0 <= k < xs@.len() ==> lh_wf(#[trigger] xs@[k]),
                    heaps_mset(xs@).len() < 0x1000_0000,
                    forall|k: int| 0 <= k < paired@.len() ==> lh_wf(#[trigger] paired@[k]),
                    heaps_mset(paired@) == heaps_mset(xs@.take(i as int)),
                    2 * paired@.len() == i,
                decreases xs@.len() - i,
            {
                proof {
                    lemma_heaps_mset_split(xs@, i as int);
                    assert(xs@.skip(i as int).drop_first() =~= xs@.skip(i + 1));
                    assert(xs@.skip(i as int)[0] == xs@[i as int]);
                    assert(heaps_mset(xs@.skip(i as int)) == lh_mset(xs@[i as int]).add(
                        heaps_mset(xs@.skip(i + 1)),
                    ));
                    assert(xs@.skip(i + 1).drop_first() =~= xs@.skip(i + 2));
                    assert(xs@.skip(i + 1)[0] == xs@[i + 1]);
                    assert(heaps_mset(xs@.skip(i + 1)) == lh_mset(xs@[i + 1]).add(
                        heaps_mset(xs@.skip(i + 2)),
                    ));
                }
                let merged = xs[i].merge(&xs[i + 1]);
                let ghost old_paired = paired@;
                paired.push(merged);
                proof {
                    lemma_heaps_mset_push(old_paired, merged);
                    lemma_heaps_mset_prefix(xs@, i as int);
                    lemma_heaps_mset_prefix(xs@, i + 1);
                }
                i = i + 2;
            }
            if i < xs.len() {
                let last = xs[i].dup();
                let ghost old_paired = paired@;
                paired.push(last);
                proof {
                    lemma_heaps_mset_push(old_paired, last);
                    lemma_heaps_mset_prefix(xs@, i as int);
                    assert(xs@.take(i + 1) =~= xs@);
                }
            } else {
                proof {
                    assert(xs@.take(i as int) =~= xs@);
                }
            }
            LeftistHeap::from_list_impl(paired)
        }
    }

    /// Build a heap holding exactly the given numbers.
    pub fn from_list(xs: Vec<i32>) -> (r: Self)
        requires
            xs@.len() < 0x1000_0000,
        ensures
            lh_wf(r),
            lh_mset(r) == xs@.to_multiset(),
    {
        let mut singles: Vec<LeftistHeap> = Vec::new();
        let mut i: usize = 0;
        proof {
            broadcast use vstd::seq_lib::group_to_multiset_ensures;

            assert(xs@.take(0).len() == 0);
            assert(xs@.take(0).to_multiset() =~= Multiset::<i32>::empty());
            assert(heaps_mset(singles@) =~= xs@.take(0).to_multiset());
        }
        while i < xs.len()
            invariant
                i <= xs@.len(),
                xs@.len() < 0x1000_0000,
                forall|k: int| 0 <= k < singles@.len() ==> lh_wf(#[trigger] singles@[k]),
                heaps_mset(singles@) == xs@.take(i as int).to_multiset(),
                heaps_mset(singles@).len() == i,
                singles@.len() == i,
            decreases xs@.len() - i,
        {
            proof {
                broadcast use vstd::seq_lib::group_to_multiset_ensures;
            }
            let single = LeftistHeap::Node(1, xs[i], Box::new(LeftistHeap::Leaf), Box::new(
                LeftistHeap::Leaf,
            ));
            let ghost old_singles = singles@;
            proof {
                reveal_with_fuel(lh_mset, 3);
                reveal_with_fuel(lh_wf, 3);
                assert(lh_mset(single) =~= Multiset::<i32>::empty().insert(xs@[i as int]));
                assert(lh_wf(single));
            }
            singles.push(single);
            proof {
                broadcast use vstd::seq_lib::group_to_multiset_ensures;

                lemma_heaps_mset_push(old_singles, single);
                assert(xs@.take(i + 1) =~= xs@.take(i as int).push(xs@[i as int]));
            }
            i = i + 1;
        }
        proof {
            assert(xs@.take(xs@.len() as int) =~= xs@);
        }
        LeftistHeap::from_list_impl(singles)
    }

    /// Decide the leftist rank discipline between two siblings.
    pub fn is_leftist_inner(left: &LeftistHeap, right: &LeftistHeap) -> (r: bool)
        ensures
            r == leftist_inner(*left, *right),
        decreases lh_count(*left) + lh_count(*right),
    {
        match (left, right) {
            (LeftistHeap::Node(_, _, ll, lr), LeftistHeap::Leaf) => LeftistHeap::is_leftist_inner(
                &**ll,
                &**lr,
            ),
            (LeftistHeap::Leaf, LeftistHeap::Node(_, _, _, _)) => false,
            (LeftistHeap::Leaf, LeftistHeap::Leaf) => true,
            (LeftistHeap::Node(lk, _, ll, lr), LeftistHeap::Node(rk, _, rl, rr)) => *lk >= *rk
                && LeftistHeap::is_leftist_inner(&**ll, &**lr) && LeftistHeap::is_leftist_inner(
                &**rl,
                &**rr,
            ),
        }
    }

    /// Decide whether a heap is a non-empty leftist tree.
    pub fn is_leftist(x: &LeftistHeap) -> (r: bool)
        ensures
            r == leftist_shape(*x),
    {
        if let LeftistHeap::Node(_, _, left, right) = x {
            LeftistHeap::is_leftist_inner(&**left, &**right)
        } else {
            false
        }
    }

    /// Decide whether every element is at least `min`.
    pub fn is_ordered(x: &LeftistHeap, min: &i32) -> (r: bool)
        ensures
            r == ordered_above(*x, *min),
        decreases *x,
    {
        match x {
            LeftistHeap::Leaf => true,
            LeftistHeap::Node(_, element, left, right) => (*min <= *element)
                && LeftistHeap::is_ordered(&**left, element) && LeftistHeap::is_ordered(
                &**right,
                element,
            ),
        }
    }
}

impl Heap for LeftistHeap {
    open spec fn mset(&self) -> Multiset<i32> {
        lh_mset(*self)
    }

    open spec fn inv(&self) -> bool {
        lh_wf(*self)
    }

    fn empty() -> Self {
        LeftistHeap::Leaf
    }

    fn dup(&self) -> Self {
        LeftistHeap::dup(self)
    }

    fn is_empty_heap(&self) -> (b: bool)
        ensures
            b == (self.mset().len() == 0),
    {
        match self {
            LeftistHeap::Leaf => true,
            LeftistHeap::Node(_, _, _, _) => {
                proof {
                    lemma_lh_root_min(*self);
                }
                false
            },
        }
    }

    fn insert(&self, x: i32) -> (r: Self)
        ensures
            lh_leftist(*self) ==> lh_leftist(r),
        decreases *self,
    {
        match self {
            LeftistHeap::Node(_, root, left, right) => {
                proof {
                    lemma_lh_root_min(*self);
                    assert(lh_mset(*self) =~= lh_mset(**left).add(lh_mset(**right)).insert(
                        *root,
                    ));
                }
                let r = if x <= *root {
                    let grown = (&**left).insert(*root);
                    proof {
                        assert forall|y: i32| lh_mset(grown).count(y) > 0 implies x <= y by {
                            assert(lh_mset(**left).count(y) > 0 || y == *root);
                        }
                        assert forall|y: i32| lh_mset(**right).count(y) > 0 implies x <= y by {}
                    }
                    (&**right).make_tree(&grown, x)
                } else {
                    let grown = (&**right).insert(x);
                    proof {
                        assert forall|y: i32| lh_mset(grown).count(y) > 0 implies *root <= y by {
                            assert(lh_mset(**right).count(y) > 0 || y == x);
                        }
                        assert forall|y: i32| lh_mset(**left).count(y) > 0 implies *root
                            <= y by {}
                    }
                    (&**left).make_tree(&grown, *root)
                };
                proof {
                    assert(lh_mset(r) =~= lh_mset(*self).insert(x));
                }
                r
            },
            LeftistHeap::Leaf => {
                let r = LeftistHeap::Node(1, x, Box::new(LeftistHeap::Leaf), Box::new(
                    LeftistHeap::Leaf,
                ));
                proof {
                    assert(lh_mset(r) =~= lh_mset(*self).insert(x));
                }
                r
            },
        }
    }

    fn merge(&self, other: &Self) -> (r: Self)
        ensures
            lh_leftist(*self) && lh_leftist(*other) ==> lh_leftist(r),
        decreases lh_mset(*self).len() + lh_mset(*other).len(),
    {
        match (self, other) {
            (LeftistHeap::Leaf, LeftistHeap::Node(_, _, _, _)) => {
                let r = other.dup();
                proof {
                    assert(lh_mset(r) =~= lh_mset(*self).add(lh_mset(*other)));
                }
                r
            },
            (LeftistHeap::Node(_, _, _, _), LeftistHeap::Leaf) | (
                LeftistHeap::Leaf,
                LeftistHeap::Leaf,
            ) => {
                let r = self.dup();
                proof {
                    assert(lh_mset(r) =~= lh_mset(*self).add(lh_mset(*other)));
                }
                r
            },
            (
                LeftistHeap::Node(_, s_element, s_left, s_right),
                LeftistHeap::Node(_, o_element, o_left, o_right),
            ) => {
                proof {
                    lemma_lh_root_min(*self);
                    lemma_lh_root_min(*other);
                    assert(lh_mset(*self) =~= lh_mset(**s_left).add(lh_mset(**s_right)).insert(
                        *s_element,
                    ));
                    assert(lh_mset(*other) =~= lh_mset(**o_left).add(lh_mset(**o_right)).insert(
                        *o_element,
                    ));
                }
                if *s_element <= *o_element {
                    let rest = (&**s_right).merge(other);
                    proof {
                        assert forall|y: i32| lh_mset(rest).count(y) > 0 implies *s_element
                            <= y by {
                            assert(lh_mset(**s_right).count(y) > 0 || lh_mset(*other).count(y)
                                > 0);
                        }
                    }
                    let r = (&**s_left).make_tree(&rest, *s_element);
                    proof {
                        assert(lh_mset(r) =~= lh_mset(*self).add(lh_mset(*other)));
                    }
                    r
                } else {
                    let rest = (&**o_right).merge(self);
                    proof {
                        assert forall|y: i32| lh_mset(rest).count(y) > 0 implies *o_element
                            <= y by {
                            assert(lh_mset(**o_right).count(y) > 0 || lh_mset(*self).count(y)
                                > 0);
                        }
                    }
                    let r = (&**o_left).make_tree(&rest, *o_element);
                    proof {
                        assert(lh_mset(r) =~= lh_mset(*self).add(lh_mset(*other)));
                    }
                    r
                }
            },
        }
    }

    fn find_min(&self) -> (m: Option<i32>) {
        match self {
            LeftistHeap::Leaf => None,
            LeftistHeap::Node(_, x, _, _) => {
                proof {
                    lemma_lh_root_min(*self);
                }
                Some(*x)
            },
        }
    }

    fn delete_min(&self) -> (r: Self)
        ensures
            *self is Leaf ==> r == *self,
            *self is Node ==> r.mset() == self.mset().remove(self->Node_1),
            lh_leftist(*self) ==> lh_leftist(r),
    {
        match self {
            LeftistHeap::Leaf => self.dup(),
            LeftistHeap::Node(_, _, left, right) => {
                proof {
                    lemma_lh_root_min(*self);
                    assert(lh_mset(*self) =~= lh_mset(**left).add(lh_mset(**right)).insert(
                        self->Node_1,
                    ));
                }
                let r = (&**left).merge(&**right);
                proof {
                    assert(lh_mset(r) =~= lh_mset(*self).remove(self->Node_1));
                }
                r
            },
        }
    }
}

/// A well-formed heap's stored root rank never exceeds twice its size.
proof fn lemma_lh_rank_le_size(t: LeftistHeap)
    requires
        lh_wf(t),
    ensures
        0 <= lh_rank(t) && lh_rank(t) + 1 <= 2 * lh_mset(t).len() + 1,
{
}

/// The bag of a prefix one longer grows by the heap at that position.
proof fn lemma_heaps_mset_prefix(q: Seq<LeftistHeap>, i: int)
    requires
        0 <= i < q.len(),
    ensures
        heaps_mset(q.take(i + 1)) == heaps_mset(q.take(i)).add(lh_mset(q[i])),
    decreases i,
{
    if i == 0 {
        assert(q.take(1).drop_first() =~= q.take(0));
        assert(heaps_mset(q.take(0)) =~= Multiset::<i32>::empty());
        assert(q.take(1)[0] == q[0]);
        assert(heaps_mset(q.take(1)) =~= heaps_mset(q.take(0)).add(lh_mset(q[0])));
    } else {
        lemma_heaps_mset_prefix(q.drop_first(), i - 1);
        assert(q.take(i + 1).drop_first() =~= q.drop_first().take(i));
        assert(q.take(i).drop_first() =~= q.drop_first().take(i - 1));
        assert(q.drop_first()[i - 1] == q[i]);
        assert(heaps_mset(q.take(i + 1)) =~= heaps_mset(q.take(i)).add(lh_mset(q[i])));
    }
}

/// Pushing a heap onto a vector adds its bag.
proof fn lemma_heaps_mset_push(q: Seq<LeftistHeap>, t: LeftistHeap)
    ensures
        heaps_mset(q.push(t)) == heaps_mset(q).add(lh_mset(t)),
    decreases q.len(),
{
    if q.len() == 0 {
        assert(q.push(t)[0] == t);
        assert(q.push(t).drop_first() =~= q);
        assert(heaps_mset(q) =~= Multiset::<i32>::empty());
        assert(heaps_mset(q.push(t)) =~= heaps_mset(q).add(lh_mset(t)));
    } else {
        lemma_heaps_mset_push(q.drop_first(), t);
        assert(q.push(t).drop_first() =~= q.drop_first().push(t));
        assert(q.push(t)[0] == q[0]);
        assert(heaps_mset(q.push(t)) =~= heaps_mset(q).add(lh_mset(t)));
    }
}

/// A vector's bag splits at any position into the prefix's and suffix's.
proof fn lemma_heaps_mset_split(q: Seq<LeftistHeap>, i: int)
    requires
        0 <= i <= q.len(),
    ensures
        heaps_mset(q) == heaps_mset(q.take(i)).add(heaps_mset(q.skip(i))),
    decreases i,
{
    if i == 0 {
        assert(q.take(0).len() == 0);
        assert(heaps_mset(q.take(0)) =~= Multiset::<i32>::empty());
        assert(q.skip(0) =~= q);
        assert(heaps_mset(q) =~= heaps_mset(q.take(0)).add(heaps_mset(q.skip(0))));
    } else {
        lemma_heaps_mset_split(q.drop_first(), i - 1);
        assert(q.take(i).drop_first() =~= q.drop_first().take(i - 1));
        assert(q.take(i)[0] == q[0]);
        assert(q.skip(i) =~= q.drop_first().skip(i - 1));
        assert(heaps_mset(q) =~= heaps_mset(q.take(i)).add(heaps_mset(q.skip(i))));
    }
}

} // verus!

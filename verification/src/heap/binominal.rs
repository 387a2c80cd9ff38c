//! A binominal persistent min-heap: a list of heap-ordered trees paired
//! with ranks, linked pairwise like binary addition.
use vstd::prelude::*;
use vstd::multiset::Multiset;

use crate::heap::Heap;
use crate::item::Item;
use crate::list::{stack_elems, List, Stack};

verus! {

/// One heap-ordered tree: the element on top, children collected in a
/// list of their own.
#[derive(Debug, PartialEq)]
pub struct BinominalTree {
    pub rank: i32,
    pub element: i32,
    pub children: Box<TreeList>,
}

/// The children of a binominal tree, newest first.
#[derive(Debug, PartialEq)]
pub enum TreeList {
    Nil,
    Node(BinominalTree, Box<TreeList>),
}

/// The heap: a stack of trees, each paired with a stored rank.
pub type BinominalHeap = Stack<(i32, BinominalTree)>;

/// The bag of elements in one tree.
pub open spec fn bt_mset(t: BinominalTree) -> Multiset<i32>
    decreases t,
{
    trees_mset(*t.children).insert(t.element)
}

/// The bag of elements in a list of trees.
pub open spec fn trees_mset(q: TreeList) -> Multiset<i32>
    decreases q,
{
    match q {
        TreeList::Nil => Multiset::empty(),
        TreeList::Node(t, rest) => bt_mset(t).add(trees_mset(*rest)),
    }
}

/// The bag of elements in a whole heap.
pub open spec fn bh_mset(q: Seq<(i32, BinominalTree)>) -> Multiset<i32>
    decreases q.len(),
{
    if q.len() == 0 {
        Multiset::empty()
    } else {
        bt_mset(q[0].1).add(bh_mset(q.drop_first()))
    }
}

/// Whether a tree is heap-ordered: the top element is no larger than
/// anything below it.
pub open spec fn bt_ord(t: BinominalTree) -> bool
    decreases t,
{
    &&& (forall|y: i32| trees_mset(*t.children).count(y) > 0 ==> t.element <= y)
    &&& trees_ord(*t.children)
}

pub open spec fn trees_ord(q: TreeList) -> bool
    decreases q,
{
    match q {
        TreeList::Nil => true,
        TreeList::Node(t, rest) => bt_ord(t) && trees_ord(*rest),
    }
}

/// Whether every tree of a heap is heap-ordered.
pub open spec fn bh_ord(q: Seq<(i32, BinominalTree)>) -> bool
    decreases q.len(),
{
    if q.len() == 0 {
        true
    } else {
        bt_ord(q[0].1) && bh_ord(q.drop_first())
    }
}

/// One more, stopping at the top of the range.
fn sat_inc(n: i32) -> (r: i32)
    ensures
        n < i32::MAX ==> r == n + 1,
        n == i32::MAX ==> r == n,
{
    if n < i32::MAX {
        n + 1
    } else {
        n
    }
}

/// One less, stopping at the bottom of the range.
fn sat_dec(n: i32) -> (r: i32)
    ensures
        n > i32::MIN ==> r == n - 1,
        n == i32::MIN ==> r == n,
{
    if n > i32::MIN {
        n - 1
    } else {
        n
    }
}

/// Splitting off the first tree splits the bag.
proof fn lemma_bh_first(q: Seq<(i32, BinominalTree)>)
    requires
        q.len() > 0,
    ensures
        bh_mset(q) == bt_mset(q[0].1).add(bh_mset(q.drop_first())),
        bh_ord(q) == (bt_ord(q[0].1) && bh_ord(q.drop_first())),
{
}

/// Two to the power `e`, exactly, for the spec side.
pub open spec fn pow_two_spec(e: int) -> int
    decreases e,
{
    if e <= 0 {
        1
    } else {
        2 * pow_two_spec(e - 1)
    }
}

/// What [`pow_of_two`] computes: exact for small exponents, pinned at the
/// edges of the range otherwise.
pub open spec fn pow_capped_spec(e: int) -> int {
    if e < 0 {
        1
    } else if e >= 31 {
        i32::MAX as int
    } else {
        pow_two_spec(e)
    }
}

/// The element count the stored ranks claim, summed with saturation.
pub open spec fn claimed_size_spec(q: Seq<(i32, BinominalTree)>) -> int
    decreases q.len(),
{
    if q.len() == 0 {
        0
    } else {
        let e = if q[0].0 > i32::MIN {
            q[0].0 - 1
        } else {
            -1
        };
        let here = pow_capped_spec(e);
        let rest = claimed_size_spec(q.drop_first());
        if here + rest <= i32::MAX {
            here + rest
        } else {
            i32::MAX as int
        }
    }
}

/// Whether the stored ranks, in order, are one more than the positions of
/// the set bits of `n`, reading bits from `pos` upward.
pub open spec fn ranks_match_bits_spec(q: Seq<(i32, BinominalTree)>, n: int, pos: int) -> bool
    decreases n,
{
    if n <= 0 {
        q.len() == 0
    } else if n % 2 == 1 {
        q.len() > 0 && q[0].0 == pos + 1 && ranks_match_bits_spec(q.drop_first(), n / 2, pos + 1)
    } else {
        ranks_match_bits_spec(q, n / 2, pos + 1)
    }
}

impl TreeList {
    /// An exact copy.
    pub fn dup(&self) -> (r: Self)
        ensures
            r == *self,
        decreases *self,
    {
        match self {
            TreeList::Nil => TreeList::Nil,
            TreeList::Node(t, rest) => TreeList::Node(t.dup(), Box::new((&**rest).dup())),
        }
    }

    /// Decide spec equality.
    pub fn same(&self, other: &Self) -> (r: bool)
        ensures
            r == (self == other),
        decreases *self,
    {
        match (self, other) {
            (TreeList::Nil, TreeList::Nil) => true,
            (TreeList::Node(t1, r1), TreeList::Node(t2, r2)) => t1.same(t2) && (&**r1).same(
                &**r2,
            ),
            _ => false,
        }
    }
}

impl Item for BinominalTree {
    fn dup(&self) -> (r: Self)
        ensures
            r == *self,
        decreases *self,
    {
        BinominalTree {
            rank: self.rank,
            element: self.element,
            children: Box::new((&*self.children).dup()),
        }
    }

    fn same(&self, other: &Self) -> (r: bool)
        ensures
            r == (self == other),
        decreases *self,
    {
        self.rank == other.rank && self.element == other.element && (&*self.children).same(
            &*other.children,
        )
    }
}

impl Item for (i32, BinominalTree) {
    fn dup(&self) -> (r: Self)
        ensures
            r == *self,
    {
        (self.0, self.1.dup())
    }

    fn same(&self, other: &Self) -> (r: bool)
        ensures
            r == (self == other),
    {
        self.0 == other.0 && self.1.same(&other.1)
    }
}

impl BinominalTree {
    /// The bag of this tree's elements, as the contracts see it.
    pub open spec fn mset(&self) -> Multiset<i32> {
        bt_mset(*self)
    }

    /// A tree holding one element and no children.
    pub fn new(element: i32) -> (r: Self)
        ensures
            r.mset() == Multiset::<i32>::empty().insert(element),
            bt_ord(r),
            r.rank == 0,
    {
        let r = BinominalTree { rank: 0, element, children: Box::new(TreeList::Nil) };
        proof {
            reveal_with_fuel(trees_mset, 2);
            assert(bt_mset(r) =~= Multiset::<i32>::empty().insert(element));
        }
        r
    }

    /// Link two trees: the smaller top wins and adopts the other as its
    /// first child; the winner's rank grows by one, saturating at the top
    /// of the range.
    pub fn link(&self, that: &Self) -> (r: Self)
        requires
            bt_ord(*self),
            bt_ord(*that),
        ensures
            bt_ord(r),
            r.mset() == self.mset().add(that.mset()),
    {
        proof {
            lemma_bt_root_min(*self);
            lemma_bt_root_min(*that);
        }
        let r = if self.element <= that.element {
            BinominalTree {
                rank: sat_inc(self.rank),
                element: self.element,
                children: Box::new(TreeList::Node(that.dup(), Box::new((&*self.children).dup()))),
            }
        } else {
            BinominalTree {
                rank: sat_inc(self.rank),
                element: that.element,
                children: Box::new(TreeList::Node(self.dup(), Box::new((&*that.children).dup()))),
            }
        };
        proof {
            if self.element <= that.element {
                assert(trees_mset(*r.children) =~= bt_mset(*that).add(trees_mset(
                    *self.children,
                )));
                assert forall|y: i32| trees_mset(*r.children).count(y) > 0 implies r.element
                    <= y by {
                    if bt_mset(*that).count(y) == 0 {
                        assert(trees_mset(*self.children).count(y) > 0);
                    }
                }
            } else {
                assert(trees_mset(*r.children) =~= bt_mset(*self).add(trees_mset(
                    *that.children,
                )));
                assert forall|y: i32| trees_mset(*r.children).count(y) > 0 implies r.element
                    <= y by {
                    if bt_mset(*self).count(y) == 0 {
                        assert(trees_mset(*that.children).count(y) > 0);
                    }
                }
            }
            assert(bt_ord(r));
            assert(bt_mset(r) =~= bt_mset(*self).add(bt_mset(*that)));
        }
        r
    }
}

/// A heap-ordered tree's top element is its smallest.
proof fn lemma_bt_root_min(t: BinominalTree)
    requires
        bt_ord(t),
    ensures
        forall|y: i32| bt_mset(t).count(y) > 0 ==> t.element <= y,
        bt_mset(t).count(t.element) > 0,
        bt_mset(t).len() > 0,
{
    assert forall|y: i32| bt_mset(t).count(y) > 0 implies t.element <= y by {
        if y != t.element {
            assert(trees_mset(*t.children).count(y) > 0);
        }
    }
    assert(bt_mset(t).count(t.element) >= 1);
}

impl Stack<(i32, BinominalTree)> {
    /// The bag of the whole heap, as the contracts see it.
    pub open spec fn hmset(&self) -> Multiset<i32> {
        bh_mset(stack_elems(*self))
    }

    /// Re-pair a stack of trees with ranks counting down from `rank - 1`,
    /// reversing their order.
    pub fn from_list(xs: TreeList, rank: i32) -> (r: BinominalHeap)
        requires
            trees_ord(xs),
        ensures
            bh_ord(stack_elems(r)),
            r.hmset() == trees_mset(xs),
    {
        let r = Self::from_list_acc(xs, rank, Stack::Nil);
        proof {
            assert(stack_elems(Stack::<(i32, BinominalTree)>::Nil) =~= Seq::<
                (i32, BinominalTree),
            >::empty());
            assert(r.hmset() =~= trees_mset(xs));
        }
        r
    }

    /// Walk the trees, prepending each with the next lower rank, so the
    /// result carries them in reverse with ranks counting up.
    pub fn from_list_acc(xs: TreeList, rank: i32, acc: BinominalHeap) -> (r: BinominalHeap)
        requires
            trees_ord(xs),
            bh_ord(stack_elems(acc)),
        ensures
            bh_ord(stack_elems(r)),
            r.hmset() == trees_mset(xs).add(acc.hmset()),
        decreases xs,
    {
        match xs {
            TreeList::Nil => {
                proof {
                    assert(acc.hmset() =~= trees_mset(xs).add(acc.hmset()));
                }
                acc
            },
            TreeList::Node(head, tail) => {
                let ghost xs0 = xs;
                let ghost head0 = head;
                let ghost acc0 = acc;
                let pr = sat_dec(rank);
                let grown = acc.cons((pr, head));
                proof {
                    lemma_bh_first(stack_elems(grown));
                    assert(stack_elems(grown)[0] == (pr, head0));
                    assert(stack_elems(grown).drop_first() =~= stack_elems(acc0));
                }
                let r = Self::from_list_acc(*tail, pr, grown);
                proof {
                    assert(r.hmset() =~= trees_mset(xs0).add(acc0.hmset()));
                }
                r
            },
        }
    }

    /// A one-tree heap with a stored rank.
    pub fn from_tree(x: BinominalTree, rank: i32) -> (r: BinominalHeap)
        requires
            bt_ord(x),
        ensures
            bh_ord(stack_elems(r)),
            r.hmset() == x.mset(),
    {
        let ghost x0 = x;
        let r = Stack::new((rank, x));
        proof {
            lemma_bh_first(stack_elems(r));
            assert(stack_elems(r).drop_first() =~= Seq::<(i32, BinominalTree)>::empty());
            assert(bh_mset(stack_elems(r)) =~= bt_mset(x0));
        }
        r
    }

    /// A one-element heap.
    pub fn from_element(x: i32) -> (r: BinominalHeap)
        ensures
            bh_ord(stack_elems(r)),
            r.hmset() == Multiset::<i32>::empty().insert(x),
    {
        Self::from_tree(BinominalTree::new(x), 1)
    }

    /// The stored rank of the first tree, or zero for an empty heap.
    pub fn rank(&self) -> (r: i32)
        ensures
            r == (if stack_elems(*self).len() == 0 {
                0int
            } else {
                stack_elems(*self)[0].0 as int
            }),
    {
        match self {
            Stack::Nil => 0,
            Stack::Node(pair, _) => pair.0,
        }
    }

    /// Place a tree into the heap, linking it with the first tree whenever
    /// their stored ranks meet, like a carry in binary addition.
    pub fn insert_tree_impl(&self, x: BinominalTree, rank_of_tree: i32) -> (r: BinominalHeap)
        requires
            bh_ord(stack_elems(*self)),
            bt_ord(x),
        ensures
            bh_ord(stack_elems(r)),
            r.hmset() == self.hmset().add(x.mset()),
        decreases *self,
    {
        let ghost me = *self;
        match self {
            Stack::Nil => {
                let r = self.cons((sat_inc(rank_of_tree), x));
                proof {
                    lemma_bh_first(stack_elems(r));
                    assert(stack_elems(r).drop_first() =~= stack_elems(me));
                    assert(stack_elems(me) =~= Seq::<(i32, BinominalTree)>::empty());
                    assert(bh_mset(stack_elems(r)) =~= bh_mset(stack_elems(me)).add(bt_mset(
                        stack_elems(r)[0].1,
                    )));
                }
                r
            },
            Stack::Node(pair, tail) => {
                proof {
                    lemma_bh_first(stack_elems(me));
                    assert(stack_elems(me)[0] == *pair);
                    assert(stack_elems(me).drop_first() =~= stack_elems(**tail));
                }
                if (pair.0 > i32::MIN && rank_of_tree < pair.0 - 1) || (rank_of_tree == i32::MAX && pair.0 == i32::MAX) {
                    let r = self.cons((sat_inc(rank_of_tree), x));
                    proof {
                        lemma_bh_first(stack_elems(r));
                        assert(stack_elems(r).drop_first() =~= stack_elems(me));
                        assert(bh_mset(stack_elems(r)) =~= bh_mset(stack_elems(me)).add(bt_mset(
                            x,
                        )));
                    }
                    r
                } else {
                    let linked = x.link(&pair.1);
                    let r = (&**tail).insert_tree_impl(linked, pair.0);
                    proof {
                        assert(bh_mset(stack_elems(r)) =~= bh_mset(stack_elems(me)).add(bt_mset(
                            x,
                        )));
                    }
                    r
                }
            },
        }
    }

    /// Place a fresh tree into the heap.
    pub fn insert_tree(&self, x: BinominalTree) -> (r: BinominalHeap)
        requires
            bh_ord(stack_elems(*self)),
            bt_ord(x),
        ensures
            bh_ord(stack_elems(r)),
            r.hmset() == self.hmset().add(x.mset()),
    {
        self.insert_tree_impl(x, 0)
    }

    /// Take out the tree with the smallest top element, handing back that
    /// tree, the rest of the heap and the tree's stored rank.
    pub fn remove_min_tree(&self) -> (out: (BinominalTree, BinominalHeap, i32))
        requires
            bh_ord(stack_elems(*self)),
            stack_elems(*self).len() > 0,
        ensures
            bt_ord(out.0),
            bh_ord(stack_elems(out.1)),
            out.0.mset().add(out.1.hmset()) == self.hmset(),
            forall|y: i32| self.hmset().count(y) > 0 ==> out.0.element <= y,
        decreases *self,
    {
        let ghost me = *self;
        match self {
            Stack::Nil => unreached(),
            Stack::Node(pair, tail) => {
                proof {
                    lemma_bh_first(stack_elems(me));
                    assert(stack_elems(me)[0] == *pair);
                    assert(stack_elems(me).drop_first() =~= stack_elems(**tail));
                    lemma_bt_root_min(pair.1);
                }
                if (&**tail).is_empty() {
                    let out = (pair.1.dup(), Item::dup(&**tail), pair.0);
                    proof {
                        assert(stack_elems(**tail) =~= Seq::<(i32, BinominalTree)>::empty());
                        assert(out.0.mset().add(out.1.hmset()) =~= me.hmset());
                    }
                    out
                } else {
                    let (o_head, o_tail, o_rank) = (&**tail).remove_min_tree();
                    if pair.1.element <= o_head.element {
                        let out = (pair.1.dup(), Item::dup(&**tail), pair.0);
                        proof {
                            lemma_bt_root_min(o_head);
                            assert(out.0.mset().add(out.1.hmset()) =~= me.hmset());
                            assert forall|y: i32| me.hmset().count(y) > 0 implies out.0.element
                                <= y by {
                                if bt_mset(pair.1).count(y) == 0 {
                                    assert((&**tail).hmset().count(y) > 0);
                                }
                            }
                        }
                        out
                    } else {
                        let rest = o_tail.cons((pair.0, pair.1.dup()));
                        let out = (o_head, rest, o_rank);
                        proof {
                            lemma_bh_first(stack_elems(rest));
                            assert(stack_elems(rest)[0] == (pair.0, pair.1));
                            assert(stack_elems(rest).drop_first() =~= stack_elems(o_tail));
                            assert(out.0.mset().add(out.1.hmset()) =~= me.hmset());
                            assert forall|y: i32| me.hmset().count(y) > 0 implies out.0.element
                                <= y by {
                                lemma_bt_root_min(pair.1);
                                if bt_mset(pair.1).count(y) > 0 {
                                    assert(out.0.element <= pair.1.element);
                                } else {
                                    assert((&**tail).hmset().count(y) > 0);
                                }
                            }
                        }
                        out
                    }
                }
            },
        }
    }

    /// The smallest element at or below `min` seen so far.
    pub fn find_min_impl(&self, min: &i32) -> (m: i32)
        requires
            bh_ord(stack_elems(*self)),
        ensures
            m <= *min,
            m == *min || self.hmset().count(m) > 0,
            forall|y: i32| self.hmset().count(y) > 0 ==> m <= y,
        decreases *self,
    {
        let ghost me = *self;
        match self {
            Stack::Nil => {
                proof {
                    assert(stack_elems(me) =~= Seq::<(i32, BinominalTree)>::empty());
                    assert(bh_mset(stack_elems(me)) =~= Multiset::<i32>::empty());
                }
                *min
            },
            Stack::Node(pair, tail) => {
                proof {
                    lemma_bh_first(stack_elems(me));
                    assert(stack_elems(me)[0] == *pair);
                    assert(stack_elems(me).drop_first() =~= stack_elems(**tail));
                    lemma_bt_root_min(pair.1);
                }
                let m = if pair.1.element < *min {
                    (&**tail).find_min_impl(&pair.1.element)
                } else {
                    (&**tail).find_min_impl(min)
                };
                m
            },
        }
    }
}

impl Heap for Stack<(i32, BinominalTree)> {
    open spec fn mset(&self) -> Multiset<i32> {
        self.hmset()
    }

    open spec fn inv(&self) -> bool {
        bh_ord(stack_elems(*self))
    }

    fn empty() -> Self {
        Stack::Nil
    }

    fn dup(&self) -> Self {
        Item::dup(self)
    }

    fn is_empty_heap(&self) -> (b: bool)
        ensures
            b == (self.mset().len() == 0),
    {
        let ghost me = *self;
        match self {
            Stack::Nil => {
                proof {
                    assert(stack_elems(me) =~= Seq::<(i32, BinominalTree)>::empty());
                    assert(bh_mset(stack_elems(me)) =~= Multiset::<i32>::empty());
                }
                true
            },
            Stack::Node(pair, _) => {
                proof {
                    lemma_bh_first(stack_elems(me));
                    assert(stack_elems(me)[0] == *pair);
                    lemma_bt_root_min(pair.1);
                }
                false
            },
        }
    }

    fn insert(&self, x: i32) -> (r: Self) {
        let r = self.insert_tree(BinominalTree::new(x));
        proof {
            assert(r.hmset() =~= self.hmset().insert(x));
        }
        r
    }

    fn merge(&self, other: &Self) -> (r: Self)
        decreases stack_elems(*self).len() + stack_elems(*other).len(),
    {
        let ghost me = *self;
        let ghost ot = *other;
        match (self, other) {
            (_, Stack::Nil) => {
                let r = Item::dup(self);
                proof {
                    assert(stack_elems(ot) =~= Seq::<(i32, BinominalTree)>::empty());
                    assert(r.hmset() =~= me.hmset().add(ot.hmset()));
                }
                r
            },
            (Stack::Nil, _) => {
                let r = Item::dup(other);
                proof {
                    assert(stack_elems(me) =~= Seq::<(i32, BinominalTree)>::empty());
                    assert(r.hmset() =~= me.hmset().add(ot.hmset()));
                }
                r
            },
            (Stack::Node(s_pair, s_tail), Stack::Node(o_pair, o_tail)) => {
                proof {
                    lemma_bh_first(stack_elems(me));
                    lemma_bh_first(stack_elems(ot));
                    assert(stack_elems(me)[0] == *s_pair);
                    assert(stack_elems(me).drop_first() =~= stack_elems(**s_tail));
                    assert(stack_elems(ot)[0] == *o_pair);
                    assert(stack_elems(ot).drop_first() =~= stack_elems(**o_tail));
                }
                if s_pair.0 < o_pair.0 {
                    let rest = (&**s_tail).merge(other);
                    let r = rest.cons((s_pair.0, s_pair.1.dup()));
                    proof {
                        lemma_bh_first(stack_elems(r));
                        assert(stack_elems(r)[0] == (s_pair.0, s_pair.1));
                        assert(stack_elems(r).drop_first() =~= stack_elems(rest));
                        assert(r.hmset() =~= me.hmset().add(ot.hmset()));
                    }
                    r
                } else if s_pair.0 > o_pair.0 {
                    let rest = (&**o_tail).merge(self);
                    let r = rest.cons((o_pair.0, o_pair.1.dup()));
                    proof {
                        lemma_bh_first(stack_elems(r));
                        assert(stack_elems(r)[0] == (o_pair.0, o_pair.1));
                        assert(stack_elems(r).drop_first() =~= stack_elems(rest));
                        assert(r.hmset() =~= me.hmset().add(ot.hmset()));
                    }
                    r
                } else {
                    let rest = (&**s_tail).merge(&**o_tail);
                    let linked = s_pair.1.link(&o_pair.1);
                    let r = rest.insert_tree_impl(linked, s_pair.0);
                    proof {
                        assert(r.hmset() =~= me.hmset().add(ot.hmset()));
                    }
                    r
                }
            },
        }
    }

    fn find_min(&self) -> (m: Option<i32>) {
        let ghost me = *self;
        match self {
            Stack::Nil => {
                proof {
                    assert(stack_elems(me) =~= Seq::<(i32, BinominalTree)>::empty());
                    assert(bh_mset(stack_elems(me)) =~= Multiset::<i32>::empty());
                }
                None
            },
            Stack::Node(pair, tail) => {
                proof {
                    lemma_bh_first(stack_elems(me));
                    assert(stack_elems(me)[0] == *pair);
                    assert(stack_elems(me).drop_first() =~= stack_elems(**tail));
                    lemma_bt_root_min(pair.1);
                }
                let m = (&**tail).find_min_impl(&pair.1.element);
                proof {
                    assert(me.hmset().count(m) > 0);
                }
                Some(m)
            },
        }
    }

    /// Take the minimum-topped tree out and fold its children back in.
    fn delete_min(&self) -> (r: Self)
        ensures
            self.mset().len() > 0 ==> exists|m: i32|
                #[trigger] r.mset().insert(m) == self.mset() && self.mset().count(m) > 0 && (
                forall|y: i32| self.mset().count(y) > 0 ==> m <= y),
    {
        let ghost me = *self;
        match self {
            Stack::Nil => {
                proof {
                    assert(stack_elems(me) =~= Seq::<(i32, BinominalTree)>::empty());
                    assert(bh_mset(stack_elems(me)) =~= Multiset::<i32>::empty());
                }
                Stack::Nil
            },
            Stack::Node(_, _) => {
                proof {
                    lemma_bh_first(stack_elems(me));
                    lemma_bt_root_min(stack_elems(me)[0].1);
                }
                let (head, tail, rank) = self.remove_min_tree();
                let ghost m = head.element;
                let children = *head.children;
                let rebuilt = Self::from_list(children, rank);
                let r = rebuilt.merge(&tail);
                proof {
                    lemma_bt_root_min(head);
                    assert(r.mset().insert(m) =~= me.hmset());
                }
                r
            },
        }
    }
}


/// Whether a tree's top is above `min` and each child tree sits above its
/// parent's element; a childless tree passes outright.
pub open spec fn tree_above_spec(t: BinominalTree, min: i32) -> bool
    decreases t,
{
    match *t.children {
        TreeList::Nil => true,
        TreeList::Node(_, _) => t.element > min && children_above_spec(*t.children, t.element),
    }
}

pub open spec fn children_above_spec(l: TreeList, min: i32) -> bool
    decreases l,
{
    match l {
        TreeList::Nil => true,
        TreeList::Node(c, rest) => tree_above_spec(c, min) && children_above_spec(*rest, min),
    }
}

/// Whether every tree of the heap sits above `min` in the sense of
/// [`tree_above_spec`].
pub open spec fn heap_above_spec(q: Seq<(i32, BinominalTree)>, min: i32) -> bool
    decreases q.len(),
{
    if q.len() == 0 {
        true
    } else {
        tree_above_spec(q[0].1, min) && heap_above_spec(q.drop_first(), min)
    }
}

impl BinominalTree {
    /// Check one tree against `min`, the way the ordering probe reads it.
    pub fn is_ordered_tree(x: &BinominalTree, min: &i32) -> (r: bool)
        ensures
            r == tree_above_spec(*x, *min),
        decreases *x,
    {
        match &*x.children {
            TreeList::Nil => true,
            TreeList::Node(_, _) => x.element > *min && BinominalTree::children_ordered(
                &*x.children,
                &x.element,
            ),
        }
    }

    /// Check every child tree against `min`.
    pub fn children_ordered(l: &TreeList, min: &i32) -> (r: bool)
        ensures
            r == children_above_spec(*l, *min),
        decreases *l,
    {
        match l {
            TreeList::Nil => true,
            TreeList::Node(c, rest) => BinominalTree::is_ordered_tree(c, min)
                && BinominalTree::children_ordered(&**rest, min),
        }
    }

    /// The number of elements in one tree.
    pub fn size_from_element(x: &BinominalTree) -> (n: i32)
        requires
            bt_mset(*x).len() <= i32::MAX,
        ensures
            n == bt_mset(*x).len(),
        decreases *x,
    {
        proof {
            broadcast use vstd::multiset::group_multiset_axioms;

        }
        let below = BinominalTree::size_children(&*x.children);
        1 + below
    }

    /// The number of elements in a list of trees.
    pub fn size_children(l: &TreeList) -> (n: i32)
        requires
            trees_mset(*l).len() <= i32::MAX,
        ensures
            n == trees_mset(*l).len(),
        decreases *l,
    {
        proof {
            broadcast use vstd::multiset::group_multiset_axioms;

        }
        match l {
            TreeList::Nil => 0,
            TreeList::Node(c, rest) => {
                let a = BinominalTree::size_from_element(c);
                let b = BinominalTree::size_children(&**rest);
                a + b
            },
        }
    }
}

impl Stack<(i32, BinominalTree)> {
    /// Whether every tree of the heap sits above `min`.
    pub fn is_ordered_heap(heap: &BinominalHeap, min: &i32) -> (r: bool)
        ensures
            r == heap_above_spec(stack_elems(*heap), *min),
        decreases *heap,
    {
        let ghost me = *heap;
        match heap {
            Stack::Nil => {
                proof {
                    assert(stack_elems(me) =~= Seq::<(i32, BinominalTree)>::empty());
                }
                true
            },
            Stack::Node(pair, tail) => {
                proof {
                    assert(stack_elems(me)[0] == *pair);
                    assert(stack_elems(me).drop_first() =~= stack_elems(**tail));
                }
                BinominalTree::is_ordered_tree(&pair.1, min) && Self::is_ordered_heap(
                    &**tail,
                    min,
                )
            },
        }
    }

    /// The number of elements in the whole heap.
    pub fn size_from_elements(xs: &BinominalHeap) -> (n: i32)
        requires
            xs.hmset().len() <= i32::MAX,
        ensures
            n == xs.hmset().len(),
        decreases *xs,
    {
        proof {
            broadcast use vstd::multiset::group_multiset_axioms;

        }
        let ghost me = *xs;
        match xs {
            Stack::Nil => {
                proof {
                    assert(stack_elems(me) =~= Seq::<(i32, BinominalTree)>::empty());
                }
                0
            },
            Stack::Node(pair, tail) => {
                proof {
                    lemma_bh_first(stack_elems(me));
                    assert(stack_elems(me)[0] == *pair);
                    assert(stack_elems(me).drop_first() =~= stack_elems(**tail));
                }
                let a = BinominalTree::size_from_element(&pair.1);
                let b = Self::size_from_elements(&**tail);
                a + b
            },
        }
    }

    /// The element count the stored ranks claim, a rank of `r` standing
    /// for a tree of two to the power `r - 1` elements; the sum saturates
    /// instead of overflowing.
    pub fn size_from_rank(xs: &BinominalHeap) -> (n: i32)
        ensures
            n == claimed_size_spec(stack_elems(*xs)),
            n >= 0,
        decreases *xs,
    {
        let ghost me = *xs;
        match xs {
            Stack::Nil => {
                proof {
                    assert(stack_elems(me) =~= Seq::<(i32, BinominalTree)>::empty());
                }
                0
            },
            Stack::Node(pair, tail) => {
                proof {
                    assert(stack_elems(me)[0] == *pair);
                    assert(stack_elems(me).drop_first() =~= stack_elems(**tail));
                }
                let e: i32 = if pair.0 > i32::MIN {
                    pair.0 - 1
                } else {
                    -1
                };
                let here = pow_of_two(e);
                let rest = Self::size_from_rank(&**tail);
                if here <= i32::MAX - rest {
                    here + rest
                } else {
                    i32::MAX
                }
            },
        }
    }

    /// Whether the stored ranks, in order, are one more than the positions
    /// of the set bits of the element count.
    pub fn is_correspond_to_binary_representation(x: &BinominalHeap) -> (r: bool)
        requires
            x.hmset().len() <= i32::MAX,
        ensures
            r == ranks_match_bits_spec(
                stack_elems(*x),
                x.hmset().len() as int,
                0,
            ),
        decreases *x,
    {
        let b = Self::size_from_elements(x);
        proof {
            lemma_pow_two_is_pow2(31);
            lemma_pow_two_is_pow2(62);
            vstd::arithmetic::power2::lemma2_to64();
            vstd::arithmetic::power2::lemma_pow2_strictly_increases(31, 62);
            assert(b < pow_two_spec(62));
        }
        Self::ranks_match_bits(x, b, 0)
    }

    /// Walk the heap beside the bits of `b`, from position `pos` upward;
    /// the position bound keeps the walk within the bits an `i32` can hold.
    pub fn ranks_match_bits(cur: &BinominalHeap, b: i32, pos: i32) -> (r: bool)
        requires
            b >= 0,
            0 <= pos <= 62,
            b < pow_two_spec(62 - pos),
        ensures
            r == ranks_match_bits_spec(stack_elems(*cur), b as int, pos as int),
        decreases b,
    {
        proof {
            if b > 0 {
                lemma_pow_two_small(62 - pos);
                if 62 - pos <= 0 {
                    assert(false);
                }
            }
        }
        let ghost me = *cur;
        if b <= 0 {
            match cur {
                Stack::Nil => {
                    proof {
                        assert(stack_elems(me) =~= Seq::<(i32, BinominalTree)>::empty());
                    }
                    true
                },
                Stack::Node(_, _) => {
                    proof {
                        assert(stack_elems(me).len() > 0);
                    }
                    false
                },
            }
        } else if b % 2 == 1 {
            match cur {
                Stack::Nil => {
                    proof {
                        assert(stack_elems(me) =~= Seq::<(i32, BinominalTree)>::empty());
                    }
                    false
                },
                Stack::Node(pair, tail) => {
                    proof {
                        assert(stack_elems(me)[0] == *pair);
                        assert(stack_elems(me).drop_first() =~= stack_elems(**tail));
                        assert(stack_elems(me).len() > 0);
                    }
                    pair.0 == pos + 1 && Self::ranks_match_bits(&**tail, b / 2, pos + 1)
                },
            }
        } else {
            Self::ranks_match_bits(cur, b / 2, pos + 1)
        }
    }
}

/// Two to the power `e` for small `e`; one below zero, saturated above.
pub fn pow_of_two(e: i32) -> (r: i32)
    ensures
        r == pow_capped_spec(e as int),
        1 <= r,
{
    if e < 0 {
        return 1;
    }
    if e >= 31 {
        return i32::MAX;
    }
    proof {
        lemma_pow_two_small(e as int);
    }
    let mut r: i32 = 1;
    let mut i: i32 = 0;
    while i < e
        invariant
            0 <= i <= e < 31,
            r == pow_two_spec(i as int),
            1 <= r <= 0x4000_0000,
        decreases e - i,
    {
        proof {
            lemma_pow_two_small(i + 1);
        }
        r = r * 2;
        i = i + 1;
    }
    r
}

/// Small powers of two stay within the range.
proof fn lemma_pow_two_small(e: int)
    ensures
        pow_two_spec(e) >= 1,
        e <= 29 ==> pow_two_spec(e) <= 0x2000_0000,
        e <= 30 ==> pow_two_spec(e) <= 0x4000_0000,
        e <= 31 ==> pow_two_spec(e) <= 0x8000_0000,
    decreases e,
{
    if e > 0 {
        lemma_pow_two_small(e - 1);
    }
    if 0 <= e {
        lemma_pow_two_is_pow2(e);
        vstd::arithmetic::power2::lemma2_to64();
        if e < 29 {
            vstd::arithmetic::power2::lemma_pow2_strictly_increases(e as nat, 29);
        }
        if e < 30 {
            vstd::arithmetic::power2::lemma_pow2_strictly_increases(e as nat, 30);
        }
        if e < 31 {
            vstd::arithmetic::power2::lemma_pow2_strictly_increases(e as nat, 31);
        }
    }
}

/// The spec power of two agrees with the arithmetic library's.
proof fn lemma_pow_two_is_pow2(e: int)
    requires
        e >= 0,
    ensures
        pow_two_spec(e) == vstd::arithmetic::power2::pow2(e as nat),
    decreases e,
{
    if e == 0 {
        vstd::arithmetic::power2::lemma2_to64();
    } else {
        lemma_pow_two_is_pow2(e - 1);
        vstd::arithmetic::power2::lemma_pow2_unfold(e as nat);
    }
}

} // verus!

//! An eager persistent linked list with positional operations: length,
//! take, drop, init, snoc and a middle split.
use vstd::prelude::*;

use crate::item::Item;
use crate::list::List;
use crate::list::stream::{drop_spec, take_spec};

verus! {

/// An eager persistent singly linked list.
#[derive(Debug, PartialEq)]
pub enum LinkedList<T> {
    Nil,
    Cons(T, Box<LinkedList<T>>),
}

/// The elements of a list, front first.
pub open spec fn ll_elems<T>(l: LinkedList<T>) -> Seq<T>
    decreases l,
{
    match l {
        LinkedList::Nil => Seq::empty(),
        LinkedList::Cons(h, t) => seq![h] + ll_elems(*t),
    }
}

/// The index the middle split happens at: half the length, rounded up.
pub open spec fn median_spec(n: int) -> int {
    (n + 1) / 2
}

impl<T: Item> Item for LinkedList<T> {
    fn dup(&self) -> (r: Self)
        ensures
            r == *self,
        decreases *self,
    {
        match self {
            LinkedList::Nil => LinkedList::Nil,
            LinkedList::Cons(h, t) => LinkedList::Cons(h.dup(), Box::new((&**t).dup())),
        }
    }

    fn same(&self, other: &Self) -> (r: bool)
        ensures
            r == (self == other),
        decreases *self,
    {
        match (self, other) {
            (LinkedList::Nil, LinkedList::Nil) => true,
            (LinkedList::Cons(h1, t1), LinkedList::Cons(h2, t2)) => h1.same(h2) && (&**t1).same(
                &**t2,
            ),
            _ => false,
        }
    }
}

impl<T: Item> List<T> for LinkedList<T> {
    open spec fn elems(&self) -> Seq<T> {
        ll_elems(*self)
    }

    fn empty() -> Self {
        LinkedList::Nil
    }

    fn is_empty(&self) -> bool {
        match self {
            LinkedList::Nil => true,
            _ => false,
        }
    }

    fn cons(&self, x: T) -> (r: Self)
        ensures
            r.elems() == seq![x] + self.elems(),
    {
        match self {
            LinkedList::Nil => {
                let r = LinkedList::Cons(x, Box::new(LinkedList::Nil));
                proof {
                    reveal_with_fuel(ll_elems, 3);
                    assert(ll_elems(r) =~= seq![x] + ll_elems(*self));
                }
                r
            },
            _ => LinkedList::Cons(x, Box::new(self.dup())),
        }
    }

    fn head(&self) -> T {
        match self {
            LinkedList::Nil => unreached(),
            LinkedList::Cons(h, _) => h.dup(),
        }
    }

    fn tail(&self) -> (r: Self)
        ensures
            r.elems() == self.elems().drop_first(),
    {
        match self {
            LinkedList::Nil => unreached(),
            LinkedList::Cons(_, t) => {
                let r = (&**t).dup();
                proof {
                    assert(ll_elems(r) =~= ll_elems(*self).drop_first());
                }
                r
            },
        }
    }

    fn concat(&self, ys: Self) -> (r: Self)
        ensures
            r.elems() == self.elems() + ys.elems(),
        decreases *self,
    {
        match self {
            LinkedList::Nil => {
                proof {
                    assert(ll_elems(*self) + ys.elems() =~= ys.elems());
                }
                ys
            },
            LinkedList::Cons(h, t) => {
                let ghost me = *self;
                let rest = (&**t).concat(ys);
                let r = LinkedList::Cons(h.dup(), Box::new(rest));
                proof {
                    assert(ll_elems(r) =~= ll_elems(me) + ys.elems());
                }
                r
            },
        }
    }

    fn update(&self, index: i32, x: T) -> (r: Self)
        ensures
            r.elems() == self.elems().update(index as int, x),
        decreases *self,
    {
        match self {
            LinkedList::Nil => unreached(),
            LinkedList::Cons(h, t) => {
                let ghost me = *self;
                if index == 0 {
                    let r = LinkedList::Cons(x, Box::new((&**t).dup()));
                    proof {
                        assert(ll_elems(r) =~= ll_elems(me).update(index as int, x));
                    }
                    r
                } else {
                    let rest = (&**t).update(index - 1, x);
                    let r = LinkedList::Cons(h.dup(), Box::new(rest));
                    proof {
                        assert(ll_elems(r) =~= ll_elems(me).update(index as int, x));
                    }
                    r
                }
            },
        }
    }
}

impl<T: Item> LinkedList<T> {
    /// The elements in the opposite order, built by appending each head.
    pub fn reverse(&self) -> (r: Self)
        ensures
            r.elems() == self.elems().reverse(),
        decreases *self,
    {
        match self {
            LinkedList::Nil => {
                let r = self.dup();
                proof {
                    assert(ll_elems(r) =~= ll_elems(*self).reverse());
                }
                r
            },
            LinkedList::Cons(h, t) => {
                let ghost me = *self;
                let rest = (&**t).reverse();
                let r = rest.snoc(h.dup());
                proof {
                    assert(ll_elems(r) =~= ll_elems(me).reverse());
                }
                r
            },
        }
    }

    /// Count the elements, starting from `l`.
    pub fn len_impl(&self, l: i32) -> (r: i32)
        requires
            l + self.elems().len() <= i32::MAX,
        ensures
            r == l + self.elems().len(),
        decreases *self,
    {
        match self {
            LinkedList::Nil => l,
            LinkedList::Cons(_, t) => {
                proof {
                    assert(ll_elems(*self).drop_first() =~= ll_elems(**t));
                }
                (&**t).len_impl(l + 1)
            },
        }
    }

    /// The number of elements.
    pub fn len(&self) -> (r: i32)
        requires
            self.elems().len() <= i32::MAX,
        ensures
            r == self.elems().len(),
    {
        self.len_impl(0)
    }

    /// The middle position: half the length, rounded up.
    pub fn median(&self) -> (r: i32)
        requires
            0 < self.elems().len() <= i32::MAX - 1,
        ensures
            r == median_spec(self.elems().len() as int),
    {
        let n = self.len();
        (n + 1) / 2
    }

    /// The first `n` elements; everything when `n` exceeds the length and,
    /// like the walk it is, the whole list when `n` is negative.
    pub fn take(&self, n: i32) -> (r: Self)
        ensures
            r.elems() == take_spec(n as int, self.elems()),
        decreases *self,
    {
        match self {
            LinkedList::Nil => {
                proof {
                    assert(take_spec(n as int, ll_elems(*self)) =~= ll_elems(
                        LinkedList::<T>::Nil,
                    ));
                }
                LinkedList::Nil
            },
            _ if n == 0 => {
                proof {
                    assert(take_spec(n as int, ll_elems(*self)) =~= ll_elems(
                        LinkedList::<T>::Nil,
                    ));
                }
                LinkedList::Nil
            },
            LinkedList::Cons(h, t) => {
                let ghost me = *self;
                let m: i32 = if n > 0 {
                    n - 1
                } else {
                    n
                };
                let rest = (&**t).take(m);
                let r = LinkedList::Cons(h.dup(), Box::new(rest));
                proof {
                    let q = ll_elems(me);
                    assert(q.drop_first() =~= ll_elems(**t));
                    if n < 0 {
                        crate::list::stream::lemma_take_negative(n - 1, q.drop_first());
                        crate::list::stream::lemma_take_negative(m as int, q.drop_first());
                    }
                    assert(ll_elems(r) =~= seq![q[0]] + take_spec(n - 1, q.drop_first()));
                }
                r
            },
        }
    }

    /// The list without its first `n` elements; empty when `n` exceeds the
    /// length or is negative.
    pub fn drop_nth(&self, n: i32) -> (r: Self)
        ensures
            r.elems() == drop_spec(n as int, self.elems()),
        decreases *self,
    {
        match self {
            LinkedList::Nil => self.dup(),
            _ if n == 0 => self.dup(),
            LinkedList::Cons(_, t) => {
                let ghost me = *self;
                let m: i32 = if n > 0 {
                    n - 1
                } else {
                    n
                };
                let r = (&**t).drop_nth(m);
                proof {
                    let q = ll_elems(me);
                    assert(q.drop_first() =~= ll_elems(**t));
                    if n < 0 {
                        crate::list::stream::lemma_drop_negative(n - 1, q.drop_first());
                        crate::list::stream::lemma_drop_negative(m as int, q.drop_first());
                        assert(ll_elems(r) =~= drop_spec(n - 1, q.drop_first()));
                    }
                    assert(ll_elems(r) == drop_spec(n - 1, q.drop_first()));
                }
                r
            },
        }
    }

    /// The list without its last element; the empty list stays empty.
    pub fn init(&self) -> (r: Self)
        requires
            self.elems().len() <= i32::MAX,
        ensures
            self.elems().len() > 0 ==> r.elems() == self.elems().drop_last(),
            self.elems().len() == 0 ==> r.elems().len() == 0,
    {
        let n = self.len();
        let r = self.take(n - 1);
        proof {
            let q = self.elems();
            if q.len() > 0 {
                crate::list::stream::lemma_take_spec_in_range(q.len() - 1, q);
                assert(q.take(q.len() - 1) =~= q.drop_last());
            } else {
                crate::list::stream::lemma_take_negative(-1, q);
            }
        }
        r
    }

    /// The list with `x` appended at the end.
    pub fn snoc(&self, x: T) -> (r: Self)
        ensures
            r.elems() == self.elems().push(x),
        decreases *self,
    {
        match self {
            LinkedList::Nil => {
                let r = LinkedList::Cons(x, Box::new(LinkedList::Nil));
                proof {
                    reveal_with_fuel(ll_elems, 3);
                    assert(ll_elems(r) =~= ll_elems(*self).push(x));
                }
                r
            },
            LinkedList::Cons(h, t) => {
                let ghost me = *self;
                let rest = (&**t).snoc(x);
                let r = LinkedList::Cons(h.dup(), Box::new(rest));
                proof {
                    assert(ll_elems(r) =~= ll_elems(me).push(x));
                }
                r
            },
        }
    }

    /// Split at the middle: the first half, rounded up, and the rest.
    pub fn split(&self) -> (r: (Self, Self))
        requires
            self.elems().len() <= i32::MAX - 1,
        ensures
            self.elems().len() == 0 ==> r.0.elems().len() == 0 && r.1.elems().len() == 0,
            self.elems().len() > 0 ==> {
                let m = median_spec(self.elems().len() as int);
                r.0.elems() == self.elems().take(m) && r.1.elems() == self.elems().skip(m)
            },
    {
        match self {
            LinkedList::Nil => (LinkedList::Nil, LinkedList::Nil),
            LinkedList::Cons(_, _) => {
                let m = self.median();
                let front = self.take(m);
                let back = self.drop_nth(m);
                proof {
                    let q = self.elems();
                    let mi = median_spec(q.len() as int);
                    assert(0 <= mi <= q.len());
                    crate::list::stream::lemma_take_spec_in_range(mi, q);
                    crate::list::stream::lemma_drop_spec_in_range(mi, q);
                }
                (front, back)
            },
        }
    }
}

} // verus!

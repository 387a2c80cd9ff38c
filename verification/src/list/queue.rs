//! A batched persistent queue: a front list served from the head and a
//! reversed rear list taking new arrivals, swung around when the front runs
//! out.
use vstd::prelude::*;

use crate::item::Item;
use crate::list::List;
use crate::list::linked_list::{ll_elems, LinkedList};

verus! {

/// A persistent first-in-first-out queue built from two lists: the front
/// in order, the rear reversed.
#[derive(Debug, PartialEq)]
pub struct BatchedQueue<T>(LinkedList<T>, LinkedList<T>);

impl<T> BatchedQueue<T> {
    /// The rear is only ever filled while the front has an element.
    #[verifier::type_invariant]
    spec fn balanced(self) -> bool {
        ll_elems(self.0).len() == 0 ==> ll_elems(self.1).len() == 0
    }

    /// The elements in queue order: the front, then the rear reversed.
    pub closed spec fn elems(self) -> Seq<T> {
        ll_elems(self.0) + ll_elems(self.1).reverse()
    }
}

impl<T: Item> BatchedQueue<T> {
    /// The queue with no elements.
    pub fn empty() -> (r: Self)
        ensures
            r.elems() == Seq::<T>::empty(),
    {
        let r = BatchedQueue(LinkedList::Nil, LinkedList::Nil);
        proof {
            assert(r.elems() =~= Seq::<T>::empty());
        }
        r
    }

    /// Whether the queue has no elements.
    pub fn is_empty(&self) -> (b: bool)
        ensures
            b == (self.elems().len() == 0),
    {
        proof {
            use_type_invariant(self);
        }
        match self {
            BatchedQueue(LinkedList::Nil, _) => true,
            _ => false,
        }
    }

    /// The queue with `x` added at the back.
    pub fn cons(&self, x: T) -> (r: Self)
        ensures
            r.elems() == self.elems().push(x),
    {
        proof {
            use_type_invariant(self);
        }
        match self {
            BatchedQueue(LinkedList::Nil, _) => {
                let r = BatchedQueue(
                    LinkedList::Cons(x, Box::new(LinkedList::Nil)),
                    LinkedList::Nil,
                );
                proof {
                    reveal_with_fuel(crate::list::linked_list::ll_elems, 3);
                    assert(r.elems() =~= self.elems().push(x));
                }
                r
            },
            BatchedQueue(fore, rear) => {
                let r = BatchedQueue(fore.dup(), rear.cons(x));
                proof {
                    assert(r.elems() =~= self.elems().push(x));
                }
                r
            },
        }
    }

    /// The element at the front.
    pub fn head(&self) -> (x: T)
        requires
            self.elems().len() > 0,
        ensures
            x == self.elems()[0],
    {
        proof {
            use_type_invariant(self);
        }
        match self {
            BatchedQueue(LinkedList::Nil, _) => unreached(),
            BatchedQueue(fore, _) => {
                let x = fore.head();
                proof {
                    assert(self.elems()[0] == fore.elems()[0]);
                }
                x
            },
        }
    }

    /// The queue without its front element; the empty queue stays empty.
    /// When the front runs out the rear is reversed and becomes the front.
    pub fn tail(&self) -> (r: Self)
        ensures
            self.elems().len() == 0 ==> r.elems().len() == 0,
            self.elems().len() > 0 ==> r.elems() == self.elems().drop_first(),
    {
        proof {
            use_type_invariant(self);
        }
        let swing = match self {
            BatchedQueue(LinkedList::Nil, _) => true,
            BatchedQueue(LinkedList::Cons(_, t), _) => matches!(&**t, LinkedList::Nil),
        };
        if swing {
            match self {
                BatchedQueue(_, rear) => {
                    let r = BatchedQueue(rear.reverse(), LinkedList::Nil);
                    proof {
                        assert(r.elems() =~= rear.elems().reverse());
                        if self.elems().len() > 0 {
                            assert(r.elems() =~= self.elems().drop_first());
                        }
                    }
                    r
                },
            }
        } else {
            match self {
                BatchedQueue(LinkedList::Cons(_, f_tail), rear) => {
                    let r = BatchedQueue((&**f_tail).dup(), rear.dup());
                    proof {
                        assert(self.0.elems().drop_first() =~= (&**f_tail).elems());
                        assert(r.elems() =~= self.elems().drop_first());
                    }
                    r
                },
                _ => unreached(),
            }
        }
    }
}

} // verus!

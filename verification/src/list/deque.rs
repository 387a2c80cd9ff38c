//! A double-ended persistent queue built from two lists: a front list in
//! order and a rear list reversed, split down the middle whenever one side
//! runs out.
use vstd::prelude::*;

use crate::item::Item;
use crate::list::List;
use crate::list::linked_list::{ll_elems, LinkedList};

verus! {

/// A persistent deque: the front list holds the first elements in order,
/// the rear list holds the last elements reversed.
#[derive(Debug, PartialEq)]
pub struct Deque<T>(LinkedList<T>, LinkedList<T>);

impl<T> Deque<T> {
    /// The elements in deque order: the front, then the rear reversed.
    pub closed spec fn elems(self) -> Seq<T> {
        ll_elems(self.0) + ll_elems(self.1).reverse()
    }
}

impl<T: Item> Deque<T> {
    /// The deque with no elements.
    pub fn empty() -> (r: Self)
        ensures
            r.elems() == Seq::<T>::empty(),
    {
        let r = Deque(LinkedList::Nil, LinkedList::Nil);
        proof {
            assert(r.elems() =~= Seq::<T>::empty());
        }
        r
    }

    /// Whether the deque has no elements.
    pub fn is_empty(&self) -> (b: bool)
        ensures
            b == (self.elems().len() == 0),
    {
        let Deque(fore, rear) = self;
        let b = matches!(fore, LinkedList::Nil) && matches!(rear, LinkedList::Nil);
        proof {
            if self.elems().len() == 0 {
                assert(ll_elems(self.0).len() == 0 && ll_elems(self.1).len() == 0);
            }
        }
        b
    }

    /// The deque with `x` in front.  When one side is empty the other is
    /// split down the middle first, keeping both sides filled.
    pub fn cons(&self, x: T) -> (r: Self)
        requires
            self.elems().len() < 0x7fff_fffe,
        ensures
            r.elems() == seq![x] + self.elems(),
    {
        match self {
            Deque(LinkedList::Nil, LinkedList::Nil) => {
                let r = Deque(LinkedList::Nil, LinkedList::Cons(x, Box::new(LinkedList::Nil)));
                proof {
                    reveal_with_fuel(ll_elems, 3);
                    assert(r.elems() =~= seq![x] + self.elems());
                }
                r
            },
            Deque(LinkedList::Nil, rear) => {
                let flipped = rear.reverse();
                let (f, b) = flipped.split();
                let r = Deque(f.cons(x), b.reverse());
                proof {
                    let q = ll_elems(self.1).reverse();
                    assert(self.elems() =~= q);
                    assert(f.elems() + b.elems() =~= q);
                    assert(r.elems() =~= (seq![x] + f.elems()) + b.elems());
                    assert((seq![x] + f.elems()) + b.elems() =~= seq![x] + q);
                }
                r
            },
            Deque(fore, LinkedList::Nil) => {
                let (f, b) = fore.split();
                let r = Deque(f.cons(x), b.reverse());
                proof {
                    let q = ll_elems(self.0);
                    assert(self.elems() =~= q);
                    assert(f.elems() + b.elems() =~= q);
                    assert(r.elems() =~= (seq![x] + f.elems()) + b.elems());
                    assert((seq![x] + f.elems()) + b.elems() =~= seq![x] + q);
                }
                r
            },
            Deque(fore, rear) => {
                let r = Deque(fore.cons(x), rear.dup());
                proof {
                    assert(r.elems() =~= seq![x] + self.elems());
                }
                r
            },
        }
    }

    /// The first element.
    pub fn head(&self) -> (x: T)
        requires
            self.elems().len() > 0,
        ensures
            x == self.elems()[0],
    {
        match self {
            Deque(LinkedList::Nil, rear) => {
                let flipped = rear.reverse();
                let x = flipped.head();
                proof {
                    assert(self.elems() =~= flipped.elems());
                }
                x
            },
            Deque(fore, _) => {
                let x = fore.head();
                proof {
                    assert(self.elems()[0] == fore.elems()[0]);
                }
                x
            },
        }
    }

    /// The deque without its first element; the empty deque stays empty.
    pub fn tail(&self) -> (r: Self)
        requires
            self.elems().len() < 0x7fff_fffe,
        ensures
            self.elems().len() == 0 ==> r.elems().len() == 0,
            self.elems().len() > 0 ==> r.elems() == self.elems().drop_first(),
    {
        match self {
            Deque(LinkedList::Nil, LinkedList::Nil) => Deque(LinkedList::Nil, LinkedList::Nil),
            Deque(LinkedList::Nil, rear) => {
                let flipped = rear.reverse();
                let (f, b) = flipped.split();
                let r = Deque(f.tail(), b.reverse());
                proof {
                    let q = ll_elems(self.1).reverse();
                    assert(self.elems() =~= q);
                    assert(f.elems() + b.elems() =~= q);
                    assert(f.elems()[0] == q[0]);
                    assert(r.elems() =~= f.elems().drop_first() + b.elems());
                    assert(f.elems().drop_first() + b.elems() =~= q.drop_first());
                }
                r
            },
            Deque(fore, LinkedList::Nil) => {
                let (f, b) = fore.split();
                let r = Deque(f.tail(), b.reverse());
                proof {
                    let q = ll_elems(self.0);
                    assert(self.elems() =~= q);
                    assert(f.elems() + b.elems() =~= q);
                    assert(f.elems()[0] == q[0]);
                    assert(r.elems() =~= f.elems().drop_first() + b.elems());
                    assert(f.elems().drop_first() + b.elems() =~= q.drop_first());
                }
                r
            },
            Deque(LinkedList::Cons(_, f_tail), rear) => {
                let r = Deque((&**f_tail).dup(), rear.dup());
                proof {
                    assert(ll_elems(self.0).drop_first() =~= ll_elems(**f_tail));
                    assert(r.elems() =~= self.elems().drop_first());
                }
                r
            },
        }
    }

    /// The deque with `x` at the back.
    pub fn snoc(&self, x: T) -> (r: Self)
        requires
            self.elems().len() < 0x7fff_fffe,
        ensures
            r.elems() == self.elems().push(x),
    {
        match self {
            Deque(LinkedList::Nil, LinkedList::Nil) => {
                let r = Deque(LinkedList::Cons(x, Box::new(LinkedList::Nil)), LinkedList::Nil);
                proof {
                    reveal_with_fuel(ll_elems, 3);
                    assert(r.elems() =~= self.elems().push(x));
                }
                r
            },
            Deque(LinkedList::Nil, rear) => {
                let flipped = rear.reverse();
                let (f, b) = flipped.split();
                let r = Deque(f, b.reverse().cons(x));
                proof {
                    let q = ll_elems(self.1).reverse();
                    assert(self.elems() =~= q);
                    assert(f.elems() + b.elems() =~= q);
                    assert(r.elems() =~= f.elems() + (b.elems() + seq![x]));
                    assert(f.elems() + (b.elems() + seq![x]) =~= q.push(x));
                }
                r
            },
            Deque(fore, LinkedList::Nil) => {
                let (f, b) = fore.split();
                let r = Deque(f, b.reverse().cons(x));
                proof {
                    let q = ll_elems(self.0);
                    assert(self.elems() =~= q);
                    assert(f.elems() + b.elems() =~= q);
                    assert(r.elems() =~= f.elems() + (b.elems() + seq![x]));
                    assert(f.elems() + (b.elems() + seq![x]) =~= q.push(x));
                }
                r
            },
            Deque(fore, rear) => {
                let r = Deque(fore.dup(), rear.cons(x));
                proof {
                    assert(r.elems() =~= self.elems().push(x));
                }
                r
            },
        }
    }

    /// The last element.
    pub fn last(&self) -> (x: T)
        requires
            self.elems().len() > 0,
        ensures
            x == self.elems().last(),
    {
        match self {
            Deque(fore, LinkedList::Nil) => {
                let flipped = fore.reverse();
                let x = flipped.head();
                proof {
                    assert(self.elems() =~= ll_elems(self.0));
                    assert(flipped.elems()[0] == self.elems().last());
                }
                x
            },
            Deque(_, rear) => {
                let x = rear.head();
                proof {
                    assert(self.elems().last() == ll_elems(self.1).reverse().last());
                    assert(ll_elems(self.1).reverse().last() == ll_elems(self.1)[0]);
                }
                x
            },
        }
    }

    /// The deque without its last element; the empty deque stays empty.
    pub fn init(&self) -> (r: Self)
        requires
            self.elems().len() < 0x7fff_fffe,
        ensures
            self.elems().len() == 0 ==> r.elems().len() == 0,
            self.elems().len() > 0 ==> r.elems() == self.elems().drop_last(),
    {
        match self {
            Deque(LinkedList::Nil, LinkedList::Nil) => Deque(LinkedList::Nil, LinkedList::Nil),
            Deque(LinkedList::Nil, rear) => {
                let r = Deque(LinkedList::Nil, rear.tail());
                proof {
                    let q = ll_elems(self.1).reverse();
                    assert(self.elems() =~= q);
                    assert(r.elems() =~= ll_elems(self.1).drop_first().reverse());
                    assert(ll_elems(self.1).drop_first().reverse() =~= q.drop_last());
                }
                r
            },
            Deque(fore, LinkedList::Nil) => {
                let (f, b) = fore.split();
                let flipped = b.reverse();
                let r = if flipped.is_empty() {
                    let out = Deque(f.init(), LinkedList::Nil);
                    proof {
                        let q = ll_elems(self.0);
                        assert(self.elems() =~= q);
                        assert(f.elems() + b.elems() =~= q);
                        assert(f.elems() =~= q);
                        assert(out.elems() =~= q.drop_last());
                    }
                    out
                } else {
                    let out = Deque(f, flipped.tail());
                    proof {
                        let q = ll_elems(self.0);
                        assert(self.elems() =~= q);
                        assert(f.elems() + b.elems() =~= q);
                        assert(out.elems() =~= f.elems() + b.elems().reverse().drop_first(
                        ).reverse());
                        assert(b.elems().reverse().drop_first().reverse() =~= b.elems().drop_last());
                        assert(f.elems() + b.elems().drop_last() =~= q.drop_last());
                    }
                    out
                };
                r
            },
            Deque(fore, LinkedList::Cons(_, r_tail)) => {
                let r = Deque(fore.dup(), (&**r_tail).dup());
                proof {
                    assert(ll_elems(self.1).drop_first() =~= ll_elems(**r_tail));
                    assert(r.elems() =~= ll_elems(self.0) + ll_elems(self.1).drop_first(
                    ).reverse());
                    assert(ll_elems(self.0) + ll_elems(self.1).drop_first().reverse()
                        =~= self.elems().drop_last());
                }
                r
            },
        }
    }
}

} // verus!

//! An eager persistent stack: the plain cons-list, with every suffix
//! enumerable.
use vstd::prelude::*;

use crate::item::Item;
use crate::list::List;

verus! {

/// An eager persistent stack: a singly linked list of owned nodes.
#[derive(Debug, PartialEq)]
pub enum Stack<T> {
    Nil,
    Node(T, Box<Stack<T>>),
}

/// The elements of a stack, front first.
pub open spec fn stack_elems<T>(s: Stack<T>) -> Seq<T>
    decreases s,
{
    match s {
        Stack::Nil => Seq::empty(),
        Stack::Node(h, t) => seq![h] + stack_elems(*t),
    }
}

/// The suffixes of a stack, longest first, down to the last one-element
/// suffix; the empty suffix is not included.
pub open spec fn stack_suffixes<T>(s: Stack<T>) -> Seq<Stack<T>>
    decreases s,
{
    match s {
        Stack::Nil => Seq::empty(),
        Stack::Node(_, t) => seq![s] + stack_suffixes(*t),
    }
}

impl<T: Item> Item for Stack<T> {
    fn dup(&self) -> (r: Self)
        ensures
            r == *self,
        decreases *self,
    {
        match self {
            Stack::Nil => Stack::Nil,
            Stack::Node(h, t) => Stack::Node(h.dup(), Box::new((&**t).dup())),
        }
    }

    fn same(&self, other: &Self) -> (r: bool)
        ensures
            r == (self == other),
        decreases *self,
    {
        match (self, other) {
            (Stack::Nil, Stack::Nil) => true,
            (Stack::Node(h1, t1), Stack::Node(h2, t2)) => h1.same(h2) && (&**t1).same(&**t2),
            _ => false,
        }
    }
}

impl<T: Item> List<T> for Stack<T> {
    open spec fn elems(&self) -> Seq<T> {
        stack_elems(*self)
    }

    fn empty() -> Self {
        Stack::Nil
    }

    fn is_empty(&self) -> bool {
        match self {
            Stack::Nil => true,
            _ => false,
        }
    }

    fn cons(&self, x: T) -> (r: Self)
        ensures
            r.elems() == seq![x] + self.elems(),
    {
        match self {
            Stack::Nil => {
                let r = Stack::Node(x, Box::new(Stack::Nil));
                proof {
                    reveal_with_fuel(stack_elems, 3);
                    assert(stack_elems(r) =~= seq![x] + stack_elems(*self));
                }
                r
            },
            _ => Stack::Node(x, Box::new(self.dup())),
        }
    }

    fn head(&self) -> T {
        match self {
            Stack::Nil => unreached(),
            Stack::Node(h, _) => h.dup(),
        }
    }

    fn tail(&self) -> (r: Self)
        ensures
            r.elems() == self.elems().drop_first(),
    {
        match self {
            Stack::Nil => unreached(),
            Stack::Node(h, t) => {
                let r = (&**t).dup();
                proof {
                    assert(stack_elems(r) =~= stack_elems(*self).drop_first());
                }
                r
            },
        }
    }

    fn concat(&self, ys: Self) -> (r: Self)
        ensures
            r.elems() == self.elems() + ys.elems(),
        decreases *self,
    {
        match self {
            Stack::Nil => {
                proof {
                    assert(stack_elems(*self) + ys.elems() =~= ys.elems());
                }
                ys
            },
            Stack::Node(h, t) => {
                let ghost me = *self;
                let rest = (&**t).concat(ys);
                let r = rest.cons(h.dup());
                proof {
                    assert(stack_elems(r) =~= stack_elems(me) + ys.elems());
                }
                r
            },
        }
    }

    fn update(&self, index: i32, x: T) -> (r: Self)
        ensures
            r.elems() == self.elems().update(index as int, x),
        decreases *self,
    {
        match self {
            Stack::Nil => unreached(),
            Stack::Node(h, t) => {
                let ghost me = *self;
                if index == 0 {
                    let r = (&**t).dup().cons(x);
                    proof {
                        assert(stack_elems(r) =~= stack_elems(me).update(index as int, x));
                    }
                    r
                } else {
                    let rest = (&**t).update(index - 1, x);
                    let r = rest.cons(h.dup());
                    proof {
                        assert(stack_elems(r) =~= stack_elems(me).update(index as int, x));
                    }
                    r
                }
            },
        }
    }
}

impl<T: Item> Stack<T> {
    /// Every non-empty suffix of this stack, longest first.
    pub fn suffixes(&self) -> (r: Stack<Self>)
        ensures
            r.elems() == stack_suffixes(*self),
        decreases *self,
    {
        match self {
            Stack::Nil => Stack::Nil,
            Stack::Node(_, t) => {
                let ghost me = *self;
                let rest = (&**t).suffixes();
                let r = rest.cons(self.dup());
                proof {
                    assert(stack_elems(r) =~= stack_suffixes(me));
                }
                r
            },
        }
    }

}

} // verus!

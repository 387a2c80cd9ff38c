//! An eager persistent stack, the module-local variant: the same shape and
//! operations as the stack at the root of the list family.
use vstd::prelude::*;

use crate::item::Item;
use crate::list::List;
use crate::list::foldl_rel;

verus! {

/// An eager persistent stack: a singly linked list of owned nodes.
#[derive(Debug, PartialEq)]
pub enum Stack<T> {
    Nil,
    Cell(T, Box<Stack<T>>),
}

/// The elements of a stack, front first.
pub open spec fn stack_elems<T>(s: Stack<T>) -> Seq<T>
    decreases s,
{
    match s {
        Stack::Nil => Seq::empty(),
        Stack::Cell(h, t) => seq![h] + stack_elems(*t),
    }
}

/// The suffixes of a stack, longest first, down to the last one-element
/// suffix; the empty suffix is not included.
pub open spec fn stack_suffixes<T>(s: Stack<T>) -> Seq<Stack<T>>
    decreases s,
{
    match s {
        Stack::Nil => Seq::empty(),
        Stack::Cell(_, t) => seq![s] + stack_suffixes(*t),
    }
}

impl<T: Item> Item for Stack<T> {
    fn dup(&self) -> (r: Self)
        ensures
            r == *self,
        decreases *self,
    {
        match self {
            Stack::Nil => Stack::Nil,
            Stack::Cell(h, t) => Stack::Cell(h.dup(), Box::new((&**t).dup())),
        }
    }

    fn same(&self, other: &Self) -> (r: bool)
        ensures
            r == (self == other),
        decreases *self,
    {
        match (self, other) {
            (Stack::Nil, Stack::Nil) => true,
            (Stack::Cell(h1, t1), Stack::Cell(h2, t2)) => h1.same(h2) && (&**t1).same(&**t2),
            _ => false,
        }
    }
}

impl<T: Item> List<T> for Stack<T> {
    open spec fn elems(&self) -> Seq<T> {
        stack_elems(*self)
    }

    fn empty() -> Self {
        Stack::Nil
    }

    fn is_empty(&self) -> bool {
        match self {
            Stack::Nil => true,
            _ => false,
        }
    }

    fn cons(&self, x: T) -> (r: Self)
        ensures
            r.elems() == seq![x] + self.elems(),
    {
        match self {
            Stack::Nil => {
                let r = Stack::Cell(x, Box::new(Stack::Nil));
                proof {
                    reveal_with_fuel(stack_elems, 3);
                    assert(stack_elems(r) =~= seq![x] + stack_elems(*self));
                }
                r
            },
            _ => Stack::Cell(x, Box::new(self.dup())),
        }
    }

    fn head(&self) -> T {
        match self {
            Stack::Nil => unreached(),
            Stack::Cell(h, _) => h.dup(),
        }
    }

    fn tail(&self) -> (r: Self)
        ensures
            r.elems() == self.elems().drop_first(),
    {
        match self {
            Stack::Nil => unreached(),
            Stack::Cell(h, t) => {
                let r = (&**t).dup();
                proof {
                    assert(stack_elems(r) =~= stack_elems(*self).drop_first());
                }
                r
            },
        }
    }

    fn concat(&self, ys: Self) -> (r: Self)
        ensures
            r.elems() == self.elems() + ys.elems(),
        decreases *self,
    {
        match self {
            Stack::Nil => {
                proof {
                    assert(stack_elems(*self) + ys.elems() =~= ys.elems());
                }
                ys
            },
            Stack::Cell(h, t) => {
                let ghost me = *self;
                let rest = (&**t).concat(ys);
                let r = rest.cons(h.dup());
                proof {
                    assert(stack_elems(r) =~= stack_elems(me) + ys.elems());
                }
                r
            },
        }
    }

    fn update(&self, index: i32, x: T) -> (r: Self)
        ensures
            r.elems() == self.elems().update(index as int, x),
        decreases *self,
    {
        match self {
            Stack::Nil => unreached(),
            Stack::Cell(h, t) => {
                let ghost me = *self;
                if index == 0 {
                    let r = (&**t).dup().cons(x);
                    proof {
                        assert(stack_elems(r) =~= stack_elems(me).update(index as int, x));
                    }
                    r
                } else {
                    let rest = (&**t).update(index - 1, x);
                    let r = rest.cons(h.dup());
                    proof {
                        assert(stack_elems(r) =~= stack_elems(me).update(index as int, x));
                    }
                    r
                }
            },
        }
    }
}

impl<T: Item> Stack<T> {
    /// The one-element stack.
    pub fn new(x: T) -> (r: Self)
        ensures
            r.elems() == seq![x],
    {
        let r = Stack::Cell(x, Box::new(Stack::Nil));
        proof {
            reveal_with_fuel(stack_elems, 3);
            assert(stack_elems(r) =~= seq![x]);
        }
        r
    }

    /// Every non-empty suffix of this stack, longest first.
    pub fn suffixes(&self) -> (r: Stack<Self>)
        ensures
            r.elems() == stack_suffixes(*self),
        decreases *self,
    {
        match self {
            Stack::Nil => Stack::Nil,
            Stack::Cell(_, t) => {
                let ghost me = *self;
                let rest = (&**t).suffixes();
                let r = rest.cons(self.dup());
                proof {
                    assert(stack_elems(r) =~= stack_suffixes(me));
                }
                r
            },
        }
    }

    /// Apply `f` to every element, keeping the order.
    pub fn map<R: Item, F: Fn(&T) -> R>(&self, f: &F) -> (r: Stack<R>)
        requires
            forall|x: T| self.elems().contains(x) ==> call_requires(*f, (&x,)),
        ensures
            r.elems().len() == self.elems().len(),
            forall|i: int|
                0 <= i < self.elems().len() ==> call_ensures(
                    *f,
                    (&self.elems()[i],),
                    #[trigger] r.elems()[i],
                ),
        decreases *self,
    {
        match self {
            Stack::Nil => Stack::Nil,
            Stack::Cell(h, t) => {
                let ghost me = *self;
                proof {
                    assert(stack_elems(me)[0] == *h);
                    assert(self.elems().contains(*h));
                    assert forall|x: T| (&**t).elems().contains(x) implies self.elems().contains(
                        x,
                    ) by {
                        let k = choose|k: int|
                            0 <= k < stack_elems(**t).len() && stack_elems(**t)[k] == x;
                        assert(stack_elems(me)[k + 1] == x);
                    }
                }
                let rest = (&**t).map(f);
                let y = f(h);
                let r = rest.cons(y);
                proof {
                    assert(stack_elems(r) =~= seq![y] + rest.elems());
                    assert forall|i: int| 0 <= i < stack_elems(me).len() implies call_ensures(
                        *f,
                        (&stack_elems(me)[i],),
                        #[trigger] stack_elems(r)[i],
                    ) by {
                        if i > 0 {
                            assert(stack_elems(me)[i] == stack_elems(**t)[i - 1]);
                            assert(stack_elems(r)[i] == rest.elems()[i - 1]);
                        }
                    }
                }
                r
            },
        }
    }

    /// Fold `f` over the elements from the front, starting from `acc`.
    pub fn foldl<R, F: Fn(R, &T) -> R>(&self, acc: R, f: &F) -> (out: R)
        requires
            forall|a: R, x: T| self.elems().contains(x) ==> call_requires(*f, (a, &x)),
        ensures
            foldl_rel(self.elems(), acc, *f, out),
        decreases *self,
    {
        match self {
            Stack::Nil => acc,
            Stack::Cell(h, t) => {
                let ghost me = *self;
                proof {
                    assert(stack_elems(me)[0] == *h);
                    assert(self.elems().contains(*h));
                    assert forall|x: T| (&**t).elems().contains(x) implies self.elems().contains(
                        x,
                    ) by {
                        let k = choose|k: int|
                            0 <= k < stack_elems(**t).len() && stack_elems(**t)[k] == x;
                        assert(stack_elems(me)[k + 1] == x);
                    }
                }
                let mid = f(acc, h);
                let out = (&**t).foldl(mid, f);
                proof {
                    assert(stack_elems(me).drop_first() =~= stack_elems(**t));
                }
                out
            },
        }
    }

    /// Whether `f` accepts every element.
    pub fn all<F: Fn(&T) -> bool>(&self, f: &F) -> (r: bool)
        requires
            forall|x: T| self.elems().contains(x) ==> call_requires(*f, (&x,)),
        ensures
            r ==> forall|i: int|
                0 <= i < self.elems().len() ==> call_ensures(*f, (&self.elems()[i],), true),
            !r ==> exists|i: int|
                0 <= i < self.elems().len() && call_ensures(*f, (&self.elems()[i],), false),
        decreases *self,
    {
        match self {
            Stack::Nil => true,
            Stack::Cell(h, t) => {
                let ghost me = *self;
                proof {
                    assert(stack_elems(me)[0] == *h);
                    assert(self.elems().contains(*h));
                    assert forall|x: T| (&**t).elems().contains(x) implies self.elems().contains(
                        x,
                    ) by {
                        let k = choose|k: int|
                            0 <= k < stack_elems(**t).len() && stack_elems(**t)[k] == x;
                        assert(stack_elems(me)[k + 1] == x);
                    }
                }
                let here = f(h);
                let rest = (&**t).all(f);
                proof {
                    assert(stack_elems(me).drop_first() =~= stack_elems(**t));
                    if here && rest {
                        assert forall|i: int| 0 <= i < stack_elems(me).len() implies call_ensures(
                            *f,
                            (&stack_elems(me)[i],),
                            true,
                        ) by {
                            if i > 0 {
                                assert(stack_elems(me)[i] == stack_elems(**t)[i - 1]);
                            }
                        }
                    }
                }
                here && rest
            },
        }
    }

    /// The elements in the opposite order.
    pub fn reverse(&self) -> (r: Self)
        ensures
            r.elems() == self.elems().reverse(),
        decreases *self,
    {
        match self {
            Stack::Nil => {
                let r = self.dup();
                proof {
                    assert(stack_elems(r) =~= stack_elems(*self).reverse());
                }
                r
            },
            Stack::Cell(h, t) => {
                let ghost me = *self;
                if (&**t).is_empty() {
                    let r = Stack::new(h.dup());
                    proof {
                        assert(stack_elems(me) =~= seq![stack_elems(me)[0]]);
                        assert(stack_elems(r) =~= stack_elems(me).reverse());
                    }
                    r
                } else {
                    let rest = (&**t).reverse();
                    let r = rest.concat(Stack::new(h.dup()));
                    proof {
                        assert(stack_elems(r) =~= stack_elems(me).reverse());
                    }
                    r
                }
            },
        }
    }
}


} // verus!

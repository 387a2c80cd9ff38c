//! A memoized suspension: a deferred computation paired with a cache for its
//! eventual result.
//!
//! A computation is a first-order value implementing [`Compute`]: running it
//! yields its result, and the trait pins that result down with a
//! postcondition relation.  A [`Susp`] owns one three-state [`Thunk`] cell:
//! `Suspend` (not yet run), `Progress` (being run), or `Evaluated` (done).
//! Forcing takes the cell from `Suspend` to `Evaluated` exactly once; a
//! forced cell never changes again, so every later observation sees the same
//! cached value.  Because forcing needs exclusive access (`&mut`), a
//! computation can never re-enter its own cell: the `Progress` sentinel is
//! never observable at rest.
use vstd::prelude::*;

verus! {

/// A deferred computation: running it consumes it and produces a value of
/// its output type satisfying its postcondition.
pub trait Compute: Sized {
    type Output;

    /// What may come out of running this computation.
    spec fn post(self, r: Self::Output) -> bool;

    /// Run the computation to completion.
    fn run(self) -> (r: Self::Output)
        ensures
            self.post(r),
    ;

    /// Copy the computation handle without running it.
    fn dup(&self) -> (r: Self)
        ensures
            r == *self,
    ;

    /// Copy an already-produced value.
    fn dup_output(v: &Self::Output) -> (r: Self::Output)
        ensures
            r == *v,
    ;
}

/// A computation whose output type supports an exact equality test.
pub trait ComputeEq: Compute {
    /// Decide equality of two produced values.
    fn eq_output(a: &Self::Output, b: &Self::Output) -> (r: bool)
        ensures
            r == (a == b),
    ;
}

/// The three states of a memo cell.
pub enum Thunk<C: Compute> {
    /// The computation has not been run yet.
    Suspend(C),
    /// The computation is being run right now; never seen at rest.
    Progress,
    /// The memoized result.
    Evaluated(C::Output),
}

/// A lazy value: one memo cell, forced at most once.
pub struct Susp<C: Compute> {
    pub(crate) delay: Thunk<C>,
}

impl<C: Compute> Susp<C> {
    /// A resting cell is never `Progress`.
    #[verifier::type_invariant]
    spec fn at_rest(self) -> bool {
        !(self.delay is Progress)
    }

    /// The relation between this suspension and the values it can yield:
    /// an evaluated cell yields exactly its cached value, a pending cell
    /// yields whatever its computation may produce.
    pub closed spec fn yields(self, r: C::Output) -> bool {
        match self.delay {
            Thunk::Suspend(c) => c.post(r),
            Thunk::Progress => false,
            Thunk::Evaluated(v) => r == v,
        }
    }

    /// Whether the cell has been forced already.
    pub closed spec fn is_forced(self) -> bool {
        self.delay is Evaluated
    }

    /// The cached value of a forced cell.
    pub closed spec fn cached(self) -> C::Output
        recommends
            self.is_forced(),
    {
        self.delay->Evaluated_0
    }

    /// Wrap a computation without running it.
    pub fn new(f: C) -> (r: Self)
        ensures
            !r.is_forced(),
            forall|v: C::Output| r.yields(v) <==> f.post(v),
    {
        Susp { delay: Thunk::Suspend(f) }
    }

    /// Wrap a value already computed: the cell starts out memoized.
    pub fn done(v: C::Output) -> (r: Self)
        ensures
            r.is_forced(),
            r.cached() == v,
            forall|w: C::Output| r.yields(w) <==> w == v,
    {
        Susp { delay: Thunk::Evaluated(v) }
    }

    /// The current cell content.
    pub closed spec fn cell(self) -> Thunk<C> {
        self.delay
    }

    /// Read the cell state.
    pub fn thunk(&self) -> (r: &Thunk<C>)
        ensures
            *r == self.cell(),
            !(*r is Progress),
    {
        proof {
            use_type_invariant(self);
        }
        &self.delay
    }

    /// Run the computation if it has not run yet and cache its result.
    /// A cell already forced is left exactly as it is, so the cached value
    /// never changes once installed.
    pub fn force(&mut self)
        ensures
            final(self).is_forced(),
            old(self).yields(final(self).cached()),
            old(self).is_forced() ==> *final(self) == *old(self),
            forall|v: C::Output| final(self).yields(v) <==> v == final(self).cached(),
    {
        proof {
            use_type_invariant(&*self);
        }
        let outcome: Option<C::Output> = match &self.delay {
            Thunk::Suspend(c) => Some(c.dup().run()),
            Thunk::Progress => unreached(),
            Thunk::Evaluated(_) => None,
        };
        if let Some(v) = outcome {
            self.delay = Thunk::Evaluated(v);
        }
    }

    /// Force, then hand out a copy of the cached value.
    pub fn unwrap(&mut self) -> (r: C::Output)
        ensures
            final(self).is_forced(),
            old(self).yields(r),
            r == final(self).cached(),
            old(self).is_forced() ==> *final(self) == *old(self),
    {
        self.force();
        match &self.delay {
            Thunk::Evaluated(v) => C::dup_output(v),
            _ => unreached(),
        }
    }

    /// Force, then take the cached value out, consuming the cell.
    pub fn into_value(self) -> (r: C::Output)
        ensures
            self.yields(r),
    {
        let mut cell = self;
        cell.force();
        match cell.delay {
            Thunk::Evaluated(v) => v,
            _ => unreached(),
        }
    }
}

impl<C: Compute> Susp<C> {
    /// Evaluate the cell without touching it: a forced cell hands out a copy
    /// of its cache, a pending cell runs a copy of its computation.
    fn sample(&self) -> (r: C::Output)
        ensures
            self.yields(r),
    {
        proof {
            use_type_invariant(self);
        }
        match &self.delay {
            Thunk::Suspend(c) => c.dup().run(),
            Thunk::Evaluated(v) => C::dup_output(v),
            Thunk::Progress => unreached(),
        }
    }
}

impl<C: ComputeEq> vstd::std_specs::cmp::PartialEqSpecImpl for Susp<C> {
    /// Equality evaluates both sides; for a computation whose outcome is not
    /// a function of its abstract state the comparison is not either, so no
    /// blanket claim is made and `eq` carries its own postcondition instead.
    open spec fn obeys_eq_spec() -> bool {
        false
    }

    open spec fn eq_spec(&self, other: &Susp<C>) -> bool {
        exists|v: C::Output, w: C::Output| self.yields(v) && other.yields(w) && v == w
    }
}

impl<C: ComputeEq> PartialEq for Susp<C> {
    /// Equality evaluates both sides and compares the values, never the
    /// pending computations.
    fn eq(&self, other: &Self) -> (r: bool)
        ensures
            exists|v: C::Output, w: C::Output|
                self.yields(v) && other.yields(w) && r == (v == w),
    {
        let a = self.sample();
        let b = other.sample();
        C::eq_output(&a, &b)
    }
}

/// A computation already at its answer: running it just hands the number out.
pub struct Ready(pub i32);

impl Compute for Ready {
    type Output = i32;

    open spec fn post(self, r: i32) -> bool {
        r == self.0
    }

    fn run(self) -> i32 {
        self.0
    }

    fn dup(&self) -> Self {
        Ready(self.0)
    }

    fn dup_output(v: &i32) -> i32 {
        *v
    }
}

impl ComputeEq for Ready {
    fn eq_output(a: &i32, b: &i32) -> bool {
        *a == *b
    }
}

impl<C: Compute> Clone for Susp<C> {
    /// The copy holds the same cell content: a pending copy shares the
    /// capability to compute, an evaluated copy starts out memoized with the
    /// same value.  Two pending copies each run the computation on their own
    /// first force.
    fn clone(&self) -> (r: Self)
        ensures
            r == *self,
    {
        proof {
            use_type_invariant(self);
        }
        match &self.delay {
            Thunk::Suspend(c) => Susp { delay: Thunk::Suspend(c.dup()) },
            Thunk::Evaluated(v) => Susp { delay: Thunk::Evaluated(C::dup_output(v)) },
            Thunk::Progress => unreached(),
        }
    }
}

} // verus!

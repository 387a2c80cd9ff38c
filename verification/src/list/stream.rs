//! A persistent lazy stream: a suspension of a stream cell, where a cell is
//! either `Nil` or a head held eagerly next to a suspended tail.
//!
//! Every deferred stream computation is a first-order [`StreamThunk`], so a
//! stream is an ordinary tree of realized cells and pending operations, and
//! the stream carries its own three-state memo cell of the same shape as
//! [`crate::lazy::Thunk`].  The spec view of a stream is its observable
//! sequence, `s@`.  Every operation fixes its result's view from its
//! arguments' views, and forcing never changes the view, so a stream's
//! logical sequence is set at construction time no matter when or how often
//! it is forced.  Forcing realizes one node; the walks that need more
//! (dropping, reversing, sorting) happen inside the one deferred computation
//! that asked for them.
use vstd::prelude::*;
use vstd::multiset::Multiset;

verus! {

/// One realized node of a stream.
pub enum StreamCell {
    Nil,
    Cons(i32, Box<Stream>),
}

/// A deferred stream computation: one constructor per operation that
/// returns an unforced stream.
pub enum StreamThunk {
    /// Append one element at the far end of a stream.
    ConsOf(Box<Stream>, i32),
    /// All elements of the first stream, then all of the second.
    ConcatOf(Box<Stream>, Box<Stream>),
    /// The first `n` elements of a stream.
    TakeOf(i32, Box<Stream>),
    /// The stream without its first `n` elements.
    DropOf(i32, Box<Stream>),
    /// The elements of a stream in reverse order.
    ReverseOf(Box<Stream>),
    /// One element placed into a sorted stream, before the first larger one.
    InsertOf(Box<Stream>, i32),
    /// The elements of a stream rearranged into non-decreasing order.
    InsertSortOf(Box<Stream>),
}

/// The three states of a stream's memo cell.
pub enum StreamMemo {
    /// The computation has not been run yet.
    Suspend(StreamThunk),
    /// The computation is being run right now; never seen at rest.
    Progress,
    /// The memoized first node.
    Evaluated(StreamCell),
}

/// A lazy list: a memo cell whose computation yields the first node.
pub struct Stream {
    pub(crate) memo: StreamMemo,
}

impl Stream {
    /// A resting cell is never `Progress`.
    #[verifier::type_invariant]
    spec fn at_rest(self) -> bool {
        !(self.memo is Progress)
    }
}

/// Number of representation nodes below a stream; forcing never grows it.
spec fn stream_size(s: Stream) -> nat
    decreases s,
{
    match s.memo {
        StreamMemo::Suspend(th) => thunk_size(th),
        StreamMemo::Progress => 0,
        StreamMemo::Evaluated(c) => cell_size(c),
    }
}

spec fn cell_size(c: StreamCell) -> nat
    decreases c,
{
    match c {
        StreamCell::Nil => 0,
        StreamCell::Cons(_, t) => 1 + stream_size(*t),
    }
}

spec fn thunk_size(th: StreamThunk) -> nat
    decreases th,
{
    match th {
        StreamThunk::ConsOf(s, _) => stream_size(*s) + 2,
        StreamThunk::ConcatOf(a, b) => stream_size(*a) + stream_size(*b) + 2,
        StreamThunk::TakeOf(_, s) => stream_size(*s) + 1,
        StreamThunk::DropOf(_, s) => stream_size(*s) + 1,
        StreamThunk::ReverseOf(s) => stream_size(*s) + 1,
        StreamThunk::InsertOf(s, _) => stream_size(*s) + 2,
        StreamThunk::InsertSortOf(s) => 2 * stream_size(*s) + 2,
    }
}

/// The first `n` elements of `q`; all of `q` when `n` is negative or larger
/// than the length, mirroring a walk that only stops at `n == 0` or the end.
pub open spec fn take_spec<A>(n: int, q: Seq<A>) -> Seq<A>
    decreases q.len(),
{
    if q.len() == 0 {
        Seq::empty()
    } else if n == 0 {
        Seq::empty()
    } else {
        seq![q[0]] + take_spec(n - 1, q.drop_first())
    }
}

/// `q` without its first `n` elements; empty when `n` is negative, since the
/// walk then only stops at the end.
pub open spec fn drop_spec<A>(n: int, q: Seq<A>) -> Seq<A>
    decreases q.len(),
{
    if q.len() == 0 {
        q
    } else if n == 0 {
        q
    } else {
        drop_spec(n - 1, q.drop_first())
    }
}

/// `x` placed before the first element of `q` that is larger, keeping equal
/// elements ahead of it.
pub open spec fn insert_spec(x: i32, q: Seq<i32>) -> Seq<i32>
    decreases q.len(),
{
    if q.len() == 0 {
        seq![x]
    } else if x < q[0] {
        seq![x] + insert_spec(q[0], q.drop_first())
    } else {
        seq![q[0]] + insert_spec(x, q.drop_first())
    }
}

/// Insert every element of `q` into the accumulator, in order.
pub open spec fn sort_step(q: Seq<i32>, acc: Seq<i32>) -> Seq<i32>
    decreases q.len(),
{
    if q.len() == 0 {
        acc
    } else {
        sort_step(q.drop_first(), insert_spec(q[0], acc))
    }
}

/// The elements of `q` in non-decreasing order.
pub open spec fn sort_spec(q: Seq<i32>) -> Seq<i32> {
    sort_step(q, Seq::empty())
}

/// No element is larger than one that comes after it.
pub open spec fn non_decreasing(q: Seq<i32>) -> bool {
    forall|i: int, j: int| 0 <= i <= j < q.len() ==> q[i] <= q[j]
}

/// The observable sequence of a stream: what walking it to the end yields.
spec fn stream_seq(s: Stream) -> Seq<i32>
    decreases s,
{
    match s.memo {
        StreamMemo::Suspend(th) => thunk_seq(th),
        StreamMemo::Progress => Seq::empty(),
        StreamMemo::Evaluated(c) => cell_seq(c),
    }
}

spec fn cell_seq(c: StreamCell) -> Seq<i32>
    decreases c,
{
    match c {
        StreamCell::Nil => Seq::empty(),
        StreamCell::Cons(h, t) => seq![h] + stream_seq(*t),
    }
}

spec fn thunk_seq(th: StreamThunk) -> Seq<i32>
    decreases th,
{
    match th {
        StreamThunk::ConsOf(s, x) => stream_seq(*s).push(x),
        StreamThunk::ConcatOf(a, b) => stream_seq(*a) + stream_seq(*b),
        StreamThunk::TakeOf(n, s) => take_spec(n as int, stream_seq(*s)),
        StreamThunk::DropOf(n, s) => drop_spec(n as int, stream_seq(*s)),
        StreamThunk::ReverseOf(s) => stream_seq(*s).reverse(),
        StreamThunk::InsertOf(s, x) => insert_spec(x, stream_seq(*s)),
        StreamThunk::InsertSortOf(s) => sort_spec(stream_seq(*s)),
    }
}

impl View for Stream {
    type V = Seq<i32>;

    /// A stream is viewed as its observable sequence.
    closed spec fn view(&self) -> Seq<i32> {
        stream_seq(*self)
    }
}

/// A stream resting at an already-realized cell.
fn done_cell(c: StreamCell) -> (r: Stream)
    ensures
        r.memo == StreamMemo::Evaluated(c),
{
    Stream { memo: StreamMemo::Evaluated(c) }
}

/// A stream holding a pending computation.
fn suspend(th: StreamThunk) -> (r: Stream)
    ensures
        r.memo == StreamMemo::Suspend(th),
{
    Stream { memo: StreamMemo::Suspend(th) }
}

fn dup_stream(s: &Stream) -> (r: Stream)
    ensures
        r == *s,
    decreases *s,
{
    proof {
        use_type_invariant(s);
    }
    match &s.memo {
        StreamMemo::Suspend(th) => suspend(dup_thunk(th)),
        StreamMemo::Progress => unreached(),
        StreamMemo::Evaluated(c) => done_cell(dup_cell(c)),
    }
}

fn dup_cell(c: &StreamCell) -> (r: StreamCell)
    ensures
        r == *c,
    decreases *c,
{
    match c {
        StreamCell::Nil => StreamCell::Nil,
        StreamCell::Cons(h, t) => StreamCell::Cons(*h, Box::new(dup_stream(t))),
    }
}

fn dup_thunk(th: &StreamThunk) -> (r: StreamThunk)
    ensures
        r == *th,
    decreases *th,
{
    match th {
        StreamThunk::ConsOf(s, x) => StreamThunk::ConsOf(Box::new(dup_stream(s)), *x),
        StreamThunk::ConcatOf(a, b) => StreamThunk::ConcatOf(
            Box::new(dup_stream(a)),
            Box::new(dup_stream(b)),
        ),
        StreamThunk::TakeOf(n, s) => StreamThunk::TakeOf(*n, Box::new(dup_stream(s))),
        StreamThunk::DropOf(n, s) => StreamThunk::DropOf(*n, Box::new(dup_stream(s))),
        StreamThunk::ReverseOf(s) => StreamThunk::ReverseOf(Box::new(dup_stream(s))),
        StreamThunk::InsertOf(s, x) => StreamThunk::InsertOf(Box::new(dup_stream(s)), *x),
        StreamThunk::InsertSortOf(s) => StreamThunk::InsertSortOf(Box::new(dup_stream(s))),
    }
}

impl Clone for Stream {
    /// The copy holds the same memo cell content: a pending copy shares the
    /// capability to compute, an evaluated copy starts out memoized with the
    /// same node.  Two pending copies each realize their node on their own
    /// first force.
    fn clone(&self) -> (r: Self)
        ensures
            r == *self,
    {
        dup_stream(self)
    }
}

/// With a negative count the take walk never stops early, so it copies
/// everything.
pub proof fn lemma_take_negative<A>(n: int, q: Seq<A>)
    requires
        n < 0,
    ensures
        take_spec(n, q) == q,
    decreases q.len(),
{
    if q.len() == 0 {
        assert(take_spec(n, q) =~= q);
    } else {
        lemma_take_negative(n - 1, q.drop_first());
        assert(take_spec(n, q) =~= q);
    }
}

/// With a negative count the drop walk never stops early, so it drops
/// everything.
pub proof fn lemma_drop_negative<A>(n: int, q: Seq<A>)
    requires
        n < 0,
    ensures
        drop_spec(n, q).len() == 0,
    decreases q.len(),
{
    if q.len() == 0 {
    } else {
        lemma_drop_negative(n - 1, q.drop_first());
    }
}

/// Force a stream and take its first cell, consuming the handle.
/// The cell keeps the view and never holds more nodes than the stream did.
fn into_cell(s: Stream) -> (c: StreamCell)
    ensures
        cell_size(c) <= stream_size(s),
        cell_seq(c) == stream_seq(s),
    decreases stream_size(s), 1int,
{
    proof {
        use_type_invariant(&s);
    }
    match s.memo {
        StreamMemo::Suspend(th) => run_thunk(th),
        StreamMemo::Progress => unreached(),
        StreamMemo::Evaluated(c) => c,
    }
}

/// Realize the first node of a deferred stream operation.
fn run_thunk(th: StreamThunk) -> (c: StreamCell)
    ensures
        cell_size(c) <= thunk_size(th),
        cell_seq(c) == thunk_seq(th),
    decreases thunk_size(th), 0int,
{
    match th {
        StreamThunk::ConsOf(s, x) => {
            let ghost s0 = *s;
            match into_cell(*s) {
                StreamCell::Nil => {
                    let r = StreamCell::Cons(x, Box::new(done_cell(StreamCell::Nil)));
                    proof {
                        reveal_with_fuel(stream_seq, 4);
                        reveal_with_fuel(cell_seq, 4);
                        reveal_with_fuel(thunk_seq, 4);
                        reveal_with_fuel(stream_size, 4);
                        reveal_with_fuel(cell_size, 4);
                        reveal_with_fuel(thunk_size, 4);
                        assert(cell_seq(r) =~= stream_seq(s0).push(x));
                    }
                    r
                },
                StreamCell::Cons(h, t) => {
                    let ghost t0 = *t;
                    let r = StreamCell::Cons(h, Box::new(suspend(StreamThunk::ConsOf(t, x))));
                    proof {
                        reveal_with_fuel(stream_seq, 4);
                        reveal_with_fuel(cell_seq, 4);
                        reveal_with_fuel(thunk_seq, 4);
                        reveal_with_fuel(stream_size, 4);
                        reveal_with_fuel(cell_size, 4);
                        reveal_with_fuel(thunk_size, 4);
                        assert(stream_seq(s0) == seq![h] + stream_seq(t0));
                        assert(cell_seq(r) == seq![h] + stream_seq(t0).push(x));
                        assert(seq![h] + stream_seq(t0).push(x) =~= (seq![h] + stream_seq(
                            t0,
                        )).push(x));
                    }
                    r
                },
            }
        },
        StreamThunk::ConcatOf(a, b) => {
            let ghost a0 = *a;
            let ghost b0 = *b;
            match into_cell(*a) {
                StreamCell::Nil => {
                    let r = into_cell(*b);
                    proof {
                        assert(thunk_seq(th) =~= cell_seq(r));
                    }
                    r
                },
                StreamCell::Cons(h, t) => {
                    let ghost t0 = *t;
                    let r = StreamCell::Cons(h, Box::new(suspend(StreamThunk::ConcatOf(t, b))));
                    proof {
                        reveal_with_fuel(stream_seq, 4);
                        reveal_with_fuel(cell_seq, 4);
                        reveal_with_fuel(thunk_seq, 4);
                        reveal_with_fuel(stream_size, 4);
                        reveal_with_fuel(cell_size, 4);
                        reveal_with_fuel(thunk_size, 4);
                        assert(stream_seq(a0) == seq![h] + stream_seq(t0));
                        assert(cell_seq(r) == seq![h] + (stream_seq(t0) + stream_seq(b0)));
                        assert(seq![h] + (stream_seq(t0) + stream_seq(b0)) =~= (seq![h]
                            + stream_seq(t0)) + stream_seq(b0));
                    }
                    r
                },
            }
        },
        StreamThunk::TakeOf(n, s) => {
            let ghost s0 = *s;
            match into_cell(*s) {
                StreamCell::Nil => {
                    proof {
                        assert(stream_seq(s0).len() == 0);
                    }
                    StreamCell::Nil
                },
                StreamCell::Cons(h, t) => {
                    let ghost t0 = *t;
                    if n == 0 {
                        StreamCell::Nil
                    } else {
                        let m: i32 = if n > 0 {
                            n - 1
                        } else {
                            n
                        };
                        let r = StreamCell::Cons(h, Box::new(suspend(StreamThunk::TakeOf(m, t))));
                        proof {
                            reveal_with_fuel(stream_seq, 4);
                            reveal_with_fuel(cell_seq, 4);
                            reveal_with_fuel(thunk_seq, 4);
                        reveal_with_fuel(stream_size, 4);
                        reveal_with_fuel(cell_size, 4);
                        reveal_with_fuel(thunk_size, 4);
                            let q0 = stream_seq(s0);
                            assert(q0 == seq![h] + stream_seq(t0));
                            assert(q0.len() > 0 && q0[0] == h);
                            assert(q0.drop_first() =~= stream_seq(t0));
                            if n < 0 {
                                lemma_take_negative(n - 1, q0.drop_first());
                                lemma_take_negative(m as int, q0.drop_first());
                            }
                            assert(take_spec(m as int, stream_seq(t0)) == take_spec(
                                n - 1,
                                q0.drop_first(),
                            ));
                            assert(cell_seq(r) == seq![h] + take_spec(n - 1, q0.drop_first()));
                            assert(seq![h] + take_spec(n - 1, q0.drop_first()) =~= seq![q0[0]]
                                + take_spec(n - 1, q0.drop_first()));
                        }
                        r
                    }
                },
            }
        },
        StreamThunk::DropOf(n, s) => {
            let ghost s0 = *s;
            let c0 = into_cell(*s);
            let r = c0.drop_impl(n);
            r
        },
        StreamThunk::ReverseOf(s) => {
            let ghost s0 = *s;
            let c0 = into_cell(*s);
            let r = c0.reverse_impl(StreamCell::Nil);
            proof {
                assert(cell_seq(r) == stream_seq(s0).reverse() + Seq::<i32>::empty());
                assert(stream_seq(s0).reverse() + Seq::<i32>::empty() =~= stream_seq(
                    s0,
                ).reverse());
            }
            r
        },
        StreamThunk::InsertOf(s, x) => {
            let ghost s0 = *s;
            let c0 = into_cell(*s);
            let r = c0.insert(x);
            r
        },
        StreamThunk::InsertSortOf(s) => {
            let ghost s0 = *s;
            let c0 = into_cell(*s);
            let r = c0.insert_sort_impl(StreamCell::Nil);
            r
        },
    }
}

impl StreamCell {
    /// Walk past the first `n` realized nodes, forcing through them eagerly.
    fn drop_impl(self, n: i32) -> (r: StreamCell)
        ensures
            cell_size(r) <= cell_size(self),
            cell_seq(r) == drop_spec(n as int, cell_seq(self)),
        decreases cell_size(self), 2int,
    {
        match self {
            StreamCell::Nil => StreamCell::Nil,
            _ if n == 0 => self,
            StreamCell::Cons(_, t) => {
                let ghost me = self;
                let ghost t0 = *t;
                let m: i32 = if n > 0 {
                    n - 1
                } else {
                    n
                };
                let tc = into_cell(*t);
                let r = tc.drop_impl(m);
                proof {
                    let q = cell_seq(me);
                    assert(q.drop_first() =~= stream_seq(t0));
                    if n < 0 {
                        lemma_drop_negative(n - 1, q.drop_first());
                        lemma_drop_negative(m as int, q.drop_first());
                        assert(cell_seq(r) =~= drop_spec(n - 1, q.drop_first()));
                    }
                    assert(cell_seq(r) == drop_spec(n - 1, q.drop_first()));
                }
                r
            },
        }
    }

    /// Reverse this cell's elements onto the accumulator, walking the whole
    /// stream; each accumulated tail is a stream already at rest.
    fn reverse_impl(self, other: StreamCell) -> (r: StreamCell)
        ensures
            cell_size(r) <= cell_size(self) + cell_size(other),
            cell_seq(r) == cell_seq(self).reverse() + cell_seq(other),
        decreases cell_size(self), 2int,
    {
        match self {
            StreamCell::Nil => {
                proof {
                    assert(cell_seq(self).reverse() + cell_seq(other) =~= cell_seq(other));
                }
                other
            },
            StreamCell::Cons(h, t) => {
                let ghost me = self;
                let ghost t0 = *t;
                let ghost other0 = other;
                let acc = StreamCell::Cons(h, Box::new(done_cell(other)));
                let ghost acc0 = acc;
                let tc = into_cell(*t);
                let r = tc.reverse_impl(acc);
                proof {
                    let q = cell_seq(me);
                    let qa = cell_seq(other0);
                    assert(cell_seq(acc0) == seq![h] + qa);
                    assert(cell_seq(tc) =~= stream_seq(t0));
                    assert(cell_seq(r) == stream_seq(t0).reverse() + (seq![h] + qa));
                    assert(q =~= seq![h] + stream_seq(t0));
                    assert(q.reverse() =~= stream_seq(t0).reverse() + seq![h]);
                    assert(q.reverse() + qa =~= stream_seq(t0).reverse() + (seq![h] + qa));
                }
                r
            },
        }
    }

    /// Place `x` into this sorted cell chain: the node that wins the
    /// comparison is realized now, the rest of the insertion is deferred.
    fn insert(self, x: i32) -> (r: StreamCell)
        ensures
            cell_size(r) <= cell_size(self) + 2,
            cell_seq(r) == insert_spec(x, cell_seq(self)),
        decreases self,
    {
        match self {
            StreamCell::Nil => {
                let r = StreamCell::Cons(x, Box::new(done_cell(StreamCell::Nil)));
                proof {
                    reveal_with_fuel(stream_seq, 4);
                    reveal_with_fuel(cell_seq, 4);
                    reveal_with_fuel(stream_size, 4);
                    reveal_with_fuel(cell_size, 4);
                    assert(cell_seq(r) =~= seq![x]);
                }
                r
            },
            StreamCell::Cons(h, t) => {
                let ghost me = self;
                let ghost t0 = *t;
                let r = if x < h {
                    StreamCell::Cons(x, Box::new(suspend(StreamThunk::InsertOf(t, h))))
                } else {
                    StreamCell::Cons(h, Box::new(suspend(StreamThunk::InsertOf(t, x))))
                };
                proof {
                    reveal_with_fuel(stream_seq, 4);
                    reveal_with_fuel(cell_seq, 4);
                    reveal_with_fuel(thunk_seq, 4);
                        reveal_with_fuel(stream_size, 4);
                        reveal_with_fuel(cell_size, 4);
                        reveal_with_fuel(thunk_size, 4);
                    let q = cell_seq(me);
                    assert(q == seq![h] + stream_seq(t0));
                    assert(q.len() > 0 && q[0] == h);
                    assert(q.drop_first() == stream_seq(t0)) by {
                        assert(q.drop_first() =~= stream_seq(t0));
                    }
                    if x < h {
                        assert(cell_seq(r) == seq![x] + insert_spec(h, stream_seq(t0)));
                        assert(insert_spec(x, q) == seq![x] + insert_spec(q[0], q.drop_first()));
                    } else {
                        assert(cell_seq(r) == seq![h] + insert_spec(x, stream_seq(t0)));
                        assert(insert_spec(x, q) == seq![q[0]] + insert_spec(x, q.drop_first()));
                    }
                }
                r
            },
        }
    }

    /// Insert every element of this cell chain into the sorted accumulator,
    /// walking the whole stream; only the sorted prefix built so far is
    /// realized eagerly.
    fn insert_sort_impl(self, sorted: StreamCell) -> (r: StreamCell)
        ensures
            cell_size(r) <= 2 * cell_size(self) + cell_size(sorted),
            cell_seq(r) == sort_step(cell_seq(self), cell_seq(sorted)),
        decreases cell_size(self), 2int,
    {
        match self {
            StreamCell::Nil => sorted,
            StreamCell::Cons(h, t) => {
                let ghost me = self;
                let ghost t0 = *t;
                let ghost sorted0 = sorted;
                let acc = sorted.insert(h);
                let ghost acc0 = acc;
                let tc = into_cell(*t);
                let r = tc.insert_sort_impl(acc);
                proof {
                    let q = cell_seq(me);
                    assert(q.len() > 0 && q[0] == h);
                    assert(q.drop_first() =~= stream_seq(t0));
                    assert(cell_seq(tc) == stream_seq(t0));
                    assert(cell_seq(r) == sort_step(q.drop_first(), insert_spec(h, cell_seq(
                        sorted0,
                    ))));
                }
                r
            },
        }
    }

    /// Collect every element reachable from this cell, forcing as it goes.
    fn to_vec_impl(self) -> (v: Vec<i32>)
        ensures
            v@ == cell_seq(self),
        decreases cell_size(self), 2int,
    {
        match self {
            StreamCell::Nil => Vec::new(),
            StreamCell::Cons(h, t) => {
                let ghost me = self;
                let tc = into_cell(*t);
                let mut rest = tc.to_vec_impl();
                let mut v = Vec::new();
                v.push(h);
                v.append(&mut rest);
                proof {
                    assert(v@ =~= cell_seq(me));
                }
                v
            },
        }
    }
}

impl Stream {
    /// Whether the first node has been realized already.
    pub closed spec fn is_forced(self) -> bool {
        self.memo is Evaluated
    }

    /// The stream with no elements, already realized: there is nothing to
    /// compute.
    pub fn empty() -> (r: Stream)
        ensures
            r@ == Seq::<i32>::empty(),
            r.is_forced(),
    {
        done_cell(StreamCell::Nil)
    }

    /// Realize the first node if it has not been realized yet.  The memoized
    /// node never changes afterwards and the observable sequence is kept.
    pub fn force(&mut self)
        ensures
            final(self).is_forced(),
            final(self)@ == old(self)@,
            old(self).is_forced() ==> *final(self) == *old(self),
    {
        proof {
            use_type_invariant(&*self);
        }
        let realized: Option<StreamCell> = match &self.memo {
            StreamMemo::Suspend(th) => Some(run_thunk(dup_thunk(th))),
            StreamMemo::Progress => unreached(),
            StreamMemo::Evaluated(_) => None,
        };
        if let Some(c) = realized {
            self.memo = StreamMemo::Evaluated(c);
        }
    }

    /// The stream holding this stream's elements followed by `x`.
    /// No node is realized now; the walk happens on demand.
    pub fn cons(&self, x: i32) -> (r: Stream)
        ensures
            r@ == self@.push(x),
    {
        let copy = dup_stream(self);
        suspend(StreamThunk::ConsOf(Box::new(copy), x))
    }

    /// The stream holding this stream's elements followed by `other`'s.
    pub fn concat(&self, other: &Stream) -> (r: Stream)
        ensures
            r@ == self@ + other@,
    {
        let a = dup_stream(self);
        let b = dup_stream(other);
        suspend(StreamThunk::ConcatOf(Box::new(a), Box::new(b)))
    }

    /// The first `n` elements of this stream.
    pub fn take(&self, n: i32) -> (r: Stream)
        ensures
            r@ == take_spec(n as int, self@),
    {
        let copy = dup_stream(self);
        suspend(StreamThunk::TakeOf(n, Box::new(copy)))
    }

    /// This stream without its first `n` elements.
    pub fn drop_nth(&self, n: i32) -> (r: Stream)
        ensures
            r@ == drop_spec(n as int, self@),
    {
        let copy = dup_stream(self);
        suspend(StreamThunk::DropOf(n, Box::new(copy)))
    }

    /// This stream's elements in reverse order.
    pub fn reverse(&self) -> (r: Stream)
        ensures
            r@ == self@.reverse(),
    {
        let copy = dup_stream(self);
        suspend(StreamThunk::ReverseOf(Box::new(copy)))
    }

    /// This stream's elements in non-decreasing order, built by inserting
    /// one element at a time into a sorted stream.
    pub fn insert_sort(&self) -> (r: Stream)
        ensures
            r@ == sort_spec(self@),
    {
        let copy = dup_stream(self);
        suspend(StreamThunk::InsertSortOf(Box::new(copy)))
    }

    /// Realize the whole stream into a vector, in order.
    pub fn to_vec(self) -> (v: Vec<i32>)
        ensures
            v@ == self@,
    {
        let c = into_cell(self);
        c.to_vec_impl()
    }

    /// A stream already holding exactly the elements of `xs`.
    pub fn from_vec(xs: &Vec<i32>) -> (r: Stream)
        ensures
            r@ == xs@,
    {
        let mut r = done_cell(StreamCell::Nil);
        let mut i: usize = xs.len();
        proof {
            assert(r@ =~= xs@.skip(i as int));
        }
        while i > 0
            invariant
                i <= xs.len(),
                r@ == xs@.skip(i as int),
            decreases i,
        {
            i = i - 1;
            let ghost prev = r;
            r = done_cell(StreamCell::Cons(xs[i], Box::new(r)));
            proof {
                assert(r@ == seq![xs@[i as int]] + prev@);
                assert(seq![xs@[i as int]] + xs@.skip(i + 1) =~= xs@.skip(i as int));
            }
        }
        proof {
            assert(xs@.skip(0) =~= xs@);
        }
        r
    }
}

/// Within the length, the take walk agrees with the sequence prefix.
pub proof fn lemma_take_spec_in_range<A>(n: int, q: Seq<A>)
    requires
        0 <= n <= q.len(),
    ensures
        take_spec(n, q) == q.take(n),
    decreases q.len(),
{
    if q.len() == 0 || n == 0 {
        assert(take_spec(n, q) =~= q.take(n));
    } else {
        lemma_take_spec_in_range(n - 1, q.drop_first());
        assert(take_spec(n, q) =~= q.take(n));
    }
}

/// Within the length, the drop walk agrees with the sequence suffix.
pub proof fn lemma_drop_spec_in_range<A>(n: int, q: Seq<A>)
    requires
        0 <= n <= q.len(),
    ensures
        drop_spec(n, q) == q.skip(n),
    decreases q.len(),
{
    if q.len() == 0 || n == 0 {
        assert(drop_spec(n, q) =~= q.skip(n));
    } else {
        lemma_drop_spec_in_range(n - 1, q.drop_first());
        assert(drop_spec(n, q) =~= q.skip(n));
    }
}

/// Concatenation of observable sequences is associative, so concatenating
/// streams in either grouping yields the same observable sequence.
pub proof fn lemma_concat_associative<A>(q1: Seq<A>, q2: Seq<A>, q3: Seq<A>)
    ensures
        (q1 + q2) + q3 == q1 + (q2 + q3),
{
    assert((q1 + q2) + q3 =~= q1 + (q2 + q3));
}

/// Taking `n` elements and dropping `n` elements split a sequence exactly,
/// for any `n` within the sequence.
pub proof fn lemma_take_drop_complement<A>(n: int, q: Seq<A>)
    requires
        0 <= n <= q.len(),
    ensures
        take_spec(n, q) + drop_spec(n, q) == q,
    decreases q.len(),
{
    if q.len() == 0 || n == 0 {
        assert(take_spec(n, q) + drop_spec(n, q) =~= q);
    } else {
        let q1 = q.drop_first();
        lemma_take_drop_complement(n - 1, q1);
        assert((seq![q[0]] + take_spec(n - 1, q1)) + drop_spec(n - 1, q1) =~= seq![q[0]] + (
        take_spec(n - 1, q1) + drop_spec(n - 1, q1)));
        assert(seq![q[0]] + q1 =~= q);
        assert(take_spec(n, q) + drop_spec(n, q) == q);
    }
}

/// Reversing twice yields the sequence back.
pub proof fn lemma_reverse_involution<A>(q: Seq<A>)
    ensures
        q.reverse().reverse() == q,
{
    assert(q.reverse().reverse() =~= q);
}

/// Prepending one element to a sequence adds it to the multiset view.
proof fn lemma_cons_multiset(a: i32, s: Seq<i32>)
    ensures
        (seq![a] + s).to_multiset() == s.to_multiset().insert(a),
{
    broadcast use vstd::seq_lib::group_to_multiset_ensures;

    let t = seq![a] + s;
    assert(t.remove(0) =~= s);
    assert(t.remove(0).to_multiset() =~= t.to_multiset().remove(a));
    assert(t.contains(a));
    assert(t.to_multiset().count(a) > 0);
    assert forall|y: i32| true implies t.to_multiset().count(y) == s.to_multiset().insert(
        a,
    ).count(y) by {
        if y == a {
            assert(s.to_multiset().count(a) == t.to_multiset().count(a) - 1);
        } else {
            assert(s.to_multiset().count(y) == t.to_multiset().count(y));
        }
    }
    assert(t.to_multiset() =~= s.to_multiset().insert(a));
}

/// Inserting keeps the multiset of elements and, into a non-decreasing
/// sequence, keeps it non-decreasing.
proof fn lemma_insert_spec(x: i32, q: Seq<i32>)
    ensures
        insert_spec(x, q).to_multiset() == q.to_multiset().insert(x),
        non_decreasing(q) ==> non_decreasing(insert_spec(x, q)),
        insert_spec(x, q).len() == q.len() + 1,
        forall|y: i32| #[trigger] insert_spec(x, q).contains(y) ==> y == x || q.contains(y),
    decreases q.len(),
{
    broadcast use vstd::seq_lib::group_to_multiset_ensures;

    if q.len() == 0 {
        assert(seq![x] =~= seq![x] + Seq::<i32>::empty());
        lemma_cons_multiset(x, Seq::empty());
        assert(Seq::<i32>::empty().to_multiset() =~= Multiset::empty());
        assert(insert_spec(x, q).to_multiset() =~= q.to_multiset().insert(x));
        assert forall|y: i32| #[trigger] insert_spec(x, q).contains(y) implies y == x
            || q.contains(y) by {
            assert(insert_spec(x, q)[0] == x);
        }
    } else {
        let q1 = q.drop_first();
        assert(q =~= seq![q[0]] + q1);
        lemma_cons_multiset(q[0], q1);
        if x < q[0] {
            let rest = insert_spec(q[0], q1);
            lemma_insert_spec(q[0], q1);
            lemma_cons_multiset(x, rest);
            assert(insert_spec(x, q).to_multiset() =~= q.to_multiset().insert(x));
            if non_decreasing(q) {
                assert(non_decreasing(q1));
                assert forall|i: int, j: int|
                    0 <= i <= j < insert_spec(x, q).len() implies insert_spec(x, q)[i]
                    <= insert_spec(x, q)[j] by {
                    if j > 0 {
                        assert(insert_spec(x, q)[j] == rest[j - 1]);
                        assert(rest.contains(rest[j - 1]));
                        assert(rest[j - 1] == q[0] || q1.contains(rest[j - 1]));
                        assert(x <= rest[j - 1]);
                    }
                    if i > 0 {
                        assert(insert_spec(x, q)[i] == rest[i - 1]);
                    }
                }
            }
        } else {
            let rest = insert_spec(x, q1);
            lemma_insert_spec(x, q1);
            lemma_cons_multiset(q[0], rest);
            assert(insert_spec(x, q).to_multiset() =~= q.to_multiset().insert(x));
            if non_decreasing(q) {
                assert(non_decreasing(q1));
                assert forall|i: int, j: int|
                    0 <= i <= j < insert_spec(x, q).len() implies insert_spec(x, q)[i]
                    <= insert_spec(x, q)[j] by {
                    if j > 0 {
                        assert(insert_spec(x, q)[j] == rest[j - 1]);
                        assert(rest.contains(rest[j - 1]));
                        assert(rest[j - 1] == x || q1.contains(rest[j - 1]));
                        assert(q[0] <= rest[j - 1]);
                    }
                    if i > 0 {
                        assert(insert_spec(x, q)[i] == rest[i - 1]);
                    }
                }
            }
        }
        assert forall|y: i32| #[trigger] insert_spec(x, q).contains(y) implies y == x
            || q.contains(y) by {
            assert(insert_spec(x, q).to_multiset().count(y) > 0);
            assert(q.to_multiset().insert(x).count(y) > 0);
            if y != x {
                assert(q.to_multiset().count(y) > 0);
            }
        }
    }
}

proof fn lemma_sort_step(q: Seq<i32>, acc: Seq<i32>)
    requires
        non_decreasing(acc),
    ensures
        non_decreasing(sort_step(q, acc)),
        sort_step(q, acc).to_multiset() == acc.to_multiset().add(q.to_multiset()),
    decreases q.len(),
{
    broadcast use vstd::seq_lib::group_to_multiset_ensures;

    if q.len() == 0 {
        assert(q.to_multiset() =~= Multiset::empty());
        assert(acc.to_multiset().add(q.to_multiset()) =~= acc.to_multiset());
    } else {
        let q1 = q.drop_first();
        lemma_insert_spec(q[0], acc);
        lemma_sort_step(q1, insert_spec(q[0], acc));
        assert(q =~= seq![q[0]] + q1);
        lemma_cons_multiset(q[0], q1);
        assert(sort_step(q, acc).to_multiset() =~= acc.to_multiset().add(q.to_multiset()));
    }
}

/// Sorting yields a non-decreasing sequence holding exactly the same
/// elements, with multiplicity.
pub proof fn lemma_sort_correct(q: Seq<i32>)
    ensures
        non_decreasing(sort_spec(q)),
        sort_spec(q).to_multiset() == q.to_multiset(),
{
    broadcast use vstd::seq_lib::group_to_multiset_ensures;

    lemma_sort_step(q, Seq::empty());
    assert(Seq::<i32>::empty().to_multiset() =~= Multiset::empty());
    assert(Multiset::empty().add(q.to_multiset()) =~= q.to_multiset());
}

} // verus!

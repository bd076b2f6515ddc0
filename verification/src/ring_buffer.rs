//! The buffer between the sampling loop and the reader: samples are
//! appended as they are taken, and a query hands back everything gathered
//! since the previous query and empties the buffer.
use vstd::prelude::*;
use std::collections::VecDeque;

verus! {

/// A first-in first-out buffer of samples.
pub struct RingBuffer<T> {
    buffer: VecDeque<T>,
}

impl<T> View for RingBuffer<T> {
    type V = Seq<T>;

    closed spec fn view(&self) -> Seq<T> {
        self.buffer@
    }
}

impl<T> RingBuffer<T> {
    /// An empty buffer.
    pub fn new() -> (r: Self)
        ensures
            r@ == Seq::<T>::empty(),
    {
        RingBuffer { buffer: VecDeque::new() }
    }

    /// Appends a sample.
    pub fn push(&mut self, sample: T)
        ensures
            final(self)@ == old(self)@.push(sample),
    {
        self.buffer.push_back(sample);
    }

    /// Hands back every buffered sample, oldest first, and empties the buffer.
    pub fn drain(&mut self) -> (out: Vec<T>)
        ensures
            out@ == old(self)@,
            final(self)@ == Seq::<T>::empty(),
    {
        let mut out: Vec<T> = Vec::new();
        let ghost all = self.buffer@;
        while self.buffer.len() > 0
            invariant
                out@ + self.buffer@ == all,
            decreases self.buffer@.len(),
        {
            let ghost rest = self.buffer@;
            match self.buffer.pop_front() {
                Some(x) => {
                    out.push(x);
                    assert(out@ + self.buffer@ =~= all);
                },
                None => {},
            }
        }
        assert(out@ =~= all);
        out
    }

    /// How many samples are buffered.
    pub fn len(&self) -> (n: usize)
        ensures
            n == self@.len(),
    {
        self.buffer.len()
    }

    /// Whether no sample is buffered.
    pub fn is_empty(&self) -> (b: bool)
        ensures
            b == (self@.len() == 0),
    {
        self.len() == 0
    }
}

impl<T> Default for RingBuffer<T> {
    fn default() -> (r: Self)
        ensures
            r@ == Seq::<T>::empty(),
    {
        Self::new()
    }
}

/// One operation on the buffer.
pub enum BufferOp<T> {
    Push(T),
    Drain,
}

/// The buffer's contents and everything the drains handed back, in order,
/// after running `ops` from `state`, as the contracts of `push` and `drain`
/// describe each step.
pub open spec fn run_buffer<T>(state: Seq<T>, ops: Seq<BufferOp<T>>) -> (Seq<T>, Seq<T>)
    decreases ops.len(),
{
    if ops.len() == 0 {
        (state, Seq::empty())
    } else {
        let (s, out) = run_buffer(state, ops.drop_last());
        match ops.last() {
            BufferOp::Push(x) => (s.push(x), out),
            BufferOp::Drain => (Seq::empty(), out + s),
        }
    }
}

/// The samples pushed by `ops`, in order.
pub open spec fn pushed_items<T>(ops: Seq<BufferOp<T>>) -> Seq<T>
    decreases ops.len(),
{
    if ops.len() == 0 {
        Seq::empty()
    } else {
        let rest = pushed_items(ops.drop_last());
        match ops.last() {
            BufferOp::Push(x) => rest.push(x),
            BufferOp::Drain => rest,
        }
    }
}

/// Every pushed sample is handed back by exactly one drain, in push order:
/// what the drains returned, followed by what is still buffered, is exactly
/// the starting contents followed by the pushed samples.
pub proof fn law_every_sample_returned_once<T>(state: Seq<T>, ops: Seq<BufferOp<T>>)
    ensures
        run_buffer(state, ops).1 + run_buffer(state, ops).0 == state + pushed_items(ops),
    decreases ops.len(),
{
    if ops.len() > 0 {
        law_every_sample_returned_once(state, ops.drop_last());
        let (s, out) = run_buffer(state, ops.drop_last());
        match ops.last() {
            BufferOp::Push(x) => {
                assert(out + s.push(x) =~= (out + s).push(x));
                assert(state + pushed_items(ops.drop_last()).push(x) =~= (state + pushed_items(
                    ops.drop_last(),
                )).push(x));
            },
            BufferOp::Drain => {
                assert(out + s + Seq::<T>::empty() =~= out + s);
            },
        }
    } else {
        assert(Seq::<T>::empty() + state =~= state + Seq::<T>::empty());
    }
}

/// A drain right after another drain hands back nothing.
pub proof fn law_second_drain_empty<T>(state: Seq<T>, ops: Seq<BufferOp<T>>)
    requires
        ops.len() > 0,
        ops.last() is Drain,
    ensures
        run_buffer(state, ops.push(BufferOp::Drain)).1 == run_buffer(state, ops).1,
        run_buffer(state, ops).0 == Seq::<T>::empty(),
{
    assert(ops.push(BufferOp::Drain).drop_last() =~= ops);
    let (s, out) = run_buffer(state, ops);
    assert(out + s =~= out);
}

} // verus!

//! Fixed-capacity, insertion-ordered history that overwrites the oldest
//! entry once full, for trades and klines. The buffer itself comes from
//! the ringbuffer crate; its contents are modelled as a sequence, oldest
//! first.

use vstd::prelude::*;

verus! {

#[verifier::external_type_specification]
#[verifier::external_body]
#[verifier::reject_recursive_types(T)]
pub struct ExAllocRingBuffer<T>(ringbuffer::AllocRingBuffer<T>);

/// What the buffer holds, oldest first.
pub uninterp spec fn rb_items(b: ringbuffer::AllocRingBuffer<u64>) -> Seq<u64>;

/// The bound the buffer was created with.
pub uninterp spec fn rb_bound(b: ringbuffer::AllocRingBuffer<u64>) -> nat;

/// One insertion into a window of bound `cap`: append, evicting the oldest
/// entry once the window is full.
pub open spec fn push_evict(s: Seq<u64>, cap: nat, v: u64) -> Seq<u64> {
    if s.len() < cap {
        s.push(v)
    } else {
        s.skip(1).push(v)
    }
}

/// Inserting a whole series, oldest first, into an empty window.
pub open spec fn window_fold(cap: nat, vs: Seq<u64>) -> Seq<u64>
    decreases vs.len(),
{
    if vs.len() == 0 {
        Seq::empty()
    } else {
        push_evict(window_fold(cap, vs.drop_last()), cap, vs.last())
    }
}

/// After any series of insertions, a window of bound `cap` holds exactly
/// the last `cap` values inserted, in insertion order.
pub proof fn lemma_window_is_suffix(cap: nat, vs: Seq<u64>)
    requires
        cap >= 1,
    ensures
        window_fold(cap, vs) == if vs.len() <= cap {
            vs
        } else {
            vs.skip(vs.len() - cap)
        },
        window_fold(cap, vs).len() == if vs.len() <= cap {
            vs.len()
        } else {
            cap
        },
    decreases vs.len(),
{
    if vs.len() == 0 {
        assert(window_fold(cap, vs) =~= vs);
    } else {
        let n = vs.len() as int;
        let pre = vs.drop_last();
        lemma_window_is_suffix(cap, pre);
        if n <= cap {
            assert(window_fold(cap, vs) =~= vs);
        } else if n == cap + 1 {
            assert(window_fold(cap, vs) == pre.skip(1).push(vs.last()));
            assert(pre.skip(1).push(vs.last()) =~= vs.skip(1));
        } else {
            assert(window_fold(cap, pre).len() == cap);
            assert(window_fold(cap, vs) == pre.skip(n - 1 - cap).skip(1).push(vs.last()));
            assert(pre.skip(n - 1 - cap).skip(1).push(vs.last()) =~= vs.skip(n - cap));
        }
    }
}

/// A bounded rolling history of fixed-point values.
pub struct RollingHistory {
    buf: ringbuffer::AllocRingBuffer<u64>,
}

impl RollingHistory {
    /// The recorded values, oldest first.
    pub closed spec fn items(&self) -> Seq<u64> {
        rb_items(self.buf)
    }

    /// The fixed capacity.
    pub closed spec fn bound(&self) -> nat {
        rb_bound(self.buf)
    }

    pub open spec fn wf(&self) -> bool {
        &&& self.bound() >= 1
        &&& self.items().len() <= self.bound()
    }

    pub(crate) fn new(capacity: usize) -> (r: RollingHistory)
        requires
            capacity >= 1,
        ensures
            r.items() =~= Seq::<u64>::empty(),
            r.bound() == capacity,
    {
        RollingHistory { buf: rb_new(capacity) }
    }

    pub(crate) fn record(&mut self, v: u64)
        ensures
            final(self).bound() == old(self).bound(),
            final(self).items() == push_evict(old(self).items(), old(self).bound(), v),
    {
        rb_enqueue(&mut self.buf, v);
    }

    pub(crate) fn len(&self) -> (r: usize)
        ensures
            r == self.items().len(),
    {
        rb_len(&self.buf)
    }

    pub(crate) fn capacity(&self) -> (r: usize)
        ensures
            r == self.bound(),
    {
        rb_capacity(&self.buf)
    }

    pub(crate) fn to_vec(&self) -> (r: Vec<u64>)
        ensures
            r@ == self.items(),
    {
        rb_to_vec(&self.buf)
    }
}

/// Relies on ringbuffer's AllocRingBuffer::new: a fresh, empty buffer that
/// will hold at most `capacity` elements (new panics on zero, which the
/// precondition rules out).
#[verifier::external_body]
fn rb_new(capacity: usize) -> (r: ringbuffer::AllocRingBuffer<u64>)
    requires
        capacity >= 1,
    ensures
        rb_items(r) =~= Seq::<u64>::empty(),
        rb_bound(r) == capacity,
{
    ringbuffer::AllocRingBuffer::new(capacity)
}

/// Relies on ringbuffer's RingBuffer::enqueue: appends, and once the
/// buffer holds as many elements as its bound, first evicts the oldest.
#[verifier::external_body]
fn rb_enqueue(b: &mut ringbuffer::AllocRingBuffer<u64>, v: u64)
    ensures
        rb_bound(*final(b)) == rb_bound(*old(b)),
        rb_items(*final(b)) == push_evict(rb_items(*old(b)), rb_bound(*old(b)), v),
{
    let _ = ringbuffer::RingBuffer::enqueue(b, v);
}

/// Relies on ringbuffer's RingBuffer::len.
#[verifier::external_body]
fn rb_len(b: &ringbuffer::AllocRingBuffer<u64>) -> (r: usize)
    ensures
        r == rb_items(*b).len(),
{
    ringbuffer::RingBuffer::len(b)
}

/// Relies on ringbuffer's RingBuffer::capacity: the bound given at
/// creation.
#[verifier::external_body]
fn rb_capacity(b: &ringbuffer::AllocRingBuffer<u64>) -> (r: usize)
    ensures
        r == rb_bound(*b),
{
    ringbuffer::RingBuffer::capacity(b)
}

/// Relies on ringbuffer's RingBuffer::to_vec: every element, oldest first.
#[verifier::external_body]
fn rb_to_vec(b: &ringbuffer::AllocRingBuffer<u64>) -> (r: Vec<u64>)
    ensures
        r@ == rb_items(*b),
{
    ringbuffer::RingBuffer::to_vec(b)
}

} // verus!

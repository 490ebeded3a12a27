//! Envelopes that could not be delivered: the newest ones, up to a capacity.
use std::collections::VecDeque;
use vstd::prelude::*;

use crate::relay::envelope::{Envelope, EnvelopeModel};

verus! {

/// Envelopes, by what they hold.
pub open spec fn envelopes(v: Seq<Envelope>) -> Seq<EnvelopeModel> {
    v.map_values(|e: Envelope| e@)
}

/// A queue with one more envelope at its end; a full queue loses its first.
pub open spec fn pushed<T>(queue: Seq<T>, capacity: nat, e: T) -> Seq<T> {
    if queue.len() >= capacity && queue.len() > 0 {
        queue.skip(1).push(e)
    } else {
        queue.push(e)
    }
}

/// A queue after several envelopes were put into it.
pub open spec fn pushed_all<T>(queue: Seq<T>, capacity: nat, list: Seq<T>) -> Seq<T>
    decreases list.len(),
{
    if list.len() == 0 {
        queue
    } else {
        pushed(pushed_all(queue, capacity, list.drop_last()), capacity, list.last())
    }
}

/// The last `n` of a list, or all of it.
pub open spec fn newest<T>(list: Seq<T>, n: nat) -> Seq<T> {
    if list.len() <= n {
        list
    } else {
        list.skip(list.len() - n)
    }
}

/// A queue of envelopes that could not be delivered.
#[derive(Debug)]
pub struct Dlq {
    /// The envelopes, the oldest first.
    pub queue: VecDeque<Envelope>,
    /// How many were dropped.
    pub overflow_count: u64,
    /// How many there is room for.
    pub capacity: usize,
}

impl View for Dlq {
    type V = Seq<Envelope>;

    open spec fn view(&self) -> Seq<Envelope> {
        self.queue@
    }
}

impl Dlq {
    /// An empty queue.
    pub fn new(capacity: usize) -> (r: Dlq)
        ensures
            r@ == Seq::<Envelope>::empty(),
            r.capacity == capacity,
            r.overflow_count == 0,
    {
        Dlq { queue: VecDeque::new(), overflow_count: 0, capacity }
    }

    /// Puts an envelope at the end; a full queue loses its oldest.
    pub fn push(&mut self, env: Envelope)
        ensures
            final(self)@ == pushed(old(self)@, old(self).capacity as nat, env),
            final(self).capacity == old(self).capacity,
            final(self).overflow_count == if old(self)@.len() >= old(self).capacity && old(
                self,
            ).overflow_count < u64::MAX {
                old(self).overflow_count + 1
            } else {
                old(self).overflow_count as int
            },
    {
        if self.queue.len() >= self.capacity {
            let oldest = self.queue.pop_front();
            if self.overflow_count < u64::MAX {
                self.overflow_count = self.overflow_count + 1;
            }
        }
        self.queue.push_back(env);
        assert(self@ =~= pushed(old(self)@, old(self).capacity as nat, env));
    }

    /// The number of envelopes.
    pub fn len(&self) -> (r: usize)
        ensures
            r == self@.len(),
    {
        self.queue.len()
    }

    /// Whether there are none.
    pub fn is_empty(&self) -> (r: bool)
        ensures
            r == (self@.len() == 0),
    {
        self.len() == 0
    }

    /// How many envelopes were dropped.
    pub fn overflow_count(&self) -> (r: u64)
        ensures
            r == self.overflow_count,
    {
        self.overflow_count
    }

    /// Takes all envelopes out, the oldest first.
    pub fn drain_all(&mut self) -> (r: Vec<Envelope>)
        ensures
            r@ == old(self)@,
            final(self)@ == Seq::<Envelope>::empty(),
            final(self).capacity == old(self).capacity,
            final(self).overflow_count == old(self).overflow_count,
    {
        let mut out: Vec<Envelope> = Vec::new();
        while self.queue.len() > 0
            invariant
                out@ + self.queue@ == old(self)@,
                self.capacity == old(self).capacity,
                self.overflow_count == old(self).overflow_count,
            decreases self.queue@.len(),
        {
            let ghost before = self.queue@;
            let ghost taken = out@;
            if let Some(e) = self.queue.pop_front() {
                out.push(e);
                assert(out@ + self.queue@ =~= taken + before);
            }
        }
        assert(out@ =~= out@ + self.queue@);
        out
    }

    /// A copy of all envelopes, the oldest first.
    pub fn snapshot(&self) -> (r: Vec<Envelope>)
        ensures
            envelopes(r@) == envelopes(self@),
    {
        let mut out: Vec<Envelope> = Vec::new();
        let mut i: usize = 0;
        assert(envelopes(out@) =~= envelopes(self@).take(0));
        while i < self.queue.len()
            invariant
                i <= self.queue@.len(),
                envelopes(out@) == envelopes(self@).take(i as int),
            decreases self.queue@.len() - i,
        {
            let ghost before = envelopes(out@);
            let e = self.queue[i].copy();
            assert(e@ == envelopes(self@)[i as int]);
            let ghost model = e@;
            out.push(e);
            assert(envelopes(out@) =~= before.push(model));
            assert(envelopes(self@).take(i + 1) =~= envelopes(self@).take(i as int).push(model));
            i = i + 1;
        }
        assert(envelopes(self@).take(i as int) =~= envelopes(self@));
        out
    }
}

/// The queue holds the newest of all envelopes that were put into it, in their
/// order, as many as it has room for, and always at least one.
pub proof fn law_the_newest_are_kept<T>(capacity: nat, list: Seq<T>)
    ensures
        pushed_all(Seq::empty(), capacity, list) == newest(
            list,
            if capacity == 0 {
                1
            } else {
                capacity
            },
        ),
    decreases list.len(),
{
    let n: nat = if capacity == 0 {
        1
    } else {
        capacity
    };
    if list.len() > 0 {
        law_the_newest_are_kept(capacity, list.drop_last());
        assert(pushed_all(Seq::empty(), capacity, list) =~= newest(list, n));
    } else {
        assert(list =~= Seq::<T>::empty());
    }
}

} // verus!

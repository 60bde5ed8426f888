//! The bounded queue of one subscriber, with the drop-oldest overflow policy.
use vstd::prelude::*;
use std::collections::VecDeque;
use crate::envelope::{Message, MessageView};

verus! {

/// The last `k` items of `s`, or all of them when there are fewer.
pub open spec fn last_n<A>(s: Seq<A>, k: nat) -> Seq<A> {
    if s.len() <= k {
        s
    } else {
        s.subrange(s.len() - k, s.len() as int)
    }
}

/// The queue `q` of capacity `k` after `x` is offered to it: `x` joins at the
/// back and, when the queue is full, the oldest item leaves to make room.
pub open spec fn enqueue_bounded<A>(q: Seq<A>, x: A, k: nat) -> Seq<A> {
    last_n(q.push(x), k)
}

/// The queue `q` of capacity `k` after each item of `xs` is offered in turn.
pub open spec fn enqueue_all<A>(q: Seq<A>, xs: Seq<A>, k: nat) -> Seq<A>
    decreases xs.len(),
{
    if xs.len() == 0 {
        q
    } else {
        enqueue_bounded(enqueue_all(q, xs.drop_last(), k), xs.last(), k)
    }
}

/// Offering a run of items to a queue of capacity `k` leaves the `k` most
/// recent of the old contents followed by the run.
pub proof fn lemma_enqueue_all_keeps_most_recent<A>(q: Seq<A>, xs: Seq<A>, k: nat)
    requires
        q.len() <= k,
    ensures
        enqueue_all(q, xs, k) == last_n(q + xs, k),
    decreases xs.len(),
{
    if xs.len() == 0 {
        assert(q + xs =~= q);
    } else {
        lemma_enqueue_all_keeps_most_recent(q, xs.drop_last(), k);
        let prev = q + xs.drop_last();
        assert((q + xs) =~= prev.push(xs.last()));
        let p = last_n(prev, k);
        if prev.len() <= k {
        } else {
            assert(last_n(p.push(xs.last()), k) =~= last_n(prev.push(xs.last()), k));
        }
    }
}

/// Drop-oldest: when more items arrive than an empty queue of capacity `k`
/// holds, it keeps the `k` most recent of them, in arrival order; the oldest
/// are the ones evicted, never the newest.
pub proof fn lemma_overflow_keeps_newest<A>(xs: Seq<A>, k: nat)
    requires
        xs.len() > k,
    ensures
        enqueue_all(Seq::empty(), xs, k) == xs.subrange(xs.len() - k, xs.len() as int),
        enqueue_all(Seq::empty(), xs, k).len() == k,
        k > 0 ==> enqueue_all(Seq::empty(), xs, k).last() == xs.last(),
{
    lemma_enqueue_all_keeps_most_recent(Seq::<A>::empty(), xs, k);
    assert(Seq::<A>::empty() + xs =~= xs);
}

/// Offering an item commutes with mapping every item through `f`.
pub proof fn lemma_enqueue_map<A, B>(q: Seq<A>, x: A, k: nat, f: spec_fn(A) -> B)
    ensures
        enqueue_bounded(q, x, k).map_values(f) == enqueue_bounded(q.map_values(f), f(x), k),
{
    assert(q.push(x).map_values(f) =~= q.map_values(f).push(f(x)));
    let s = q.push(x);
    if s.len() > k {
        assert(s.subrange(s.len() - k, s.len() as int).map_values(f)
            =~= s.map_values(f).subrange(s.len() - k, s.len() as int));
    }
}

/// An ordered queue of messages that never holds more than its capacity.
pub struct BoundedQueue {
    items: VecDeque<Message>,
    capacity: usize,
}

impl View for BoundedQueue {
    type V = Seq<MessageView>;

    closed spec fn view(&self) -> Seq<MessageView> {
        self.items@.map_values(|m: Message| m@)
    }
}

impl BoundedQueue {
    /// The number of messages the queue holds at most.
    pub closed spec fn spec_capacity(&self) -> nat {
        self.capacity as nat
    }

    /// The queue holds no more than its capacity.
    pub closed spec fn wf(&self) -> bool {
        self.items@.len() <= self.capacity
    }

    /// An empty queue that holds at most `capacity` messages.
    pub fn new(capacity: usize) -> (r: BoundedQueue)
        ensures
            r.wf(),
            r@ == Seq::<MessageView>::empty(),
            r.spec_capacity() == capacity,
    {
        let r = BoundedQueue { items: VecDeque::new(), capacity };
        assert(r@ =~= Seq::<MessageView>::empty());
        r
    }

    /// The number of messages the queue holds at most.
    pub fn capacity(&self) -> (r: usize)
        ensures
            r == self.spec_capacity(),
    {
        self.capacity
    }

    /// The number of messages waiting in the queue.
    pub fn len(&self) -> (r: usize)
        requires
            self.wf(),
        ensures
            r == self@.len(),
    {
        self.items.len()
    }

    /// Adds `m` at the back; when the queue is full, the oldest message is
    /// dropped first. With capacity zero nothing is kept.
    pub fn push(&mut self, m: Message)
        requires
            old(self).wf(),
        ensures
            final(self).wf(),
            final(self).spec_capacity() == old(self).spec_capacity(),
            final(self)@ == enqueue_bounded(old(self)@, m@, old(self).spec_capacity()),
    {
        let ghost before = self.items@;
        let ghost mv = m@;
        if self.capacity == 0 {
            proof {
                assert(self@ =~= enqueue_bounded(old(self)@, mv, 0));
            }
            return;
        }
        if self.items.len() == self.capacity {
            let _ = self.items.pop_front();
        }
        self.items.push_back(m);
        proof {
            let f = |x: Message| x@;
            let s = before.push(self.items@.last());
            assert(s.map_values(f) =~= old(self)@.push(mv));
            if before.len() == self.capacity {
                assert(self.items@ =~= s.subrange(1, s.len() as int));
                assert(self@ =~= s.map_values(f).subrange(1, s.len() as int));
            } else {
                assert(self.items@ =~= s);
            }
        }
    }

    /// Takes the oldest message out, or `None` when the queue is empty.
    pub fn pop(&mut self) -> (r: Option<Message>)
        requires
            old(self).wf(),
        ensures
            final(self).wf(),
            final(self).spec_capacity() == old(self).spec_capacity(),
            old(self)@.len() == 0 ==> r is None && final(self)@ == old(self)@,
            old(self)@.len() > 0 ==> (r matches Some(m) && m@ == old(self)@[0]
                && final(self)@ == old(self)@.drop_first()),
    {
        let r = self.items.pop_front();
        proof {
            if old(self)@.len() > 0 {
                assert(self@ =~= old(self)@.drop_first());
            }
        }
        r
    }
}

} // verus!

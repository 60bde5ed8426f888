//! The broadcast bus: the registry of live subscribers and the fan-out of
//! each published message into their queues.
use vstd::prelude::*;
use crate::envelope::{Message, MessageView};
use crate::queue::{BoundedQueue, enqueue_bounded, lemma_enqueue_map};

verus! {

/// The abstract state of a bus.
///
/// `log` is every message published so far, in publish order. The queue of
/// each registered handle is a sequence of positions in `log`; `floors`
/// holds, for each handle ever registered, the least position it may still
/// receive. Handle identifiers are handed out in increasing order from
/// `next_id` and never reused.
pub struct BusModel {
    pub capacity: nat,
    pub next_id: nat,
    pub log: Seq<MessageView>,
    pub queues: Map<u64, Seq<nat>>,
    pub floors: Map<u64, nat>,
}

impl BusModel {
    /// The least log position handle `h` may still receive.
    pub open spec fn floor(self, h: u64) -> nat {
        if self.floors.contains_key(h) {
            self.floors[h]
        } else {
            0
        }
    }

    /// The messages waiting in the queue of handle `h`, oldest first.
    pub open spec fn messages(self, h: u64) -> Seq<MessageView> {
        self.queues[h].map_values(|s: nat| self.log[s as int])
    }

    /// Whether handle `h` is registered.
    pub open spec fn registered(self, h: u64) -> bool {
        self.queues.contains_key(h)
    }

    /// The invariant of the abstract state: every queue is within capacity,
    /// refers to published messages at or above its handle's floor, in
    /// strictly increasing order, and every known handle was handed out.
    pub open spec fn inv(self) -> bool {
        &&& forall|h: u64| #[trigger] self.queues.contains_key(h) ==> {
            &&& (h as nat) < self.next_id
            &&& self.queues[h].len() <= self.capacity
            &&& forall|i: int|
                0 <= i < self.queues[h].len() ==> self.floor(h) <= #[trigger] self.queues[h][i]
                    && self.queues[h][i] < self.log.len()
            &&& forall|i: int, j: int|
                0 <= i < j < self.queues[h].len() ==> self.queues[h][i] < self.queues[h][j]
        }
        &&& forall|h: u64| #[trigger] self.floors.contains_key(h) ==> (h as nat) < self.next_id
                && self.floors[h] <= self.log.len()
    }
}

/// A fresh bus whose queues hold `capacity` messages each.
pub open spec fn model_new(capacity: nat) -> BusModel {
    BusModel {
        capacity,
        next_id: 0,
        log: Seq::empty(),
        queues: Map::empty(),
        floors: Map::empty(),
    }
}

/// The bus after a new handle, numbered `v.next_id`, is registered with an
/// empty queue; it may receive only what is published from now on.
pub open spec fn model_register(v: BusModel) -> BusModel {
    BusModel {
        next_id: v.next_id + 1,
        queues: v.queues.insert(v.next_id as u64, Seq::empty()),
        floors: v.floors.insert(v.next_id as u64, v.log.len()),
        ..v
    }
}

/// The bus after handle `h` is removed from the registry (if it was there).
pub open spec fn model_deregister(v: BusModel, h: u64) -> BusModel {
    BusModel { queues: v.queues.remove(h), ..v }
}

/// The bus after `m` is published: it is logged, and offered to the queue of
/// every handle registered at this moment, with drop-oldest overflow.
pub open spec fn model_publish(v: BusModel, m: MessageView) -> BusModel {
    BusModel {
        log: v.log.push(m),
        queues: Map::new(
            |h: u64| v.queues.contains_key(h),
            |h: u64| enqueue_bounded(v.queues[h], v.log.len(), v.capacity),
        ),
        ..v
    }
}

/// The bus after handle `h` takes the oldest message of its queue, and the
/// log position of that message; nothing changes when the handle is not
/// registered or its queue is empty.
pub open spec fn model_receive(v: BusModel, h: u64) -> (BusModel, Option<nat>) {
    if v.queues.contains_key(h) && v.queues[h].len() > 0 {
        (
            BusModel {
                queues: v.queues.insert(h, v.queues[h].drop_first()),
                floors: v.floors.insert(h, v.queues[h][0] + 1),
                ..v
            },
            Some(v.queues[h][0]),
        )
    } else {
        (v, None)
    }
}

/// Registering keeps the invariant of the abstract state.
pub proof fn lemma_register_inv(v: BusModel)
    requires
        v.inv(),
    ensures
        model_register(v).inv(),
{
    let w = model_register(v);
    assert forall|h: u64| #[trigger] w.queues.contains_key(h) && h != v.next_id as u64 implies
        w.queues[h] == v.queues[h] && w.floor(h) == v.floor(h) by {}
}

/// Deregistering keeps the invariant of the abstract state.
pub proof fn lemma_deregister_inv(v: BusModel, h: u64)
    requires
        v.inv(),
    ensures
        model_deregister(v, h).inv(),
{
    let w = model_deregister(v, h);
    assert forall|g: u64| #[trigger] w.queues.contains_key(g) implies w.queues[g] == v.queues[g]
        && w.floor(g) == v.floor(g) by {}
}

/// Offering log position `x` to a queue of increasing positions in
/// `[lo, x)`, with `lo <= x`, leaves increasing positions in `[lo, x]`,
/// within capacity.
proof fn lemma_enqueue_ordered(q: Seq<nat>, x: nat, k: nat, lo: nat)
    requires
        lo <= x,
        forall|i: int| 0 <= i < q.len() ==> lo <= #[trigger] q[i] && q[i] < x,
        forall|i: int, j: int| 0 <= i < j < q.len() ==> q[i] < q[j],
    ensures
        q.len() <= k ==> enqueue_bounded(q, x, k).len() <= k,
        forall|i: int|
            0 <= i < enqueue_bounded(q, x, k).len() ==> lo <= #[trigger] enqueue_bounded(q, x, k)[i]
                && enqueue_bounded(q, x, k)[i] <= x,
        forall|i: int, j: int|
            0 <= i < j < enqueue_bounded(q, x, k).len() ==> enqueue_bounded(q, x, k)[i]
                < enqueue_bounded(q, x, k)[j],
{
    let p = q.push(x);
    assert forall|i: int| 0 <= i < p.len() implies lo <= #[trigger] p[i] && p[i] <= x by {}
    assert forall|i: int, j: int| 0 <= i < j < p.len() implies p[i] < p[j] by {}
    if p.len() > k {
        let r = p.subrange(p.len() - k, p.len() as int);
        assert forall|i: int| 0 <= i < r.len() implies lo <= #[trigger] r[i] && r[i] <= x by {
            assert(r[i] == p[i + p.len() - k]);
        }
        assert forall|i: int, j: int| 0 <= i < j < r.len() implies r[i] < r[j] by {
            assert(r[i] == p[i + p.len() - k]);
            assert(r[j] == p[j + p.len() - k]);
        }
    }
}

/// Publishing keeps the invariant of the abstract state.
pub proof fn lemma_publish_inv(v: BusModel, m: MessageView)
    requires
        v.inv(),
    ensures
        model_publish(v, m).inv(),
{
    let w = model_publish(v, m);
    assert forall|h: u64| #[trigger] w.queues.contains_key(h) implies {
        &&& (h as nat) < w.next_id
        &&& w.queues[h].len() <= w.capacity
        &&& forall|i: int|
            0 <= i < w.queues[h].len() ==> w.floor(h) <= #[trigger] w.queues[h][i] && w.queues[h][i]
                < w.log.len()
        &&& forall|i: int, j: int|
            0 <= i < j < w.queues[h].len() ==> w.queues[h][i] < w.queues[h][j]
    } by {
        let q = v.queues[h];
        assert(v.floor(h) <= v.log.len());
        lemma_enqueue_ordered(q, v.log.len(), v.capacity, v.floor(h));
    }
}

/// Receiving keeps the invariant of the abstract state.
pub proof fn lemma_receive_inv(v: BusModel, h: u64)
    requires
        v.inv(),
    ensures
        model_receive(v, h).0.inv(),
{
    if v.queues.contains_key(h) && v.queues[h].len() > 0 {
        let w = model_receive(v, h).0;
        let q = v.queues[h];
        assert forall|g: u64| #[trigger] w.queues.contains_key(g) implies {
            &&& (g as nat) < w.next_id
            &&& w.queues[g].len() <= w.capacity
            &&& forall|i: int|
                0 <= i < w.queues[g].len() ==> w.floor(g) <= #[trigger] w.queues[g][i]
                    && w.queues[g][i] < w.log.len()
            &&& forall|i: int, j: int|
                0 <= i < j < w.queues[g].len() ==> w.queues[g][i] < w.queues[g][j]
        } by {
            if g == h {
                assert forall|i: int| 0 <= i < w.queues[g].len() implies w.floor(g)
                    <= #[trigger] w.queues[g][i] && w.queues[g][i] < w.log.len() by {
                    assert(w.queues[g][i] == q[i + 1]);
                    assert(q[0] < q[i + 1]);
                }
                assert forall|i: int, j: int| 0 <= i < j < w.queues[g].len() implies w.queues[g][i]
                    < w.queues[g][j] by {
                    assert(w.queues[g][i] == q[i + 1]);
                    assert(w.queues[g][j] == q[j + 1]);
                }
            }
        }
        assert(q[0] < v.log.len());
    }
}

struct Subscriber {
    id: u64,
    queue: BoundedQueue,
    stamps: Ghost<Seq<nat>>,
}

/// The registry of live subscriber handles, each with its own bounded
/// drop-oldest queue. A message published is offered to every handle
/// registered at that moment; a lagging handle loses its own oldest
/// messages and never holds up, or takes from, another.
pub struct Bus {
    capacity: usize,
    next_id: u64,
    subscribers: Vec<Subscriber>,
    model: Ghost<BusModel>,
}

impl View for Bus {
    type V = BusModel;

    closed spec fn view(&self) -> BusModel {
        self.model@
    }
}

impl Bus {
    /// The bus is consistent with its abstract state.
    pub closed spec fn wf(&self) -> bool {
        let v = self.model@;
        &&& v.inv()
        &&& v.capacity == self.capacity as nat
        &&& v.next_id == self.next_id as nat
        &&& forall|i: int| 0 <= i < self.subscribers@.len() ==> {
            let s = #[trigger] self.subscribers@[i];
            &&& s.queue.wf()
            &&& s.queue.spec_capacity() == self.capacity as nat
            &&& v.queues.contains_key(s.id)
            &&& v.queues[s.id] == s.stamps@
            &&& s.queue@ == v.messages(s.id)
        }
        &&& forall|i: int, j: int|
            0 <= i < j < self.subscribers@.len() ==> self.subscribers@[i].id
                != self.subscribers@[j].id
        &&& forall|h: u64| #[trigger] v.queues.contains_key(h) ==> exists|i: int|
            0 <= i < self.subscribers@.len() && (#[trigger] self.subscribers@[i]).id == h
    }

    /// A bus with no handles, whose queues each hold `capacity` messages.
    pub fn new(capacity: usize) -> (r: Bus)
        ensures
            r.wf(),
            r@ == model_new(capacity as nat),
    {
        Bus {
            capacity,
            next_id: 0,
            subscribers: Vec::new(),
            model: Ghost(model_new(capacity as nat)),
        }
    }

    /// The index of handle `id` among the subscribers, if it is registered.
    fn position(&self, id: u64) -> (r: Option<usize>)
        requires
            self.wf(),
        ensures
            r is None <==> !self@.registered(id),
            r matches Some(i) ==> i < self.subscribers@.len() && self.subscribers@[i as int].id == id,
    {
        let mut i: usize = 0;
        while i < self.subscribers.len()
            invariant
                self.wf(),
                i <= self.subscribers@.len(),
                forall|j: int| 0 <= j < i ==> self.subscribers@[j].id != id,
            decreases self.subscribers@.len() - i,
        {
            if self.subscribers[i].id == id {
                return Some(i);
            }
            i = i + 1;
        }
        None
    }

    /// Whether handle `id` is registered.
    pub fn is_registered(&self, id: u64) -> (r: bool)
        requires
            self.wf(),
        ensures
            r == self@.registered(id),
    {
        self.position(id).is_some()
    }

    /// The number of registered handles.
    pub fn handle_count(&self) -> (r: usize)
        requires
            self.wf(),
        ensures
            r == self@.queues.dom().len(),
    {
        proof {
            self.lemma_dom_is_ids();
        }
        self.subscribers.len()
    }

    /// Registers a new handle with an empty queue and returns its number;
    /// it receives every message published from now on, and none before.
    /// Handle numbers are never reused: once all are spent, `None`.
    pub fn register(&mut self) -> (r: Option<u64>)
        requires
            old(self).wf(),
        ensures
            final(self).wf(),
            old(self)@.next_id < u64::MAX ==> r == Some(old(self)@.next_id as u64)
                && final(self)@ == model_register(old(self)@),
            old(self)@.next_id >= u64::MAX ==> r is None && final(self)@ == old(self)@,
    {
        if self.next_id == u64::MAX {
            return None;
        }
        let id = self.next_id;
        let ghost v = self.model@;
        let queue = BoundedQueue::new(self.capacity);
        self.subscribers.push(Subscriber { id, queue, stamps: Ghost(Seq::empty()) });
        self.next_id = id + 1;
        self.model = Ghost(model_register(v));
        proof {
            lemma_register_inv(v);
            let w = self.model@;
            let n = self.subscribers@.len() - 1;
            assert forall|i: int| 0 <= i < self.subscribers@.len() implies {
                let s = #[trigger] self.subscribers@[i];
                &&& s.queue.wf()
                &&& s.queue.spec_capacity() == self.capacity as nat
                &&& w.queues.contains_key(s.id)
                &&& w.queues[s.id] == s.stamps@
                &&& s.queue@ == w.messages(s.id)
            } by {
                let s = self.subscribers@[i];
                if i < n {
                    assert(old(self).subscribers@[i] == s);
                    assert(v.queues.contains_key(s.id));
                    assert(w.messages(s.id) == v.messages(s.id));
                } else {
                    assert(w.messages(s.id) =~= Seq::<MessageView>::empty());
                }
            }
            assert forall|i: int, j: int| 0 <= i < j < self.subscribers@.len() implies
                self.subscribers@[i].id != self.subscribers@[j].id by {
                assert(old(self).subscribers@[i] == self.subscribers@[i]);
                assert(v.queues.contains_key(self.subscribers@[i].id));
                if j < n {
                    assert(old(self).subscribers@[j] == self.subscribers@[j]);
                }
            }
            assert forall|h: u64| #[trigger] w.queues.contains_key(h) implies exists|i: int|
                0 <= i < self.subscribers@.len() && (#[trigger] self.subscribers@[i]).id == h by {
                if h == id {
                    assert(self.subscribers@[n].id == h);
                } else {
                    let i = choose|i: int|
                        0 <= i < old(self).subscribers@.len()
                            && (#[trigger] old(self).subscribers@[i]).id == h;
                    assert(self.subscribers@[i] == old(self).subscribers@[i]);
                }
            }
        }
        Some(id)
    }

    /// Removes handle `id` from the registry, so that no later message
    /// reaches it. Removing a handle that is not registered changes nothing.
    pub fn deregister(&mut self, id: u64)
        requires
            old(self).wf(),
        ensures
            final(self).wf(),
            final(self)@ == model_deregister(old(self)@, id),
    {
        let ghost v = self.model@;
        proof {
            lemma_deregister_inv(v, id);
        }
        match self.position(id) {
            None => {
                assert(v.queues.remove(id) =~= v.queues);
                assert(self@ == model_deregister(v, id));
            },
            Some(p) => {
                let _ = self.subscribers.remove(p);
                self.model = Ghost(model_deregister(v, id));
                proof {
                    let w = self.model@;
                    let olds = old(self).subscribers@;
                    assert forall|i: int| 0 <= i < self.subscribers@.len() implies
                        #[trigger] self.subscribers@[i] == if i < p { olds[i] } else { olds[i + 1] }
                        by {}
                    assert forall|i: int| 0 <= i < self.subscribers@.len() implies {
                        let s = #[trigger] self.subscribers@[i];
                        &&& s.queue.wf()
                        &&& s.queue.spec_capacity() == self.capacity as nat
                        &&& w.queues.contains_key(s.id)
                        &&& w.queues[s.id] == s.stamps@
                        &&& s.queue@ == w.messages(s.id)
                    } by {
                        let k = if i < p { i } else { i + 1 };
                        assert(self.subscribers@[i] == olds[k]);
                        assert(olds[k].id != id);
                        assert(w.messages(olds[k].id) == v.messages(olds[k].id));
                    }
                    assert forall|i: int, j: int| 0 <= i < j < self.subscribers@.len() implies
                        self.subscribers@[i].id != self.subscribers@[j].id by {
                        let ki = if i < p { i } else { i + 1 };
                        let kj = if j < p { j } else { j + 1 };
                        assert(self.subscribers@[i] == olds[ki]);
                        assert(self.subscribers@[j] == olds[kj]);
                    }
                    assert forall|h: u64| #[trigger] w.queues.contains_key(h) implies exists|i: int|
                        0 <= i < self.subscribers@.len() && (#[trigger] self.subscribers@[i]).id
                            == h by {
                        let k = choose|k: int| 0 <= k < olds.len() && (#[trigger] olds[k]).id == h;
                        assert(k != p);
                        let i = if k < p { k } else { k - 1 };
                        assert(self.subscribers@[i] == olds[k]);
                    }
                }
            },
        }
    }

    /// Publishes `m`: it is offered, with drop-oldest overflow, to the queue
    /// of every handle registered at this moment, and to no other. Each queue
    /// is touched on its own: a full queue drops its own oldest message and
    /// no other queue is affected.
    pub fn publish(&mut self, m: Message)
        requires
            old(self).wf(),
        ensures
            final(self).wf(),
            final(self)@ == model_publish(old(self)@, m@),
    {
        let ghost v = self.model@;
        let ghost w = model_publish(v, m@);
        let ghost olds = self.subscribers@;
        let mut i: usize = 0;
        while i < self.subscribers.len()
            invariant
                old(self).wf(),
                v == old(self)@,
                w == model_publish(v, m@),
                olds == old(self).subscribers@,
                self.model@ == v,
                self.capacity == old(self).capacity,
                self.next_id == old(self).next_id,
                self.subscribers@.len() == olds.len(),
                i <= olds.len(),
                forall|j: int| 0 <= j < olds.len() ==> {
                    let s = #[trigger] self.subscribers@[j];
                    &&& s.id == olds[j].id
                    &&& s.queue.wf()
                    &&& s.queue.spec_capacity() == self.capacity as nat
                },
                forall|j: int| 0 <= j < i ==> {
                    let s = #[trigger] self.subscribers@[j];
                    &&& w.queues[s.id] == s.stamps@
                    &&& s.queue@ == w.messages(s.id)
                },
                forall|j: int| i <= j < olds.len() ==> #[trigger] self.subscribers@[j] == olds[j],
            decreases olds.len() - i,
        {
            let ghost s0 = self.subscribers@[i as int];
            assert(v.queues.contains_key(s0.id));
            self.subscribers[i].queue.push(m.duplicate());
            self.subscribers[i].stamps = Ghost(
                enqueue_bounded(s0.stamps@, v.log.len(), v.capacity),
            );
            proof {
                let f = |x: nat| w.log[x as int];
                let g = |x: nat| v.log[x as int];
                assert(s0.stamps@.map_values(f) =~= s0.stamps@.map_values(g));
                lemma_enqueue_map(s0.stamps@, v.log.len(), v.capacity, f);
            }
            i = i + 1;
        }
        self.model = Ghost(w);
        proof {
            lemma_publish_inv(v, m@);
            assert forall|h: u64| #[trigger] w.queues.contains_key(h) implies exists|j: int|
                0 <= j < self.subscribers@.len() && (#[trigger] self.subscribers@[j]).id == h by {
                let j = choose|j: int| 0 <= j < olds.len() && (#[trigger] olds[j]).id == h;
                assert(self.subscribers@[j].id == h);
            }
        }
    }

    /// Takes the oldest message waiting for handle `id`; `None` when the
    /// handle is not registered or nothing waits for it.
    pub fn receive(&mut self, id: u64) -> (r: Option<Message>)
        requires
            old(self).wf(),
        ensures
            final(self).wf(),
            final(self)@ == model_receive(old(self)@, id).0,
            r is Some <==> model_receive(old(self)@, id).1 is Some,
            r matches Some(m) ==> m@ == old(self)@.log[model_receive(old(self)@, id).1->0 as int],
            r matches Some(m) ==> m@ == old(self)@.messages(id)[0],
    {
        let ghost v = self.model@;
        proof {
            lemma_receive_inv(v, id);
        }
        match self.position(id) {
            None => None,
            Some(p) => {
                let ghost s0 = self.subscribers@[p as int];
                let r = self.subscribers[p].queue.pop();
                if r.is_some() {
                    self.subscribers[p].stamps = Ghost(s0.stamps@.drop_first());
                    self.model = Ghost(model_receive(v, id).0);
                    proof {
                        let w = self.model@;
                        assert(w.messages(id) =~= v.messages(id).drop_first());
                        assert forall|i: int| 0 <= i < self.subscribers@.len() implies {
                            let s = #[trigger] self.subscribers@[i];
                            &&& w.queues[s.id] == s.stamps@
                            &&& s.queue@ == w.messages(s.id)
                        } by {
                            if i != p {
                                assert(self.subscribers@[i] == old(self).subscribers@[i]);
                                assert(w.messages(self.subscribers@[i].id) == v.messages(
                                    self.subscribers@[i].id,
                                ));
                            }
                        }
                        assert forall|h: u64| #[trigger] w.queues.contains_key(h) implies exists|
                            i: int,
                        |
                            0 <= i < self.subscribers@.len() && (#[trigger] self.subscribers@[i]).id
                                == h by {
                            let i = choose|i: int|
                                0 <= i < old(self).subscribers@.len()
                                    && (#[trigger] old(self).subscribers@[i]).id == h;
                            assert(self.subscribers@[i].id == h);
                        }
                    }
                } else {
                    proof {
                        assert forall|i: int| 0 <= i < self.subscribers@.len() implies {
                            let s = #[trigger] self.subscribers@[i];
                            &&& s.id == old(self).subscribers@[i].id
                            &&& s.stamps == old(self).subscribers@[i].stamps
                            &&& s.queue@ == old(self).subscribers@[i].queue@
                        } by {}
                        assert forall|h: u64| #[trigger] v.queues.contains_key(h) implies exists|
                            i: int,
                        |
                            0 <= i < self.subscribers@.len() && (#[trigger] self.subscribers@[i]).id
                                == h by {
                            let i = choose|i: int|
                                0 <= i < old(self).subscribers@.len()
                                    && (#[trigger] old(self).subscribers@[i]).id == h;
                            assert(self.subscribers@[i].id == h);
                        }
                    }
                }
                r
            },
        }
    }

    /// A consistent bus satisfies the invariant of its abstract state.
    pub proof fn lemma_inv(&self)
        requires
            self.wf(),
        ensures
            self@.inv(),
    {
    }

    /// The number of messages each queue holds at most.
    pub fn capacity(&self) -> (r: usize)
        requires
            self.wf(),
        ensures
            r == self@.capacity,
    {
        self.capacity
    }

    proof fn lemma_dom_is_ids(&self)
        requires
            self.wf(),
        ensures
            self@.queues.dom().finite(),
            self@.queues.dom().len() == self.subscribers@.len(),
    {
        let ids = self.subscribers@.map_values(|s: Subscriber| s.id);
        assert(ids.no_duplicates());
        assert forall|h: u64| self@.queues.dom().contains(h) <==> ids.to_set().contains(h) by {
            if self@.queues.contains_key(h) {
                let i = choose|i: int|
                    0 <= i < self.subscribers@.len() && (#[trigger] self.subscribers@[i]).id == h;
                assert(ids[i] == h);
            }
            if ids.contains(h) {
                let i = choose|i: int| 0 <= i < ids.len() && ids[i] == h;
                assert(self.subscribers@[i].id == h);
            }
        }
        assert(self@.queues.dom() =~= ids.to_set());
        ids.unique_seq_to_set();
    }
}

} // verus!

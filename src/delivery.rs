//! What every handle observes over any run of bus operations.
use vstd::prelude::*;
use crate::envelope::MessageView;
use crate::bus::{
    BusModel, model_register, model_deregister, model_publish, model_receive, lemma_register_inv,
    lemma_deregister_inv, lemma_publish_inv, lemma_receive_inv,
};

verus! {

/// One operation on a bus, as any of its users may perform it.
pub enum BusOp {
    Register,
    Deregister(u64),
    Publish(MessageView),
    Receive(u64),
}

/// The bus after `op`, and the log position of the message taken when `op`
/// is a receive that found one.
pub open spec fn model_step(v: BusModel, op: BusOp) -> (BusModel, Option<nat>) {
    match op {
        BusOp::Register => (if v.next_id < u64::MAX { model_register(v) } else { v }, None),
        BusOp::Deregister(h) => (model_deregister(v, h), None),
        BusOp::Publish(m) => (model_publish(v, m), None),
        BusOp::Receive(h) => model_receive(v, h),
    }
}

/// The bus after every operation of `ops`, in turn.
pub open spec fn run(v: BusModel, ops: Seq<BusOp>) -> BusModel
    decreases ops.len(),
{
    if ops.len() == 0 {
        v
    } else {
        run(model_step(v, ops[0]).0, ops.drop_first())
    }
}

/// The log positions of the messages that handle `h` takes, in the order it
/// takes them, while `ops` runs on `v`.
pub open spec fn received_by(v: BusModel, ops: Seq<BusOp>, h: u64) -> Seq<nat>
    decreases ops.len(),
{
    if ops.len() == 0 {
        Seq::empty()
    } else {
        let (w, r) = model_step(v, ops[0]);
        let here = if ops[0] == BusOp::Receive(h) && r is Some {
            seq![r->0]
        } else {
            Seq::empty()
        };
        here + received_by(w, ops.drop_first(), h)
    }
}

/// Each operation keeps the invariant, never shortens the log, and never
/// lowers the floor of a handle.
proof fn lemma_step(v: BusModel, op: BusOp, h: u64)
    requires
        v.inv(),
    ensures
        model_step(v, op).0.inv(),
        model_step(v, op).0.log.len() >= v.log.len(),
        model_step(v, op).0.floor(h) >= v.floor(h),
        model_step(v, op).0.next_id >= v.next_id,
        model_step(v, op).1 matches Some(s) ==> op matches BusOp::Receive(g) && v.floor(g) <= s
            && s < v.log.len() && model_step(v, op).0.floor(g) == s + 1,
{
    match op {
        BusOp::Register => {
            if v.next_id < u64::MAX {
                lemma_register_inv(v);
                if h == v.next_id as u64 {
                    assert(!v.floors.contains_key(h));
                }
            }
        },
        BusOp::Deregister(g) => lemma_deregister_inv(v, g),
        BusOp::Publish(m) => lemma_publish_inv(v, m),
        BusOp::Receive(g) => {
            lemma_receive_inv(v, g);
            if v.queues.contains_key(g) && v.queues[g].len() > 0 {
                assert(v.floor(g) <= v.queues[g][0] && v.queues[g][0] < v.log.len());
                if h == g {
                    assert(v.floor(h) <= v.queues[g][0]);
                }
            }
        },
    }
}

/// A run never shortens the log.
proof fn lemma_run_log(v: BusModel, ops: Seq<BusOp>)
    requires
        v.inv(),
    ensures
        run(v, ops).log.len() >= v.log.len(),
    decreases ops.len(),
{
    if ops.len() > 0 {
        lemma_step(v, ops[0], 0);
        lemma_run_log(model_step(v, ops[0]).0, ops.drop_first());
    }
}

/// Delivery order: over any run of operations, by any number of users, the
/// messages a handle takes are published messages, taken in strictly
/// increasing publish position. So each handle observes a subsequence of
/// what was published, in publish order, with gaps where its queue
/// overflowed, never out of order and never twice; and never a message
/// older than what it could still receive when the run began.
pub proof fn lemma_delivery_in_publish_order(v: BusModel, ops: Seq<BusOp>, h: u64)
    requires
        v.inv(),
    ensures
        forall|i: int, j: int|
            0 <= i < j < received_by(v, ops, h).len() ==> received_by(v, ops, h)[i]
                < received_by(v, ops, h)[j],
        forall|i: int|
            0 <= i < received_by(v, ops, h).len() ==> v.floor(h) <= #[trigger] received_by(
                v,
                ops,
                h,
            )[i] && received_by(v, ops, h)[i] < run(v, ops).log.len(),
    decreases ops.len(),
{
    if ops.len() > 0 {
        let (w, r) = model_step(v, ops[0]);
        let rest = ops.drop_first();
        lemma_step(v, ops[0], h);
        lemma_delivery_in_publish_order(w, rest, h);
        lemma_run_log(w, rest);
        let tail = received_by(w, rest, h);
        let all = received_by(v, ops, h);
        if ops[0] == BusOp::Receive(h) && r is Some {
            let s = r->0;
            assert(all =~= seq![s] + tail);
            assert forall|i: int, j: int| 0 <= i < j < all.len() implies all[i] < all[j] by {
                if i == 0 {
                    assert(all[j] == tail[j - 1]);
                    assert(w.floor(h) <= tail[j - 1]);
                } else {
                    assert(all[i] == tail[i - 1]);
                    assert(all[j] == tail[j - 1]);
                }
            }
            assert forall|i: int| 0 <= i < all.len() implies v.floor(h) <= #[trigger] all[i]
                && all[i] < run(v, ops).log.len() by {
                if i > 0 {
                    assert(all[i] == tail[i - 1]);
                }
            }
        } else {
            assert(all =~= tail);
        }
    }
}

/// A handle that was handed out and is no longer registered stays so.
proof fn lemma_gone_stays_gone(v: BusModel, ops: Seq<BusOp>, h: u64)
    requires
        (h as nat) < v.next_id,
        !v.registered(h),
    ensures
        received_by(v, ops, h).len() == 0,
    decreases ops.len(),
{
    if ops.len() > 0 {
        let (w, r) = model_step(v, ops[0]);
        match ops[0] {
            BusOp::Register => {},
            BusOp::Deregister(g) => {},
            BusOp::Publish(m) => {},
            BusOp::Receive(g) => {},
        }
        assert(!w.registered(h));
        lemma_gone_stays_gone(w, ops.drop_first(), h);
        assert(received_by(v, ops, h) =~= received_by(w, ops.drop_first(), h));
    }
}

/// After a handle is deregistered, no run of operations, whatever else is
/// registered, published or removed meanwhile, delivers it another message.
pub proof fn lemma_deregistered_receives_nothing(v: BusModel, ops: Seq<BusOp>, h: u64)
    requires
        (h as nat) < v.next_id,
    ensures
        received_by(model_deregister(v, h), ops, h).len() == 0,
{
    lemma_gone_stays_gone(model_deregister(v, h), ops, h);
}

/// A handle registered between two publishes receives the second message
/// next (when queues hold at least one message), and holds nothing of what
/// came before it.
pub proof fn lemma_registered_receives_next(v: BusModel, m: MessageView)
    requires
        v.inv(),
        v.next_id < u64::MAX,
        v.capacity > 0,
    ensures
        model_register(v).messages(v.next_id as u64).len() == 0,
        model_publish(model_register(v), m).messages(v.next_id as u64) == seq![m],
        model_receive(model_publish(model_register(v), m), v.next_id as u64).1 == Some(
            v.log.len(),
        ),
        model_publish(model_register(v), m).log[v.log.len() as int] == m,
{
    let h = v.next_id as u64;
    let w = model_publish(model_register(v), m);
    assert(w.queues[h] =~= seq![v.log.len()]);
    assert(w.messages(h) =~= seq![m]);
    assert(model_register(v).messages(h) =~= Seq::<MessageView>::empty());
}

} // verus!

//! The per-connection forwarder: drains one handle and hands its messages,
//! as wire envelopes, to the transport; closes on the first failed write.
use vstd::prelude::*;
use crate::bus::{Bus, model_receive, model_deregister};
use crate::envelope::envelope_of;

verus! {

/// The two states of a forwarder. `Closed` is terminal.
#[derive(PartialEq, Eq, Structural, Clone, Copy, Debug)]
pub enum ForwarderState {
    Active,
    Closed,
}

/// The forwarder of one connection, bound to one handle of the bus.
pub struct Forwarder {
    pub handle: u64,
    pub state: ForwarderState,
}

impl Forwarder {
    /// An active forwarder for `handle`.
    pub fn new(handle: u64) -> (r: Forwarder)
        ensures
            r.handle == handle,
            r.state == ForwarderState::Active,
    {
        Forwarder { handle, state: ForwarderState::Active }
    }

    /// Whether the forwarder still forwards.
    pub fn is_active(&self) -> (r: bool)
        ensures
            r == (self.state == ForwarderState::Active),
    {
        self.state == ForwarderState::Active
    }

    /// The wire envelope of the oldest message waiting for this forwarder's
    /// handle, taken out of its queue; `None` when nothing waits, or when the
    /// forwarder is closed, which then leaves the bus as it was.
    pub fn next_frame(&self, bus: &mut Bus) -> (r: Option<String>)
        requires
            old(bus).wf(),
        ensures
            final(bus).wf(),
            self.state == ForwarderState::Closed ==> r is None && final(bus)@ == old(bus)@,
            self.state == ForwarderState::Active ==> {
                &&& final(bus)@ == model_receive(old(bus)@, self.handle).0
                &&& r is Some <==> model_receive(old(bus)@, self.handle).1 is Some
                &&& r matches Some(f) ==> f@ == envelope_of(
                    old(bus)@.messages(self.handle)[0].channel,
                    old(bus)@.messages(self.handle)[0].payload,
                )
            },
    {
        if self.state == ForwarderState::Closed {
            return None;
        }
        match bus.receive(self.handle) {
            Some(m) => Some(m.envelope()),
            None => None,
        }
    }

    /// Reacts to the outcome of a write to the transport. A success changes
    /// nothing; a failure closes the forwarder for good and deregisters its
    /// handle, so that no later message is queued for it. There is no retry.
    pub fn on_write(&mut self, ok: bool, bus: &mut Bus)
        requires
            old(bus).wf(),
        ensures
            final(bus).wf(),
            final(self).handle == old(self).handle,
            ok ==> final(self).state == old(self).state && final(bus)@ == old(bus)@,
            !ok ==> final(self).state == ForwarderState::Closed && final(bus)@ == model_deregister(
                old(bus)@,
                old(self).handle,
            ),
    {
        if !ok {
            self.state = ForwarderState::Closed;
            bus.deregister(self.handle);
        }
    }
}

} // verus!

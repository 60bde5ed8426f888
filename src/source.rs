//! The source reader's step: what becomes of one fetch from the
//! subscription source.
use vstd::prelude::*;
use crate::bus::{Bus, model_publish};
use crate::envelope::{Message, MessageView};

verus! {

/// Relays the outcome of one fetch to the bus. A fetched channel name and
/// payload are made into a message and published; a failed fetch (`None`)
/// is skipped and leaves the bus as it was, so that reading goes on.
/// Returns whether a message was published.
pub fn relay_fetched(bus: &mut Bus, fetched: Option<(String, String)>) -> (r: bool)
    requires
        old(bus).wf(),
    ensures
        final(bus).wf(),
        r == fetched is Some,
        fetched is None ==> final(bus)@ == old(bus)@,
        fetched matches Some((c, p)) ==> final(bus)@ == model_publish(
            old(bus)@,
            MessageView { channel: c@, payload: p@ },
        ),
{
    match fetched {
        Some((channel, payload)) => {
            bus.publish(Message::new(channel, payload));
            true
        },
        None => false,
    }
}

} // verus!

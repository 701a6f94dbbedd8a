//! Delivery outcomes of advanced-link SDUs.

use vstd::prelude::*;

verus! {

/// What became of one TL-SDU.
#[derive(Debug, Clone, Copy, PartialEq, Eq, Structural)]
pub enum AlDeliveryOutcome {
    /// The peer confirmed the whole TL-SDU.
    Delivered,
    /// Released without a confirmation on a link that allows no retransmission:
    /// sent, probably received, not verified.
    DroppedFireAndForget,
    /// Given up after the last retransmission.
    DroppedRetxExhausted,
}

/// The outcome of one TL-SDU, with the link and the N(S) that identify it.
#[derive(Debug, Clone, Copy, PartialEq, Eq, Structural)]
pub struct AlDeliveryEvent {
    pub ssi: u32,
    pub link_id: u32,
    pub endpoint_id: u32,
    pub n261: u8,
    pub n_s: u8,
    pub outcome: AlDeliveryOutcome,
}

/// Mailbox for delivery outcomes. The LLC records each outcome in the mailbox that
/// is installed; its owner empties it.
#[derive(Debug)]
pub struct AlDeliveryHook {
    pub events: Vec<AlDeliveryEvent>,
}

impl AlDeliveryHook {
    /// An empty mailbox.
    pub fn new() -> (r: AlDeliveryHook)
        ensures
            r.events@ == Seq::<AlDeliveryEvent>::empty(),
    {
        AlDeliveryHook { events: Vec::new() }
    }
}

} // verus!

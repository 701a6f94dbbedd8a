//! Settings that the LLC works by.

use crate::sec_llc::CfgAdvancedLink;
use vstd::prelude::*;

verus! {

/// Timers, in timeslots, and limits of the LLC protocol.
#[derive(Debug, Clone, Copy, PartialEq, Eq, Structural)]
pub struct LlcLimits {
    /// Basic link: wait for an acknowledgement before sending again.
    pub t251_sender_retry: u32,
    /// Advanced link: wait for an acknowledgement before sending again.
    pub t252_ack_waiting: u32,
    /// Wait for the answer to an AL-SETUP.
    pub t261_setup_waiting: u32,
    /// Wait for the answer to an AL-DISC.
    pub t263_disconnect_waiting: u32,
    /// Wait for the answer to an AL-RECONNECT.
    pub t265_reconnect_waiting: u32,
    /// Lifetime of a TL-SDU received in part on the unacknowledged service.
    pub t271_not_ready_for_tx: u32,
    /// How long the peer's receiver-not-ready holds.
    pub t272_not_ready_for_rx: u32,
    /// Longest TL-SDU of the basic link, in bits.
    pub n251_bl_max_tlsdu_len_bits: u32,
    /// Retransmissions on the basic link.
    pub n252_bl_max_retransmits: u8,
}

/// Settings of the LLC.
#[derive(Debug, Clone, Copy, PartialEq, Eq, Structural)]
pub struct LlcConfig {
    /// Carrier for messages that name none.
    pub main_carrier: u16,
    pub advanced_link: CfgAdvancedLink,
    pub limits: LlcLimits,
}

} // verus!

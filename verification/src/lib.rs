//! TETRA packet-data stack: configuration, the LLC basic and advanced links,
//! the SNDCP context machine, the packet-data channel allocator and the IPv4
//! gateway rules, with their behaviour stated and proved.

pub mod al_events;
pub mod bits;
pub mod control;
pub mod fcs;
pub mod gateway;
pub mod interop;
pub mod ipv4;
pub mod llc;
pub mod pdch_allocator;
pub mod saps;
pub mod sec_llc;
pub mod sec_packet_data;
pub mod sec_wap_gateway;
pub mod sndcp;
pub mod tdma;
pub mod text;

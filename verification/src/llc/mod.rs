//! Logical link control: the basic link and the advanced link.

pub mod al_conduct;
pub mod al_data_conduct;
pub mod al_link;
pub mod al_link_conduct;
pub mod al_rx;
pub mod al_tick;
pub mod al_tick_conduct;
pub mod al_tx;
pub mod basic_link;
pub mod bl_conduct;
pub mod config;
pub mod dispatch;
pub mod entity;
pub mod laws;
pub mod link_table;
pub mod pdus;
pub mod report;
pub mod runs;

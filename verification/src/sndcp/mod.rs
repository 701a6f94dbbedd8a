//! Subnetwork dependent convergence protocol: PDP contexts and their traffic.

pub mod conduct;
pub mod entity;
pub mod laws;
pub mod pdus;
pub mod pool;

//! Forwarding of verified transaction packets: straight away to the block engine, and to the
//! validator after a fixed delay.
//!
//! [`worker`] holds the decisions of a forwarder thread, [`protection`] the filter in front of the
//! block engine, and [`metrics`] what a thread counts. What is promised of a whole run, and of the
//! filter whatever it sees, stands in [`worker_laws`] and [`protection_laws`].

pub mod clusters;
pub mod locks;
pub mod metrics;
pub mod packet;
pub mod protection;
pub mod protection_laws;
pub mod validators;
pub mod worker;
pub mod worker_laws;

//! A packet-processing dataplane that answers DNS queries for registered
//! service names and translates the TCP traffic that follows.
//!
//! The crate works on raw Ethernet frames held in byte vectors. A
//! [`context::Context`] classifies one frame and gives bounds-checked access
//! to its headers; [`resolver::DnsResolver`] answers registered DNS questions
//! in place and provisions address translation; [`forwarder::TrafficForwarder`]
//! rewrites TCP segments from that state. The three functions of [`hooks`]
//! take one frame each and hand it to the component that it belongs to, and
//! [`laws`] states what holds of them together.
//!
//! Nothing here drops a frame: whatever cannot be classified, parsed or
//! matched passes unchanged.

pub mod assoc;
pub mod checksum;
pub mod context;
pub mod dns;
pub mod error;
pub mod forwarder;
pub mod frame;
pub mod hooks;
pub mod laws;
pub mod names;
pub mod resolver;
pub mod table;
pub mod types;
pub mod wire;

pub use hooks::{
    egress_forwarder, ingress_forwarder, resolver, try_forward_egress, try_forward_ingress,
    try_resolve_dns,
};
pub use names::{class_to_str, record_type_to_str};

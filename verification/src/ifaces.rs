//! Interfaces: what the kernel reports of them and what a caller asks of them.

pub mod iface;
pub mod iface_conf;
pub mod veth;

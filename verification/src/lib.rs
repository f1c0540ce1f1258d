//! Container network setup: deterministic identity tokens, bridge/veth
//! provisioning over an explicit device-table model, a firewall rule
//! engine, and the orchestrator that sequences them per logical network.

pub mod hash;
pub mod ip;
pub mod types;
pub mod devices;
pub mod firewall;
pub mod setup;

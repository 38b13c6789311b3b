//! Deterministic guest/host channel: wire formats, host-side channel
//! access, and the pure parts of the in-guest agent and SDK.
pub mod agent;
pub mod host;
pub mod sdk;
pub mod text;
pub mod wire;

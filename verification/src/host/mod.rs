//! Host-side access to the channel: attach, ring producers and consumers,
//! inject answering, manifest reads, and replay of the mutation trace.
//!
//! Every host write to channel memory is reported through a
//! `ChannelWriteSink`, so the hypervisor can append it to its input log.
pub mod guestmem;
pub mod inject;
pub mod manifest;
pub mod replay;
pub mod sink;
pub mod capture;
pub mod channel;
pub mod drain;

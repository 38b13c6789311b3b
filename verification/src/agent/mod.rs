//! The pure parts of the in-guest agent: the boot manifest and its
//! TOML-subset parser, the `Ready` record and the packed agent version,
//! pagemap entry decoding, workload line framing, and the reference
//! workload's control codec.
pub mod boot;
pub mod control;
pub mod pio;
pub mod pvblk;
pub mod ready;
pub mod region_ipc;
pub mod relay;
pub mod supervise;
pub mod tiny;
pub mod translate;

use crate::wire::bytes::splice;
use crate::wire::events::{
    encode_event, pack_agent_version, spec_event_len, spec_event_record, EventModel,
    EventPayload,
};
use crate::wire::EncodeError;
use vstd::prelude::*;

verus! {

/// This agent's version, packed into `Hello.agent_version`.
pub const AGENT_VERSION_MAJOR: u8 = 0;
/// Minor component of the agent version.
pub const AGENT_VERSION_MINOR: u8 = 1;
/// Patch component of the agent version.
pub const AGENT_VERSION_PATCH: u8 = 0;

/// Encode a `Ready` record (EventKind 14) into `buf`, returning the record
/// length.
///
/// `unit` is the autostart unit started (`0xFFFF_FFFF` if none),
/// `region_count` the live regions at emit time, and `manifest_generation`
/// the manifest's even seqlock generation. `buf` must hold the record.
pub fn ready_record(
    buf: &mut [u8],
    seq: u32,
    vnanos: u64,
    unit: u32,
    region_count: u32,
    manifest_generation: u64,
) -> (r: Result<usize, EncodeError>)
    requires
        old(buf)@.len() >= spec_event_len(EventModel::Ready { unit, region_count, manifest_generation }),
    ensures
        r == Ok::<usize, EncodeError>(
            spec_event_len(EventModel::Ready { unit, region_count, manifest_generation }) as usize,
        ),
        final(buf)@ == splice(
            old(buf)@,
            0,
            spec_event_record(
                seq,
                vnanos,
                0,
                EventModel::Ready { unit, region_count, manifest_generation },
            ),
        ),
{
    let ev = EventPayload::Ready { unit, region_count, manifest_generation };
    encode_event(buf, seq, vnanos, 0, &ev)
}

/// Packed `Hello.agent_version` for this agent's version.
pub fn agent_version() -> (r: u32)
    ensures
        r == AGENT_VERSION_MAJOR as int * 0x1_0000 + AGENT_VERSION_MINOR as int * 0x100
            + AGENT_VERSION_PATCH as int,
{
    pack_agent_version(AGENT_VERSION_MAJOR, AGENT_VERSION_MINOR, AGENT_VERSION_PATCH)
}

} // verus!

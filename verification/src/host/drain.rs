//! Drained guest events and the fold of ring records into host state.
use crate::wire::events::{EventModel, EventPayload, RegionEvent};
use crate::wire::header::RingId;
use crate::wire::record::{RecordHeader, FLAG_REACHABLE_DECL, FLAG_TRUNCATED};
use vstd::prelude::*;
use vstd::slice::slice_to_vec;

verus! {

/// Owned mirror of `EventPayload` for drained events (`Pad` is consumed
/// by the drain loop and never surfaces). String fields stay raw bytes:
/// UTF-8 is the producer's contract, not enforced on the wire.
#[derive(Debug, Clone, PartialEq, Eq)]
#[non_exhaustive]
pub enum OwnedPayload {
    /// Agent announce (kind 1).
    Hello {
        /// Channel proto version (must be 1).
        proto_version: u32,
        /// Packed agent crate version.
        agent_version: u32,
        /// Capability bits.
        capabilities: u64,
    },
    /// name → id binding (kind 2).
    NameIntern {
        /// Intern id.
        name_id: u32,
        /// Raw name bytes.
        name: Vec<u8>,
        /// Emitted by `declare_reachable()` (header flag bit 1).
        reachable_decl: bool,
    },
    /// `assert_always` violation (kind 3).
    AssertViolation {
        /// Interned assert name.
        name_id: u32,
        /// Per-name count incl. this one.
        violation_count: u32,
        /// Raw details bytes.
        details: Vec<u8>,
    },
    /// First hit of a reachability name (kind 4).
    Reachable {
        /// Interned name.
        name_id: u32,
    },
    /// First hit of a coverage beacon (kind 5).
    Beacon {
        /// Beacon id.
        beacon_id: u32,
    },
    /// `inject_point` query (kind 6).
    InjectQuery {
        /// Guest-local inject counter.
        iseq: u32,
        /// Interned point name.
        name_id: u32,
    },
    /// Region published (kind 7).
    RegionRegister(RegionEvent),
    /// Region re-verified / unregistered (kind 8).
    RegionUpdate(RegionEvent),
    /// Workload exec'd (kind 9).
    WorkloadStarted {
        /// Guest PID.
        guest_pid: u32,
        /// Launched unit id.
        unit: u32,
    },
    /// Workload reaped (kind 10).
    WorkloadExited {
        /// Guest PID.
        guest_pid: u32,
        /// Exit code (-1 if signalled).
        exit_code: i32,
        /// Terminating signal (0 if normal).
        term_signal: i32,
    },
    /// Structured log line (kind 11).
    LogLine {
        /// Stream id.
        stream: u8,
        /// Level.
        level: u8,
        /// Raw message bytes.
        msg: Vec<u8>,
    },
    /// Quiesce point reached (kind 12).
    QuiesceReady {
        /// Echoed token.
        token: u64,
    },
    /// Frame boundary (kind 13).
    FrameMark {
        /// Completed frame index.
        frame_index: u32,
    },
    /// The deterministic READY point (kind 14).
    Ready {
        /// Autostart unit (0xFFFF_FFFF if none).
        unit: u32,
        /// Live regions at emit time.
        region_count: u32,
        /// Manifest generation (even).
        manifest_generation: u64,
    },
}

impl View for OwnedPayload {
    /// The event, and the REACHABLE_DECL bit of a `NameIntern`.
    type V = (EventModel, bool);

    open spec fn view(&self) -> (EventModel, bool) {
        match self {
            OwnedPayload::Hello { proto_version, agent_version, capabilities } => (
                EventModel::Hello {
                    proto_version: *proto_version,
                    agent_version: *agent_version,
                    capabilities: *capabilities,
                },
                false,
            ),
            OwnedPayload::NameIntern { name_id, name, reachable_decl } => (
                EventModel::NameIntern { name_id: *name_id, name: name@ },
                *reachable_decl,
            ),
            OwnedPayload::AssertViolation { name_id, violation_count, details } => (
                EventModel::AssertViolation {
                    name_id: *name_id,
                    violation_count: *violation_count,
                    details: details@,
                },
                false,
            ),
            OwnedPayload::Reachable { name_id } => (EventModel::Reachable { name_id: *name_id }, false),
            OwnedPayload::Beacon { beacon_id } => (EventModel::Beacon { beacon_id: *beacon_id }, false),
            OwnedPayload::InjectQuery { iseq, name_id } => (
                EventModel::InjectQuery { iseq: *iseq, name_id: *name_id },
                false,
            ),
            OwnedPayload::RegionRegister(r) => (EventModel::RegionRegister(*r), false),
            OwnedPayload::RegionUpdate(r) => (EventModel::RegionUpdate(*r), false),
            OwnedPayload::WorkloadStarted { guest_pid, unit } => (
                EventModel::WorkloadStarted { guest_pid: *guest_pid, unit: *unit },
                false,
            ),
            OwnedPayload::WorkloadExited { guest_pid, exit_code, term_signal } => (
                EventModel::WorkloadExited {
                    guest_pid: *guest_pid,
                    exit_code: *exit_code,
                    term_signal: *term_signal,
                },
                false,
            ),
            OwnedPayload::LogLine { stream, level, msg } => (
                EventModel::LogLine { stream: *stream, level: *level, msg: msg@ },
                false,
            ),
            OwnedPayload::QuiesceReady { token } => (EventModel::QuiesceReady { token: *token }, false),
            OwnedPayload::FrameMark { frame_index } => (
                EventModel::FrameMark { frame_index: *frame_index },
                false,
            ),
            OwnedPayload::Ready { unit, region_count, manifest_generation } => (
                EventModel::Ready {
                    unit: *unit,
                    region_count: *region_count,
                    manifest_generation: *manifest_generation,
                },
                false,
            ),
        }
    }
}

/// A drained, typed guest event plus its framing metadata.
#[derive(Debug, Clone, PartialEq, Eq)]
pub struct GuestEvent {
    /// Source ring (A or W).
    pub ring: RingId,
    /// Per-ring producer record counter.
    pub seq: u32,
    /// Guest virtual time.
    pub vnanos: u64,
    /// Header TRUNCATED flag (details/msg clipped at its cap).
    pub truncated: bool,
    /// The decoded payload (owned).
    pub payload: OwnedPayload,
}

/// The mathematical content of a drained event.
pub struct GuestEventModel {
    /// Source ring.
    pub ring: RingId,
    /// Record seq.
    pub seq: u32,
    /// Guest virtual time.
    pub vnanos: u64,
    /// TRUNCATED flag.
    pub truncated: bool,
    /// The event.
    pub payload: EventModel,
    /// REACHABLE_DECL flag of a `NameIntern` (false for other kinds).
    pub reachable_decl: bool,
}

impl View for GuestEvent {
    type V = GuestEventModel;

    open spec fn view(&self) -> GuestEventModel {
        GuestEventModel {
            ring: self.ring,
            seq: self.seq,
            vnanos: self.vnanos,
            truncated: self.truncated,
            payload: self.payload@.0,
            reachable_decl: self.payload@.1,
        }
    }
}

/// The drained event for a decoded non-`Pad` record.
pub open spec fn spec_guest_event(ring: RingId, h: RecordHeader, m: EventModel) -> GuestEventModel {
    GuestEventModel {
        ring,
        seq: h.seq,
        vnanos: h.vnanos,
        truncated: h.flags & FLAG_TRUNCATED != 0,
        payload: m,
        reachable_decl: m is NameIntern && h.flags & FLAG_REACHABLE_DECL != 0,
    }
}

/// Convert a borrowed payload to its owned mirror; `None` for `Pad`.
pub fn to_owned(flags: u8, p: &EventPayload<'_>) -> (r: Option<OwnedPayload>)
    ensures
        r is None <==> p@ is Pad,
        r is Some ==> r->0@ == (p@, p@ is NameIntern && flags & FLAG_REACHABLE_DECL != 0),
{
    match *p {
        EventPayload::Pad => None,
        EventPayload::Hello { proto_version, agent_version, capabilities } => Some(
            OwnedPayload::Hello { proto_version, agent_version, capabilities },
        ),
        EventPayload::NameIntern { name_id, name } => Some(
            OwnedPayload::NameIntern {
                name_id,
                name: slice_to_vec(name),
                reachable_decl: flags & FLAG_REACHABLE_DECL != 0,
            },
        ),
        EventPayload::AssertViolation { name_id, violation_count, details } => Some(
            OwnedPayload::AssertViolation { name_id, violation_count, details: slice_to_vec(details) },
        ),
        EventPayload::Reachable { name_id } => Some(OwnedPayload::Reachable { name_id }),
        EventPayload::Beacon { beacon_id } => Some(OwnedPayload::Beacon { beacon_id }),
        EventPayload::InjectQuery { iseq, name_id } => Some(OwnedPayload::InjectQuery { iseq, name_id }),
        EventPayload::RegionRegister(r) => Some(OwnedPayload::RegionRegister(r)),
        EventPayload::RegionUpdate(r) => Some(OwnedPayload::RegionUpdate(r)),
        EventPayload::WorkloadStarted { guest_pid, unit } => Some(
            OwnedPayload::WorkloadStarted { guest_pid, unit },
        ),
        EventPayload::WorkloadExited { guest_pid, exit_code, term_signal } => Some(
            OwnedPayload::WorkloadExited { guest_pid, exit_code, term_signal },
        ),
        EventPayload::LogLine { stream, level, msg } => Some(
            OwnedPayload::LogLine { stream, level, msg: slice_to_vec(msg) },
        ),
        EventPayload::QuiesceReady { token } => Some(OwnedPayload::QuiesceReady { token }),
        EventPayload::FrameMark { frame_index } => Some(OwnedPayload::FrameMark { frame_index }),
        EventPayload::Ready { unit, region_count, manifest_generation } => Some(
            OwnedPayload::Ready { unit, region_count, manifest_generation },
        ),
    }
}

} // verus!

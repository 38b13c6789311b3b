//! Typed payloads and whole-record encode/decode for the three ring
//! namespaces: events (rings A/W), commands (ring C) and workload-control
//! records (ring I).
//!
//! Decoders are total over arbitrary bytes. Variable-length payloads borrow
//! from the input record.
use super::bytes::{b16, b32, b64, get_u16, get_u32, get_u64, le16, le32, le64, lemma_le_round_trips, push_slice, push_u16, push_u32, push_u64, push_zeros, splice, write_at, zeros};
use super::record::{encode_pad, lemma_header_bytes_len, lemma_record_frames, spec_header_bytes, spec_pad8, spec_pad_bytes, spec_payload_of, spec_read_header, spec_record, spec_record_len, record_len, CommandKind, EventKind, RecordHeader, WorkloadCtrlKind, FLAG_TRUNCATED, MAX_RECORD_LEN, MIN_RECORD_LEN, RECORD_HEADER_LEN};
use super::{DecodeError, EncodeError};
use vstd::prelude::*;

pub mod log_stream;

verus! {

/// Maximum `AssertViolation.details` length (clipped + TRUNCATED beyond).
pub const MAX_DETAILS: usize = 512;
/// Maximum `LogLine.msg` length (clipped + TRUNCATED beyond).
pub const MAX_LOG_MSG: usize = 1024;
/// Maximum `NameIntern.name` length (hard error beyond).
pub const MAX_NAME: usize = 256;
/// `Hello.capabilities` bit 0: agent supports FORCED quiesce.
pub const CAP_FORCED_QUIESCE: u64 = 1;
/// `Hello.capabilities` bit 1: agent supports ReverifyRegions.
pub const CAP_REVERIFY_REGIONS: u64 = 2;

/// Pack an agent crate version for `Hello.agent_version`:
/// `major << 16 | minor << 8 | patch`.
pub fn pack_agent_version(major: u8, minor: u8, patch: u8) -> (r: u32)
    ensures
        r == major as int * 0x1_0000 + minor as int * 0x100 + patch as int,
{
    let (a, b, c) = (major as u32, minor as u32, patch as u32);
    let r = (a << 16) | (b << 8) | c;
    assert(r == a * 0x1_0000 + b * 0x100 + c) by (bit_vector)
        requires
            a < 256,
            b < 256,
            c < 256,
            r == (a << 16) | (b << 8) | c,
    ;
    r
}

/// `Quiesce.mode` values (COOP 0, FORCED 1).
#[derive(Debug, Clone, Copy, PartialEq, Eq, Structural)]
pub enum QuiesceMode {
    /// Relay onto ring I; the SDK parks at its next `quiesce_check()`.
    Coop,
    /// SIGSTOP the workload.
    Forced,
}

/// `Shutdown.mode` values (graceful 0, immediate 1).
#[derive(Debug, Clone, Copy, PartialEq, Eq, Structural)]
pub enum ShutdownMode {
    /// SIGTERM, grace period, SIGKILL, power off.
    Graceful,
    /// Skip the grace period.
    Immediate,
}

/// A decoded ring C command.
#[allow(inconsistent_fields)]
#[derive(Debug, Clone, Copy, PartialEq, Eq, Structural)]
pub enum Command {
    /// Fork+exec a preconfigured unit (kind 1).
    StartWorkload {
        /// Boot-manifest unit id.
        unit: u32,
        /// Initial LogLine mask.
        log_mask: u32,
    },
    /// Request a quiesce point (kind 2).
    Quiesce {
        /// Host-chosen token; `QuiesceReady` must echo it.
        token: u64,
        /// COOP or FORCED.
        mode: QuiesceMode,
    },
    /// Resume a FORCED-quiesced workload (kind 3).
    Resume {
        /// Token from the matching `Quiesce`.
        token: u64,
    },
    /// Kill the workload, power off the VM (kind 4).
    Shutdown {
        /// Graceful or immediate.
        mode: ShutdownMode,
    },
    /// Adjust LogLine production (kind 5).
    SetLogMask {
        /// New mask.
        mask: u32,
    },
    /// Re-walk pagemap for all live regions (kind 6).
    ReverifyRegions,
}

/// A decoded ring I workload-control record.
#[derive(Debug, Clone, Copy, PartialEq, Eq, Structural)]
pub enum WorkloadCtrl {
    /// Quiesce relay (kind 2).
    QuiesceReq {
        /// Host-chosen token.
        token: u64,
    },
    /// Unpark from `quiesce_check` (kind 3).
    Resume {
        /// Token from the matching `QuiesceReq`.
        token: u64,
    },
}

/// Common payload of `RegionRegister` / `RegionUpdate`.
#[derive(Debug, Clone, Copy, PartialEq, Eq, Structural)]
pub struct RegionEvent {
    /// Manifest slot index.
    pub region_id: u32,
    /// Interned region name.
    pub name_id: u32,
    /// Workload-declared layout version.
    pub layout_version: u32,
    /// Manifest generation after the update (even).
    pub manifest_generation: u32,
}

/// A decoded ring A/W event payload, borrowing variable-length fields from
/// the record bytes. Flag bits stay on the `RecordHeader`.
#[derive(Debug, Clone, Copy, PartialEq, Eq)]
pub enum EventPayload<'a> {
    /// Tail filler (kind 0); consumers skip it.
    Pad,
    /// Agent announce (kind 1).
    Hello {
        /// Must equal the channel header's proto_version.
        proto_version: u32,
        /// Packed agent crate version.
        agent_version: u32,
        /// `CAP_FORCED_QUIESCE` | `CAP_REVERIFY_REGIONS`.
        capabilities: u64,
    },
    /// name → id binding (kind 2).
    NameIntern {
        /// Guest-local intern counter value, starts at 1.
        name_id: u32,
        /// UTF-8 name bytes (≤ `MAX_NAME`, no NUL).
        name: &'a [u8],
    },
    /// `assert_always` violation (kind 3).
    AssertViolation {
        /// Interned assert name.
        name_id: u32,
        /// Per-name violation count including this one (1-based).
        violation_count: u32,
        /// UTF-8 details, ≤ `MAX_DETAILS` (TRUNCATED flag when clipped).
        details: &'a [u8],
    },
    /// First hit of a reachability name (kind 4).
    Reachable {
        /// Interned name.
        name_id: u32,
    },
    /// First hit of a coverage beacon (kind 5).
    Beacon {
        /// Beacon id (< 65536).
        beacon_id: u32,
    },
    /// `inject_point` query (kind 6).
    InjectQuery {
        /// Guest-local inject counter.
        iseq: u32,
        /// Interned inject-point name.
        name_id: u32,
    },
    /// Region published (kind 7).
    RegionRegister(RegionEvent),
    /// Region re-verified / unregistered (kind 8).
    RegionUpdate(RegionEvent),
    /// Workload exec'd (kind 9).
    WorkloadStarted {
        /// PID inside the guest.
        guest_pid: u32,
        /// Boot-manifest unit id that was launched.
        unit: u32,
    },
    /// Workload reaped (kind 10).
    WorkloadExited {
        /// PID inside the guest.
        guest_pid: u32,
        /// Exit code; -1 if killed by signal.
        exit_code: i32,
        /// Terminating signal; 0 on normal exit.
        term_signal: i32,
    },
    /// Structured log line (kind 11).
    LogLine {
        /// Stream id (see `log_stream`).
        stream: u8,
        /// 0 error … 4 trace.
        level: u8,
        /// UTF-8 message, ≤ `MAX_LOG_MSG` (TRUNCATED flag when clipped).
        msg: &'a [u8],
    },
    /// Quiesce point reached (kind 12).
    QuiesceReady {
        /// Echo of the host's quiesce token.
        token: u64,
    },
    /// Frame boundary (kind 13).
    FrameMark {
        /// Emulated frame just completed.
        frame_index: u32,
    },
    /// The deterministic READY point (kind 14).
    Ready {
        /// Autostart unit started (`0xFFFF_FFFF` if none).
        unit: u32,
        /// Live regions in the manifest at emit time.
        region_count: u32,
        /// Manifest seqlock generation (even).
        manifest_generation: u64,
    },
}

/// The mathematical content of an `EventPayload`: byte fields as sequences.
pub enum EventModel {
    /// Kind 0.
    Pad,
    /// Kind 1.
    Hello { proto_version: u32, agent_version: u32, capabilities: u64 },
    /// Kind 2.
    NameIntern { name_id: u32, name: Seq<u8> },
    /// Kind 3.
    AssertViolation { name_id: u32, violation_count: u32, details: Seq<u8> },
    /// Kind 4.
    Reachable { name_id: u32 },
    /// Kind 5.
    Beacon { beacon_id: u32 },
    /// Kind 6.
    InjectQuery { iseq: u32, name_id: u32 },
    /// Kind 7.
    RegionRegister(RegionEvent),
    /// Kind 8.
    RegionUpdate(RegionEvent),
    /// Kind 9.
    WorkloadStarted { guest_pid: u32, unit: u32 },
    /// Kind 10.
    WorkloadExited { guest_pid: u32, exit_code: i32, term_signal: i32 },
    /// Kind 11.
    LogLine { stream: u8, level: u8, msg: Seq<u8> },
    /// Kind 12.
    QuiesceReady { token: u64 },
    /// Kind 13.
    FrameMark { frame_index: u32 },
    /// Kind 14.
    Ready { unit: u32, region_count: u32, manifest_generation: u64 },
}

impl<'a> View for EventPayload<'a> {
    type V = EventModel;

    open spec fn view(&self) -> EventModel {
        match *self {
            EventPayload::Pad => EventModel::Pad,
            EventPayload::Hello { proto_version, agent_version, capabilities } => EventModel::Hello {
                proto_version,
                agent_version,
                capabilities,
            },
            EventPayload::NameIntern { name_id, name } => EventModel::NameIntern {
                name_id,
                name: name@,
            },
            EventPayload::AssertViolation { name_id, violation_count, details } =>
                EventModel::AssertViolation { name_id, violation_count, details: details@ },
            EventPayload::Reachable { name_id } => EventModel::Reachable { name_id },
            EventPayload::Beacon { beacon_id } => EventModel::Beacon { beacon_id },
            EventPayload::InjectQuery { iseq, name_id } => EventModel::InjectQuery { iseq, name_id },
            EventPayload::RegionRegister(r) => EventModel::RegionRegister(r),
            EventPayload::RegionUpdate(r) => EventModel::RegionUpdate(r),
            EventPayload::WorkloadStarted { guest_pid, unit } => EventModel::WorkloadStarted {
                guest_pid,
                unit,
            },
            EventPayload::WorkloadExited { guest_pid, exit_code, term_signal } =>
                EventModel::WorkloadExited { guest_pid, exit_code, term_signal },
            EventPayload::LogLine { stream, level, msg } => EventModel::LogLine {
                stream,
                level,
                msg: msg@,
            },
            EventPayload::QuiesceReady { token } => EventModel::QuiesceReady { token },
            EventPayload::FrameMark { frame_index } => EventModel::FrameMark { frame_index },
            EventPayload::Ready { unit, region_count, manifest_generation } => EventModel::Ready {
                unit,
                region_count,
                manifest_generation,
            },
        }
    }
}

/// The first `n` bytes of `s` (all of `s` when it is shorter).
pub open spec fn clip(s: Seq<u8>, n: int) -> Seq<u8> {
    if s.len() <= n {
        s
    } else {
        s.subrange(0, n)
    }
}

/// The event as it travels: details and messages clipped at their caps.
pub open spec fn spec_clipped(m: EventModel) -> EventModel {
    match m {
        EventModel::AssertViolation { name_id, violation_count, details } =>
            EventModel::AssertViolation {
                name_id,
                violation_count,
                details: clip(details, MAX_DETAILS as int),
            },
        EventModel::LogLine { stream, level, msg } => EventModel::LogLine {
            stream,
            level,
            msg: clip(msg, MAX_LOG_MSG as int),
        },
        _ => m,
    }
}

/// The kind byte an event is written with.
pub open spec fn spec_model_kind(m: EventModel) -> u8 {
    match m {
        EventModel::Pad => 0,
        EventModel::Hello { .. } => 1,
        EventModel::NameIntern { .. } => 2,
        EventModel::AssertViolation { .. } => 3,
        EventModel::Reachable { .. } => 4,
        EventModel::Beacon { .. } => 5,
        EventModel::InjectQuery { .. } => 6,
        EventModel::RegionRegister(_) => 7,
        EventModel::RegionUpdate(_) => 8,
        EventModel::WorkloadStarted { .. } => 9,
        EventModel::WorkloadExited { .. } => 10,
        EventModel::LogLine { .. } => 11,
        EventModel::QuiesceReady { .. } => 12,
        EventModel::FrameMark { .. } => 13,
        EventModel::Ready { .. } => 14,
    }
}

/// The kind of an event (the flow-control policy decides by it).
pub fn event_kind(ev: &EventPayload<'_>) -> (r: EventKind)
    ensures
        crate::wire::record::spec_event_kind_byte(r) == spec_model_kind(ev@),
{
    match ev {
        EventPayload::Pad => EventKind::Pad,
        EventPayload::Hello { .. } => EventKind::Hello,
        EventPayload::NameIntern { .. } => EventKind::NameIntern,
        EventPayload::AssertViolation { .. } => EventKind::AssertViolation,
        EventPayload::Reachable { .. } => EventKind::Reachable,
        EventPayload::Beacon { .. } => EventKind::Beacon,
        EventPayload::InjectQuery { .. } => EventKind::InjectQuery,
        EventPayload::RegionRegister(_) => EventKind::RegionRegister,
        EventPayload::RegionUpdate(_) => EventKind::RegionUpdate,
        EventPayload::WorkloadStarted { .. } => EventKind::WorkloadStarted,
        EventPayload::WorkloadExited { .. } => EventKind::WorkloadExited,
        EventPayload::LogLine { .. } => EventKind::LogLine,
        EventPayload::QuiesceReady { .. } => EventKind::QuiesceReady,
        EventPayload::FrameMark { .. } => EventKind::FrameMark,
        EventPayload::Ready { .. } => EventKind::Ready,
    }
}

/// Wire bytes of a region event.
pub open spec fn spec_region_event_bytes(r: RegionEvent) -> Seq<u8> {
    b32(r.region_id) + b32(r.name_id) + b32(r.layout_version) + b32(r.manifest_generation)
}

/// The payload bytes of a (clipped) event, before record padding.
pub open spec fn spec_payload_bytes(m: EventModel) -> Seq<u8> {
    match m {
        EventModel::Pad => Seq::empty(),
        EventModel::Hello { proto_version, agent_version, capabilities } => b32(proto_version)
            + b32(agent_version) + b64(capabilities),
        EventModel::NameIntern { name_id, name } => b32(name_id) + b16(name.len() as u16) + zeros(
            2,
        ) + name,
        EventModel::AssertViolation { name_id, violation_count, details } => b32(name_id) + b32(
            violation_count,
        ) + b16(details.len() as u16) + zeros(6) + details,
        EventModel::Reachable { name_id } => b32(name_id) + zeros(4),
        EventModel::Beacon { beacon_id } => b32(beacon_id) + zeros(4),
        EventModel::InjectQuery { iseq, name_id } => b32(iseq) + b32(name_id),
        EventModel::RegionRegister(r) => spec_region_event_bytes(r),
        EventModel::RegionUpdate(r) => spec_region_event_bytes(r),
        EventModel::WorkloadStarted { guest_pid, unit } => b32(guest_pid) + b32(unit),
        EventModel::WorkloadExited { guest_pid, exit_code, term_signal } => b32(guest_pid) + b32(
            exit_code as u32,
        ) + b32(term_signal as u32) + zeros(4),
        EventModel::LogLine { stream, level, msg } => seq![stream, level] + b16(msg.len() as u16)
            + zeros(4) + msg,
        EventModel::QuiesceReady { token } => b64(token),
        EventModel::FrameMark { frame_index } => b32(frame_index) + zeros(4),
        EventModel::Ready { unit, region_count, manifest_generation } => b32(unit) + b32(
            region_count,
        ) + b64(manifest_generation),
    }
}

/// The payload length an event's record carries (after clipping).
pub open spec fn spec_payload_len(m: EventModel) -> int {
    match spec_clipped(m) {
        EventModel::Pad => 0,
        EventModel::NameIntern { name, .. } => 8 + name.len() as int,
        EventModel::AssertViolation { details, .. } => 16 + details.len() as int,
        EventModel::LogLine { msg, .. } => 8 + msg.len() as int,
        EventModel::Hello { .. } => 16,
        EventModel::RegionRegister(_) => 16,
        EventModel::RegionUpdate(_) => 16,
        EventModel::WorkloadExited { .. } => 16,
        EventModel::Ready { .. } => 16,
        _ => 8,
    }
}

/// Total record bytes an event occupies on the wire (after clipping).
pub open spec fn spec_event_len(m: EventModel) -> int {
    spec_record_len(spec_payload_len(m))
}

/// The header flags an event is written with: the caller's extra flags,
/// plus TRUNCATED when a details/message field was clipped.
pub open spec fn spec_event_flags(m: EventModel, extra: u8) -> u8 {
    match m {
        EventModel::AssertViolation { details, .. } => if details.len() > MAX_DETAILS {
            extra | FLAG_TRUNCATED
        } else {
            extra
        },
        EventModel::LogLine { msg, .. } => if msg.len() > MAX_LOG_MSG {
            extra | FLAG_TRUNCATED
        } else {
            extra
        },
        _ => extra,
    }
}

/// The full record bytes `encode_event` writes.
pub open spec fn spec_event_record(seq: u32, vnanos: u64, extra: u8, m: EventModel) -> Seq<u8> {
    if m is Pad {
        spec_pad_bytes(RECORD_HEADER_LEN as int, seq)
    } else {
        spec_record(
            spec_model_kind(m),
            spec_event_flags(m, extra),
            seq,
            vnanos,
            spec_payload_bytes(spec_clipped(m)),
        )
    }
}

/// The outcome `encode_event` reports for a destination of `buf_len` bytes.
pub open spec fn spec_encode_event_result(buf_len: int, m: EventModel) -> Result<
    usize,
    EncodeError,
> {
    if m matches EventModel::NameIntern { name, .. } && name.len() > MAX_NAME {
        Err(EncodeError::FieldTooLong)
    } else if buf_len < spec_event_len(m) {
        Err(EncodeError::BufferTooSmall)
    } else {
        Ok(spec_event_len(m) as usize)
    }
}

proof fn lemma_payload_len(m: EventModel)
    requires
        !(m matches EventModel::NameIntern { name, .. } && name.len() > MAX_NAME),
    ensures
        spec_payload_bytes(spec_clipped(m)).len() == spec_payload_len(m),
        spec_payload_len(m) <= 1032,
{
    lemma_le_round_trips();
}

/// Write a header + payload record into `buf`; the record is zero-padded
/// to its 8-byte-aligned length.
fn encode_record(
    buf: &mut [u8],
    kind: u8,
    flags: u8,
    seq: u32,
    vnanos: u64,
    payload: &Vec<u8>,
) -> (r: Result<usize, EncodeError>)
    requires
        payload@.len() + 16 <= MAX_RECORD_LEN,
    ensures
        old(buf)@.len() < spec_record_len(payload@.len() as int) ==> r == Err::<usize, EncodeError>(
            EncodeError::BufferTooSmall,
        ) && final(buf)@ == old(buf)@,
        old(buf)@.len() >= spec_record_len(payload@.len() as int) ==> r == Ok::<usize, EncodeError>(
            spec_record_len(payload@.len() as int) as usize,
        ) && final(buf)@ == splice(old(buf)@, 0, spec_record(kind, flags, seq, vnanos, payload@)),
{
    let total = record_len(payload.len());
    if buf.len() < total {
        return Err(EncodeError::BufferTooSmall);
    }
    let hdr = RecordHeader { len: total as u16, kind, flags, seq, vnanos };
    let mut rec: Vec<u8> = Vec::new();
    push_u16(&mut rec, hdr.len);
    rec.push(kind);
    rec.push(flags);
    push_u32(&mut rec, seq);
    push_u64(&mut rec, vnanos);
    push_slice(&mut rec, payload.as_slice());
    push_zeros(&mut rec, total - RECORD_HEADER_LEN - payload.len());
    proof {
        lemma_le_round_trips();
        assert(rec@ =~= spec_record(kind, flags, seq, vnanos, payload@));
    }
    write_at(buf, 0, rec.as_slice());
    Ok(total)
}

/// Encode an event record (rings A/W) into `buf`; returns the total
/// record length. `extra_flags` is OR'd into the header flags. Over-cap
/// `details`/`msg` are clipped and TRUNCATED is set; an over-cap `name` is
/// a hard `EncodeError::FieldTooLong`.
pub fn encode_event(
    buf: &mut [u8],
    seq: u32,
    vnanos: u64,
    extra_flags: u8,
    ev: &EventPayload<'_>,
) -> (r: Result<usize, EncodeError>)
    ensures
        r == spec_encode_event_result(old(buf)@.len() as int, ev@),
        r is Err ==> final(buf)@ == old(buf)@,
        r is Ok ==> final(buf)@ == splice(
            old(buf)@,
            0,
            spec_event_record(seq, vnanos, extra_flags, ev@),
        ),
{
    let mut p: Vec<u8> = Vec::new();
    let (kind, flags): (u8, u8) = match *ev {
        EventPayload::Pad => {
            if buf.len() < RECORD_HEADER_LEN {
                return Err(EncodeError::BufferTooSmall);
            }
            let _ = encode_pad(buf, RECORD_HEADER_LEN, seq);
            return Ok(RECORD_HEADER_LEN);
        },
        EventPayload::Hello { proto_version, agent_version, capabilities } => {
            push_u32(&mut p, proto_version);
            push_u32(&mut p, agent_version);
            push_u64(&mut p, capabilities);
            (1, extra_flags)
        },
        EventPayload::NameIntern { name_id, name } => {
            if name.len() > MAX_NAME {
                return Err(EncodeError::FieldTooLong);
            }
            push_u32(&mut p, name_id);
            push_u16(&mut p, name.len() as u16);
            push_zeros(&mut p, 2);
            push_slice(&mut p, name);
            (2, extra_flags)
        },
        EventPayload::AssertViolation { name_id, violation_count, details } => {
            let n = if details.len() < MAX_DETAILS {
                details.len()
            } else {
                MAX_DETAILS
            };
            let clipped = &details[0..n];
            let flags = if n < details.len() {
                extra_flags | FLAG_TRUNCATED
            } else {
                extra_flags
            };
            push_u32(&mut p, name_id);
            push_u32(&mut p, violation_count);
            push_u16(&mut p, n as u16);
            push_zeros(&mut p, 6);
            push_slice(&mut p, clipped);
            (3, flags)
        },
        EventPayload::Reachable { name_id } => {
            push_u32(&mut p, name_id);
            push_zeros(&mut p, 4);
            (4, extra_flags)
        },
        EventPayload::Beacon { beacon_id } => {
            push_u32(&mut p, beacon_id);
            push_zeros(&mut p, 4);
            (5, extra_flags)
        },
        EventPayload::InjectQuery { iseq, name_id } => {
            push_u32(&mut p, iseq);
            push_u32(&mut p, name_id);
            (6, extra_flags)
        },
        EventPayload::RegionRegister(r) => {
            push_region_event(&mut p, r);
            (7, extra_flags)
        },
        EventPayload::RegionUpdate(r) => {
            push_region_event(&mut p, r);
            (8, extra_flags)
        },
        EventPayload::WorkloadStarted { guest_pid, unit } => {
            push_u32(&mut p, guest_pid);
            push_u32(&mut p, unit);
            (9, extra_flags)
        },
        EventPayload::WorkloadExited { guest_pid, exit_code, term_signal } => {
            push_u32(&mut p, guest_pid);
            push_u32(&mut p, exit_code as u32);
            push_u32(&mut p, term_signal as u32);
            push_zeros(&mut p, 4);
            (10, extra_flags)
        },
        EventPayload::LogLine { stream, level, msg } => {
            let n = if msg.len() < MAX_LOG_MSG {
                msg.len()
            } else {
                MAX_LOG_MSG
            };
            let clipped = &msg[0..n];
            let flags = if n < msg.len() {
                extra_flags | FLAG_TRUNCATED
            } else {
                extra_flags
            };
            p.push(stream);
            p.push(level);
            push_u16(&mut p, n as u16);
            push_zeros(&mut p, 4);
            push_slice(&mut p, clipped);
            (11, flags)
        },
        EventPayload::QuiesceReady { token } => {
            push_u64(&mut p, token);
            (12, extra_flags)
        },
        EventPayload::FrameMark { frame_index } => {
            push_u32(&mut p, frame_index);
            push_zeros(&mut p, 4);
            (13, extra_flags)
        },
        EventPayload::Ready { unit, region_count, manifest_generation } => {
            push_u32(&mut p, unit);
            push_u32(&mut p, region_count);
            push_u64(&mut p, manifest_generation);
            (14, extra_flags)
        },
    };
    proof {
        lemma_le_round_trips();
        lemma_payload_len(ev@);
        assert(p@ =~= spec_payload_bytes(spec_clipped(ev@)));
        assert(kind == spec_model_kind(ev@));
        assert(flags == spec_event_flags(ev@, extra_flags));
    }
    encode_record(buf, kind, flags, seq, vnanos, &p)
}

fn push_region_event(p: &mut Vec<u8>, r: RegionEvent)
    ensures
        final(p)@ == old(p)@ + spec_region_event_bytes(r),
{
    push_u32(p, r.region_id);
    push_u32(p, r.name_id);
    push_u32(p, r.layout_version);
    push_u32(p, r.manifest_generation);
    assert(final(p)@ =~= old(p)@ + spec_region_event_bytes(r));
}

/// A region event read from the first 16 payload bytes.
pub open spec fn spec_read_region_event(p: Seq<u8>) -> RegionEvent {
    RegionEvent {
        region_id: le32(p, 0),
        name_id: le32(p, 4),
        layout_version: le32(p, 8),
        manifest_generation: le32(p, 12),
    }
}

/// Interpret an event payload of kind `kind`.
pub open spec fn spec_decode_event_payload(kind: u8, p: Seq<u8>) -> Result<EventModel, DecodeError> {
    let fixed: int = if kind == 1 || kind == 3 || kind == 7 || kind == 8 || kind == 10 || kind
        == 14 {
        16
    } else {
        8
    };
    if kind > 14 {
        Err(DecodeError::UnknownKind(kind))
    } else if kind == 0 {
        Ok(EventModel::Pad)
    } else if p.len() < fixed {
        Err(DecodeError::BadLen)
    } else if kind == 1 {
        Ok(
            EventModel::Hello {
                proto_version: le32(p, 0),
                agent_version: le32(p, 4),
                capabilities: le64(p, 8),
            },
        )
    } else if kind == 2 {
        let n = le16(p, 4) as int;
        if n > MAX_NAME || 8 + n > p.len() {
            Err(DecodeError::BadField)
        } else {
            Ok(EventModel::NameIntern { name_id: le32(p, 0), name: p.subrange(8, 8 + n) })
        }
    } else if kind == 3 {
        let n = le16(p, 8) as int;
        if n > MAX_DETAILS || 16 + n > p.len() {
            Err(DecodeError::BadField)
        } else {
            Ok(
                EventModel::AssertViolation {
                    name_id: le32(p, 0),
                    violation_count: le32(p, 4),
                    details: p.subrange(16, 16 + n),
                },
            )
        }
    } else if kind == 4 {
        Ok(EventModel::Reachable { name_id: le32(p, 0) })
    } else if kind == 5 {
        Ok(EventModel::Beacon { beacon_id: le32(p, 0) })
    } else if kind == 6 {
        Ok(EventModel::InjectQuery { iseq: le32(p, 0), name_id: le32(p, 4) })
    } else if kind == 7 {
        Ok(EventModel::RegionRegister(spec_read_region_event(p)))
    } else if kind == 8 {
        Ok(EventModel::RegionUpdate(spec_read_region_event(p)))
    } else if kind == 9 {
        Ok(EventModel::WorkloadStarted { guest_pid: le32(p, 0), unit: le32(p, 4) })
    } else if kind == 10 {
        Ok(
            EventModel::WorkloadExited {
                guest_pid: le32(p, 0),
                exit_code: le32(p, 4) as i32,
                term_signal: le32(p, 8) as i32,
            },
        )
    } else if kind == 11 {
        let n = le16(p, 2) as int;
        if n > MAX_LOG_MSG || 8 + n > p.len() {
            Err(DecodeError::BadField)
        } else {
            Ok(EventModel::LogLine { stream: p[0], level: p[1], msg: p.subrange(8, 8 + n) })
        }
    } else if kind == 12 {
        Ok(EventModel::QuiesceReady { token: le64(p, 0) })
    } else if kind == 13 {
        Ok(EventModel::FrameMark { frame_index: le32(p, 0) })
    } else {
        Ok(
            EventModel::Ready {
                unit: le32(p, 0),
                region_count: le32(p, 4),
                manifest_generation: le64(p, 8),
            },
        )
    }
}

/// What `decode_event` gives for the bytes `s`.
pub open spec fn spec_decode_event(s: Seq<u8>) -> Result<(RecordHeader, EventModel), DecodeError> {
    match spec_read_header(s) {
        Err(e) => Err(e),
        Ok(h) => match spec_decode_event_payload(h.kind, spec_payload_of(s, h)) {
            Err(e) => Err(e),
            Ok(m) => Ok((h, m)),
        },
    }
}

/// The payload slice of a framed record.
fn payload_slice<'a>(bytes: &'a [u8], hdr: &RecordHeader) -> (p: &'a [u8])
    requires
        hdr.len <= bytes@.len(),
    ensures
        p@ == spec_payload_of(bytes@, *hdr),
{
    let r = hdr.payload_range();
    let p = &bytes[r.start..r.end];
    proof {
        if hdr.len <= RECORD_HEADER_LEN {
            assert(p@ =~= Seq::<u8>::empty());
        }
    }
    p
}

/// Decode one event record (rings A/W) from `bytes`, which must start at a
/// record boundary. Unknown kinds give `DecodeError::UnknownKind`; the
/// header still frames, so a consumer can skip the record by its `len`.
pub fn decode_event(bytes: &[u8]) -> (r: Result<(RecordHeader, EventPayload<'_>), DecodeError>)
    ensures
        match r {
            Ok((h, ev)) => spec_decode_event(bytes@) == Ok::<(RecordHeader, EventModel), DecodeError>(
                (h, ev@),
            ),
            Err(e) => spec_decode_event(bytes@) == Err::<(RecordHeader, EventModel), DecodeError>(e),
        },
{
    let hdr = match RecordHeader::read_from(bytes) {
        Ok(h) => h,
        Err(e) => return Err(e),
    };
    let payload = payload_slice(bytes, &hdr);
    let kind = match EventKind::from_u8(hdr.kind) {
        Some(k) => k,
        None => return Err(DecodeError::UnknownKind(hdr.kind)),
    };
    let plen = payload.len();
    let fixed: usize = match kind {
        EventKind::Hello | EventKind::AssertViolation | EventKind::RegionRegister
        | EventKind::RegionUpdate | EventKind::WorkloadExited | EventKind::Ready => 16,
        _ => 8,
    };
    if kind != EventKind::Pad && plen < fixed {
        return Err(DecodeError::BadLen);
    }
    let ev = match kind {
        EventKind::Pad => EventPayload::Pad,
        EventKind::Hello => EventPayload::Hello {
            proto_version: get_u32(payload, 0),
            agent_version: get_u32(payload, 4),
            capabilities: get_u64(payload, 8),
        },
        EventKind::NameIntern => {
            let name_len = get_u16(payload, 4) as usize;
            if name_len > MAX_NAME || 8 + name_len > plen {
                return Err(DecodeError::BadField);
            }
            EventPayload::NameIntern { name_id: get_u32(payload, 0), name: &payload[8..8 + name_len] }
        },
        EventKind::AssertViolation => {
            let details_len = get_u16(payload, 8) as usize;
            if details_len > MAX_DETAILS || 16 + details_len > plen {
                return Err(DecodeError::BadField);
            }
            EventPayload::AssertViolation {
                name_id: get_u32(payload, 0),
                violation_count: get_u32(payload, 4),
                details: &payload[16..16 + details_len],
            }
        },
        EventKind::Reachable => EventPayload::Reachable { name_id: get_u32(payload, 0) },
        EventKind::Beacon => EventPayload::Beacon { beacon_id: get_u32(payload, 0) },
        EventKind::InjectQuery => EventPayload::InjectQuery {
            iseq: get_u32(payload, 0),
            name_id: get_u32(payload, 4),
        },
        EventKind::RegionRegister => EventPayload::RegionRegister(read_region_event(payload)),
        EventKind::RegionUpdate => EventPayload::RegionUpdate(read_region_event(payload)),
        EventKind::WorkloadStarted => EventPayload::WorkloadStarted {
            guest_pid: get_u32(payload, 0),
            unit: get_u32(payload, 4),
        },
        EventKind::WorkloadExited => EventPayload::WorkloadExited {
            guest_pid: get_u32(payload, 0),
            exit_code: get_u32(payload, 4) as i32,
            term_signal: get_u32(payload, 8) as i32,
        },
        EventKind::LogLine => {
            let msg_len = get_u16(payload, 2) as usize;
            if msg_len > MAX_LOG_MSG || 8 + msg_len > plen {
                return Err(DecodeError::BadField);
            }
            EventPayload::LogLine {
                stream: payload[0],
                level: payload[1],
                msg: &payload[8..8 + msg_len],
            }
        },
        EventKind::QuiesceReady => EventPayload::QuiesceReady { token: get_u64(payload, 0) },
        EventKind::FrameMark => EventPayload::FrameMark { frame_index: get_u32(payload, 0) },
        EventKind::Ready => EventPayload::Ready {
            unit: get_u32(payload, 0),
            region_count: get_u32(payload, 4),
            manifest_generation: get_u64(payload, 8),
        },
    };
    Ok((hdr, ev))
}

fn read_region_event(p: &[u8]) -> (r: RegionEvent)
    requires
        p@.len() >= 16,
    ensures
        r == spec_read_region_event(p@),
{
    RegionEvent {
        region_id: get_u32(p, 0),
        name_id: get_u32(p, 4),
        layout_version: get_u32(p, 8),
        manifest_generation: get_u32(p, 12),
    }
}

/// The header `decode_event` reads back from a record `encode_event` wrote.
pub open spec fn spec_event_header(seq: u32, vnanos: u64, extra: u8, m: EventModel) -> RecordHeader {
    if m is Pad {
        RecordHeader { len: RECORD_HEADER_LEN as u16, kind: 0, flags: 0, seq, vnanos: 0 }
    } else {
        RecordHeader {
            len: spec_event_len(m) as u16,
            kind: spec_model_kind(m),
            flags: spec_event_flags(m, extra),
            seq,
            vnanos,
        }
    }
}

proof fn lemma_i32_round_trip(x: i32)
    ensures
        (x as u32) as i32 == x,
{
    assert((x as u32) as i32 == x) by (bit_vector);
}

proof fn lemma_event_payload_round_trip(m: EventModel, t: Seq<u8>)
    requires
        !(m matches EventModel::NameIntern { name, .. } && name.len() > MAX_NAME),
        !(m is Pad),
    ensures
        spec_decode_event_payload(spec_model_kind(m), spec_payload_bytes(spec_clipped(m)) + t)
            == Ok::<EventModel, DecodeError>(spec_clipped(m)),
{
    lemma_le_round_trips();
    lemma_payload_len(m);
    let c = spec_clipped(m);
    let p = spec_payload_bytes(c) + t;
    match c {
        EventModel::Pad => {},
        EventModel::Hello { proto_version, agent_version, capabilities } => {
            assert(p.subrange(0, 4) =~= b32(proto_version));
            assert(p.subrange(4, 8) =~= b32(agent_version));
            assert(p.subrange(8, 16) =~= b64(capabilities));
        },
        EventModel::NameIntern { name_id, name } => {
            assert(p.subrange(0, 4) =~= b32(name_id));
            assert(p.subrange(4, 6) =~= b16(name.len() as u16));
            assert(p.subrange(8, 8 + name.len() as int) =~= name);
        },
        EventModel::AssertViolation { name_id, violation_count, details } => {
            assert(p.subrange(0, 4) =~= b32(name_id));
            assert(p.subrange(4, 8) =~= b32(violation_count));
            assert(p.subrange(8, 10) =~= b16(details.len() as u16));
            assert(p.subrange(16, 16 + details.len() as int) =~= details);
        },
        EventModel::Reachable { name_id } => {
            assert(p.subrange(0, 4) =~= b32(name_id));
        },
        EventModel::Beacon { beacon_id } => {
            assert(p.subrange(0, 4) =~= b32(beacon_id));
        },
        EventModel::InjectQuery { iseq, name_id } => {
            assert(p.subrange(0, 4) =~= b32(iseq));
            assert(p.subrange(4, 8) =~= b32(name_id));
        },
        EventModel::RegionRegister(r) => {
            assert(p.subrange(0, 4) =~= b32(r.region_id));
            assert(p.subrange(4, 8) =~= b32(r.name_id));
            assert(p.subrange(8, 12) =~= b32(r.layout_version));
            assert(p.subrange(12, 16) =~= b32(r.manifest_generation));
        },
        EventModel::RegionUpdate(r) => {
            assert(p.subrange(0, 4) =~= b32(r.region_id));
            assert(p.subrange(4, 8) =~= b32(r.name_id));
            assert(p.subrange(8, 12) =~= b32(r.layout_version));
            assert(p.subrange(12, 16) =~= b32(r.manifest_generation));
        },
        EventModel::WorkloadStarted { guest_pid, unit } => {
            assert(p.subrange(0, 4) =~= b32(guest_pid));
            assert(p.subrange(4, 8) =~= b32(unit));
        },
        EventModel::WorkloadExited { guest_pid, exit_code, term_signal } => {
            assert(p.subrange(0, 4) =~= b32(guest_pid));
            assert(p.subrange(4, 8) =~= b32(exit_code as u32));
            assert(p.subrange(8, 12) =~= b32(term_signal as u32));
            lemma_i32_round_trip(exit_code);
            lemma_i32_round_trip(term_signal);
        },
        EventModel::LogLine { stream, level, msg } => {
            assert(p.subrange(2, 4) =~= b16(msg.len() as u16));
            assert(p.subrange(8, 8 + msg.len() as int) =~= msg);
        },
        EventModel::QuiesceReady { token } => {
            assert(p.subrange(0, 8) =~= b64(token));
        },
        EventModel::FrameMark { frame_index } => {
            assert(p.subrange(0, 4) =~= b32(frame_index));
        },
        EventModel::Ready { unit, region_count, manifest_generation } => {
            assert(p.subrange(0, 4) =~= b32(unit));
            assert(p.subrange(4, 8) =~= b32(region_count));
            assert(p.subrange(8, 16) =~= b64(manifest_generation));
        },
    }
}

/// An encodable event's record is `spec_event_len` bytes, a multiple of 8
/// between the minimum record and `MAX_RECORD_LEN`.
pub proof fn lemma_event_record_len(seq: u32, vnanos: u64, extra: u8, m: EventModel)
    requires
        !(m matches EventModel::NameIntern { name, .. } && name.len() > MAX_NAME),
    ensures
        spec_event_record(seq, vnanos, extra, m).len() == spec_event_len(m),
        MIN_RECORD_LEN <= spec_event_len(m) <= MAX_RECORD_LEN,
        spec_event_len(m) % 8 == 0,
{
    lemma_event_len_bound(m);
    lemma_event_round_trip(seq, vnanos, extra, m, Seq::empty());
    assert(spec_event_record(seq, vnanos, extra, m) + Seq::<u8>::empty() =~= spec_event_record(
        seq,
        vnanos,
        extra,
        m,
    ));
}

/// An encodable event's record length is a multiple of 8 between the
/// minimum record and `MAX_RECORD_LEN`.
pub proof fn lemma_event_len_bound(m: EventModel)
    requires
        !(m matches EventModel::NameIntern { name, .. } && name.len() > MAX_NAME),
    ensures
        MIN_RECORD_LEN <= spec_event_len(m) <= MAX_RECORD_LEN,
        spec_event_len(m) % 8 == 0,
{
    lemma_payload_len(m);
    crate::wire::record::lemma_pad8(spec_payload_len(m));
}

/// Round trip: the record `encode_event` writes for an event decodes back
/// to the header it was written with and to the event as it travels
/// (details and messages clipped at their caps), whatever bytes follow the
/// record in the buffer.
pub proof fn lemma_event_round_trip(seq: u32, vnanos: u64, extra: u8, m: EventModel, rest: Seq<u8>)
    requires
        !(m matches EventModel::NameIntern { name, .. } && name.len() > MAX_NAME),
    ensures
        spec_decode_event(spec_event_record(seq, vnanos, extra, m) + rest) == Ok::<
            (RecordHeader, EventModel),
            DecodeError,
        >((spec_event_header(seq, vnanos, extra, m), spec_clipped(m))),
        spec_event_record(seq, vnanos, extra, m).len() == spec_event_header(
            seq,
            vnanos,
            extra,
            m,
        ).len,
{
    lemma_le_round_trips();
    if m is Pad {
        let h = RecordHeader { len: 16, kind: 0, flags: 0, seq, vnanos: 0 };
        lemma_header_bytes_len(h);
        let s = spec_event_record(seq, vnanos, extra, m) + rest;
        assert(spec_event_record(seq, vnanos, extra, m) =~= spec_header_bytes(h));
        assert(s.subrange(0, 2) =~= b16(16));
        assert(s.subrange(4, 8) =~= b32(seq));
        assert(s.subrange(8, 16) =~= b64(0));
        assert(spec_payload_of(s, h) =~= Seq::<u8>::empty());
    } else {
        lemma_payload_len(m);
        let pb = spec_payload_bytes(spec_clipped(m));
        lemma_record_frames(
            spec_model_kind(m),
            spec_event_flags(m, extra),
            seq,
            vnanos,
            pb,
            rest,
        );
        let z = zeros((spec_pad8(pb.len() as int) - pb.len()) as nat);
        lemma_event_payload_round_trip(m, z);
    }
}

/// Total wire length of an event record after clipping; producers use it
/// to check ring space before encoding.
pub fn encoded_event_len(ev: &EventPayload<'_>) -> (r: usize)
    requires
        ev@ matches EventModel::NameIntern { name, .. } ==> name.len() + 31 <= usize::MAX,
    ensures
        r == spec_event_len(ev@),
{
    match *ev {
        EventPayload::Pad => RECORD_HEADER_LEN,
        EventPayload::Hello { .. }
        | EventPayload::RegionRegister(_)
        | EventPayload::RegionUpdate(_)
        | EventPayload::WorkloadExited { .. }
        | EventPayload::Ready { .. } => record_len(16),
        EventPayload::NameIntern { name, .. } => record_len(8 + name.len()),
        EventPayload::AssertViolation { details, .. } => {
            let n = if details.len() < MAX_DETAILS {
                details.len()
            } else {
                MAX_DETAILS
            };
            record_len(16 + n)
        },
        EventPayload::LogLine { msg, .. } => {
            let n = if msg.len() < MAX_LOG_MSG {
                msg.len()
            } else {
                MAX_LOG_MSG
            };
            record_len(8 + n)
        },
        EventPayload::Reachable { .. }
        | EventPayload::Beacon { .. }
        | EventPayload::InjectQuery { .. }
        | EventPayload::WorkloadStarted { .. }
        | EventPayload::QuiesceReady { .. }
        | EventPayload::FrameMark { .. } => record_len(8),
    }
}

/// The wire value of a quiesce mode.
pub open spec fn spec_quiesce_mode_value(m: QuiesceMode) -> u32 {
    match m {
        QuiesceMode::Coop => 0,
        QuiesceMode::Forced => 1,
    }
}

/// The wire value of a shutdown mode.
pub open spec fn spec_shutdown_mode_value(m: ShutdownMode) -> u32 {
    match m {
        ShutdownMode::Graceful => 0,
        ShutdownMode::Immediate => 1,
    }
}

fn quiesce_mode_value(m: QuiesceMode) -> (r: u32)
    ensures
        r == spec_quiesce_mode_value(m),
{
    match m {
        QuiesceMode::Coop => 0,
        QuiesceMode::Forced => 1,
    }
}

fn shutdown_mode_value(m: ShutdownMode) -> (r: u32)
    ensures
        r == spec_shutdown_mode_value(m),
{
    match m {
        ShutdownMode::Graceful => 0,
        ShutdownMode::Immediate => 1,
    }
}

/// The kind byte of a command.
pub open spec fn spec_command_kind(c: Command) -> u8 {
    match c {
        Command::StartWorkload { .. } => 1,
        Command::Quiesce { .. } => 2,
        Command::Resume { .. } => 3,
        Command::Shutdown { .. } => 4,
        Command::SetLogMask { .. } => 5,
        Command::ReverifyRegions => 6,
    }
}

/// The payload bytes of a command.
pub open spec fn spec_command_payload(c: Command) -> Seq<u8> {
    match c {
        Command::StartWorkload { unit, log_mask } => b32(unit) + b32(log_mask),
        Command::Quiesce { token, mode } => b64(token) + b32(spec_quiesce_mode_value(mode)) + zeros(
            4,
        ),
        Command::Resume { token } => b64(token),
        Command::Shutdown { mode } => b32(spec_shutdown_mode_value(mode)) + zeros(4),
        Command::SetLogMask { mask } => b32(mask) + zeros(4),
        Command::ReverifyRegions => Seq::empty(),
    }
}

/// The record bytes of a command: host-produced, so flags and `vnanos`
/// are 0.
pub open spec fn spec_command_record(seq: u32, c: Command) -> Seq<u8> {
    spec_record(spec_command_kind(c), 0, seq, 0, spec_command_payload(c))
}

/// Encode a ring C command record. Host-produced: `vnanos` is always 0.
pub fn encode_command(buf: &mut [u8], seq: u32, cmd: &Command) -> (r: Result<usize, EncodeError>)
    ensures
        ({
            let len = spec_record_len(spec_command_payload(*cmd).len() as int);
            &&& old(buf)@.len() < len ==> r == Err::<usize, EncodeError>(EncodeError::BufferTooSmall)
                && final(buf)@ == old(buf)@
            &&& old(buf)@.len() >= len ==> r == Ok::<usize, EncodeError>(len as usize)
                && final(buf)@ == splice(old(buf)@, 0, spec_command_record(seq, *cmd))
        }),
{
    let mut p: Vec<u8> = Vec::new();
    let kind: u8 = match *cmd {
        Command::StartWorkload { unit, log_mask } => {
            push_u32(&mut p, unit);
            push_u32(&mut p, log_mask);
            1
        },
        Command::Quiesce { token, mode } => {
            push_u64(&mut p, token);
            push_u32(&mut p, quiesce_mode_value(mode));
            push_zeros(&mut p, 4);
            2
        },
        Command::Resume { token } => {
            push_u64(&mut p, token);
            3
        },
        Command::Shutdown { mode } => {
            push_u32(&mut p, shutdown_mode_value(mode));
            push_zeros(&mut p, 4);
            4
        },
        Command::SetLogMask { mask } => {
            push_u32(&mut p, mask);
            push_zeros(&mut p, 4);
            5
        },
        Command::ReverifyRegions => 6,
    };
    proof {
        lemma_le_round_trips();
        assert(p@ =~= spec_command_payload(*cmd));
    }
    encode_record(buf, kind, 0, seq, 0, &p)
}

/// Interpret a command payload of kind `kind`.
pub open spec fn spec_decode_command_payload(kind: u8, p: Seq<u8>) -> Result<Command, DecodeError> {
    if !(1 <= kind <= 6) {
        Err(DecodeError::UnknownKind(kind))
    } else if kind == 6 {
        Ok(Command::ReverifyRegions)
    } else if p.len() < (if kind == 2 {
        16int
    } else {
        8int
    }) {
        Err(DecodeError::BadLen)
    } else if kind == 1 {
        Ok(Command::StartWorkload { unit: le32(p, 0), log_mask: le32(p, 4) })
    } else if kind == 2 {
        let m = le32(p, 8);
        if m == 0 {
            Ok(Command::Quiesce { token: le64(p, 0), mode: QuiesceMode::Coop })
        } else if m == 1 {
            Ok(Command::Quiesce { token: le64(p, 0), mode: QuiesceMode::Forced })
        } else {
            Err(DecodeError::BadField)
        }
    } else if kind == 3 {
        Ok(Command::Resume { token: le64(p, 0) })
    } else if kind == 4 {
        let m = le32(p, 0);
        if m == 0 {
            Ok(Command::Shutdown { mode: ShutdownMode::Graceful })
        } else if m == 1 {
            Ok(Command::Shutdown { mode: ShutdownMode::Immediate })
        } else {
            Err(DecodeError::BadField)
        }
    } else {
        Ok(Command::SetLogMask { mask: le32(p, 0) })
    }
}

/// What `decode_command` gives for the bytes `s`.
pub open spec fn spec_decode_command(s: Seq<u8>) -> Result<(RecordHeader, Command), DecodeError> {
    match spec_read_header(s) {
        Err(e) => Err(e),
        Ok(h) => match spec_decode_command_payload(h.kind, spec_payload_of(s, h)) {
            Err(e) => Err(e),
            Ok(c) => Ok((h, c)),
        },
    }
}

/// Decode one ring C command record.
pub fn decode_command(bytes: &[u8]) -> (r: Result<(RecordHeader, Command), DecodeError>)
    ensures
        r == spec_decode_command(bytes@),
{
    let hdr = match RecordHeader::read_from(bytes) {
        Ok(h) => h,
        Err(e) => return Err(e),
    };
    let payload = payload_slice(bytes, &hdr);
    let kind = match CommandKind::from_u8(hdr.kind) {
        Some(k) => k,
        None => return Err(DecodeError::UnknownKind(hdr.kind)),
    };
    let plen = payload.len();
    let cmd = match kind {
        CommandKind::StartWorkload => {
            if plen < 8 {
                return Err(DecodeError::BadLen);
            }
            Command::StartWorkload { unit: get_u32(payload, 0), log_mask: get_u32(payload, 4) }
        },
        CommandKind::Quiesce => {
            if plen < 16 {
                return Err(DecodeError::BadLen);
            }
            let mode = match get_u32(payload, 8) {
                0 => QuiesceMode::Coop,
                1 => QuiesceMode::Forced,
                _ => return Err(DecodeError::BadField),
            };
            Command::Quiesce { token: get_u64(payload, 0), mode }
        },
        CommandKind::Resume => {
            if plen < 8 {
                return Err(DecodeError::BadLen);
            }
            Command::Resume { token: get_u64(payload, 0) }
        },
        CommandKind::Shutdown => {
            if plen < 8 {
                return Err(DecodeError::BadLen);
            }
            let mode = match get_u32(payload, 0) {
                0 => ShutdownMode::Graceful,
                1 => ShutdownMode::Immediate,
                _ => return Err(DecodeError::BadField),
            };
            Command::Shutdown { mode }
        },
        CommandKind::SetLogMask => {
            if plen < 8 {
                return Err(DecodeError::BadLen);
            }
            Command::SetLogMask { mask: get_u32(payload, 0) }
        },
        CommandKind::ReverifyRegions => Command::ReverifyRegions,
    };
    Ok((hdr, cmd))
}

/// Round trip: a command record decodes back to its header (flags and
/// `vnanos` 0) and to the command, whatever bytes follow it.
pub proof fn lemma_command_round_trip(seq: u32, c: Command, rest: Seq<u8>)
    ensures
        ({
            let len = spec_record_len(spec_command_payload(c).len() as int);
            let h = RecordHeader { len: len as u16, kind: spec_command_kind(c), flags: 0, seq, vnanos: 0 };
            &&& spec_decode_command(spec_command_record(seq, c) + rest) == Ok::<
                (RecordHeader, Command),
                DecodeError,
            >((h, c))
            &&& spec_command_record(seq, c).len() == len
        }),
{
    lemma_le_round_trips();
    let pb = spec_command_payload(c);
    lemma_record_frames(spec_command_kind(c), 0, seq, 0, pb, rest);
    let z = zeros((spec_pad8(pb.len() as int) - pb.len()) as nat);
    let p = pb + z;
    match c {
        Command::StartWorkload { unit, log_mask } => {
            assert(p.subrange(0, 4) =~= b32(unit));
            assert(p.subrange(4, 8) =~= b32(log_mask));
        },
        Command::Quiesce { token, mode } => {
            assert(p.subrange(0, 8) =~= b64(token));
            assert(p.subrange(8, 12) =~= b32(spec_quiesce_mode_value(mode)));
        },
        Command::Resume { token } => {
            assert(p.subrange(0, 8) =~= b64(token));
        },
        Command::Shutdown { mode } => {
            assert(p.subrange(0, 4) =~= b32(spec_shutdown_mode_value(mode)));
        },
        Command::SetLogMask { mask } => {
            assert(p.subrange(0, 4) =~= b32(mask));
        },
        Command::ReverifyRegions => {},
    }
}

/// The kind byte of a workload-control record.
pub open spec fn spec_ctrl_kind(c: WorkloadCtrl) -> u8 {
    match c {
        WorkloadCtrl::QuiesceReq { .. } => 2,
        WorkloadCtrl::Resume { .. } => 3,
    }
}

/// The token a workload-control record carries.
pub open spec fn spec_ctrl_token(c: WorkloadCtrl) -> u64 {
    match c {
        WorkloadCtrl::QuiesceReq { token } => token,
        WorkloadCtrl::Resume { token } => token,
    }
}

/// The record bytes of a workload-control record (24 bytes).
pub open spec fn spec_ctrl_record(seq: u32, vnanos: u64, c: WorkloadCtrl) -> Seq<u8> {
    spec_record(spec_ctrl_kind(c), 0, seq, vnanos, b64(spec_ctrl_token(c)))
}

/// Encode a ring I workload-control record; `vnanos` is 0 for host pushes
/// and the agent's virtual time for the quiesce relay.
pub fn encode_workload_ctrl(buf: &mut [u8], seq: u32, vnanos: u64, rec: &WorkloadCtrl) -> (r: Result<
    usize,
    EncodeError,
>)
    ensures
        old(buf)@.len() < 24 ==> r == Err::<usize, EncodeError>(EncodeError::BufferTooSmall)
            && final(buf)@ == old(buf)@,
        old(buf)@.len() >= 24 ==> r == Ok::<usize, EncodeError>(24) && final(buf)@ == splice(
            old(buf)@,
            0,
            spec_ctrl_record(seq, vnanos, *rec),
        ),
{
    let mut p: Vec<u8> = Vec::new();
    let kind: u8 = match *rec {
        WorkloadCtrl::QuiesceReq { token } => {
            push_u64(&mut p, token);
            2
        },
        WorkloadCtrl::Resume { token } => {
            push_u64(&mut p, token);
            3
        },
    };
    proof {
        lemma_le_round_trips();
        assert(p@ =~= b64(spec_ctrl_token(*rec)));
    }
    encode_record(buf, kind, 0, seq, vnanos, &p)
}

/// Interpret a workload-control payload of kind `kind`.
pub open spec fn spec_decode_ctrl_payload(kind: u8, p: Seq<u8>) -> Result<WorkloadCtrl, DecodeError> {
    if !(kind == 2 || kind == 3) {
        Err(DecodeError::UnknownKind(kind))
    } else if p.len() < 8 {
        Err(DecodeError::BadLen)
    } else if kind == 2 {
        Ok(WorkloadCtrl::QuiesceReq { token: le64(p, 0) })
    } else {
        Ok(WorkloadCtrl::Resume { token: le64(p, 0) })
    }
}

/// What `decode_workload_ctrl` gives for the bytes `s`.
pub open spec fn spec_decode_workload_ctrl(s: Seq<u8>) -> Result<(RecordHeader, WorkloadCtrl), DecodeError> {
    match spec_read_header(s) {
        Err(e) => Err(e),
        Ok(h) => match spec_decode_ctrl_payload(h.kind, spec_payload_of(s, h)) {
            Err(e) => Err(e),
            Ok(c) => Ok((h, c)),
        },
    }
}

/// Decode one ring I workload-control record.
pub fn decode_workload_ctrl(bytes: &[u8]) -> (r: Result<(RecordHeader, WorkloadCtrl), DecodeError>)
    ensures
        r == spec_decode_workload_ctrl(bytes@),
{
    let hdr = match RecordHeader::read_from(bytes) {
        Ok(h) => h,
        Err(e) => return Err(e),
    };
    let payload = payload_slice(bytes, &hdr);
    let kind = match WorkloadCtrlKind::from_u8(hdr.kind) {
        Some(k) => k,
        None => return Err(DecodeError::UnknownKind(hdr.kind)),
    };
    if payload.len() < 8 {
        return Err(DecodeError::BadLen);
    }
    let rec = match kind {
        WorkloadCtrlKind::QuiesceReq => WorkloadCtrl::QuiesceReq { token: get_u64(payload, 0) },
        WorkloadCtrlKind::Resume => WorkloadCtrl::Resume { token: get_u64(payload, 0) },
    };
    Ok((hdr, rec))
}

/// Round trip: a workload-control record decodes back to its header and
/// record, whatever bytes follow it.
pub proof fn lemma_workload_ctrl_round_trip(seq: u32, vnanos: u64, c: WorkloadCtrl, rest: Seq<u8>)
    ensures
        spec_decode_workload_ctrl(spec_ctrl_record(seq, vnanos, c) + rest) == Ok::<
            (RecordHeader, WorkloadCtrl),
            DecodeError,
        >((RecordHeader { len: 24, kind: spec_ctrl_kind(c), flags: 0, seq, vnanos }, c)),
        spec_ctrl_record(seq, vnanos, c).len() == 24,
{
    lemma_le_round_trips();
    let pb = b64(spec_ctrl_token(c));
    lemma_record_frames(spec_ctrl_kind(c), 0, seq, vnanos, pb, rest);
    let p = pb + zeros(0);
    assert(p.subrange(0, 8) =~= pb);
}

} // verus!

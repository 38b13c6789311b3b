//! Record framing and the per-ring kind namespaces.
//!
//! Every record on every ring starts with a header:
//! `len: u16` (total bytes, multiple of 8, `16..=4096`, a `Pad` may be 8),
//! `kind: u8`, `flags: u8`, `seq: u32`, `vnanos: u64`, then the payload
//! zero-padded to a multiple of 8. A `Pad` of 8 bytes carries only the
//! first 8 header bytes (no `vnanos`).
use super::bytes::{b16, b32, b64, fill_zero, get_u16, get_u32, get_u64, le16, le32, le64, lemma_le_round_trips, push_u16, push_u32, push_u64, splice, write_at, zeros};
use super::{DecodeError, EncodeError};
use vstd::prelude::*;

verus! {

/// Full record header size in bytes.
pub const RECORD_HEADER_LEN: usize = 16;
/// Minimum length of a non-`Pad` record (a bare header).
pub const MIN_RECORD_LEN: usize = 16;
/// Maximum record length, header included.
pub const MAX_RECORD_LEN: usize = 4096;
/// Record alignment; `len` is always a multiple of this.
pub const RECORD_ALIGN: usize = 8;
/// Minimum length of a `Pad` record (header prefix without `vnanos`).
pub const PAD_MIN_LEN: usize = 8;
/// `flags` bit 0: variable-length payload was clipped at its documented cap.
pub const FLAG_TRUNCATED: u8 = 1;
/// `flags` bit 1: `NameIntern` emitted by `declare_reachable()`.
pub const FLAG_REACHABLE_DECL: u8 = 2;

/// Payload length rounded up to the record alignment.
pub open spec fn spec_pad8(n: int) -> int {
    ((n + 7) / 8) * 8
}

/// Total record length for a payload of `n` bytes.
pub open spec fn spec_record_len(n: int) -> int {
    RECORD_HEADER_LEN + spec_pad8(n)
}

/// `spec_pad8` rounds up to the next multiple of 8.
pub proof fn lemma_pad8(n: int)
    requires
        n >= 0,
    ensures
        spec_pad8(n) % 8 == 0,
        n <= spec_pad8(n) < n + 8,
{
    assert(((n + 7) / 8) * 8 % 8 == 0) by (nonlinear_arith);
    assert(n <= ((n + 7) / 8) * 8 < n + 8) by (nonlinear_arith)
        requires
            n >= 0,
    ;
}

/// Round a payload length up to the record alignment.
pub fn pad8(n: usize) -> (r: usize)
    requires
        n + 7 <= usize::MAX,
    ensures
        r == spec_pad8(n as int),
{
    (n + 7) / 8 * 8
}

/// Total record length for a payload of `payload_len` bytes.
pub fn record_len(payload_len: usize) -> (r: usize)
    requires
        payload_len + 23 <= usize::MAX,
    ensures
        r == spec_record_len(payload_len as int),
{
    RECORD_HEADER_LEN + pad8(payload_len)
}

/// Event kinds for rings A and W, in kind-byte order (`Pad` is 0).
#[derive(Debug, Clone, Copy, PartialEq, Eq, Hash, Structural)]
pub enum EventKind {
    /// Tail filler; carries nothing.
    Pad,
    /// Agent announce after CHANNEL_INIT (critical).
    Hello,
    /// name → name_id binding (critical).
    NameIntern,
    /// `assert_always` violation (critical).
    AssertViolation,
    /// First hit of an `expect_reachable` name (critical).
    Reachable,
    /// First hit of a coverage beacon id (droppable).
    Beacon,
    /// `inject_point` query (critical).
    InjectQuery,
    /// Region published in the manifest (critical).
    RegionRegister,
    /// Region re-verified/unregistered (critical).
    RegionUpdate,
    /// Workload exec'd (critical).
    WorkloadStarted,
    /// Workload reaped (critical).
    WorkloadExited,
    /// Structured log line (droppable).
    LogLine,
    /// Quiesce point reached (critical).
    QuiesceReady,
    /// Frame boundary (critical).
    FrameMark,
    /// The deterministic READY point (critical).
    Ready,
}

/// The kind byte of an event kind.
pub open spec fn spec_event_kind_byte(k: EventKind) -> u8 {
    match k {
        EventKind::Pad => 0,
        EventKind::Hello => 1,
        EventKind::NameIntern => 2,
        EventKind::AssertViolation => 3,
        EventKind::Reachable => 4,
        EventKind::Beacon => 5,
        EventKind::InjectQuery => 6,
        EventKind::RegionRegister => 7,
        EventKind::RegionUpdate => 8,
        EventKind::WorkloadStarted => 9,
        EventKind::WorkloadExited => 10,
        EventKind::LogLine => 11,
        EventKind::QuiesceReady => 12,
        EventKind::FrameMark => 13,
        EventKind::Ready => 14,
    }
}

impl EventKind {
    /// Decode a kind byte; `None` for kinds this protocol version does not
    /// define (consumers skip unknown kinds by `len`).
    pub fn from_u8(v: u8) -> (r: Option<EventKind>)
        ensures
            v <= 14 ==> r is Some && spec_event_kind_byte(r->0) == v,
            v > 14 ==> r is None,
    {
        match v {
            0 => Some(EventKind::Pad),
            1 => Some(EventKind::Hello),
            2 => Some(EventKind::NameIntern),
            3 => Some(EventKind::AssertViolation),
            4 => Some(EventKind::Reachable),
            5 => Some(EventKind::Beacon),
            6 => Some(EventKind::InjectQuery),
            7 => Some(EventKind::RegionRegister),
            8 => Some(EventKind::RegionUpdate),
            9 => Some(EventKind::WorkloadStarted),
            10 => Some(EventKind::WorkloadExited),
            11 => Some(EventKind::LogLine),
            12 => Some(EventKind::QuiesceReady),
            13 => Some(EventKind::FrameMark),
            14 => Some(EventKind::Ready),
            _ => None,
        }
    }

    /// The kind byte.
    pub fn to_u8(self) -> (r: u8)
        ensures
            r == spec_event_kind_byte(self),
    {
        match self {
            EventKind::Pad => 0,
            EventKind::Hello => 1,
            EventKind::NameIntern => 2,
            EventKind::AssertViolation => 3,
            EventKind::Reachable => 4,
            EventKind::Beacon => 5,
            EventKind::InjectQuery => 6,
            EventKind::RegionRegister => 7,
            EventKind::RegionUpdate => 8,
            EventKind::WorkloadStarted => 9,
            EventKind::WorkloadExited => 10,
            EventKind::LogLine => 11,
            EventKind::QuiesceReady => 12,
            EventKind::FrameMark => 13,
            EventKind::Ready => 14,
        }
    }

    /// Critical events doorbell-and-retry on a full ring; droppable events
    /// (`Pad`, `Beacon`, `LogLine`) bump the drop counters and are skipped.
    pub fn is_critical(self) -> (r: bool)
        ensures
            r == !(self is Pad || self is Beacon || self is LogLine),
    {
        !matches!(self, EventKind::Pad | EventKind::Beacon | EventKind::LogLine)
    }
}

/// Command kinds for ring C, host → agent.
#[derive(Debug, Clone, Copy, PartialEq, Eq, Hash, Structural)]
pub enum CommandKind {
    /// Fork+exec a preconfigured workload unit (kind 1).
    StartWorkload,
    /// Request a quiesce point (kind 2).
    Quiesce,
    /// Resume a FORCED-quiesced workload (kind 3).
    Resume,
    /// Kill the workload and power off the VM (kind 4).
    Shutdown,
    /// Adjust LogLine production (kind 5).
    SetLogMask,
    /// Re-walk pagemap for all live regions (kind 6).
    ReverifyRegions,
}

/// The kind byte of a command kind.
pub open spec fn spec_command_kind_byte(k: CommandKind) -> u8 {
    match k {
        CommandKind::StartWorkload => 1,
        CommandKind::Quiesce => 2,
        CommandKind::Resume => 3,
        CommandKind::Shutdown => 4,
        CommandKind::SetLogMask => 5,
        CommandKind::ReverifyRegions => 6,
    }
}

impl CommandKind {
    /// Decode a kind byte.
    pub fn from_u8(v: u8) -> (r: Option<CommandKind>)
        ensures
            1 <= v <= 6 ==> r is Some && spec_command_kind_byte(r->0) == v,
            !(1 <= v <= 6) ==> r is None,
    {
        match v {
            1 => Some(CommandKind::StartWorkload),
            2 => Some(CommandKind::Quiesce),
            3 => Some(CommandKind::Resume),
            4 => Some(CommandKind::Shutdown),
            5 => Some(CommandKind::SetLogMask),
            6 => Some(CommandKind::ReverifyRegions),
            _ => None,
        }
    }

    /// The kind byte.
    pub fn to_u8(self) -> (r: u8)
        ensures
            r == spec_command_kind_byte(self),
    {
        match self {
            CommandKind::StartWorkload => 1,
            CommandKind::Quiesce => 2,
            CommandKind::Resume => 3,
            CommandKind::Shutdown => 4,
            CommandKind::SetLogMask => 5,
            CommandKind::ReverifyRegions => 6,
        }
    }
}

/// Workload-control kinds for ring I, host → workload. Kind 1 stays
/// reserved (the removed generic input record) and is never reassigned.
#[derive(Debug, Clone, Copy, PartialEq, Eq, Hash, Structural)]
pub enum WorkloadCtrlKind {
    /// Quiesce relay from the agent (kind 2).
    QuiesceReq,
    /// Unpark a cooperatively-quiesced workload (kind 3).
    Resume,
}

/// The kind byte of a workload-control kind.
pub open spec fn spec_ctrl_kind_byte(k: WorkloadCtrlKind) -> u8 {
    match k {
        WorkloadCtrlKind::QuiesceReq => 2,
        WorkloadCtrlKind::Resume => 3,
    }
}

impl WorkloadCtrlKind {
    /// Decode a kind byte.
    pub fn from_u8(v: u8) -> (r: Option<WorkloadCtrlKind>)
        ensures
            (v == 2 || v == 3) ==> r is Some && spec_ctrl_kind_byte(r->0) == v,
            !(v == 2 || v == 3) ==> r is None,
    {
        match v {
            2 => Some(WorkloadCtrlKind::QuiesceReq),
            3 => Some(WorkloadCtrlKind::Resume),
            _ => None,
        }
    }

    /// The kind byte.
    pub fn to_u8(self) -> (r: u8)
        ensures
            r == spec_ctrl_kind_byte(self),
    {
        match self {
            WorkloadCtrlKind::QuiesceReq => 2,
            WorkloadCtrlKind::Resume => 3,
        }
    }
}

/// A decoded record header.
#[derive(Debug, Clone, Copy, PartialEq, Eq, Structural)]
pub struct RecordHeader {
    /// Total record bytes including this header; multiple of 8.
    pub len: u16,
    /// Kind byte in the owning ring's namespace.
    pub kind: u8,
    /// `FLAG_TRUNCATED` | `FLAG_REACHABLE_DECL`.
    pub flags: u8,
    /// Per-ring producer record counter, starts at 0. `Pad` consumes one too.
    pub seq: u32,
    /// Producer's guest time in ns; 0 on host-produced records and on
    /// 8-byte tail `Pad`s (which carry no `vnanos` field).
    pub vnanos: u64,
}

/// The 16 header bytes of `h`.
pub open spec fn spec_header_bytes(h: RecordHeader) -> Seq<u8> {
    b16(h.len) + seq![h.kind, h.flags] + b32(h.seq) + b64(h.vnanos)
}

/// How many header bytes exist on the wire at this `len`: 8 for a record
/// shorter than a full header (an 8-byte tail `Pad`), else 16.
pub open spec fn spec_header_wire_len(len: u16) -> int {
    if len < RECORD_HEADER_LEN {
        8
    } else {
        16
    }
}

/// Decode and frame-check a header from the start of `s`.
pub open spec fn spec_read_header(s: Seq<u8>) -> Result<RecordHeader, DecodeError> {
    if s.len() < PAD_MIN_LEN {
        Err(DecodeError::Truncated)
    } else {
        let len = le16(s, 0);
        let kind = s[2];
        let min = if kind == 0 {
            PAD_MIN_LEN
        } else {
            MIN_RECORD_LEN
        };
        if len % 8 != 0 || len > MAX_RECORD_LEN {
            Err(DecodeError::BadLen)
        } else if len < min {
            Err(DecodeError::BadLen)
        } else if len > s.len() {
            Err(DecodeError::Truncated)
        } else {
            Ok(
                RecordHeader {
                    len,
                    kind,
                    flags: s[3],
                    seq: le32(s, 4),
                    vnanos: if len >= RECORD_HEADER_LEN {
                        le64(s, 8)
                    } else {
                        0
                    },
                },
            )
        }
    }
}

/// The bytes of a `Pad` record covering exactly `n` bytes.
pub open spec fn spec_pad_bytes(n: int, seq: u32) -> Seq<u8> {
    let h = RecordHeader { len: n as u16, kind: 0, flags: 0, seq, vnanos: 0 };
    let w = spec_header_wire_len(n as u16);
    spec_header_bytes(h).subrange(0, w) + zeros((n - w) as nat)
}

/// A header always encodes to 16 bytes.
pub proof fn lemma_header_bytes_len(h: RecordHeader)
    ensures
        spec_header_bytes(h).len() == 16,
{
    lemma_le_round_trips();
    assert(b16(h.len).len() == 2);
    assert(b32(h.seq).len() == 4);
    assert(b64(h.vnanos).len() == 8);
}

/// Build the 16 header bytes.
fn header_vec(h: &RecordHeader) -> (v: Vec<u8>)
    ensures
        v@ == spec_header_bytes(*h),
        v@.len() == 16,
{
    let mut v: Vec<u8> = Vec::new();
    push_u16(&mut v, h.len);
    v.push(h.kind);
    v.push(h.flags);
    push_u32(&mut v, h.seq);
    push_u64(&mut v, h.vnanos);
    proof {
        lemma_header_bytes_len(*h);
        assert(v@ =~= spec_header_bytes(*h));
    }
    v
}

impl RecordHeader {
    /// Serialize into `buf`, which must hold `self.len` bytes. Writes only
    /// the header prefix that exists at this `len` (8 bytes for a record
    /// shorter than a full header).
    pub fn write_to(&self, buf: &mut [u8]) -> (r: Result<(), EncodeError>)
        requires
            self.len >= PAD_MIN_LEN || old(buf)@.len() >= PAD_MIN_LEN || old(buf)@.len()
                < self.len,
        ensures
            ({
                let need = if self.len < RECORD_HEADER_LEN {
                    self.len as int
                } else {
                    RECORD_HEADER_LEN as int
                };
                let w = spec_header_wire_len(self.len);
                &&& r is Err <==> old(buf)@.len() < need
                &&& r is Err ==> r == Err::<(), EncodeError>(EncodeError::BufferTooSmall)
                    && final(buf)@ == old(buf)@
                &&& r is Ok ==> final(buf)@ == splice(
                    old(buf)@,
                    0,
                    spec_header_bytes(*self).subrange(0, w),
                )
            }),
    {
        let need = if (self.len as usize) < RECORD_HEADER_LEN {
            self.len as usize
        } else {
            RECORD_HEADER_LEN
        };
        if buf.len() < need {
            return Err(EncodeError::BufferTooSmall);
        }
        let v = header_vec(self);
        if need == RECORD_HEADER_LEN {
            write_at(buf, 0, v.as_slice());
        } else {
            write_at(buf, 0, &v.as_slice()[0..8]);
        }
        Ok(())
    }

    /// Decode and frame-validate a record header from the start of `buf`:
    /// `len` a multiple of 8, within `MIN_RECORD_LEN..=MAX_RECORD_LEN`
    /// (`Pad`: `PAD_MIN_LEN` minimum), and `len <= buf.len()`. Does not
    /// interpret the kind beyond the `Pad` special case.
    pub fn read_from(buf: &[u8]) -> (r: Result<RecordHeader, DecodeError>)
        ensures
            r == spec_read_header(buf@),
    {
        if buf.len() < PAD_MIN_LEN {
            return Err(DecodeError::Truncated);
        }
        let len = get_u16(buf, 0);
        let kind = buf[2];
        let flags = buf[3];
        let seq = get_u32(buf, 4);
        let l = len as usize;
        if l % RECORD_ALIGN != 0 || l > MAX_RECORD_LEN {
            return Err(DecodeError::BadLen);
        }
        let min = if kind == 0 {
            PAD_MIN_LEN
        } else {
            MIN_RECORD_LEN
        };
        if l < min {
            return Err(DecodeError::BadLen);
        }
        if l > buf.len() {
            return Err(DecodeError::Truncated);
        }
        let vnanos = if l >= RECORD_HEADER_LEN {
            get_u64(buf, 8)
        } else {
            0
        };
        Ok(RecordHeader { len, kind, flags, seq, vnanos })
    }

    /// The payload byte range within a record of this header. For records
    /// shorter than a full header the empty range sits at `len`, so it stays
    /// in bounds for the record's own bytes.
    pub fn payload_range(&self) -> (r: core::ops::Range<usize>)
        ensures
            self.len <= RECORD_HEADER_LEN ==> r.start == self.len && r.end == self.len,
            self.len > RECORD_HEADER_LEN ==> r.start == RECORD_HEADER_LEN && r.end == self.len,
    {
        let l = self.len as usize;
        if l <= RECORD_HEADER_LEN {
            l..l
        } else {
            RECORD_HEADER_LEN..l
        }
    }
}

/// Encode a `Pad` record covering exactly `tail_len` bytes at the ring
/// tail. Tails of at least 16 bytes get a full header with `vnanos = 0`;
/// an 8-byte tail gets the 8-byte prefix only. The rest of the tail is
/// zeroed.
pub fn encode_pad(buf: &mut [u8], tail_len: usize, seq: u32) -> (r: Result<usize, EncodeError>)
    requires
        tail_len % 8 == 0,
        tail_len >= PAD_MIN_LEN,
    ensures
        r is Err <==> (old(buf)@.len() < tail_len || tail_len > u16::MAX),
        r is Err ==> r == Err::<usize, EncodeError>(EncodeError::BufferTooSmall) && final(buf)@
            == old(buf)@,
        r is Ok ==> r == Ok::<usize, EncodeError>(tail_len) && final(buf)@ == splice(
            old(buf)@,
            0,
            spec_pad_bytes(tail_len as int, seq),
        ),
{
    if buf.len() < tail_len || tail_len > 65535 {
        return Err(EncodeError::BufferTooSmall);
    }
    let ghost orig = buf@;
    let hdr = RecordHeader { len: tail_len as u16, kind: 0, flags: 0, seq, vnanos: 0 };
    fill_zero(buf, 0, tail_len);
    let _ = hdr.write_to(buf);
    proof {
        lemma_header_bytes_len(hdr);
        let w = spec_header_wire_len(tail_len as u16);
        assert(buf@ =~= splice(orig, 0, spec_pad_bytes(tail_len as int, seq)));
    }
    Ok(tail_len)
}

/// A record: header, payload, zero padding to the record length.
pub open spec fn spec_record(kind: u8, flags: u8, seq: u32, vnanos: u64, payload: Seq<u8>) -> Seq<
    u8,
> {
    let len = spec_record_len(payload.len() as int);
    spec_header_bytes(RecordHeader { len: len as u16, kind, flags, seq, vnanos }) + payload + zeros(
        (spec_pad8(payload.len() as int) - payload.len()) as nat,
    )
}

/// The payload bytes a framed header points at within `s`.
pub open spec fn spec_payload_of(s: Seq<u8>, h: RecordHeader) -> Seq<u8> {
    if h.len <= RECORD_HEADER_LEN {
        Seq::empty()
    } else {
        s.subrange(RECORD_HEADER_LEN as int, h.len as int)
    }
}

/// A record built by `spec_record`, followed by any bytes, frames back to
/// its own header, and its payload window holds the payload followed by the
/// zero padding.
pub proof fn lemma_record_frames(
    kind: u8,
    flags: u8,
    seq: u32,
    vnanos: u64,
    payload: Seq<u8>,
    rest: Seq<u8>,
)
    requires
        kind != 0,
        spec_record_len(payload.len() as int) <= MAX_RECORD_LEN,
    ensures
        ({
            let s = spec_record(kind, flags, seq, vnanos, payload) + rest;
            let len = spec_record_len(payload.len() as int);
            let h = RecordHeader { len: len as u16, kind, flags, seq, vnanos };
            &&& spec_read_header(s) == Ok::<RecordHeader, DecodeError>(h)
            &&& spec_payload_of(s, h) == payload + zeros(
                (spec_pad8(payload.len() as int) - payload.len()) as nat,
            )
            &&& spec_record(kind, flags, seq, vnanos, payload).len() == len
        }),
{
    let plen = payload.len() as int;
    lemma_pad8(plen);
    let len = spec_record_len(plen);
    let h = RecordHeader { len: len as u16, kind, flags, seq, vnanos };
    lemma_header_bytes_len(h);
    lemma_le_round_trips();
    let hb = spec_header_bytes(h);
    let z = zeros((spec_pad8(plen) - plen) as nat);
    let rec = spec_record(kind, flags, seq, vnanos, payload);
    let s = rec + rest;
    assert(rec == hb + payload + z);
    assert(s.subrange(0, 2) =~= b16(len as u16));
    assert(s.subrange(4, 8) =~= b32(seq));
    assert(s.subrange(8, 16) =~= b64(vnanos));
    assert(s[2] == kind);
    assert(s[3] == flags);
    assert(spec_payload_of(s, h) =~= payload + z);
}

} // verus!

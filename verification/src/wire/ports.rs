//! detcall PIO register ABI: port numbers and `FaultDecision` packing.
use vstd::prelude::*;

verus! {

/// First port of the detcall range.
pub const PORT_RANGE_START: u16 = 0xD370;
/// Last port of the detcall range (inclusive). Unknown ports inside are RAZ/WI.
pub const PORT_RANGE_END: u16 = 0xD39F;
/// IN: identify — returns `IDENT_VALUE`.
pub const PORT_IDENT: u16 = 0xD370;
/// OUT: channel init, GPA bits 0–31 (latched).
pub const PORT_INIT_LO: u16 = 0xD374;
/// OUT: channel init, GPA bits 32–63 (latched).
pub const PORT_INIT_HI: u16 = 0xD378;
/// OUT: commit init (eax = channel size in 4 KiB pages); IN: init status.
pub const PORT_INIT_GO: u16 = 0xD37C;
/// OUT: doorbell (eax = ring mask) — host drains those guest→host rings now.
pub const PORT_DOORBELL: u16 = 0xD380;
/// OUT: inject query (eax = iseq); IN: packed `FaultDecision` for that iseq.
pub const PORT_INJECT: u16 = 0xD384;
/// OUT: quiesce ack (eax = low 32 bits of token) — agent FORCED path only.
pub const PORT_QUIESCE_ACK: u16 = 0xD388;
/// `IN 0xD370` return value: magic `0xD37E` in the high half, proto version 1 low.
pub const IDENT_VALUE: u32 = 0xD37E_0001;
/// Doorbell mask bit 0: drain ring A.
pub const DOORBELL_RING_A: u32 = 1;
/// Doorbell mask bit 1: drain ring W.
pub const DOORBELL_RING_W: u32 = 2;

/// `IN 0xD37C` status codes after an INIT_GO commit (codes 0..=3 in
/// declaration order).
#[derive(Debug, Clone, Copy, PartialEq, Eq, Structural)]
pub enum InitStatus {
    /// Channel validated and attached (0).
    Attached,
    /// Latched GPA invalid: unmapped, misaligned or out of guest RAM (1).
    BadGpa,
    /// Channel header magic or proto_version mismatch at the latched GPA (2).
    BadMagicVersion,
    /// A channel is already attached for this VM (3).
    AlreadyAttached,
}

/// The status word of an `InitStatus`.
pub open spec fn spec_init_status_code(s: InitStatus) -> u32 {
    match s {
        InitStatus::Attached => 0,
        InitStatus::BadGpa => 1,
        InitStatus::BadMagicVersion => 2,
        InitStatus::AlreadyAttached => 3,
    }
}

impl InitStatus {
    /// Decode a status word; unknown values are `None` (a host bug).
    pub fn from_u32(v: u32) -> (r: Option<InitStatus>)
        ensures
            v <= 3 ==> r is Some && spec_init_status_code(r->0) == v,
            v > 3 ==> r is None,
    {
        match v {
            0 => Some(InitStatus::Attached),
            1 => Some(InitStatus::BadGpa),
            2 => Some(InitStatus::BadMagicVersion),
            3 => Some(InitStatus::AlreadyAttached),
            _ => None,
        }
    }

    /// The status word.
    pub fn to_u32(self) -> (r: u32)
        ensures
            r == spec_init_status_code(self),
    {
        match self {
            InitStatus::Attached => 0,
            InitStatus::BadGpa => 1,
            InitStatus::BadMagicVersion => 2,
            InitStatus::AlreadyAttached => 3,
        }
    }
}

/// Platform-defined fault kind 1: fail the operation (arg = suggested errno).
pub const PLATFORM_FAIL_GENERIC: u8 = 1;
/// Platform-defined fault kind 2: short read/write (arg = max bytes/items).
pub const PLATFORM_SHORT_COUNT: u8 = 2;
/// Platform-defined fault kind 3: sleep arg milliseconds of virtual time.
pub const PLATFORM_DELAY_VIRTUAL: u8 = 3;
/// Maximum value of the packed 24-bit `arg` field.
pub const FAULT_ARG_MAX: u32 = 0x00FF_FFFF;

/// The host's answer to an `inject_point` query. Packed into 32 bits on the
/// wire: bits 0..8 = kind, bits 8..32 = arg (u24).
#[derive(Debug, Clone, Copy, PartialEq, Eq, Structural)]
pub enum FaultDecision {
    /// kind 0 — no fault; take the normal path.
    Proceed,
    /// kinds 1–63: platform-defined.
    Platform {
        /// Fault kind, 1..=63.
        kind: u8,
        /// 24-bit argument; semantics per kind.
        arg: u32,
    },
    /// kinds 64–255: workload-defined.
    Workload {
        /// Fault kind, 64..=255.
        kind: u8,
        /// 24-bit argument; semantics per the workload's schema.
        arg: u32,
    },
}

/// The packed word of a decision: the kind in the low byte, the arg masked
/// to 24 bits above it.
pub open spec fn spec_pack(d: FaultDecision) -> u32 {
    match d {
        FaultDecision::Proceed => 0,
        FaultDecision::Platform { kind, arg } => (kind as u32 + (arg % 0x100_0000) * 0x100) as u32,
        FaultDecision::Workload { kind, arg } => (kind as u32 + (arg % 0x100_0000) * 0x100) as u32,
    }
}

/// The decision a packed word stands for.
pub open spec fn spec_unpack(v: u32) -> FaultDecision {
    let kind = (v % 0x100) as u8;
    let arg = v / 0x100;
    if kind == 0 {
        FaultDecision::Proceed
    } else if kind <= 63 {
        FaultDecision::Platform { kind, arg }
    } else {
        FaultDecision::Workload { kind, arg }
    }
}

/// A decision respects the kind ranges and the 24-bit arg.
pub open spec fn spec_decision_well_formed(d: FaultDecision) -> bool {
    match d {
        FaultDecision::Proceed => true,
        FaultDecision::Platform { kind, arg } => 1 <= kind <= 63 && arg <= FAULT_ARG_MAX,
        FaultDecision::Workload { kind, arg } => kind >= 64 && arg <= FAULT_ARG_MAX,
    }
}

impl FaultDecision {
    /// Pack for the `IN 0xD384` answer. `arg` is masked to 24 bits.
    pub fn pack(self) -> (r: u32)
        ensures
            r == spec_pack(self),
    {
        match self {
            FaultDecision::Proceed => 0,
            FaultDecision::Platform { kind, arg } | FaultDecision::Workload { kind, arg } => {
                let k = kind as u32;
                let r = k | ((arg & FAULT_ARG_MAX) << 8);
                assert(r == k + (arg % 0x100_0000) * 0x100) by (bit_vector)
                    requires
                        k < 256,
                        r == k | ((arg & 0xFF_FFFF) << 8),
                ;
                r
            },
        }
    }

    /// Unpack an `IN 0xD384` answer. Total: every word decodes; kind 0 is
    /// `Proceed` whatever the arg bits hold.
    pub fn unpack(v: u32) -> (r: FaultDecision)
        ensures
            r == spec_unpack(v),
    {
        let kind = (v & 0xFF) as u8;
        let arg = v >> 8;
        assert(v & 0xFF == v % 0x100 && v >> 8 == v / 0x100) by (bit_vector);
        if kind == 0 {
            FaultDecision::Proceed
        } else if kind <= 63 {
            FaultDecision::Platform { kind, arg }
        } else {
            FaultDecision::Workload { kind, arg }
        }
    }
}

/// Unpacking a packed well-formed decision gives it back; packing an
/// unpacked word with a nonzero kind gives the word back.
pub proof fn lemma_pack_unpack(d: FaultDecision, v: u32)
    ensures
        spec_decision_well_formed(d) ==> spec_unpack(spec_pack(d)) == d,
        v % 0x100 != 0 ==> spec_pack(spec_unpack(v)) == v,
        spec_unpack(v) is Proceed <==> v % 0x100 == 0,
{
    match d {
        FaultDecision::Proceed => {},
        FaultDecision::Platform { kind, arg } => {
            if spec_decision_well_formed(d) {
                let p = kind as u32 + (arg % 0x100_0000) * 0x100;
                assert(p % 0x100 == kind as u32 && p / 0x100 == arg) by (nonlinear_arith)
                    requires
                        kind < 256,
                        arg <= 0xFF_FFFF,
                        p == kind as u32 + (arg % 0x100_0000) * 0x100,
                ;
            }
        },
        FaultDecision::Workload { kind, arg } => {
            if spec_decision_well_formed(d) {
                let p = kind as u32 + (arg % 0x100_0000) * 0x100;
                assert(p % 0x100 == kind as u32 && p / 0x100 == arg) by (nonlinear_arith)
                    requires
                        kind < 256,
                        arg <= 0xFF_FFFF,
                        p == kind as u32 + (arg % 0x100_0000) * 0x100,
                ;
            }
        },
    }
    let kind = v % 0x100;
    let arg = v / 0x100;
    assert(arg % 0x100_0000 == arg && kind + arg * 0x100 == v) by (nonlinear_arith)
        requires
            kind == v % 0x100,
            arg == v / 0x100,
            v <= 0xFFFF_FFFF,
    ;
}

} // verus!

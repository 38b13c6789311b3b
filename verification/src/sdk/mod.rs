//! The pure parts of the in-guest SDK: region publication checks, beacon
//! counters, the stats region layout, the pv-pad latch, and the
//! deterministic standalone behavior of the workload-facing calls.
//!
//! Without a channel (standalone mode) every call is deterministic and
//! emits nothing: checks pass through, inject points proceed, pads read
//! zero, and statistics stay at their initial values.
pub mod attach;
pub mod beacons;
pub mod pio;
pub mod regions;
pub mod stats_region;

use crate::wire::events::MAX_NAME;
use crate::text::{chars_of, push_dec, push_str, spec_dec, string_from_chars};
use crate::wire::ports::FaultDecision;
use crate::sdk::attach::{io_error_new, IoKind};
use vstd::prelude::*;

verus! {

/// Coverage counter slots in the auto-registered `detsdk.stats` region.
pub const BEACON_SLOTS: usize = beacons::BEACON_SLOTS;

/// Per-name violation limit before the full SDK switches to summary-only
/// accounting for a hot failing invariant.
pub const ASSERT_REPEAT_LIMIT: u32 = 16;

/// Opaque SDK handle returned once platform initialization succeeds.
#[derive(Debug)]
pub struct Sdk {
    _private: (),
}

/// `std::io::Error`, carried through `InitError::AgentSocket`.
#[verifier::external_type_specification]
#[verifier::external_body]
pub struct ExIoError(std::io::Error);

/// Errors from one-time SDK initialization.
#[derive(Debug)]
#[non_exhaustive]
pub enum InitError {
    /// The workload is not running under `detguest-agent`.
    NoChannel,
    /// The inherited channel header did not contain the expected magic.
    BadChannelHeader {
        /// Magic read from the mapped channel header.
        found_magic: u64,
    },
    /// The channel protocol version is not supported by this SDK.
    ProtocolVersionMismatch {
        /// Protocol version implemented by this crate.
        guest: u32,
        /// Protocol version found in the channel header.
        channel: u32,
    },
    /// Raising I/O privilege level for detcall ports failed.
    PioPermissionDenied,
    /// Agent IPC setup or another initialization syscall failed.
    AgentSocket(std::io::Error),
}

/// The lowercase hex digit of `d` (below 16).
pub open spec fn spec_hex_digit(d: nat) -> char {
    if d < 10 {
        (48 + d) as char
    } else {
        (87 + d) as char
    }
}

/// The last `k` lowercase hex digits of `n`, zero-padded: `{:0k$x}` for
/// an `n` below `16^k`.
pub open spec fn spec_hex_fixed(n: nat, k: nat) -> Seq<char>
    decreases k,
{
    if k == 0 {
        Seq::empty()
    } else {
        spec_hex_fixed(n / 16, (k - 1) as nat).push(spec_hex_digit(n % 16))
    }
}

/// Append the last `k` hex digits of `n`.
fn push_hex_fixed(out: &mut Vec<char>, n: u64, k: u32)
    ensures
        final(out)@ == old(out)@ + spec_hex_fixed(n as nat, k as nat),
    decreases k,
{
    if k == 0 {
        proof {
            assert(final(out)@ =~= old(out)@ + spec_hex_fixed(n as nat, 0));
        }
        return;
    }
    push_hex_fixed(out, n / 16, k - 1);
    let d = (n % 16) as u8;
    let c = if d < 10 {
        (48u8 + d) as char
    } else {
        (87u8 + d) as char
    };
    out.push(c);
    proof {
        assert(final(out)@ =~= old(out)@ + spec_hex_fixed(n as nat, k as nat));
    }
}

/// The text `std::io::Error`'s `Display` gives. For an error made by
/// `std::io::Error::new` from a kind and a message it is that message;
/// nothing is stated of other errors (for an operating-system error it is
/// the system's message).
#[verifier::external_body]
fn io_error_text(e: &std::io::Error) -> (r: String)
    ensures
        forall|k: IoKind, m: Seq<char>| #[trigger] io_error_new(k, m) == *e ==> r@ == m,
{
    e.to_string()
}

/// How an initialization error reads, except for the I/O error's own
/// text.
pub open spec fn spec_init_error_text(e: &InitError) -> Seq<char> {
    match e {
        InitError::NoChannel => "DETGUEST_CHANNEL_FD is not present"@,
        InitError::BadChannelHeader { found_magic } => "bad detguest channel magic 0x"@
            + spec_hex_fixed(*found_magic as nat, 16),
        InitError::ProtocolVersionMismatch { guest, channel } => "detguest protocol mismatch: sdk supports "@
            + spec_dec(*guest as nat) + ", channel is "@ + spec_dec(*channel as nat),
        InitError::PioPermissionDenied => "iopl(3) permission denied"@,
        InitError::AgentSocket(_) => "agent initialization failed: "@,
    }
}

impl InitError {
    /// The error's message (what `Display` would print): for an I/O error,
    /// the prefix followed by that error's own text.
    pub fn to_text(&self) -> (r: String)
        ensures
            !(self is AgentSocket) ==> r@ == spec_init_error_text(self),
            self is AgentSocket ==> r@.len() >= spec_init_error_text(self).len() && r@.subrange(
                0,
                spec_init_error_text(self).len() as int,
            ) == spec_init_error_text(self),
            forall|k: IoKind, m: Seq<char>|
                #[trigger] io_error_new(k, m) == self->AgentSocket_0 && self is AgentSocket ==> r@
                    == spec_init_error_text(self) + m,
    {
        let mut m: Vec<char> = Vec::new();
        match self {
            InitError::NoChannel => push_str(&mut m, "DETGUEST_CHANNEL_FD is not present"),
            InitError::BadChannelHeader { found_magic } => {
                push_str(&mut m, "bad detguest channel magic 0x");
                push_hex_fixed(&mut m, *found_magic, 16);
            },
            InitError::ProtocolVersionMismatch { guest, channel } => {
                push_str(&mut m, "detguest protocol mismatch: sdk supports ");
                push_dec(&mut m, *guest as u128);
                push_str(&mut m, ", channel is ");
                push_dec(&mut m, *channel as u128);
            },
            InitError::PioPermissionDenied => push_str(&mut m, "iopl(3) permission denied"),
            InitError::AgentSocket(err) => {
                push_str(&mut m, "agent initialization failed: ");
                let ghost pre = m@;
                let t = io_error_text(err);
                push_str(&mut m, t.as_str());
                proof {
                    assert(m@.subrange(0, pre.len() as int) =~= pre);
                }
            },
        }
        proof {
            if !(self is AgentSocket) {
                assert(m@ =~= spec_init_error_text(self));
            }
        }
        string_from_chars(m.as_slice())
    }
}

/// Whether an assertion or reachability name fits the wire's name field
/// (`MAX_NAME` bytes of UTF-8; `str::len` counts bytes).
pub fn valid_name(name: &str) -> (r: bool)
    ensures
        r == (name.len() <= MAX_NAME),
{
    name.len() <= MAX_NAME
}

/// Record a finding if `cond` is false. Standalone: nothing is recorded;
/// a failed assertion yields the message the workload panics with when
/// standalone panics are enabled, `None` otherwise.
pub fn assert_always(cond: bool, name: &'static str, details: &str) -> (r: Option<String>)
    ensures
        match r {
            Some(m) => !cond && m@ == "detguest assertion `"@ + name@ + "` failed: "@ + details@,
            None => cond,
        },
{
    let _ = valid_name(name);
    if cond {
        return None;
    }
    let mut m = chars_of("detguest assertion `");
    push_str(&mut m, name);
    push_str(&mut m, "` failed: ");
    push_str(&mut m, details);
    Some(string_from_chars(m.as_slice()))
}

/// Declare that a location should be reachable and record that it was
/// reached. Standalone: the name is checked and nothing is recorded.
pub fn expect_reachable(name: &'static str) {
    let _ = valid_name(name);
}

/// Pre-declare a reachability target without recording a hit.
/// Standalone: the name is checked and nothing is recorded.
pub fn declare_reachable(name: &'static str) {
    let _ = valid_name(name);
}

/// Cheap coverage counter for the scorer. Standalone: nothing is counted.
pub fn coverage_beacon(id: u32) {
}

/// Ask the host whether to inject a fault here. Standalone: every inject
/// point proceeds.
pub fn inject_point(name: &'static str) -> (r: FaultDecision)
    ensures
        r == FaultDecision::Proceed,
{
    let _ = valid_name(name);
    FaultDecision::Proceed
}

/// Per-frame controller read from the pv-pad latch. Standalone: no pad
/// is mapped, so every port reads 0.
pub fn poll_input(port: u8) -> (r: u32)
    ensures
        r == 0,
{
    let pio = pio::PioState::standalone();
    pio.poll_input(port)
}

/// Mark a completed emulated frame. Standalone: no frame counter.
pub fn frame_mark() {
}

/// Cooperative quiesce point.
pub fn quiesce_check() {
}

/// Structured SDK user log level.
#[derive(Debug, Clone, Copy, PartialEq, Eq, Structural)]
pub enum LogLevel {
    /// Error.
    Error,
    /// Warning.
    Warn,
    /// Informational.
    Info,
    /// Debug.
    Debug,
    /// Trace.
    Trace,
}

impl LogLevel {
    /// The level's wire value (0 = error .. 4 = trace).
    pub fn to_u8(self) -> (r: u8)
        ensures
            r == match self {
                LogLevel::Error => 0u8,
                LogLevel::Warn => 1u8,
                LogLevel::Info => 2u8,
                LogLevel::Debug => 3u8,
                LogLevel::Trace => 4u8,
            },
    {
        match self {
            LogLevel::Error => 0,
            LogLevel::Warn => 1,
            LogLevel::Info => 2,
            LogLevel::Debug => 3,
            LogLevel::Trace => 4,
        }
    }
}

/// Structured log line host-ward. Standalone: nothing is sent.
pub fn log_line(level: LogLevel, msg: &str) {
}

/// Snapshot of SDK statistics.
#[derive(Debug, Clone, PartialEq, Eq, Structural)]
pub struct SdkStats {
    /// Stats layout version.
    pub stats_version: u32,
    /// Total successful assertion checks observed by the SDK.
    pub asserts_passed_total: u64,
    /// Total failed assertion checks observed by the SDK.
    pub asserts_failed_total: u64,
    /// Count of distinct reachability names hit.
    pub reachable_names: u64,
    /// Total inject queries issued.
    pub inject_queries_total: u64,
}

impl Default for SdkStats {
    fn default() -> (r: Self)
        ensures
            r == (SdkStats {
                stats_version: 1,
                asserts_passed_total: 0,
                asserts_failed_total: 0,
                reachable_names: 0,
                inject_queries_total: 0,
            }),
    {
        SdkStats {
            stats_version: 1,
            asserts_passed_total: 0,
            asserts_failed_total: 0,
            reachable_names: 0,
            inject_queries_total: 0,
        }
    }
}

/// Snapshot of local SDK statistics. Standalone: the initial values.
pub fn stats() -> (r: SdkStats)
    ensures
        r == (SdkStats {
            stats_version: 1,
            asserts_passed_total: 0,
            asserts_failed_total: 0,
            reachable_names: 0,
            inject_queries_total: 0,
        }),
{
    SdkStats::default()
}

} // verus!

//! The mutation-reporting hook, its recording implementation, and the
//! host-side error types.
use crate::host::guestmem::MemError;
use crate::wire::header::RingId;
use crate::wire::{DecodeError, EncodeError};
use vstd::prelude::*;
use vstd::slice::slice_to_vec;

verus! {

/// One reported host mutation, as a mathematical value.
pub enum SinkEntry {
    /// A span (tail pad, then record) was written into `ring` and published
    /// by storing `new_prod`.
    RingPush { ring: RingId, bytes: Seq<u8>, new_prod: u32 },
    /// The consumer index of `ring` was stored as `new_cons`.
    ConsBump { ring: RingId, new_cons: u32 },
    /// An `IN` detcall on `port` was answered with `value`.
    PioAnswer { port: u16, value: u32 },
}

/// Hook through which every host-side mutation of channel memory is
/// reported, so the hypervisor can append it to the input log (stamping
/// each entry with the instruction count at call time).
pub trait ChannelWriteSink {
    /// Everything reported to this sink so far, in order.
    spec fn trace(&self) -> Seq<SinkEntry>;

    /// A record (preceded by its tail `Pad`, when one was needed) was
    /// written into `ring` and published by storing `new_prod`. `bytes` is
    /// the whole span in ring order: pad bytes (if any), then the record.
    fn ring_push(&mut self, ring: RingId, bytes: &[u8], new_prod: u32)
        ensures
            final(self).trace() == old(self).trace().push(
                SinkEntry::RingPush { ring, bytes: bytes@, new_prod },
            ),
    ;

    /// A consumer index was bumped to `new_cons` after draining `ring`.
    fn cons_bump(&mut self, ring: RingId, new_cons: u32)
        ensures
            final(self).trace() == old(self).trace().push(SinkEntry::ConsBump { ring, new_cons }),
    ;

    /// An `IN` detcall was answered with `value`.
    fn pio_answer(&mut self, port: u16, value: u32)
        ensures
            final(self).trace() == old(self).trace().push(SinkEntry::PioAnswer { port, value }),
    ;
}

/// One recorded mutation (testing / audit).
#[derive(Debug, Clone, PartialEq, Eq)]
pub enum SinkOp {
    /// See `ChannelWriteSink::ring_push`.
    RingPush {
        /// Ring written.
        ring: RingId,
        /// Full byte span written (pad + record).
        bytes: Vec<u8>,
        /// Published producer index.
        new_prod: u32,
    },
    /// See `ChannelWriteSink::cons_bump`.
    ConsBump {
        /// Ring drained.
        ring: RingId,
        /// Stored consumer index.
        new_cons: u32,
    },
    /// See `ChannelWriteSink::pio_answer`.
    PioAnswer {
        /// Port answered.
        port: u16,
        /// Value returned in eax.
        value: u32,
    },
}

impl View for SinkOp {
    type V = SinkEntry;

    open spec fn view(&self) -> SinkEntry {
        match self {
            SinkOp::RingPush { ring, bytes, new_prod } => SinkEntry::RingPush {
                ring: *ring,
                bytes: bytes@,
                new_prod: *new_prod,
            },
            SinkOp::ConsBump { ring, new_cons } => SinkEntry::ConsBump {
                ring: *ring,
                new_cons: *new_cons,
            },
            SinkOp::PioAnswer { port, value } => SinkEntry::PioAnswer {
                port: *port,
                value: *value,
            },
        }
    }
}

/// The entries of a recorded trace.
pub open spec fn spec_ops_view(ops: Seq<SinkOp>) -> Seq<SinkEntry> {
    Seq::new(ops.len(), |i: int| ops[i]@)
}

/// A sink that records every mutation, in order.
#[derive(Debug)]
pub struct RecordingSink {
    /// The ordered mutation trace.
    pub ops: Vec<SinkOp>,
}

impl Default for RecordingSink {
    fn default() -> (r: RecordingSink)
        ensures
            r.ops@.len() == 0,
    {
        RecordingSink { ops: Vec::new() }
    }
}

impl ChannelWriteSink for RecordingSink {
    open spec fn trace(&self) -> Seq<SinkEntry> {
        spec_ops_view(self.ops@)
    }

    fn ring_push(&mut self, ring: RingId, bytes: &[u8], new_prod: u32) {
        let v = slice_to_vec(bytes);
        self.ops.push(SinkOp::RingPush { ring, bytes: v, new_prod });
        assert(spec_ops_view(self.ops@) =~= spec_ops_view(old(self).ops@).push(
            SinkEntry::RingPush { ring, bytes: bytes@, new_prod },
        ));
    }

    fn cons_bump(&mut self, ring: RingId, new_cons: u32) {
        self.ops.push(SinkOp::ConsBump { ring, new_cons });
        assert(spec_ops_view(self.ops@) =~= spec_ops_view(old(self).ops@).push(
            SinkEntry::ConsBump { ring, new_cons },
        ));
    }

    fn pio_answer(&mut self, port: u16, value: u32) {
        self.ops.push(SinkOp::PioAnswer { port, value });
        assert(spec_ops_view(self.ops@) =~= spec_ops_view(old(self).ops@).push(
            SinkEntry::PioAnswer { port, value },
        ));
    }
}

/// Errors from wire-level parsing and consistency checks while reading
/// channel memory.
#[derive(Debug, Clone, Copy, PartialEq, Eq, Structural)]
pub enum WireError {
    /// Guest memory access failed.
    Mem(MemError),
    /// A structure failed to parse (framing or field validation).
    Decode(DecodeError),
    /// Ring indices imply more used bytes than the ring holds (corruption).
    CorruptIndices {
        /// Which ring.
        ring: RingId,
    },
    /// The manifest seqlock stayed odd or changing beyond the retry bound.
    SeqlockLivelock,
}

/// Errors from pushing a command or workload-control record.
#[derive(Debug, Clone, Copy, PartialEq, Eq, Structural)]
pub enum PushError {
    /// Not enough free ring space (the host retries at the next pause).
    RingFull,
    /// Guest memory access failed.
    Mem(MemError),
    /// Encoding failed (field over its documented limit).
    Encode(EncodeError),
}

/// Errors from `Channel::read_region`.
#[derive(Debug, Clone, Copy, PartialEq, Eq, Structural)]
pub enum RegionReadError {
    /// No live region with that name in the manifest.
    NameNotFound,
    /// `offset + buf.len()` exceeds the region length, or the extent table
    /// does not cover the region length.
    OutOfBounds,
    /// Manifest read failed.
    Wire(WireError),
    /// Guest memory access failed.
    Mem(MemError),
}

} // verus!

//! The cooperative quiesce relay onto ring I.
//!
//! Ring I's nominal producer is the host, but host pushes happen only while
//! the vCPU is paused and the relay runs only in response to a ring C
//! command, so the agent may append continuing the same producer index.
//! The two producers share no sequence counter: the relay derives each
//! record's seq from its byte position (`pos >> 3`), which is
//! deterministic, rises with the index, and differs between a tail pad and
//! the record after it.
use crate::wire::events::{
    encode_workload_ctrl, lemma_workload_ctrl_round_trip, spec_ctrl_record, WorkloadCtrl,
};
use crate::wire::header::RING_I_SIZE;
use crate::wire::record::{
    encode_pad, lemma_header_bytes_len, spec_header_wire_len, spec_pad_bytes, RecordHeader,
};
use crate::wire::ring::{
    bytes_needed, contiguous_tail, free, spec_bytes_needed, spec_contiguous_tail, spec_free,
    RingFull,
};
use vstd::prelude::*;

verus! {

/// Bytes to store at an offset of ring I's data area.
pub struct RelayWrite {
    /// Offset within the ring's data area.
    pub offset: u32,
    /// The bytes.
    pub bytes: Vec<u8>,
}

/// What one relay stores: an optional tail pad, the record, and the
/// producer index to publish after both.
pub struct RelayPlan {
    /// The tail pad, when the record does not fit before the ring end.
    pub pad: Option<RelayWrite>,
    /// The workload-control record.
    pub record: RelayWrite,
    /// The producer index to release-store.
    pub new_prod: u32,
}

/// The mathematical form of a relay plan.
pub struct RelayModel {
    pub pad: Option<(u32, Seq<u8>)>,
    pub record: (u32, Seq<u8>),
    pub new_prod: u32,
}

impl View for RelayPlan {
    type V = RelayModel;

    open spec fn view(&self) -> RelayModel {
        RelayModel {
            pad: match self.pad {
                Some(w) => Some((w.offset, w.bytes@)),
                None => None,
            },
            record: (self.record.offset, self.record.bytes@),
            new_prod: self.new_prod,
        }
    }
}

/// The relay of `rec` at producer index `prod` with the consumer at
/// `cons`: `None` when ring I lacks room for the record and any tail pad.
pub open spec fn spec_relay(prod: u32, cons: u32, vnanos: u64, rec: WorkloadCtrl) -> Option<RelayModel> {
    let size = RING_I_SIZE;
    let mask = (size - 1) as u32;
    let needed = spec_bytes_needed(prod, size, 24);
    if (spec_free(prod, cons, size) as int) < needed {
        None
    } else if needed > 24 {
        let tail = spec_contiguous_tail(prod, size);
        let pos = prod.wrapping_add(tail);
        Some(
            RelayModel {
                pad: Some((prod & mask, spec_pad_bytes(tail as int, prod >> 3u32))),
                record: (pos & mask, spec_ctrl_record(pos >> 3u32, vnanos, rec)),
                new_prod: prod.wrapping_add(needed as u32),
            },
        )
    } else {
        Some(
            RelayModel {
                pad: None,
                record: (prod & mask, spec_ctrl_record(prod >> 3u32, vnanos, rec)),
                new_prod: prod.wrapping_add(needed as u32),
            },
        )
    }
}

/// Plan relaying `rec` onto ring I at the indices read from the channel.
/// The producer index of an intact ring is 8-aligned.
pub fn plan_relay(prod: u32, cons: u32, vnanos: u64, rec: &WorkloadCtrl) -> (r: Result<
    RelayPlan,
    RingFull,
>)
    requires
        prod % 8 == 0,
    ensures
        match spec_relay(prod, cons, vnanos, *rec) {
            Some(m) => r matches Ok(p) && p@ == m,
            None => r is Err,
        },
{
    let size = RING_I_SIZE;
    let mask = size - 1;
    let tail = contiguous_tail(prod, size);
    let needed = bytes_needed(prod, size, 24);
    if free(prod, cons, size) < needed {
        return Err(RingFull);
    }
    let mut pos = prod;
    let pad = if needed > 24 {
        assert((prod & 0x3fffu32) % 8 == 0) by (bit_vector)
            requires
                prod % 8 == 0,
        ;
        assert(((RING_I_SIZE - 1) as u32) == 0x3fffu32);
        assert(prod & 0x3fffu32 <= 0x3fffu32) by (bit_vector);
        assert(tail == 0x4000 - (prod & 0x3fffu32));
        let mut buf = vec![0u8; tail as usize];
        let res = encode_pad(&mut buf, tail as usize, prod >> 3);
        proof {
            lemma_header_bytes_len(
                RecordHeader { len: tail as u16, kind: 0, flags: 0, seq: prod >> 3u32, vnanos: 0 },
            );
            assert(spec_header_wire_len(tail as u16) <= tail);
            assert(spec_pad_bytes(tail as int, prod >> 3u32).len() == tail);
            assert(res is Ok);
            assert(buf@ =~= spec_pad_bytes(tail as int, prod >> 3u32));
        }
        pos = prod.wrapping_add(tail);
        Some(RelayWrite { offset: prod & mask, bytes: buf })
    } else {
        None
    };
    let mut buf = vec![0u8; 24];
    let _ = encode_workload_ctrl(&mut buf, pos >> 3, vnanos, rec);
    proof {
        lemma_workload_ctrl_round_trip(pos >> 3u32, vnanos, *rec, Seq::empty());
        assert(buf@ =~= spec_ctrl_record(pos >> 3u32, vnanos, *rec));
    }
    Ok(
        RelayPlan {
            pad,
            record: RelayWrite { offset: pos & mask, bytes: buf },
            new_prod: prod.wrapping_add(needed),
        },
    )
}

} // verus!

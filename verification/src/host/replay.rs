//! Replaying a recorded mutation trace into a channel: the trace alone
//! reconstructs every host-owned channel mutation.
use crate::host::channel::{
    lemma_apply_trace_concat, spec_apply_entry, spec_apply_trace, spec_entry_fits,
    spec_reported, spec_wrap_sub, Channel,
};
use crate::host::guestmem::{GuestMem, MemError};
use crate::host::sink::{spec_ops_view, ChannelWriteSink, SinkEntry, SinkOp};
use crate::wire::header::{spec_desc_ok, spec_ring_index, ChannelHeader};
use vstd::prelude::*;

verus! {

proof fn lemma_wrap_sub_trunc(x: u32, l: int)
    requires
        l >= 0,
    ensures
        spec_wrap_sub(x, (l % 0x1_0000_0000)) == spec_wrap_sub(x, l),
{
    let q = l / 0x1_0000_0000;
    let r = l % 0x1_0000_0000;
    assert(l == q * 0x1_0000_0000 + r) by (nonlinear_arith)
        requires
            q == l / 0x1_0000_0000,
            r == l % 0x1_0000_0000,
    ;
    assert((x - r) % 0x1_0000_0000 == (x - l) % 0x1_0000_0000) by (nonlinear_arith)
        requires
            l == q * 0x1_0000_0000 + r,
    ;
}

/// A recorded ring write longer than its ring (no run of this channel
/// records one).
pub open spec fn spec_op_oversized(h: ChannelHeader, op: SinkOp) -> bool {
    !spec_entry_fits(h, op@)
}

/// Apply one recorded host mutation to `ch`, re-reporting it through
/// `sink`, so that a replayed channel's own trace compares one to one with
/// the recorded one. `PioAnswer` has no channel-memory effect; it is
/// forwarded to the sink only.
pub fn apply_sink_op<M: GuestMem, S: ChannelWriteSink>(ch: &mut Channel<M>, op: &SinkOp, sink: &mut S) -> (r: Result<(), MemError>)
    requires
        old(ch).wf(),
    ensures
        final(ch).wf(),
        final(ch).spec_base() == old(ch).spec_base(),
        final(ch).spec_header() == old(ch).spec_header(),
        final(ch).interns() == old(ch).interns(),
        final(ch).pending() == old(ch).pending(),
        final(ch).seqs() == old(ch).seqs(),
        final(ch).counters() == old(ch).counters(),
        r is Ok ==> final(sink).trace() == old(sink).trace().push(op@) && final(ch).memory()
            == spec_apply_entry(old(ch).memory(), old(ch).spec_base(), old(ch).spec_header(), op@),
        r is Err ==> final(sink).trace() == old(sink).trace(),
        op is PioAnswer ==> r is Ok,
        final(ch).page_accessible() == old(ch).page_accessible(),
        r is Err ==> !old(ch).page_accessible() || spec_op_oversized(old(ch).spec_header(), *op),
{
    match op {
        SinkOp::RingPush { ring, bytes, new_prod } => {
            proof {
                ch.lemma_wf();
                assert(spec_desc_ok(ch.spec_header().ring_desc[spec_ring_index(*ring)]));
            }
            let size = ch.ring_desc(*ring).size;
            let mask = size - 1;
            let data = ch.data_gpa(*ring);
            let blen = bytes.len();
            let old_prod = new_prod.wrapping_sub(blen as u32);
            proof {
                lemma_wrap_sub_trunc(*new_prod, blen as int);
                assert((blen as u32) as int == blen as int % 0x1_0000_0000) by (bit_vector);
                if *new_prod >= (blen as u32) {
                    assert((*new_prod - (blen as u32)) % 0x1_0000_0000 == *new_prod - (blen as u32));
                } else {
                    assert((*new_prod - (blen as u32)) % 0x1_0000_0000 == *new_prod - (blen as u32) + 0x1_0000_0000);
                }
            }
            let off = old_prod & mask;
            assert(off <= mask) by (bit_vector)
                requires
                    off == old_prod & mask,
            ;
            let tail = (size - off) as usize;
            let ghost pa = ch.page_accessible();
            let ghost small = !spec_op_oversized(ch.spec_header(), *op);
            if blen <= tail {
                proof {
                    if pa {
                        ch.lemma_in_page(data + off, blen as int);
                    }
                }
                match ch.write_mem(data + off as u64, bytes.as_slice()) {
                    Ok(()) => {},
                    Err(e) => return Err(e),
                }
            } else {
                let head = &bytes.as_slice()[0..tail];
                let rest = &bytes.as_slice()[tail..blen];
                proof {
                    if pa {
                        ch.lemma_in_page(data + off, tail as int);
                    }
                }
                match ch.write_mem(data + off as u64, head) {
                    Ok(()) => {},
                    Err(e) => return Err(e),
                }
                proof {
                    if pa && small {
                        ch.lemma_in_page(data as int, (blen - tail) as int);
                    }
                }
                match ch.write_mem(data, rest) {
                    Ok(()) => {},
                    Err(e) => return Err(e),
                }
            }
            let pgpa = ch.prod_gpa(*ring);
            let pb = vstd::bytes::u32_to_le_bytes(*new_prod);
            proof {
                if pa {
                    ch.lemma_in_page(pgpa as int, 4);
                }
            }
            match ch.write_mem(pgpa, pb.as_slice()) {
                Ok(()) => {},
                Err(e) => return Err(e),
            }
            sink.ring_push(*ring, bytes.as_slice(), *new_prod);
        },
        SinkOp::ConsBump { ring, new_cons } => {
            let cgpa = ch.cons_gpa(*ring);
            let cb = vstd::bytes::u32_to_le_bytes(*new_cons);
            proof {
                if ch.page_accessible() {
                    ch.lemma_in_page(cgpa as int, 4);
                }
            }
            match ch.write_mem(cgpa, cb.as_slice()) {
                Ok(()) => {},
                Err(e) => return Err(e),
            }
            sink.cons_bump(*ring, *new_cons);
        },
        SinkOp::PioAnswer { port, value } => {
            sink.pio_answer(*port, *value);
        },
    }
    Ok(())
}

/// Apply a whole recorded trace, in order. It stops at the first
/// guest-memory failure, after re-reporting the operations before it; a
/// trace of PIO answers alone cannot fail.
pub fn apply_trace<M: GuestMem, S: ChannelWriteSink>(ch: &mut Channel<M>, ops: &[SinkOp], sink: &mut S) -> (r: Result<(), MemError>)
    requires
        old(ch).wf(),
    ensures
        final(ch).wf(),
        final(ch).spec_base() == old(ch).spec_base(),
        final(ch).spec_header() == old(ch).spec_header(),
        final(ch).interns() == old(ch).interns(),
        final(ch).pending() == old(ch).pending(),
        final(ch).seqs() == old(ch).seqs(),
        final(ch).counters() == old(ch).counters(),
        r is Ok ==> final(sink).trace() == old(sink).trace() + spec_ops_view(ops@) && final(ch).memory()
            == spec_apply_trace(old(ch).memory(), old(ch).spec_base(), old(ch).spec_header(), spec_ops_view(ops@)),
        r is Err ==> exists|k: int|
            0 <= k < ops@.len() && !(#[trigger] ops@[k] is PioAnswer) && final(sink).trace()
                == old(sink).trace() + spec_ops_view(ops@.subrange(0, k)) && (!old(ch).page_accessible()
                || spec_op_oversized(old(ch).spec_header(), ops@[k])),
        final(ch).page_accessible() == old(ch).page_accessible(),
        (forall|k: int| 0 <= k < ops@.len() ==> #[trigger] ops@[k] is PioAnswer) ==> r is Ok,
{
    let ghost m0 = ch.memory();
    let ghost t0 = sink.trace();
    let mut i: usize = 0;
    proof {
        assert(spec_ops_view(ops@.subrange(0, 0)) =~= Seq::<SinkEntry>::empty());
        assert(t0 + Seq::<SinkEntry>::empty() =~= t0);
    }
    while i < ops.len()
        invariant
            i <= ops@.len(),
            ch.wf(),
            ch.spec_base() == old(ch).spec_base(),
            ch.spec_header() == old(ch).spec_header(),
            ch.interns() == old(ch).interns(),
            ch.pending() == old(ch).pending(),
            ch.seqs() == old(ch).seqs(),
            ch.counters() == old(ch).counters(),
            ch.page_accessible() == old(ch).page_accessible(),
            m0 == old(ch).memory(),
            t0 == old(sink).trace(),
            sink.trace() == t0 + spec_ops_view(ops@.subrange(0, i as int)),
            ch.memory() == spec_apply_trace(m0, ch.spec_base(), ch.spec_header(), spec_ops_view(ops@.subrange(0, i as int))),
        decreases ops@.len() - i,
    {
        match apply_sink_op(ch, &ops[i], sink) {
            Ok(()) => {},
            Err(e) => {
                proof {
                    assert(!(ops@[i as int] is PioAnswer));
                }
                return Err(e);
            },
        }
        proof {
            let pre = spec_ops_view(ops@.subrange(0, i as int));
            let post = spec_ops_view(ops@.subrange(0, i as int + 1));
            assert(post =~= pre.push(ops@[i as int]@));
            assert(post.drop_last() =~= pre);
        }
        i = i + 1;
    }
    proof {
        assert(ops@.subrange(0, ops@.len() as int) =~= ops@);
    }
    Ok(())
}

/// Replay reproduces the recorded run: when a run from memory `m0`
/// reported the entries `t1[t0.len()..]` (every host mutation in between
/// appearing in the trace), replaying those entries on a channel with the
/// same base, header and starting memory ends in the same memory `m1`.
/// Every recorded ring write fits its ring, so `apply_trace` of such a
/// trace on a channel whose page is accessible succeeds.
pub proof fn lemma_replay_reproduces(
    t0: Seq<SinkEntry>,
    t1: Seq<SinkEntry>,
    m0: Map<int, u8>,
    m1: Map<int, u8>,
    base: u64,
    h: ChannelHeader,
)
    requires
        spec_reported(t0, t1, m0, m1, base, h),
    ensures
        spec_apply_trace(m0, base, h, t1.subrange(t0.len() as int, t1.len() as int)) == m1,
        forall|i: int|
            0 <= i < t1.len() - t0.len() ==> spec_entry_fits(
                h,
                #[trigger] t1.subrange(t0.len() as int, t1.len() as int)[i],
            ),
{
    assert forall|i: int| 0 <= i < t1.len() - t0.len() implies spec_entry_fits(
        h,
        #[trigger] t1.subrange(t0.len() as int, t1.len() as int)[i],
    ) by {
        assert(t1.subrange(t0.len() as int, t1.len() as int)[i] == t1[t0.len() + i]);
    }
}

/// Replaying a trace in two parts is replaying it whole.
pub proof fn lemma_replay_in_parts(m0: Map<int, u8>, base: u64, h: ChannelHeader, a: Seq<SinkEntry>, b: Seq<SinkEntry>)
    ensures
        spec_apply_trace(spec_apply_trace(m0, base, h, a), base, h, b) == spec_apply_trace(m0, base, h, a + b),
{
    lemma_apply_trace_concat(m0, base, h, a, b);
}

} // verus!

//! Index arithmetic of the single-producer/single-consumer byte rings.
//!
//! Indices are free-running `u32`s masked by `size - 1` (sizes are powers
//! of two). Records are 8-byte aligned and never wrap: a record that does
//! not fit in the tail is preceded by a `Pad` covering the whole tail.
use crate::wire::bytes::{get_u16, le16, splice, write_at};
use crate::wire::events::{
    encode_event, encoded_event_len, spec_event_len, spec_event_record,
    EventModel, EventPayload, MAX_NAME,
};
use crate::wire::header::spec_is_pow2;
use crate::wire::record::{
    encode_pad, lemma_header_bytes_len, spec_pad_bytes, spec_read_header,
    RecordHeader, MAX_RECORD_LEN, MIN_RECORD_LEN, PAD_MIN_LEN, RECORD_ALIGN,
};
use crate::wire::DecodeError;
use vstd::prelude::*;

verus! {

/// `prod - cons` modulo 2^32.
pub open spec fn spec_used(prod: u32, cons: u32) -> u32 {
    ((prod as int - cons as int + 0x1_0000_0000) % 0x1_0000_0000) as u32
}

/// Free bytes: `size - used`, or 0 when a corrupt index pair claims more
/// than the ring holds.
pub open spec fn spec_free(prod: u32, cons: u32, size: u32) -> u32 {
    if spec_used(prod, cons) > size {
        0
    } else {
        (size - spec_used(prod, cons)) as u32
    }
}

/// Bytes from the masked producer position to the ring end.
pub open spec fn spec_contiguous_tail(prod: u32, size: u32) -> u32 {
    (size - (prod & ((size - 1) as u32))) as u32
}

/// Ring bytes a record of `len` consumes at `prod`: the record, plus the
/// whole tail when a `Pad` must come first.
pub open spec fn spec_bytes_needed(prod: u32, size: u32, len: u32) -> int {
    let tail = spec_contiguous_tail(prod, size);
    if len > tail {
        tail + len
    } else {
        len as int
    }
}

/// Bytes currently in the ring (free-running index math; wrapping-safe).
pub fn used(prod: u32, cons: u32) -> (r: u32)
    ensures
        r == spec_used(prod, cons),
{
    prod.wrapping_sub(cons)
}

/// Free bytes in the ring. Saturates instead of underflowing on a corrupt
/// index pair where `used > size`.
pub fn free(prod: u32, cons: u32, size: u32) -> (r: u32)
    ensures
        r == spec_free(prod, cons, size),
{
    size.saturating_sub(used(prod, cons))
}

/// Contiguous bytes from the producer position to the ring end.
pub fn contiguous_tail(prod: u32, size: u32) -> (r: u32)
    requires
        size > 0,
    ensures
        r == spec_contiguous_tail(prod, size),
        1 <= r <= size,
{
    let m = prod & (size - 1);
    assert(m <= size - 1) by (bit_vector)
        requires
            m == prod & ((size - 1) as u32),
            size > 0,
    ;
    size - m
}

/// Total ring bytes a record of `len` consumes at producer position `prod`:
/// `len`, plus the whole tail when a `Pad` is needed first.
pub fn bytes_needed(prod: u32, size: u32, len: u32) -> (r: u32)
    requires
        size > 0,
        spec_contiguous_tail(prod, size) + len <= u32::MAX,
    ensures
        r == spec_bytes_needed(prod, size, len),
{
    let tail = contiguous_tail(prod, size);
    if len > tail {
        tail + len
    } else {
        len
    }
}

/// Push failure: not enough free space for the record (plus any tail pad).
/// The caller decides policy: droppable events are counted and dropped,
/// critical ones are retried after a doorbell.
#[derive(Debug, Clone, Copy, PartialEq, Eq, Structural)]
pub struct RingFull;

/// What an emitter does after one push attempt under the flow-control
/// policy.
#[derive(Debug, Clone, Copy, PartialEq, Eq, Structural)]
pub enum EmitStep {
    /// The record landed: publish the producer index.
    Landed,
    /// A critical event met a full ring: ring the doorbell so the host
    /// drains, then push again.
    DoorbellAndRetry,
    /// A droppable event met a full ring: count it in the drop counters and
    /// give up on it.
    Drop,
}

/// The flow-control decision after a push attempt: a landed record is
/// published; on a full ring a critical event doorbells and retries, a
/// droppable one is counted and dropped.
pub fn emit_step(pushed: Result<u32, RingFull>, critical: bool) -> (r: EmitStep)
    ensures
        r == match pushed {
            Ok(_) => EmitStep::Landed,
            Err(_) => if critical {
                EmitStep::DoorbellAndRetry
            } else {
                EmitStep::Drop
            },
        },
{
    match pushed {
        Ok(_) => EmitStep::Landed,
        Err(_) => {
            if critical {
                EmitStep::DoorbellAndRetry
            } else {
                EmitStep::Drop
            }
        },
    }
}

/// A ring data area of `n` bytes: a power of two that holds the largest
/// record.
pub open spec fn spec_ring_size_ok(n: nat) -> bool {
    &&& MAX_RECORD_LEN <= n <= u32::MAX
    &&& spec_is_pow2(n as u32)
}

/// Where a successful push leaves the producer.
#[derive(Debug, Clone, Copy, PartialEq, Eq, Structural)]
pub struct Pushed {
    /// The record's seq (a tail pad consumed the one before it).
    pub seq: u32,
    /// The producer index to publish.
    pub new_prod: u32,
    /// The seq the next record will carry.
    pub next_seq: u32,
}

/// A producer push of event `m` into the data area `data` at producer
/// index `prod` with the consumer at `cons`: the result and the data area
/// after it, or `None` when the record and any tail pad do not fit. A
/// record that does not fit before the ring end is preceded by a `Pad`
/// over the whole tail and starts at offset 0; the pad consumes its own
/// seq. An interned name longer than `MAX_NAME` has no record: it is
/// refused like a full ring, with nothing written and no seq consumed.
pub open spec fn spec_push_event(
    data: Seq<u8>,
    prod: u32,
    cons: u32,
    next_seq: u32,
    vnanos: u64,
    flags: u8,
    m: EventModel,
) -> Option<(Pushed, Seq<u8>)> {
    let size = data.len() as u32;
    let total = spec_event_len(m);
    let needed = spec_bytes_needed(prod, size, total as u32);
    let off = prod & ((size - 1) as u32);
    if m matches EventModel::NameIntern { name, .. } && name.len() > MAX_NAME {
        None
    } else if (spec_free(prod, cons, size) as int) < needed {
        None
    } else if needed > total {
        let tail = spec_contiguous_tail(prod, size);
        let seq = next_seq.wrapping_add(1);
        Some(
            (
                Pushed {
                    seq,
                    new_prod: prod.wrapping_add(needed as u32),
                    next_seq: next_seq.wrapping_add(2),
                },
                splice(
                    splice(data, off as int, spec_pad_bytes(tail as int, next_seq)),
                    0,
                    spec_event_record(seq, vnanos, flags, m),
                ),
            ),
        )
    } else {
        Some(
            (
                Pushed {
                    seq: next_seq,
                    new_prod: prod.wrapping_add(needed as u32),
                    next_seq: next_seq.wrapping_add(1),
                },
                splice(data, off as int, spec_event_record(next_seq, vnanos, flags, m)),
            ),
        )
    }
}

/// Encode `ev` into a buffer of exactly its record length.
fn event_bytes(seq: u32, vnanos: u64, flags: u8, ev: &EventPayload<'_>, total: usize) -> (r: Vec<u8>)
    requires
        total == spec_event_len(ev@),
        !(ev@ matches EventModel::NameIntern { name, .. } && name.len() > MAX_NAME),
    ensures
        r@ == spec_event_record(seq, vnanos, flags, ev@),
        r@.len() == total,
{
    let mut buf = vec![0u8; total];
    let res = encode_event(buf.as_mut_slice(), seq, vnanos, flags, ev);
    proof {
        assert(res is Ok);
        crate::wire::events::lemma_event_record_len(seq, vnanos, flags, ev@);
        assert(buf@ =~= spec_event_record(seq, vnanos, flags, ev@));
    }
    buf
}

/// Push one event into a ring's data area `data` (the producer's view of
/// the shared ring), given the indices read from the ring's cells. On
/// success the caller publishes `new_prod`; on `RingFull` nothing was
/// written and no seq was consumed.
pub fn push_event(
    data: &mut [u8],
    prod: u32,
    cons: u32,
    next_seq: u32,
    vnanos: u64,
    flags: u8,
    ev: &EventPayload<'_>,
) -> (r: Result<Pushed, RingFull>)
    requires
        spec_ring_size_ok(old(data)@.len()),
        prod % 8 == 0,
    ensures
        match spec_push_event(old(data)@, prod, cons, next_seq, vnanos, flags, ev@) {
            Some((p, d)) => r == Ok::<Pushed, RingFull>(p) && final(data)@ == d,
            None => r is Err && final(data)@ == old(data)@,
        },
{
    match ev {
        EventPayload::NameIntern { name, .. } => {
            if name.len() > MAX_NAME {
                return Err(RingFull);
            }
        },
        _ => {},
    }
    proof {
        crate::wire::events::lemma_event_len_bound(ev@);
        lemma_pow2_bound(old(data)@.len() as u32);
    }
    let size = data.len() as u32;
    let total = encoded_event_len(ev);
    let tail = contiguous_tail(prod, size);
    let needed = bytes_needed(prod, size, total as u32);
    if free(prod, cons, size) < needed {
        return Err(RingFull);
    }
    let mask = size - 1;
    let off = prod & mask;
    proof {
        lemma_tail_aligned(prod, size);
    }
    if needed > total as u32 {
        let mut pad = vec![0u8; tail as usize];
        let res = encode_pad(pad.as_mut_slice(), tail as usize, next_seq);
        proof {
            lemma_header_bytes_len(
                RecordHeader { len: tail as u16, kind: 0, flags: 0, seq: next_seq, vnanos: 0 },
            );
            assert(res is Ok);
            assert(pad@ =~= spec_pad_bytes(tail as int, next_seq));
        }
        write_at(data, off as usize, pad.as_slice());
        let seq = next_seq.wrapping_add(1);
        let rec = event_bytes(seq, vnanos, flags, ev, total);
        write_at(data, 0, rec.as_slice());
        Ok(Pushed { seq, new_prod: prod.wrapping_add(needed), next_seq: next_seq.wrapping_add(2) })
    } else {
        let rec = event_bytes(next_seq, vnanos, flags, ev, total);
        write_at(data, off as usize, rec.as_slice());
        Ok(
            Pushed {
                seq: next_seq,
                new_prod: prod.wrapping_add(needed),
                next_seq: next_seq.wrapping_add(1),
            },
        )
    }
}

/// A consumer pop from the data area `data` at consumer index `cons` with
/// the producer at `prod`, into a scratch buffer of `scratch_len` bytes:
/// the length of the next record, `None` when the ring is empty, or the
/// framing violation. Records never wrap and are published whole, so a
/// record that runs past the ring end or past the producer is corruption.
pub open spec fn spec_pop(data: Seq<u8>, prod: u32, cons: u32, scratch_len: nat) -> Result<
    Option<nat>,
    DecodeError,
> {
    let size = data.len() as u32;
    let avail = spec_used(prod, cons);
    let off = (cons & ((size - 1) as u32)) as int;
    let tail = spec_contiguous_tail(cons, size);
    if avail == 0 {
        Ok(None)
    } else if avail < PAD_MIN_LEN || tail < PAD_MIN_LEN || scratch_len < PAD_MIN_LEN {
        Err(DecodeError::Truncated)
    } else {
        let len = le16(data, off);
        let min = if data[off + 2] == 0 {
            PAD_MIN_LEN
        } else {
            MIN_RECORD_LEN
        };
        if len % 8 != 0 || len < min || len > MAX_RECORD_LEN {
            Err(DecodeError::BadLen)
        } else if len > avail || len > tail || scratch_len < len {
            Err(DecodeError::Truncated)
        } else {
            Ok(Some(len as nat))
        }
    }
}

/// Pop the next record (pads included: callers skip kind 0) from a ring's
/// data area into `scratch`. On `Some((len, new_cons))` the record is the
/// first `len` bytes of `scratch` and the caller publishes `new_cons`;
/// `None` means the ring is empty; framing violations consume nothing.
pub fn pop_record(data: &[u8], prod: u32, cons: u32, scratch: &mut [u8]) -> (r: Result<
    Option<(usize, u32)>,
    DecodeError,
>)
    requires
        spec_ring_size_ok(data@.len()),
    ensures
        final(scratch)@.len() == old(scratch)@.len(),
        match spec_pop(data@, prod, cons, old(scratch)@.len()) {
            Ok(Some(len)) => {
                let off = (cons & ((data@.len() - 1) as u32)) as int;
                &&& r == Ok::<Option<(usize, u32)>, DecodeError>(
                    Some((len as usize, cons.wrapping_add(len as u32))),
                )
                &&& final(scratch)@.subrange(0, len as int) == data@.subrange(off, off + len)
            },
            Ok(None) => r == Ok::<Option<(usize, u32)>, DecodeError>(None),
            Err(e) => r == Err::<Option<(usize, u32)>, DecodeError>(e),
        },
{
    let size = data.len() as u32;
    let avail = used(prod, cons);
    if avail == 0 {
        return Ok(None);
    }
    let mask = size - 1;
    let off = cons & mask;
    let tail = contiguous_tail(cons, size);
    assert(cons & mask <= mask) by (bit_vector);
    if avail < PAD_MIN_LEN as u32 || tail < PAD_MIN_LEN as u32 || scratch.len() < PAD_MIN_LEN {
        return Err(DecodeError::Truncated);
    }
    let o = off as usize;
    let len = get_u16(data, o) as usize;
    let min = if data[o + 2] == 0 {
        PAD_MIN_LEN
    } else {
        MIN_RECORD_LEN
    };
    if len % RECORD_ALIGN != 0 || len < min || len > MAX_RECORD_LEN {
        return Err(DecodeError::BadLen);
    }
    if len as u32 > avail || len as u32 > tail || scratch.len() < len {
        return Err(DecodeError::Truncated);
    }
    let ghost s0 = scratch@;
    let n = data.len();
    let mut i: usize = 0;
    while i < len
        invariant
            n == data@.len(),
            i <= len,
            o + len <= data@.len(),
            len <= scratch@.len(),
            scratch@.len() == s0.len(),
            forall|k: int| 0 <= k < i ==> #[trigger] scratch@[k] == data@[o + k],
        decreases len - i,
    {
        scratch[i] = data[o + i];
        i = i + 1;
    }
    proof {
        assert(scratch@.subrange(0, len as int) =~= data@.subrange(o as int, o + len));
    }
    Ok(Some((len, cons.wrapping_add(len as u32))))
}

/// The first two bytes of `d` at `off` are those of `r` when `r` sits
/// there; so is the byte after them.
proof fn lemma_prefix_at(d: Seq<u8>, off: int, r: Seq<u8>)
    requires
        0 <= off,
        off + r.len() <= d.len(),
        r.len() >= 3,
        d.subrange(off, off + r.len()) == r,
    ensures
        le16(d, off) == le16(r, 0),
        d[off + 2] == r[2],
{
    assert(d.subrange(off, off + 2) =~= r.subrange(0, 2)) by {
        assert forall|k: int| 0 <= k < 2 implies d.subrange(off, off + 2)[k] == r.subrange(0, 2)[k] by {
            assert(d.subrange(off, off + r.len())[k] == d[off + k]);
        }
    }
    assert(d.subrange(off, off + r.len())[2] == d[off + 2]);
}

/// What an event record's first bytes say: its length and kind.
proof fn lemma_event_record_prefix(seq: u32, vnanos: u64, flags: u8, m: EventModel)
    requires
        !(m matches EventModel::NameIntern { name, .. } && name.len() > MAX_NAME),
    ensures
        ({
            let r = spec_event_record(seq, vnanos, flags, m);
            &&& r.len() == spec_event_len(m)
            &&& le16(r, 0) == spec_event_len(m)
            &&& (r[2] == 0 ==> PAD_MIN_LEN <= spec_event_len(m))
            &&& MIN_RECORD_LEN <= spec_event_len(m) <= MAX_RECORD_LEN
            &&& spec_event_len(m) % 8 == 0
        }),
{
    let r = spec_event_record(seq, vnanos, flags, m);
    crate::wire::events::lemma_event_record_len(seq, vnanos, flags, m);
    crate::wire::events::lemma_event_round_trip(seq, vnanos, flags, m, Seq::empty());
    assert(r + Seq::<u8>::empty() =~= r);
    assert(spec_read_header(r) is Ok);
}

/// The first bytes of a tail pad: its length, and kind 0.
pub(crate) proof fn lemma_pad_prefix(tail: u32, seq: u32)
    requires
        8 <= tail <= MAX_RECORD_LEN,
    ensures
        spec_pad_bytes(tail as int, seq).len() == tail,
        le16(spec_pad_bytes(tail as int, seq), 0) == tail,
        spec_pad_bytes(tail as int, seq)[2] == 0,
{
    let h = RecordHeader { len: tail as u16, kind: 0, flags: 0, seq, vnanos: 0 };
    lemma_header_bytes_len(h);
    crate::wire::bytes::lemma_le_round_trips();
    let p = spec_pad_bytes(tail as int, seq);
    let hb = crate::wire::record::spec_header_bytes(h);
    assert(p.subrange(0, 2) =~= hb.subrange(0, 2));
    assert(hb.subrange(0, 2) =~= crate::wire::bytes::b16(tail as u16));
    assert(p[2] == hb[2]);
}

/// A pushed record pops back whole. With the consumer caught up with the
/// producer (`cons == prod`), a successful push is followed by exactly
/// what the consumer pops: the tail pad first when one was needed, then
/// the record, which is the event's encoding at the seq the push
/// reported.
#[verifier::spinoff_prover]
#[verifier::rlimit(60)]
pub proof fn lemma_push_then_pop(
    data: Seq<u8>,
    prod: u32,
    next_seq: u32,
    vnanos: u64,
    flags: u8,
    m: EventModel,
)
    requires
        spec_ring_size_ok(data.len()),
        prod % 8 == 0,
        !(m matches EventModel::NameIntern { name, .. } && name.len() > MAX_NAME),
        spec_push_event(data, prod, prod, next_seq, vnanos, flags, m) is Some,
    ensures
        ({
            let (p, d) = spec_push_event(data, prod, prod, next_seq, vnanos, flags, m)->Some_0;
            let size = data.len() as u32;
            let total = spec_event_len(m);
            let tail = spec_contiguous_tail(prod, size);
            let off = (prod & ((size - 1) as u32)) as int;
            if total > tail {
                &&& spec_pop(d, p.new_prod, prod, MAX_RECORD_LEN as nat) == Ok::<Option<nat>, DecodeError>(
                    Some(tail as nat),
                )
                &&& spec_pop(d, p.new_prod, prod.wrapping_add(tail), MAX_RECORD_LEN as nat) == Ok::<
                    Option<nat>,
                    DecodeError,
                >(Some(total as nat))
                &&& d.subrange(0, total) == spec_event_record(p.seq, vnanos, flags, m)
                &&& d.subrange(off, off + tail) == spec_pad_bytes(tail as int, next_seq)
                &&& prod.wrapping_add(tail) & ((size - 1) as u32) == 0
                &&& p.new_prod == prod.wrapping_add(tail).wrapping_add(total as u32)
            } else {
                &&& spec_pop(d, p.new_prod, prod, MAX_RECORD_LEN as nat) == Ok::<Option<nat>, DecodeError>(
                    Some(total as nat),
                )
                &&& d.subrange(off, off + total) == spec_event_record(p.seq, vnanos, flags, m)
                &&& p.new_prod == prod.wrapping_add(total as u32)
            }
        }),
{
    let size = data.len() as u32;
    let mask = (size - 1) as u32;
    let total = spec_event_len(m);
    let tail = spec_contiguous_tail(prod, size);
    let off = prod & mask;
    let needed = spec_bytes_needed(prod, size, total as u32);
    lemma_tail_aligned(prod, size);
    lemma_pow2_bound(size);
    lemma_event_record_prefix(next_seq, vnanos, flags, m);
    lemma_event_record_prefix(next_seq.wrapping_add(1), vnanos, flags, m);
    assert(spec_used(prod, prod) == 0);
    assert(spec_free(prod, prod, size) == size);
    let (p, d) = spec_push_event(data, prod, prod, next_seq, vnanos, flags, m)->Some_0;
    assert(spec_used(prod.wrapping_add(needed as u32), prod) == needed);
    if total > tail {
        let pad = spec_pad_bytes(tail as int, next_seq);
        let rec = spec_event_record(p.seq, vnanos, flags, m);
        lemma_pad_prefix(tail, next_seq);
        let d1 = splice(data, off as int, pad);
        assert(d1.len() == data.len());
        assert(total <= off);
        assert(d == splice(d1, 0, rec));
        assert(d.subrange(0, total) =~= rec);
        assert(d.subrange(off as int, off + tail) =~= pad);
        lemma_prefix_at(d, off as int, pad);
        lemma_prefix_at(d, 0, rec);
        let c2 = prod.wrapping_add(tail);
        assert(c2 == prod + tail || c2 == prod + tail - 0x1_0000_0000);
        assert((prod & mask) + tail == size && size & mask == 0 && mask == size - 1 && (c2 == prod
            + tail || c2 == prod + tail - 0x1_0000_0000) ==> c2 & mask == 0) by (bit_vector);
        assert(c2 & mask == 0);
        assert(spec_used(prod.wrapping_add(needed as u32), c2) == total);
        assert(spec_contiguous_tail(c2, size) == size);
    } else {
        let rec = spec_event_record(p.seq, vnanos, flags, m);
        assert(d.subrange(off as int, off + total) =~= rec);
        lemma_prefix_at(d, off as int, rec);
    }
}

/// The producer half of one ring: the ring's size, its own producer index
/// (this side is the index's only writer) and the seq the next record
/// carries. The caller moves the index to and from the shared cell and
/// hands in the ring's data area and the consumer index it last read.
#[derive(Debug)]
pub struct Producer {
    size: u32,
    prod: u32,
    next_seq: u32,
}

impl Producer {
    /// The ring size.
    pub closed spec fn spec_size(&self) -> u32 {
        self.size
    }

    /// The producer index.
    pub closed spec fn spec_prod(&self) -> u32 {
        self.prod
    }

    /// The next record's seq.
    pub closed spec fn spec_next_seq(&self) -> u32 {
        self.next_seq
    }

    /// A usable ring size and an 8-aligned producer index.
    pub open spec fn wf(&self) -> bool {
        &&& spec_ring_size_ok(self.spec_size() as nat)
        &&& self.spec_prod() % 8 == 0
    }

    /// The producer half of a ring of `size` bytes whose producer index is
    /// `prod`, continuing the record sequence at `next_seq` (0 on a fresh
    /// ring).
    pub fn new(size: u32, prod: u32, next_seq: u32) -> (r: Producer)
        requires
            spec_ring_size_ok(size as nat),
            prod % 8 == 0,
        ensures
            r.wf(),
            r.spec_size() == size,
            r.spec_prod() == prod,
            r.spec_next_seq() == next_seq,
    {
        Producer { size, prod, next_seq }
    }

    /// Ring size in bytes.
    pub fn size(&self) -> (r: u32)
        ensures
            r == self.spec_size(),
    {
        self.size
    }

    /// The seq the next pushed record will carry.
    pub fn next_seq(&self) -> (r: u32)
        ensures
            r == self.spec_next_seq(),
    {
        self.next_seq
    }

    /// The producer index to publish.
    pub fn prod(&self) -> (r: u32)
        ensures
            r == self.spec_prod(),
    {
        self.prod
    }

    /// Free bytes with the consumer at `cons`.
    pub fn free_bytes(&self, cons: u32) -> (r: u32)
        ensures
            r == spec_free(self.spec_prod(), cons, self.spec_size()),
    {
        free(self.prod, cons, self.size)
    }

    /// Push one event into the ring's data area, with the consumer at
    /// `cons`. On success returns the record's seq; the caller then
    /// publishes `prod()`. On `RingFull` nothing is written and no seq is
    /// consumed.
    pub fn try_push(
        &mut self,
        data: &mut [u8],
        cons: u32,
        vnanos: u64,
        flags: u8,
        ev: &EventPayload<'_>,
    ) -> (r: Result<u32, RingFull>)
        requires
            old(self).wf(),
            old(data)@.len() == old(self).spec_size(),
        ensures
            final(self).wf(),
            final(self).spec_size() == old(self).spec_size(),
            match spec_push_event(
                old(data)@,
                old(self).spec_prod(),
                cons,
                old(self).spec_next_seq(),
                vnanos,
                flags,
                ev@,
            ) {
                Some((p, d)) => {
                    &&& r == Ok::<u32, RingFull>(p.seq)
                    &&& final(data)@ == d
                    &&& final(self).spec_prod() == p.new_prod
                    &&& final(self).spec_next_seq() == p.next_seq
                },
                None => {
                    &&& r is Err
                    &&& final(data)@ == old(data)@
                    &&& final(self).spec_prod() == old(self).spec_prod()
                    &&& final(self).spec_next_seq() == old(self).spec_next_seq()
                },
            },
    {
        let ghost size = self.size;
        proof {
            lemma_tail_aligned(self.prod, size);
        }
        match push_event(data, self.prod, cons, self.next_seq, vnanos, flags, ev) {
            Ok(p) => {
                proof {
                    lemma_aligned_advance(self.prod, spec_bytes_needed(self.prod, size, spec_event_len(ev@) as u32));
                }
                self.prod = p.new_prod;
                self.next_seq = p.next_seq;
                Ok(p.seq)
            },
            Err(e) => Err(e),
        }
    }
}

/// Advancing an 8-aligned index by a multiple of 8 (modulo 2^32) keeps it
/// 8-aligned.
pub(crate) proof fn lemma_aligned_advance(prod: u32, n: int)
    requires
        prod % 8 == 0,
        0 <= n <= u32::MAX,
        n % 8 == 0,
    ensures
        prod.wrapping_add(n as u32) % 8 == 0,
{
    let n32 = n as u32;
    assert(prod % 8 == 0 && n32 % 8 == 0 ==> (prod + n32) % 8 == 0 && ((prod + n32) - 0x1_0000_0000) % 8 == 0) by (nonlinear_arith);
}

/// The consumer half of one ring: the ring's size and its own consumer
/// index (this side is the index's only writer). The caller moves the
/// index to the shared cell and hands in the ring's data area and the
/// producer index it last read.
#[derive(Debug)]
pub struct Consumer {
    size: u32,
    cons: u32,
}

impl Consumer {
    /// The ring size.
    pub closed spec fn spec_size(&self) -> u32 {
        self.size
    }

    /// The consumer index.
    pub closed spec fn spec_cons(&self) -> u32 {
        self.cons
    }

    /// The consumer half of a ring of `size` bytes whose consumer index is
    /// `cons`.
    pub fn new(size: u32, cons: u32) -> (r: Consumer)
        requires
            spec_ring_size_ok(size as nat),
        ensures
            r.spec_size() == size,
            r.spec_cons() == cons,
    {
        Consumer { size, cons }
    }

    /// The consumer index to publish.
    pub fn cons(&self) -> (r: u32)
        ensures
            r == self.spec_cons(),
    {
        self.cons
    }

    /// Bytes readable with the producer at `prod`.
    pub fn used_bytes(&self, prod: u32) -> (r: u32)
        ensures
            r == spec_used(prod, self.spec_cons()),
    {
        used(prod, self.cons)
    }

    /// Pop the next record (pads included: callers skip kind 0) into
    /// `scratch`, with the producer at `prod`: its length, or `None` when
    /// the ring is empty. The caller then publishes `cons()`. Framing
    /// violations consume nothing.
    pub fn pop_into(&mut self, data: &[u8], prod: u32, scratch: &mut [u8]) -> (r: Result<
        Option<usize>,
        DecodeError,
    >)
        requires
            spec_ring_size_ok(old(self).spec_size() as nat),
            data@.len() == old(self).spec_size(),
        ensures
            final(self).spec_size() == old(self).spec_size(),
            final(scratch)@.len() == old(scratch)@.len(),
            match spec_pop(data@, prod, old(self).spec_cons(), old(scratch)@.len()) {
                Ok(Some(len)) => {
                    let off = (old(self).spec_cons() & ((data@.len() - 1) as u32)) as int;
                    &&& r == Ok::<Option<usize>, DecodeError>(Some(len as usize))
                    &&& final(scratch)@.subrange(0, len as int) == data@.subrange(off, off + len)
                    &&& final(self).spec_cons() == old(self).spec_cons().wrapping_add(len as u32)
                },
                Ok(None) => r == Ok::<Option<usize>, DecodeError>(None) && final(self).spec_cons()
                    == old(self).spec_cons(),
                Err(e) => r == Err::<Option<usize>, DecodeError>(e) && final(self).spec_cons()
                    == old(self).spec_cons(),
            },
    {
        match pop_record(data, prod, self.cons, scratch) {
            Ok(Some((len, new_cons))) => {
                self.cons = new_cons;
                Ok(Some(len))
            },
            Ok(None) => Ok(None),
            Err(e) => Err(e),
        }
    }
}

/// A power of two in `u32` is at most 2^31.
pub proof fn lemma_pow2_bound(x: u32)
    requires
        spec_is_pow2(x),
    ensures
        x <= 0x8000_0000,
{
    assert(x != 0 && x & ((x - 1) as u32) == 0 ==> x <= 0x8000_0000u32) by (bit_vector);
}

/// At an 8-aligned producer index the tail is 8-aligned, at least 8 bytes,
/// and ends the ring.
pub proof fn lemma_tail_aligned(prod: u32, size: u32)
    requires
        prod % 8 == 0,
        spec_is_pow2(size),
        size >= 8,
    ensures
        spec_contiguous_tail(prod, size) % 8 == 0,
        spec_contiguous_tail(prod, size) >= 8,
        spec_contiguous_tail(prod, size) <= size,
        (prod & ((size - 1) as u32)) + spec_contiguous_tail(prod, size) == size,
{
    let m = (size - 1) as u32;
    assert(size & m == 0 ==> (prod & m) % 8 == 0 && (prod & m) < size) by (bit_vector)
        requires
            prod % 8 == 0,
            size >= 8,
            m == size - 1,
    ;
    assert(size % 8 == 0) by (bit_vector)
        requires
            size & ((size - 1) as u32) == 0,
            size >= 8,
    ;
}

} // verus!

//! The ring as a queue: the records between the consumer and the producer,
//! in the order a consumer pops them. A push appends to that queue and a
//! pop takes its head, so records come out whole and in push order.
use crate::wire::bytes::{le16, splice};
use crate::wire::events::{spec_event_len, spec_event_record, EventModel, MAX_NAME};
use crate::wire::header::spec_is_pow2;
use crate::wire::record::{spec_pad_bytes, MAX_RECORD_LEN, PAD_MIN_LEN};
use crate::wire::ring::{
    lemma_pow2_bound, lemma_push_then_pop, spec_bytes_needed, spec_contiguous_tail, spec_free,
    spec_pop, spec_push_event, spec_ring_size_ok, spec_used,
};
use vstd::prelude::*;

verus! {

/// Inside one contiguous stretch from a masked index, consecutive indices
/// land on consecutive offsets.
proof fn lemma_pos_step(x: u32, k: u32, size: u32)
    requires
        spec_is_pow2(size),
        (x & ((size - 1) as u32)) + k < size,
    ensures
        x.wrapping_add(k) & ((size - 1) as u32) == (x & ((size - 1) as u32)) + k,
{
    let m = (size - 1) as u32;
    let y = x.wrapping_add(k);
    assert(y == x + k || y == x + k - 0x1_0000_0000);
    assert(size != 0 && size & m == 0 && m == size - 1 && (x & m) + k < size && (y == x + k || y
        == x + k - 0x1_0000_0000) ==> y & m == (x & m) + k) by (bit_vector);
}

/// An index `j` bytes before another (cyclically, `0 < j <= size`) is
/// `size - j` bytes past it after masking, unless `j == size`.
proof fn lemma_dist_back(a: u32, j: u32, size: u32)
    requires
        spec_is_pow2(size),
        0 < j <= size,
    ensures
        ({
            let m = (size - 1) as u32;
            ||| ((a & m).wrapping_sub(a.wrapping_add(j) & m) & m) + j == size
            ||| j == size
        }),
{
    let m = (size - 1) as u32;
    let b = a.wrapping_add(j);
    let p = a & m;
    let off = b & m;
    let d = p.wrapping_sub(off);
    assert(b == a + j || b == a + j - 0x1_0000_0000);
    assert(d == p - off || d == p - off + 0x1_0000_0000);
    assert(size != 0 && size & m == 0 && m == size - 1 && 0 < j && j <= size && (b == a + j || b
        == a + j - 0x1_0000_0000) && p == a & m && off == b & m && (d == p - off || d == p - off
        + 0x1_0000_0000) ==> (d & m) + j == size || j == size) by (bit_vector);
}

/// The masked distance from the producer's offset back to a used index:
/// an index `k` bytes past the consumer, with `u` bytes used, sits `u - k`
/// bytes before the producer's offset (cyclically).
proof fn lemma_dist_used(cons: u32, u: u32, k: u32, size: u32)
    requires
        spec_is_pow2(size),
        k < u,
        u <= size,
    ensures
        ({
            let m = (size - 1) as u32;
            let p = cons.wrapping_add(k) & m;
            let off = cons.wrapping_add(u) & m;
            ||| (p.wrapping_sub(off) & m) + (u - k) == size
            ||| u - k == size
        }),
{
    let a = cons.wrapping_add(k);
    let j = (u - k) as u32;
    assert(a.wrapping_add(j) == cons.wrapping_add(u));
    lemma_dist_back(a, j, size);
}

/// The masked distance from the producer's offset to an offset written
/// at or after it, up to the ring end.
proof fn lemma_dist_ahead(w: u32, off: u32, size: u32)
    requires
        spec_is_pow2(size),
        off <= w < size,
    ensures
        w.wrapping_sub(off) & ((size - 1) as u32) == w - off,
{
    let m = (size - 1) as u32;
    assert(size != 0 && size & m == 0 && m == size - 1 && off <= w && w < size ==> (w - off) as u32
        & m == w - off) by (bit_vector);
}

/// The masked distance from the producer's offset to an offset before it
/// (a record written at the ring start after a wrap).
proof fn lemma_dist_wrapped(w: u32, off: u32, size: u32)
    requires
        spec_is_pow2(size),
        w < off < size,
    ensures
        w.wrapping_sub(off) & ((size - 1) as u32) == w + size - off,
{
    let m = (size - 1) as u32;
    let d = w.wrapping_sub(off);
    assert(d == w - off + 0x1_0000_0000);
    assert(size != 0 && size & m == 0 && m == size - 1 && w < off && off < size && d == w - off
        + 0x1_0000_0000 ==> d & m == w + size - off) by (bit_vector);
}

/// The records a consumer pops from `cons` up to `prod`, tail pads
/// included, in order, each as its bytes; `None` when the walk meets a
/// framing violation before reaching `prod`.
pub open spec fn spec_records(data: Seq<u8>, prod: u32, cons: u32) -> Option<Seq<Seq<u8>>>
    decreases spec_used(prod, cons),
{
    match spec_pop(data, prod, cons, MAX_RECORD_LEN as nat) {
        Ok(Some(len)) => {
            let off = (cons & ((data.len() - 1) as u32)) as int;
            let next = cons.wrapping_add(len as u32);
            if spec_used(prod, next) < spec_used(prod, cons) {
                match spec_records(data, prod, next) {
                    Some(rest) => Some(seq![data.subrange(off, off + len)] + rest),
                    None => None,
                }
            } else {
                None
            }
        },
        Ok(None) => Some(Seq::empty()),
        Err(_) => None,
    }
}

/// Consuming `len` of the used bytes leaves `len` fewer.
proof fn lemma_used_step(prod: u32, cons: u32, len: u32)
    requires
        len <= spec_used(prod, cons),
    ensures
        spec_used(prod, cons.wrapping_add(len)) == spec_used(prod, cons) - len,
{
}

/// `d1` and `d2` hold the same bytes at the `n` indices from `cons`.
pub open spec fn spec_agree(d1: Seq<u8>, d2: Seq<u8>, cons: u32, n: u32) -> bool {
    let m = (d1.len() - 1) as u32;
    forall|k: u32| k < n ==> #[trigger] d1[(cons.wrapping_add(k) & m) as int] == d2[(cons.wrapping_add(k) & m) as int]
}

/// A pop takes the head of the queue: on a ring whose queue is `q`, a
/// consumer with a scratch buffer of at least `MAX_RECORD_LEN` bytes pops
/// nothing when `q` is empty, and otherwise pops a record of `q[0]`'s
/// length whose bytes are `q[0]`, leaving the rest of `q`.
pub proof fn lemma_pop_takes_head(data: Seq<u8>, prod: u32, cons: u32, scratch_len: nat)
    requires
        spec_ring_size_ok(data.len()),
        spec_records(data, prod, cons) is Some,
        scratch_len >= MAX_RECORD_LEN,
    ensures
        ({
            let q = spec_records(data, prod, cons)->Some_0;
            let off = (cons & ((data.len() - 1) as u32)) as int;
            if q.len() == 0 {
                spec_pop(data, prod, cons, scratch_len) == Ok::<Option<nat>, crate::wire::DecodeError>(None)
            } else {
                &&& spec_pop(data, prod, cons, scratch_len) == Ok::<Option<nat>, crate::wire::DecodeError>(Some(q[0].len()))
                &&& data.subrange(off, off + q[0].len()) == q[0]
                &&& spec_records(data, prod, cons.wrapping_add(q[0].len() as u32)) == Some(q.drop_first())
            }
        }),
{
    let q = spec_records(data, prod, cons)->Some_0;
    let size = data.len() as u32;
    let m = (size - 1) as u32;
    assert(cons & m <= m) by (bit_vector);
    match spec_pop(data, prod, cons, MAX_RECORD_LEN as nat) {
        Ok(Some(len)) => {
            let off = (cons & m) as int;
            assert(off + len <= data.len());
            let rest = spec_records(data, prod, cons.wrapping_add(len as u32))->Some_0;
            assert(q[0] == data.subrange(off, off + len));
            assert(q.drop_first() =~= rest);
        },
        _ => {},
    }
}

/// The walk from `cons` sees the same records in `d2` (with the producer
/// further on at `prod2`) as in `d1` up to `prod`, when the two agree on
/// the bytes used in `d1`; it then goes on with the records from `prod`.
#[verifier::spinoff_prover]
#[verifier::rlimit(40)]
proof fn lemma_records_extend(d1: Seq<u8>, d2: Seq<u8>, prod: u32, prod2: u32, cons: u32)
    requires
        spec_ring_size_ok(d1.len()),
        d2.len() == d1.len(),
        spec_records(d1, prod, cons) is Some,
        spec_records(d2, prod2, prod) is Some,
        spec_used(prod, cons) + spec_used(prod2, prod) == spec_used(prod2, cons),
        spec_agree(d1, d2, cons, spec_used(prod, cons)),
    ensures
        spec_records(d2, prod2, cons) == Some(
            spec_records(d1, prod, cons)->Some_0 + spec_records(d2, prod2, prod)->Some_0,
        ),
    decreases spec_used(prod, cons),
{
    let size = d1.len() as u32;
    let m = (size - 1) as u32;
    let u = spec_used(prod, cons);
    let r = spec_records(d2, prod2, prod)->Some_0;
    if u == 0 {
        assert(prod == cons);
        assert(Seq::<Seq<u8>>::empty() + r =~= r);
    } else {
        let q = spec_records(d1, prod, cons)->Some_0;
        assert(cons & m <= m) by (bit_vector);
        let off = (cons & m) as int;
        match spec_pop(d1, prod, cons, MAX_RECORD_LEN as nat) {
            Ok(Some(len)) => {
                assert(u >= PAD_MIN_LEN);
                assert(off + 8 <= size);
                lemma_pos_step(cons, 0, size);
                lemma_pos_step(cons, 1, size);
                lemma_pos_step(cons, 2, size);
                assert(cons.wrapping_add(0) == cons);
                assert(d1[off] == d2[off]);
                assert(d1[off + 1] == d2[off + 1]);
                assert(d1[off + 2] == d2[off + 2]);
                assert(d1.subrange(off, off + 2) =~= d2.subrange(off, off + 2));
                assert(le16(d1, off) == le16(d2, off));
                assert(spec_pop(d2, prod2, cons, MAX_RECORD_LEN as nat) == Ok::<Option<nat>, crate::wire::DecodeError>(Some(len)));
                assert(off + len <= size);
                assert forall|j: int| 0 <= j < len implies #[trigger] d1[off + j] == d2[off + j] by {
                    lemma_pos_step(cons, j as u32, size);
                    let jj = j as u32;
                    assert(jj < u);
                    assert(d1[(cons.wrapping_add(jj) & m) as int] == d2[(cons.wrapping_add(jj) & m) as int]);
                }
                assert forall|i: int| 0 <= i < len implies #[trigger] d1.subrange(off, off + len)[i] == d2.subrange(off, off + len)[i] by {
                    assert(d1[off + i] == d2[off + i]);
                }
                assert(d1.subrange(off, off + len) =~= d2.subrange(off, off + len));
                let next = cons.wrapping_add(len as u32);
                lemma_used_step(prod, cons, len as u32);
                lemma_used_step(prod2, cons, len as u32);
                assert forall|k: u32| k < spec_used(prod, next) implies #[trigger] d1[(next.wrapping_add(k) & m) as int] == d2[(next.wrapping_add(k) & m) as int] by {
                    let k2 = (len + k) as u32;
                    assert(next.wrapping_add(k) == cons.wrapping_add(k2));
                    assert(d1[(cons.wrapping_add(k2) & m) as int] == d2[(cons.wrapping_add(k2) & m) as int]);
                }
                lemma_records_extend(d1, d2, prod, prod2, next);
                let rest = spec_records(d1, prod, next)->Some_0;
                assert(q == seq![d1.subrange(off, off + len)] + rest);
                assert(seq![d1.subrange(off, off + len)] + (rest + r) =~= q + r);
            },
            _ => {},
        }
    }
}

/// The records a push of `m` adds at producer `prod`: the tail pad
/// first when the record does not fit before the ring end, then the
/// record at the seq the push gives it.
pub open spec fn spec_pushed_records(size: u32, prod: u32, next_seq: u32, vnanos: u64, flags: u8, m: EventModel) -> Seq<Seq<u8>> {
    let tail = spec_contiguous_tail(prod, size);
    if spec_event_len(m) > tail {
        seq![
            spec_pad_bytes(tail as int, next_seq),
            spec_event_record(next_seq.wrapping_add(1), vnanos, flags, m),
        ]
    } else {
        seq![spec_event_record(next_seq, vnanos, flags, m)]
    }
}

/// A push writes only ring bytes that are free: the bytes between the
/// consumer and the producer are left as they were.
#[verifier::spinoff_prover]
#[verifier::rlimit(40)]
proof fn lemma_push_frame(
    data: Seq<u8>,
    prod: u32,
    cons: u32,
    next_seq: u32,
    vnanos: u64,
    flags: u8,
    m: EventModel,
)
    requires
        spec_ring_size_ok(data.len()),
        prod % 8 == 0,
        !(m matches EventModel::NameIntern { name, .. } && name.len() > MAX_NAME),
        spec_push_event(data, prod, cons, next_seq, vnanos, flags, m) is Some,
    ensures
        spec_agree(data, spec_push_event(data, prod, cons, next_seq, vnanos, flags, m)->Some_0.1, cons, spec_used(prod, cons)),
        cons.wrapping_add(spec_used(prod, cons)) == prod,
        spec_used(prod, cons) + spec_bytes_needed(prod, data.len() as u32, spec_event_len(m) as u32) <= data.len(),
{
    let size = data.len() as u32;
    let mk = (size - 1) as u32;
    let d = spec_push_event(data, prod, cons, next_seq, vnanos, flags, m)->Some_0.1;
    let u = spec_used(prod, cons);
    let total = spec_event_len(m);
    let tail = spec_contiguous_tail(prod, size);
    let needed = spec_bytes_needed(prod, size, total as u32);
    let off = prod & mk;
    crate::wire::events::lemma_event_len_bound(m);
    lemma_pow2_bound(size);
    crate::wire::ring::lemma_tail_aligned(prod, size);
    assert(off <= mk) by (bit_vector)
        requires
            off == prod & mk,
    ;
    assert(spec_free(prod, cons, size) >= needed);
    assert(u <= size - needed);
    assert(cons.wrapping_add(u) == prod);
    assert forall|k: u32| k < u implies #[trigger] data[(cons.wrapping_add(k) & mk) as int] == d[(cons.wrapping_add(k) & mk) as int] by {
        let p = cons.wrapping_add(k) & mk;
        assert(p <= mk) by (bit_vector)
            requires p == cons.wrapping_add(k) & mk;
        lemma_dist_used(cons, u, k, size);
        let dist = p.wrapping_sub(off) & mk;
        assert(dist + (u - k) == size);
        assert(dist >= needed);
        if total > tail {
            let pad = spec_pad_bytes(tail as int, next_seq);
            let rec = spec_event_record(next_seq.wrapping_add(1), vnanos, flags, m);
            crate::wire::events::lemma_event_record_len(next_seq.wrapping_add(1), vnanos, flags, m);
            let d1 = splice(data, off as int, pad);
            crate::wire::ring::lemma_pad_prefix(tail, next_seq);
            assert(total <= off);
            assert(d1.len() == data.len());
            if p < total {
                lemma_dist_wrapped(p, off, size);
                assert(false);
            } else if p >= off {
                lemma_dist_ahead(p, off, size);
                assert(false);
            }
            assert(d1[p as int] == data[p as int]);
            assert(d[p as int] == d1[p as int]);
        } else {
            crate::wire::events::lemma_event_record_len(next_seq, vnanos, flags, m);
            if off <= p < off + total {
                lemma_dist_ahead(p, off, size);
                assert(false);
            }
            assert(d[p as int] == data[p as int]);
        }
    }
}

/// A push appends to the queue: whatever the consumer's position, after
/// a successful push the records between the consumer and the new
/// producer are those that were there, in order, followed by the tail pad
/// (when one was needed) and the pushed record. With
/// `lemma_pop_takes_head`, the consumer then pops every record whole, in
/// push order, the pads among them.
#[verifier::spinoff_prover]
#[verifier::rlimit(60)]
pub proof fn lemma_push_appends(
    data: Seq<u8>,
    prod: u32,
    cons: u32,
    next_seq: u32,
    vnanos: u64,
    flags: u8,
    m: EventModel,
)
    requires
        spec_ring_size_ok(data.len()),
        prod % 8 == 0,
        !(m matches EventModel::NameIntern { name, .. } && name.len() > MAX_NAME),
        spec_records(data, prod, cons) is Some,
        spec_push_event(data, prod, cons, next_seq, vnanos, flags, m) is Some,
    ensures
        ({
            let (p, d) = spec_push_event(data, prod, cons, next_seq, vnanos, flags, m)->Some_0;
            &&& d.len() == data.len()
            &&& p.new_prod % 8 == 0
            &&& spec_records(d, p.new_prod, cons) == Some(
                spec_records(data, prod, cons)->Some_0 + spec_pushed_records(data.len() as u32, prod, next_seq, vnanos, flags, m),
            )
        }),
{
    let size = data.len() as u32;
    let mk = (size - 1) as u32;
    let (p, d) = spec_push_event(data, prod, cons, next_seq, vnanos, flags, m)->Some_0;
    let total = spec_event_len(m);
    let tail = spec_contiguous_tail(prod, size);
    let needed = spec_bytes_needed(prod, size, total as u32);
    let off = (prod & mk) as int;
    lemma_pow2_bound(size);
    crate::wire::events::lemma_event_len_bound(m);
    lemma_push_frame(data, prod, cons, next_seq, vnanos, flags, m);
    // The same push with the consumer caught up writes the same bytes.
    assert(spec_used(prod, prod) == 0);
    assert(spec_push_event(data, prod, prod, next_seq, vnanos, flags, m) == Some((p, d)));
    lemma_push_then_pop(data, prod, next_seq, vnanos, flags, m);
    crate::wire::ring::lemma_tail_aligned(prod, size);
    if total > tail {
        crate::wire::ring::lemma_pad_prefix(tail, next_seq);
        crate::wire::events::lemma_event_record_len(next_seq.wrapping_add(1), vnanos, flags, m);
        assert(splice(data, off, spec_pad_bytes(tail as int, next_seq)).len() == data.len());
    } else {
        crate::wire::events::lemma_event_record_len(next_seq, vnanos, flags, m);
    }
    assert(d.len() == data.len());
    let newr = spec_pushed_records(size, prod, next_seq, vnanos, flags, m);
    assert(spec_used(p.new_prod, prod) == needed);
    if total > tail {
        let c1 = prod.wrapping_add(tail);
        lemma_used_step(p.new_prod, prod, tail);
        lemma_used_step(p.new_prod, c1, total as u32);
        assert(c1.wrapping_add(total as u32) == p.new_prod);
        assert(spec_used(p.new_prod, p.new_prod) == 0);
        assert(spec_records(d, p.new_prod, p.new_prod) == Some(Seq::<Seq<u8>>::empty()));
        assert(spec_records(d, p.new_prod, c1) == Some(seq![d.subrange(0, total as int)] + Seq::<Seq<u8>>::empty()));
        assert(spec_records(d, p.new_prod, prod) =~= Some(newr)) by {
            assert(spec_records(d, p.new_prod, prod) == Some(seq![d.subrange(off, off + tail)] + (seq![d.subrange(0, total as int)] + Seq::<Seq<u8>>::empty())));
            assert(seq![d.subrange(off, off + tail)] + (seq![d.subrange(0, total as int)] + Seq::<Seq<u8>>::empty()) =~= newr);
        }
    } else {
        lemma_used_step(p.new_prod, prod, total as u32);
        assert(spec_used(p.new_prod, p.new_prod) == 0);
        assert(spec_records(d, p.new_prod, p.new_prod) == Some(Seq::<Seq<u8>>::empty()));
        assert(spec_records(d, p.new_prod, prod) =~= Some(newr)) by {
            assert(spec_records(d, p.new_prod, prod) == Some(seq![d.subrange(off, off + total)] + Seq::<Seq<u8>>::empty()));
            assert(seq![d.subrange(off, off + total)] + Seq::<Seq<u8>>::empty() =~= newr);
        }
    }
    let u = spec_used(prod, cons);
    assert(u + needed <= size);
    assert(spec_used(p.new_prod, cons) == u + needed);
    lemma_records_extend(data, d, prod, p.new_prod, cons);
    assert(p.new_prod == prod.wrapping_add(needed as u32));
    crate::wire::ring::lemma_aligned_advance(prod, needed);
}

/// The ring after pushing the events `evs` (each with its `vnanos` and
/// flags) one after another from producer `prod` and seq `next_seq`, with
/// the consumer at `cons`: the data area, the producer, the next seq and
/// the records added, in order; `None` when a push is refused.
pub open spec fn spec_push_all(
    data: Seq<u8>,
    prod: u32,
    cons: u32,
    next_seq: u32,
    evs: Seq<(u64, u8, EventModel)>,
) -> Option<(Seq<u8>, u32, u32, Seq<Seq<u8>>)>
    decreases evs.len(),
{
    if evs.len() == 0 {
        Some((data, prod, next_seq, Seq::empty()))
    } else {
        let (vnanos, flags, m) = evs[0];
        match spec_push_event(data, prod, cons, next_seq, vnanos, flags, m) {
            None => None,
            Some((p, d)) => match spec_push_all(d, p.new_prod, cons, p.next_seq, evs.drop_first()) {
                None => None,
                Some((d2, prod2, seq2, recs)) => Some(
                    (
                        d2,
                        prod2,
                        seq2,
                        spec_pushed_records(data.len() as u32, prod, next_seq, vnanos, flags, m) + recs,
                    ),
                ),
            },
        }
    }
}

/// An empty ring (consumer caught up) holds no records.
pub proof fn lemma_records_empty(data: Seq<u8>, prod: u32)
    requires
        spec_ring_size_ok(data.len()),
    ensures
        spec_records(data, prod, prod) == Some(Seq::<Seq<u8>>::empty()),
{
    assert(spec_used(prod, prod) == 0);
}

/// First in, first out: after any run of successful pushes, whatever the
/// consumer's position, the records between the consumer and the
/// producer are those that were there followed by every pushed record
/// (each after its tail pad, when one was needed), in push order. From an
/// empty ring they are exactly the pushed records; `lemma_pop_takes_head`
/// then pops them one by one, whole and in that order.
#[verifier::spinoff_prover]
pub proof fn lemma_pushes_pop_in_order(
    data: Seq<u8>,
    prod: u32,
    cons: u32,
    next_seq: u32,
    evs: Seq<(u64, u8, EventModel)>,
)
    requires
        spec_ring_size_ok(data.len()),
        prod % 8 == 0,
        spec_records(data, prod, cons) is Some,
        spec_push_all(data, prod, cons, next_seq, evs) is Some,
    ensures
        ({
            let (d, p, _s, recs) = spec_push_all(data, prod, cons, next_seq, evs)->Some_0;
            &&& d.len() == data.len()
            &&& p % 8 == 0
            &&& spec_records(d, p, cons) == Some(spec_records(data, prod, cons)->Some_0 + recs)
        }),
    decreases evs.len(),
{
    if evs.len() == 0 {
        let q = spec_records(data, prod, cons)->Some_0;
        assert(q + Seq::<Seq<u8>>::empty() =~= q);
    } else {
        let (vnanos, flags, m) = evs[0];
        let (pu, d1) = spec_push_event(data, prod, cons, next_seq, vnanos, flags, m)->Some_0;
        let size = data.len() as u32;
        lemma_push_appends(data, prod, cons, next_seq, vnanos, flags, m);
        lemma_pushes_pop_in_order(d1, pu.new_prod, cons, pu.next_seq, evs.drop_first());
        let q = spec_records(data, prod, cons)->Some_0;
        let r1 = spec_pushed_records(size, prod, next_seq, vnanos, flags, m);
        let rest = spec_push_all(d1, pu.new_prod, cons, pu.next_seq, evs.drop_first())->Some_0.3;
        assert(q + r1 + rest =~= q + (r1 + rest));
    }
}

} // verus!

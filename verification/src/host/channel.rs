//! `Channel::attach` and the per-channel host state.
use crate::host::guestmem::{read_u32, read_u64, spec_bytes_at, spec_mapped, spec_write_mem, write_u32, GuestMem, MemError};
use crate::host::sink::{ChannelWriteSink, PushError, SinkEntry, WireError};
use crate::host::drain::{spec_guest_event, to_owned, GuestEvent, GuestEventModel, OwnedPayload};
use crate::wire::bytes::{get_u16, le16};
use crate::wire::events::{decode_event, spec_decode_event, EventModel};
use crate::wire::DecodeError;
use crate::wire::bytes::{b32, le32, le64, lemma_le_round_trips};
use crate::text::{lossy_string, utf8_lossy};
use crate::wire::events::{encode_command, encode_workload_ctrl, spec_command_payload, spec_command_record, spec_ctrl_record, Command, WorkloadCtrl};
use crate::wire::record::{encode_pad, record_len, spec_pad_bytes, spec_record_len};
use crate::wire::ring::{bytes_needed, contiguous_tail, free, lemma_tail_aligned, spec_bytes_needed, spec_contiguous_tail, spec_free};
use crate::wire::header::{
    is_power_of_two, spec_desc_ok, spec_is_pow2, spec_overlap, spec_parse_channel_header,
    spec_prod_offset, spec_cons_offset, spec_ring_index, ChannelHeader, RingDesc, RingId,
    CHANNEL_MAGIC, CHANNEL_SIZE, OFF_RING_A_DROPPED_BYTES,
    OFF_RING_A_DROPPED_RECORDS, OFF_RING_W_DROPPED_BYTES, OFF_RING_W_DROPPED_BY_KIND,
    OFF_RING_W_DROPPED_RECORDS, PROTO_VERSION,
};
use crate::wire::ports::InitStatus;
use std::collections::BTreeMap;
use vstd::prelude::*;

verus! {

broadcast use vstd::std_specs::btree::group_btree_axioms;

/// Why `Channel::attach` refused the guest's CHANNEL_INIT commit.
#[allow(inconsistent_fields)]
#[derive(Debug, Clone, Copy, PartialEq, Eq, Structural)]
pub enum AttachError {
    /// Header magic was not `"DETGUEST"`.
    BadMagic {
        /// The magic found at the latched GPA.
        found: u64,
    },
    /// Header proto_version was not 1.
    BadVersion {
        /// The version found.
        found: u32,
    },
    /// A ring descriptor points outside the channel page, into the
    /// header/manifest area, or is misaligned.
    RingOutOfBounds {
        /// Which ring.
        ring: RingId,
    },
    /// A ring size is zero or not a power of two.
    BadRingSize {
        /// Which ring.
        ring: RingId,
    },
    /// Two ring data areas overlap.
    RingsOverlap,
    /// The channel page (or part of it) is not mapped guest memory.
    Mem(MemError),
    /// Host policy: a channel is already attached for this VM (`attach`
    /// itself never returns this).
    AlreadyAttached,
}

/// The `IN 0xD37C` status an attach error maps to.
pub open spec fn spec_init_status(e: AttachError) -> InitStatus {
    match e {
        AttachError::Mem(_) => InitStatus::BadGpa,
        AttachError::AlreadyAttached => InitStatus::AlreadyAttached,
        _ => InitStatus::BadMagicVersion,
    }
}

impl AttachError {
    /// The `IN 0xD37C` status code for this error: 1 bad GPA, 2 bad magic,
    /// version or malformed header (ring-descriptor problems included), 3
    /// already attached.
    pub fn init_status(&self) -> (r: InitStatus)
        ensures
            r == spec_init_status(*self),
    {
        match self {
            AttachError::Mem(_) => InitStatus::BadGpa,
            AttachError::AlreadyAttached => InitStatus::AlreadyAttached,
            _ => InitStatus::BadMagicVersion,
        }
    }
}

/// One interned name, folded from `NameIntern` events.
#[derive(Debug, Clone)]
pub struct InternEntry {
    /// The name, converted lossily from its UTF-8 bytes.
    pub name: String,
    /// Interned with the REACHABLE_DECL flag.
    pub reachable_decl: bool,
}

/// Snapshot of the channel-header drop counters (guest-written).
#[derive(Debug, Clone, Copy, PartialEq, Eq)]
pub struct DropCounters {
    /// `ringA_dropped_records`.
    pub ring_a_records: u64,
    /// `ringA_dropped_bytes`.
    pub ring_a_bytes: u64,
    /// `ringW_dropped_records`.
    pub ring_w_records: u64,
    /// `ringW_dropped_bytes`.
    pub ring_w_bytes: u64,
    /// `ringW_dropped_by_kind[16]`, index = event kind.
    pub ring_w_by_kind: [u64; 16],
}

/// The host's ring C/I producer seqs: the part of the per-channel host
/// state that cannot be rebuilt from the event stream.
#[derive(Debug, Clone, Copy, PartialEq, Eq, Structural)]
pub struct ProducerSeqs {
    /// Next ring C record seq (pads consume one too).
    pub ring_c: u32,
    /// Next ring I record seq.
    pub ring_i: u32,
}

/// An attached channel.
///
/// The intern table and the pending-inject table are rebuilt from the
/// drained event stream; the ring C/I producer seqs are not (the host
/// never drains those rings) and must be saved with `producer_seqs` and
/// restored with `restore_producer_seqs` after re-attaching.
#[derive(Debug)]
pub struct Channel<M: GuestMem> {
    gm: M,
    base: u64,
    header: ChannelHeader,
    interns: BTreeMap<u32, InternEntry>,
    pending_injects: BTreeMap<u32, u32>,
    next_seq_c: u32,
    next_seq_i: u32,
    /// Records skipped because their kind is unknown to this protocol
    /// version.
    pub unknown_kind_records: u64,
    /// INJECT answers for an iseq with no matching drained query.
    pub unmatched_injects: u64,
    /// `NameIntern` re-binding an existing id to a different name.
    pub intern_redefinitions: u64,
}

/// The attach-path outcome for a header read from the guest.
pub open spec fn spec_attach_check(h: ChannelHeader) -> Result<(), AttachError> {
    if h.magic != CHANNEL_MAGIC {
        Err(AttachError::BadMagic { found: h.magic })
    } else if h.proto_version != PROTO_VERSION {
        Err(AttachError::BadVersion { found: h.proto_version })
    } else {
        spec_ring_checks(h, 0)
    }
}

/// Per-ring checks from ring `k` on (in descriptor order), then the
/// pairwise disjointness check.
pub open spec fn spec_ring_checks(h: ChannelHeader, k: int) -> Result<(), AttachError>
    decreases 4 - k,
{
    if k >= 4 {
        if exists|i: int, j: int|
            0 <= i < j < 4 && spec_overlap(#[trigger] h.ring_desc[i], #[trigger] h.ring_desc[j]) {
            Err(AttachError::RingsOverlap)
        } else {
            Ok(())
        }
    } else if !spec_is_pow2(h.ring_desc[k].size) {
        Err(AttachError::BadRingSize { ring: spec_ring_of(k) })
    } else if !spec_desc_ok(h.ring_desc[k]) {
        Err(AttachError::RingOutOfBounds { ring: spec_ring_of(k) })
    } else {
        spec_ring_checks(h, k + 1)
    }
}

/// The ring at descriptor slot `k`.
pub open spec fn spec_ring_of(k: int) -> RingId {
    if k == 0 {
        RingId::C
    } else if k == 1 {
        RingId::I
    } else if k == 2 {
        RingId::A
    } else {
        RingId::W
    }
}

/// A header the host accepts: magic, version, in-bounds power-of-two
/// rings, pairwise disjoint.
pub open spec fn spec_header_accepted(h: ChannelHeader) -> bool {
    spec_attach_check(h) is Ok
}

proof fn lemma_ring_checks_ok(h: ChannelHeader, k: int)
    requires
        0 <= k <= 4,
        spec_ring_checks(h, k) is Ok,
    ensures
        forall|i: int| k <= i < 4 ==> spec_desc_ok(#[trigger] h.ring_desc[i]),
        forall|i: int, j: int|
            0 <= i < j < 4 ==> !spec_overlap(#[trigger] h.ring_desc[i], #[trigger] h.ring_desc[j]),
    decreases 4 - k,
{
    if k < 4 {
        lemma_ring_checks_ok(h, k + 1);
    }
}

/// The `u64` stored little-endian at `gpa` in `m`.
pub open spec fn spec_u64_at(m: Map<int, u8>, gpa: int) -> u64 {
    le64(spec_bytes_at(m, gpa, 8), 0)
}

impl<M: GuestMem> Channel<M> {
    /// The guest memory behind the channel.
    pub closed spec fn memory(&self) -> Map<int, u8> {
        self.gm.mem()
    }

    /// The guest-memory access behind the channel.
    pub closed spec fn spec_gm(&self) -> M {
        self.gm
    }

    /// The whole 2 MiB channel page can be accessed: every host access of
    /// the channel (header, index cells, ring data, manifest) then succeeds.
    pub open spec fn page_accessible(&self) -> bool {
        self.spec_gm().accessible(self.spec_base() as int, CHANNEL_SIZE as int)
    }

    /// An access of `[gpa, gpa + len)` inside the channel page succeeds
    /// when the page is accessible.
    pub proof fn lemma_in_page(&self, gpa: int, len: int)
        requires
            self.page_accessible(),
            self.spec_base() <= gpa,
            0 <= len,
            gpa + len <= self.spec_base() + CHANNEL_SIZE,
        ensures
            self.spec_gm().accessible(gpa, len),
    {
        self.gm.lemma_accessible_within(self.base as int, CHANNEL_SIZE as int, gpa, len);
    }

    /// The channel base GPA.
    pub closed spec fn spec_base(&self) -> u64 {
        self.base
    }

    /// The validated channel header.
    pub closed spec fn spec_header(&self) -> ChannelHeader {
        self.header
    }

    /// The next ring C / ring I producer seqs.
    pub closed spec fn seqs(&self) -> ProducerSeqs {
        ProducerSeqs { ring_c: self.next_seq_c, ring_i: self.next_seq_i }
    }

    /// The intern table: name id → (lossy name, declared reachable).
    pub closed spec fn interns(&self) -> Map<u32, (Seq<char>, bool)> {
        Map::new(
            |id: u32| self.interns@.contains_key(id),
            |id: u32| (self.interns@[id].name@, self.interns@[id].reachable_decl),
        )
    }

    /// The metric counters: (unknown-kind records, unmatched injects,
    /// intern redefinitions).
    pub closed spec fn counters(&self) -> (u64, u64, u64) {
        (self.unknown_kind_records, self.unmatched_injects, self.intern_redefinitions)
    }

    /// Drained `InjectQuery`s not yet answered: iseq → name id.
    pub closed spec fn pending(&self) -> Map<u32, u32> {
        self.pending_injects@
    }

    /// The channel invariant: an accepted header, and the whole channel
    /// page addressable without overflow.
    pub closed spec fn wf(&self) -> bool {
        &&& spec_header_accepted(self.header)
        &&& self.base + CHANNEL_SIZE <= u64::MAX
    }

    /// Attach after the guest's CHANNEL_INIT detcall: reads the header at
    /// `base_gpa` and validates magic, proto_version (== 1), and the ring
    /// descriptors (inside the 2 MiB page, power-of-two sizes, mutually
    /// disjoint). A fresh channel starts with empty tables and seqs (0, 0).
    pub fn attach(gm: M, base_gpa: u64) -> (r: Result<Channel<M>, AttachError>)
        requires
            base_gpa + CHANNEL_SIZE <= u64::MAX,
        ensures
            r matches Err(AttachError::Mem(_)) <==> !gm.accessible(base_gpa as int, 0x30),
            ({
                let h = spec_parse_channel_header(spec_bytes_at(gm.mem(), base_gpa as int, 0x30));
                match r {
                    Ok(ch) => {
                        &&& spec_mapped(gm.mem(), base_gpa as int, 0x30)
                        &&& spec_attach_check(h) is Ok
                        &&& ch.wf()
                        &&& ch.memory() == gm.mem()
                        &&& ch.spec_base() == base_gpa
                        &&& ch.spec_header() == h
                        &&& ch.seqs() == ProducerSeqs { ring_c: 0, ring_i: 0 }
                        &&& ch.interns() == Map::<u32, (Seq<char>, bool)>::empty()
                        &&& ch.pending() == Map::<u32, u32>::empty()
                        &&& ch.counters() == (0u64, 0u64, 0u64)
                        &&& ch.spec_gm() == gm
                    },
                    Err(AttachError::Mem(_)) => true,
                    Err(e) => spec_mapped(gm.mem(), base_gpa as int, 0x30) && spec_attach_check(h)
                        == Err::<(), AttachError>(e),
                }
            }),
    {
        let mut hdr_bytes = [0u8; 0x30];
        match gm.read(base_gpa, &mut hdr_bytes) {
            Ok(()) => {},
            Err(e) => return Err(AttachError::Mem(e)),
        }
        let header = match ChannelHeader::read_from(&hdr_bytes) {
            Ok(h) => h,
            Err(_) => {
                proof {
                    assert(false);
                }
                return Err(AttachError::Mem(MemError::Overflow));
            },
        };
        if header.magic != CHANNEL_MAGIC {
            return Err(AttachError::BadMagic { found: header.magic });
        }
        if header.proto_version != PROTO_VERSION {
            return Err(AttachError::BadVersion { found: header.proto_version });
        }
        let mut k: usize = 0;
        while k < 4
            invariant
                k <= 4,
                header == spec_parse_channel_header(spec_bytes_at(gm.mem(), base_gpa as int, 0x30)),
                spec_mapped(gm.mem(), base_gpa as int, 0x30),
                gm.accessible(base_gpa as int, 0x30),
                header.magic == CHANNEL_MAGIC,
                header.proto_version == PROTO_VERSION,
                spec_attach_check(header) == spec_ring_checks(header, k as int),
            decreases 4 - k,
        {
            let d = header.ring_desc[k];
            let ring = if k == 0 {
                RingId::C
            } else if k == 1 {
                RingId::I
            } else if k == 2 {
                RingId::A
            } else {
                RingId::W
            };
            if !is_power_of_two(d.size) {
                return Err(AttachError::BadRingSize { ring });
            }
            if d.validate().is_err() {
                return Err(AttachError::RingOutOfBounds { ring });
            }
            k = k + 1;
        }
        let mut i: usize = 0;
        while i < 4
            invariant
                i <= 4,
                header == spec_parse_channel_header(spec_bytes_at(gm.mem(), base_gpa as int, 0x30)),
                spec_mapped(gm.mem(), base_gpa as int, 0x30),
                gm.accessible(base_gpa as int, 0x30),
                spec_attach_check(header) == spec_ring_checks(header, 4),
                forall|a: int, b: int|
                    0 <= a < i && a < b < 4 ==> !spec_overlap(
                        #[trigger] header.ring_desc[a],
                        #[trigger] header.ring_desc[b],
                    ),
            decreases 4 - i,
        {
            let mut j: usize = i + 1;
            while j < 4
                invariant
                    i < 4,
                header == spec_parse_channel_header(spec_bytes_at(gm.mem(), base_gpa as int, 0x30)),
                spec_mapped(gm.mem(), base_gpa as int, 0x30),
                gm.accessible(base_gpa as int, 0x30),
                    i + 1 <= j <= 4,
                    spec_attach_check(header) == spec_ring_checks(header, 4),
                    forall|a: int, b: int|
                        0 <= a < i && a < b < 4 ==> !spec_overlap(
                            #[trigger] header.ring_desc[a],
                            #[trigger] header.ring_desc[b],
                        ),
                    forall|b: int| i < b < j ==> !spec_overlap(
                        header.ring_desc[i as int],
                        #[trigger] header.ring_desc[b],
                    ),
                decreases 4 - j,
            {
                let a = header.ring_desc[i];
                let b = header.ring_desc[j];
                let a_end = a.offset as u64 + a.size as u64;
                let b_end = b.offset as u64 + b.size as u64;
                if (a.offset as u64) < b_end && (b.offset as u64) < a_end {
                    assert(spec_overlap(header.ring_desc[i as int], header.ring_desc[j as int]));
                    return Err(AttachError::RingsOverlap);
                }
                j = j + 1;
            }
            i = i + 1;
        }
        proof {
            lemma_ring_checks_ok(header, 0);
        }
        let ch = Channel {
                gm,
                base: base_gpa,
                header,
                interns: BTreeMap::new(),
                pending_injects: BTreeMap::new(),
                next_seq_c: 0,
                next_seq_i: 0,
                unknown_kind_records: 0,
                unmatched_injects: 0,
                intern_redefinitions: 0,
            };
        assert(ch.interns() =~= Map::<u32, (Seq<char>, bool)>::empty());
        Ok(ch)
    }
}

/// GPA of `ring`'s producer index cell.
pub open spec fn spec_prod_gpa(base: u64, ring: RingId) -> int {
    base + spec_prod_offset(ring)
}

/// GPA of `ring`'s consumer index cell.
pub open spec fn spec_cons_gpa(base: u64, ring: RingId) -> int {
    base + spec_cons_offset(ring)
}

/// GPA of `ring`'s data area.
pub open spec fn spec_data_gpa(base: u64, h: ChannelHeader, ring: RingId) -> int {
    base + h.ring_desc[spec_ring_index(ring)].offset
}

impl<M: GuestMem> Channel<M> {
    /// Facts that follow from the channel invariant.
    pub proof fn lemma_wf(&self)
        requires
            self.wf(),
        ensures
            forall|i: int| 0 <= i < 4 ==> spec_desc_ok(#[trigger] self.spec_header().ring_desc[i]),
            forall|i: int, j: int|
                0 <= i < j < 4 ==> !spec_overlap(
                    #[trigger] self.spec_header().ring_desc[i],
                    #[trigger] self.spec_header().ring_desc[j],
                ),
            self.spec_base() + CHANNEL_SIZE <= u64::MAX,
    {
        lemma_ring_checks_ok(self.header, 0);
    }

    /// Export the ring C/I producer seqs for checkpointing. A fresh attach
    /// starts at (0, 0).
    pub fn producer_seqs(&self) -> (r: ProducerSeqs)
        ensures
            r == self.seqs(),
    {
        ProducerSeqs { ring_c: self.next_seq_c, ring_i: self.next_seq_i }
    }

    /// Restore checkpointed ring C/I producer seqs after re-attaching.
    pub fn restore_producer_seqs(&mut self, seqs: ProducerSeqs)
        ensures
            final(self).seqs() == seqs,
            final(self).memory() == old(self).memory(),
            final(self).spec_gm() == old(self).spec_gm(),
            final(self).spec_base() == old(self).spec_base(),
            final(self).spec_header() == old(self).spec_header(),
            final(self).interns() == old(self).interns(),
            final(self).pending() == old(self).pending(),
            final(self).counters() == old(self).counters(),
            final(self).wf() == old(self).wf(),
    {
        self.next_seq_c = seqs.ring_c;
        self.next_seq_i = seqs.ring_i;
    }

    /// The validated channel header.
    pub fn header(&self) -> (r: &ChannelHeader)
        ensures
            *r == self.spec_header(),
    {
        &self.header
    }

    /// The channel base GPA.
    pub fn base_gpa(&self) -> (r: u64)
        ensures
            r == self.spec_base(),
    {
        self.base
    }

    /// Borrow the underlying guest memory.
    pub fn guest_mem(&self) -> (r: &M)
        ensures
            r.mem() == self.memory(),
            *r == self.spec_gm(),
    {
        &self.gm
    }

    /// Give the guest memory back, ending the attachment.
    pub fn into_guest_mem(self) -> (r: M)
        ensures
            r.mem() == self.memory(),
            r == self.spec_gm(),
    {
        self.gm
    }

    /// Descriptor of `ring`.
    pub fn ring_desc(&self, ring: RingId) -> (r: RingDesc)
        ensures
            r == self.spec_header().ring_desc[spec_ring_index(ring)],
    {
        self.header.ring_desc[ring.index()]
    }

    /// GPA of `ring`'s producer index cell.
    pub fn prod_gpa(&self, ring: RingId) -> (r: u64)
        requires
            self.wf(),
        ensures
            r == spec_prod_gpa(self.spec_base(), ring),
    {
        self.base + ring.prod_offset() as u64
    }

    /// GPA of `ring`'s consumer index cell.
    pub fn cons_gpa(&self, ring: RingId) -> (r: u64)
        requires
            self.wf(),
        ensures
            r == spec_cons_gpa(self.spec_base(), ring),
    {
        self.base + ring.cons_offset() as u64
    }

    /// GPA of `ring`'s data area.
    pub fn data_gpa(&self, ring: RingId) -> (r: u64)
        requires
            self.wf(),
        ensures
            r == spec_data_gpa(self.spec_base(), self.spec_header(), ring),
            r + self.spec_header().ring_desc[spec_ring_index(ring)].size <= u64::MAX,
    {
        proof {
            self.lemma_wf();
            assert(spec_desc_ok(self.spec_header().ring_desc[spec_ring_index(ring)]));
        }
        self.base + self.header.ring_desc[ring.index()].offset as u64
    }

    /// Resolve an interned `name_id` (folded from drained `NameIntern`
    /// events). The name is a lossy UTF-8 conversion of the raw bytes.
    pub fn intern_name(&self, id: u32) -> (r: Option<&str>)
        ensures
            r is Some <==> self.interns().contains_key(id),
            r is Some ==> r->0@ == self.interns()[id].0,
    {
        match self.interns.get(&id) {
            Some(e) => Some(e.name.as_str()),
            None => None,
        }
    }

    /// Name ids interned with the REACHABLE_DECL flag (the declared
    /// reachability targets), in ascending order.
    pub fn declared_reachables(&self) -> (r: Vec<u32>)
        ensures
            forall|id: u32| r@.contains(id) <==> self.interns().contains_key(id)
                && self.interns()[id].1,
    {
        let mut out: Vec<u32> = Vec::new();
        let ghost m = self.interns@;
        for kv in it: self.interns.iter()
            invariant
                m == self.interns@,
                forall|id: u32| out@.contains(id) <==> exists|k: int| 0 <= k < it.index() && *(#[trigger] it.seq()[k]).0 == id && it.seq()[k].1.reachable_decl,
        {
            let ghost k0 = it.index();
            assert(kv == it.seq()[k0]);
            let ghost old_out = out@;
            let (id, e) = kv;
            if e.reachable_decl {
                out.push(*id);
            }
            proof {
                assert forall|x: u32| out@.contains(x) <==> exists|k: int| 0 <= k < k0 + 1 && *(#[trigger] it.seq()[k]).0 == x && it.seq()[k].1.reachable_decl by {
                    if e.reachable_decl {
                        assert(out@ == old_out.push(*id));
                        if out@.contains(x) && !old_out.contains(x) {
                            let i = choose|i: int| 0 <= i < out@.len() && out@[i] == x;
                            if i < old_out.len() {
                                assert(old_out[i] == x);
                                assert(false);
                            }
                            assert(x == *id);
                            assert(*it.seq()[k0].0 == x && it.seq()[k0].1.reachable_decl);
                        }
                        if old_out.contains(x) {
                            let i = choose|i: int| 0 <= i < old_out.len() && old_out[i] == x;
                            assert(out@[i] == x);
                        }
                        if x == *id {
                            assert(out@[out@.len() - 1] == x);
                        }
                    } else {
                        assert(out@ == old_out);
                    }
                }
            }
        }
        out
    }

    /// Store `bytes` at `gpa` in guest memory (the replay path, which
    /// reports the mutation itself).
    pub(crate) fn write_mem(&mut self, gpa: u64, bytes: &[u8]) -> (r: Result<(), MemError>)
        ensures
            r is Ok <==> old(self).spec_gm().accessible(gpa as int, bytes@.len() as int),
            forall|g: int, l: int| #[trigger] final(self).spec_gm().accessible(g, l) == old(self).spec_gm().accessible(g, l),
            final(self).page_accessible() == old(self).page_accessible(),
            r is Ok ==> spec_mapped(old(self).memory(), gpa as int, bytes@.len() as int)
                && final(self).memory() == spec_write_mem(old(self).memory(), gpa as int, bytes@),
            r is Err ==> final(self).memory() == old(self).memory(),
            final(self).pending() == old(self).pending(),
            final(self).spec_base() == old(self).spec_base(),
            final(self).spec_header() == old(self).spec_header(),
            final(self).interns() == old(self).interns(),
            final(self).seqs() == old(self).seqs(),
            final(self).counters() == old(self).counters(),
            final(self).wf() == old(self).wf(),
    {
        self.gm.write(gpa, bytes)
    }

    /// Count an INJECT answer that matched no drained query.
    pub(crate) fn note_unmatched_inject(&mut self)
        requires
            old(self).counters().1 < u64::MAX,
        ensures
            final(self).counters() == (old(self).counters().0, (old(self).counters().1 + 1) as u64, old(self).counters().2),
            final(self).pending() == old(self).pending(),
            final(self).memory() == old(self).memory(),
            final(self).spec_gm() == old(self).spec_gm(),
            final(self).spec_base() == old(self).spec_base(),
            final(self).spec_header() == old(self).spec_header(),
            final(self).interns() == old(self).interns(),
            final(self).seqs() == old(self).seqs(),
            final(self).wf() == old(self).wf(),
    {
        self.unmatched_injects = self.unmatched_injects + 1;
    }

    /// Take the pending `InjectQuery` for `iseq`, if drained.
    pub(crate) fn take_pending_inject(&mut self, iseq: u32) -> (r: Option<u32>)
        ensures
            r == (if old(self).pending().contains_key(iseq) {
                Some(old(self).pending()[iseq])
            } else {
                None::<u32>
            }),
            final(self).pending() == old(self).pending().remove(iseq),
            final(self).memory() == old(self).memory(),
            final(self).spec_gm() == old(self).spec_gm(),
            final(self).spec_base() == old(self).spec_base(),
            final(self).spec_header() == old(self).spec_header(),
            final(self).interns() == old(self).interns(),
            final(self).seqs() == old(self).seqs(),
            final(self).counters() == old(self).counters(),
            final(self).wf() == old(self).wf(),
    {
        self.pending_injects.remove(&iseq)
    }
}

impl<M: GuestMem> Channel<M> {
    /// Current drop counters (guest-written; read-only here). A failed
    /// guest-memory read is surfaced, not swallowed.
    pub fn drop_counters(&self) -> (r: Result<DropCounters, MemError>)
        requires
            self.wf(),
        ensures
            r is Err ==> !self.page_accessible(),
            r is Ok ==> {
                let c = r->Ok_0;
                let m = self.memory();
                let b = self.spec_base();
                &&& c.ring_a_records == spec_u64_at(m, b + OFF_RING_A_DROPPED_RECORDS)
                &&& c.ring_a_bytes == spec_u64_at(m, b + OFF_RING_A_DROPPED_BYTES)
                &&& c.ring_w_records == spec_u64_at(m, b + OFF_RING_W_DROPPED_RECORDS)
                &&& c.ring_w_bytes == spec_u64_at(m, b + OFF_RING_W_DROPPED_BYTES)
                &&& forall|i: int|
                    0 <= i < 16 ==> #[trigger] c.ring_w_by_kind[i] == spec_u64_at(
                        m,
                        b + OFF_RING_W_DROPPED_BY_KIND + i * 8,
                    )
            },
    {
        let b = self.base;
        proof {
            if self.page_accessible() {
                self.lemma_in_page(b + OFF_RING_A_DROPPED_RECORDS, 8);
                self.lemma_in_page(b + OFF_RING_A_DROPPED_BYTES, 8);
                self.lemma_in_page(b + OFF_RING_W_DROPPED_RECORDS, 8);
                self.lemma_in_page(b + OFF_RING_W_DROPPED_BYTES, 8);
            }
        }
        let ring_a_records = match read_u64(&self.gm, b + OFF_RING_A_DROPPED_RECORDS as u64) {
            Ok(v) => v,
            Err(e) => return Err(e),
        };
        let ring_a_bytes = match read_u64(&self.gm, b + OFF_RING_A_DROPPED_BYTES as u64) {
            Ok(v) => v,
            Err(e) => return Err(e),
        };
        let ring_w_records = match read_u64(&self.gm, b + OFF_RING_W_DROPPED_RECORDS as u64) {
            Ok(v) => v,
            Err(e) => return Err(e),
        };
        let ring_w_bytes = match read_u64(&self.gm, b + OFF_RING_W_DROPPED_BYTES as u64) {
            Ok(v) => v,
            Err(e) => return Err(e),
        };
        let mut by_kind: [u64; 16] = [0u64; 16];
        let mut i: usize = 0;
        while i < 16
            invariant
                i <= 16,
                b == self.spec_base(),
                b + CHANNEL_SIZE <= u64::MAX,
                forall|k: int|
                    0 <= k < i ==> #[trigger] by_kind[k] == spec_u64_at(
                        self.memory(),
                        b + OFF_RING_W_DROPPED_BY_KIND + k * 8,
                    ),
            decreases 16 - i,
        {
            proof {
                if self.page_accessible() {
                    self.lemma_in_page(b + OFF_RING_W_DROPPED_BY_KIND + i * 8, 8);
                }
            }
            let v = match read_u64(&self.gm, b + (OFF_RING_W_DROPPED_BY_KIND + i * 8) as u64) {
                Ok(v) => v,
                Err(e) => return Err(e),
            };
            by_kind.set(i, v);
            i = i + 1;
        }
        Ok(DropCounters { ring_a_records, ring_a_bytes, ring_w_records, ring_w_bytes, ring_w_by_kind: by_kind })
    }
}

/// The `u32` stored little-endian at `gpa` in `m`.
pub open spec fn spec_u32_at(m: Map<int, u8>, gpa: int) -> u32 {
    le32(spec_bytes_at(m, gpa, 4), 0)
}

/// `x + y` modulo 2^32.
pub open spec fn spec_wrap_add(x: u32, y: int) -> u32 {
    ((x + y) % 0x1_0000_0000) as u32
}

/// `x - y` modulo 2^32.
pub open spec fn spec_wrap_sub(x: u32, y: int) -> u32 {
    ((x - y) % 0x1_0000_0000) as u32
}

/// The effect of one reported mutation on guest memory, for a channel at
/// `base` with header `h`. A ring push writes its span at the position
/// its producer index implies (a span with a tail pad wraps to the ring
/// start after the pad) and stores the producer index; a consumer bump
/// stores the consumer index; a PIO answer touches no channel memory.
pub open spec fn spec_apply_entry(m: Map<int, u8>, base: u64, h: ChannelHeader, e: SinkEntry) -> Map<int, u8> {
    match e {
        SinkEntry::RingPush { ring, bytes, new_prod } => {
            let size = h.ring_desc[spec_ring_index(ring)].size;
            let old_prod = spec_wrap_sub(new_prod, bytes.len() as int);
            let off = old_prod & ((size - 1) as u32);
            let tail = size - off;
            let data = spec_data_gpa(base, h, ring);
            let m1 = if bytes.len() <= tail {
                spec_write_mem(m, data + off, bytes)
            } else {
                spec_write_mem(
                    spec_write_mem(m, data + off, bytes.subrange(0, tail)),
                    data,
                    bytes.subrange(tail, bytes.len() as int),
                )
            };
            spec_write_mem(m1, spec_prod_gpa(base, ring), b32(new_prod))
        },
        SinkEntry::ConsBump { ring, new_cons } => spec_write_mem(
            m,
            spec_cons_gpa(base, ring),
            b32(new_cons),
        ),
        SinkEntry::PioAnswer { .. } => m,
    }
}

/// The effect of a whole trace, applied in order.
pub open spec fn spec_apply_trace(m: Map<int, u8>, base: u64, h: ChannelHeader, t: Seq<SinkEntry>) -> Map<int, u8>
    decreases t.len(),
{
    if t.len() == 0 {
        m
    } else {
        spec_apply_entry(spec_apply_trace(m, base, h, t.drop_last()), base, h, t.last())
    }
}

/// From trace `t0` and memory `m0` to trace `t1` and memory `m1`, the
/// trace only grew, and the memory changed exactly by the newly reported
/// entries.
pub open spec fn spec_reported(t0: Seq<SinkEntry>, t1: Seq<SinkEntry>, m0: Map<int, u8>, m1: Map<int, u8>, base: u64, h: ChannelHeader) -> bool {
    &&& t0.len() <= t1.len()
    &&& t1.subrange(0, t0.len() as int) == t0
    &&& m1 == spec_apply_trace(m0, base, h, t1.subrange(t0.len() as int, t1.len() as int))
    &&& forall|i: int| t0.len() <= i < t1.len() ==> spec_entry_fits(h, #[trigger] t1[i])
}

/// A reported ring write spans no more than its ring (every push writes
/// at most the free bytes); other entries always fit.
pub open spec fn spec_entry_fits(h: ChannelHeader, e: SinkEntry) -> bool {
    match e {
        SinkEntry::RingPush { ring, bytes, .. } => bytes.len() <= h.ring_desc[spec_ring_index(ring)].size,
        _ => true,
    }
}

/// Applying two traces one after the other is applying their
/// concatenation.
pub proof fn lemma_apply_trace_concat(m: Map<int, u8>, base: u64, h: ChannelHeader, t1: Seq<SinkEntry>, t2: Seq<SinkEntry>)
    ensures
        spec_apply_trace(spec_apply_trace(m, base, h, t1), base, h, t2) == spec_apply_trace(m, base, h, t1 + t2),
    decreases t2.len(),
{
    if t2.len() == 0 {
        assert(t1 + t2 =~= t1);
    } else {
        lemma_apply_trace_concat(m, base, h, t1, t2.drop_last());
        assert((t1 + t2).drop_last() =~= t1 + t2.drop_last());
    }
}

/// Reporting composes: two reported steps make one.
pub proof fn lemma_reported_trans(t0: Seq<SinkEntry>, t1: Seq<SinkEntry>, t2: Seq<SinkEntry>, m0: Map<int, u8>, m1: Map<int, u8>, m2: Map<int, u8>, base: u64, h: ChannelHeader)
    requires
        spec_reported(t0, t1, m0, m1, base, h),
        spec_reported(t1, t2, m1, m2, base, h),
    ensures
        spec_reported(t0, t2, m0, m2, base, h),
{
    let d1 = t1.subrange(t0.len() as int, t1.len() as int);
    let d2 = t2.subrange(t1.len() as int, t2.len() as int);
    lemma_apply_trace_concat(m0, base, h, d1, d2);
    assert(t2.subrange(t0.len() as int, t2.len() as int) =~= d1 + d2);
    assert(t2.subrange(0, t0.len() as int) =~= t1.subrange(0, t0.len() as int));
    assert forall|i: int| t0.len() <= i < t2.len() implies spec_entry_fits(h, #[trigger] t2[i]) by {
        if i < t1.len() {
            assert(t2.subrange(0, t1.len() as int)[i] == t2[i]);
            assert(t1[i] == t2[i]);
        }
    }
}

/// A single reported entry that fits its ring is a reported step.
pub proof fn lemma_reported_one(t0: Seq<SinkEntry>, m0: Map<int, u8>, base: u64, h: ChannelHeader, e: SinkEntry)
    requires
        spec_entry_fits(h, e),
    ensures
        spec_reported(t0, t0.push(e), m0, spec_apply_entry(m0, base, h, e), base, h),
        spec_reported(t0, t0, m0, m0, base, h),
{
    assert(t0.push(e).subrange(t0.len() as int, t0.len() as int + 1) =~= seq![e]);
    assert(seq![e].drop_last() =~= Seq::<SinkEntry>::empty());
    assert(spec_apply_trace(m0, base, h, seq![e]) == spec_apply_entry(spec_apply_trace(m0, base, h, Seq::<SinkEntry>::empty()), base, h, e));
    assert(t0.push(e).subrange(0, t0.len() as int) =~= t0);
    assert(t0.subrange(t0.len() as int, t0.len() as int) =~= Seq::<SinkEntry>::empty());
    assert(t0.subrange(0, t0.len() as int) =~= t0);
}

/// The span a host push writes at producer index `prod`: the record
/// alone, or, when it does not fit before the ring end, a `Pad` covering
/// the tail (taking `seq`) followed by the record (taking the next seq).
pub open spec fn spec_push_span(prod: u32, size: u32, total: int, seq: u32, rec_here: Seq<u8>, rec_after_pad: Seq<u8>) -> Seq<u8> {
    let tail = spec_contiguous_tail(prod, size);
    if total > tail {
        spec_pad_bytes(tail as int, seq) + rec_after_pad
    } else {
        rec_here
    }
}

/// Seqs a host push consumes: 2 with a tail pad, else 1.
pub open spec fn spec_push_seqs(prod: u32, size: u32, total: int) -> int {
    if total > spec_contiguous_tail(prod, size) {
        2
    } else {
        1
    }
}

/// A record the host produces.
enum HostRecord<'a> {
    Command(&'a Command),
    Ctrl(&'a WorkloadCtrl),
}

spec fn spec_host_record(r: HostRecord, seq: u32) -> Seq<u8> {
    match r {
        HostRecord::Command(c) => spec_command_record(seq, *c),
        HostRecord::Ctrl(w) => spec_ctrl_record(seq, 0, *w),
    }
}

spec fn spec_host_record_len(r: HostRecord) -> int {
    match r {
        HostRecord::Command(c) => spec_record_len(spec_command_payload(*c).len() as int),
        HostRecord::Ctrl(_) => 24,
    }
}

fn host_record_len(r: &HostRecord) -> (n: usize)
    ensures
        n == spec_host_record_len(*r),
        16 <= n <= 32,
{
    match *r {
        HostRecord::Command(c) => {
            let payload_len: usize = match c {
                Command::Quiesce { .. } => 16,
                Command::ReverifyRegions => 0,
                _ => 8,
            };
            proof {
                lemma_le_round_trips();
            }
            record_len(payload_len)
        },
        HostRecord::Ctrl(_) => record_len(8),
    }
}

fn encode_host_record(buf: &mut [u8], seq: u32, r: &HostRecord) -> (res: Result<usize, crate::wire::EncodeError>)
    requires
        old(buf)@.len() == spec_host_record_len(*r),
    ensures
        res is Ok,
        final(buf)@ == spec_host_record(*r, seq),
        spec_host_record(*r, seq).len() == spec_host_record_len(*r),
{
    proof {
        lemma_le_round_trips();
    }
    match *r {
        HostRecord::Command(c) => {
            let res = encode_command(buf, seq, c);
            proof {
                crate::wire::events::lemma_command_round_trip(seq, *c, Seq::empty());
                assert(final(buf)@ =~= spec_command_record(seq, *c));
            }
            res
        },
        HostRecord::Ctrl(w) => {
            let res = encode_workload_ctrl(buf, seq, 0, w);
            proof {
                crate::wire::events::lemma_workload_ctrl_round_trip(seq, 0, *w, Seq::empty());
                assert(final(buf)@ =~= spec_ctrl_record(seq, 0, *w));
            }
            res
        },
    }
}

/// What a host push onto `ring` does, for a channel at `base` with header
/// `h` and memory `m`, pushing a record of `total` bytes whose encoding at
/// seq `q` is `rec(q)` (given here for `seq` and `seq + 1`). Returns the
/// reported entry and the number of seqs consumed.
pub open spec fn spec_host_push(
    m: Map<int, u8>,
    base: u64,
    h: ChannelHeader,
    ring: RingId,
    total: int,
    seq: u32,
    rec_here: Seq<u8>,
    rec_after_pad: Seq<u8>,
) -> (SinkEntry, int) {
    let size = h.ring_desc[spec_ring_index(ring)].size;
    let prod = spec_u32_at(m, spec_prod_gpa(base, ring));
    let needed = spec_bytes_needed(prod, size, total as u32);
    (
        SinkEntry::RingPush {
            ring,
            bytes: spec_push_span(prod, size, total, seq, rec_here, rec_after_pad),
            new_prod: spec_wrap_add(prod, needed),
        },
        spec_push_seqs(prod, size, total),
    )
}

/// A push of `total` bytes onto `ring` that needs a tail pad starts at an
/// 8-aligned producer index (a pad of a misaligned length is refused by
/// an assertion in the pad encoder).
pub open spec fn spec_pad_aligned(m: Map<int, u8>, base: u64, h: ChannelHeader, ring: RingId, total: int) -> bool {
    let prod = spec_u32_at(m, spec_prod_gpa(base, ring));
    prod % 8 == 0 || total <= spec_contiguous_tail(prod, h.ring_desc[spec_ring_index(ring)].size)
}

/// The ring has room for a push of `total` bytes (tail pad included).
pub open spec fn spec_push_fits(m: Map<int, u8>, base: u64, h: ChannelHeader, ring: RingId, total: int) -> bool {
    let size = h.ring_desc[spec_ring_index(ring)].size;
    let prod = spec_u32_at(m, spec_prod_gpa(base, ring));
    let cons = spec_u32_at(m, spec_cons_gpa(base, ring));
    spec_free(prod, cons, size) >= spec_bytes_needed(prod, size, total as u32)
}

/// Adding then subtracting the same amount modulo 2^32 is the identity.
pub proof fn lemma_wrap_add_sub(x: u32, y: int)
    requires
        0 <= y < 0x1_0000_0000,
    ensures
        spec_wrap_sub(spec_wrap_add(x, y), y) == x,
        spec_wrap_add(x, y) == if x + y <= u32::MAX { x + y } else { x + y - 0x1_0000_0000 },
{
    if x + y <= u32::MAX {
        assert((x + y) % 0x1_0000_0000 == x + y);
    } else {
        assert((x + y) % 0x1_0000_0000 == x + y - 0x1_0000_0000);
        assert((x - 0x1_0000_0000int) % 0x1_0000_0000 == x);
    }
}


impl<M: GuestMem> Channel<M> {
    #[verifier::spinoff_prover]
    #[verifier::rlimit(40)]
    fn push_record<S: ChannelWriteSink>(&mut self, ring: RingId, rec: &HostRecord, sink: &mut S, seq: u32) -> (r: Result<u32, PushError>)
        requires
            old(self).wf(),
            spec_pad_aligned(old(self).memory(), old(self).spec_base(), old(self).spec_header(), ring, spec_host_record_len(*rec)),
        ensures
            final(self).page_accessible() == old(self).page_accessible(),
            r matches Err(PushError::Mem(_)) ==> !old(self).page_accessible(),
            final(self).spec_base() == old(self).spec_base(),
            final(self).spec_header() == old(self).spec_header(),
            final(self).interns() == old(self).interns(),
            final(self).pending() == old(self).pending(),
            final(self).counters() == old(self).counters(),
            final(self).seqs() == old(self).seqs(),
            final(self).wf(),
            ({
                let m = old(self).memory();
                let b = old(self).spec_base();
                let h = old(self).spec_header();
                let total = spec_host_record_len(*rec);
                let (e, used) = spec_host_push(m, b, h, ring, total, seq, spec_host_record(*rec, seq), spec_host_record(*rec, spec_wrap_add(seq, 1)));
                match r {
                    Ok(next) => {
                        &&& spec_push_fits(m, b, h, ring, total)
                        &&& next == spec_wrap_add(seq, used)
                        &&& final(sink).trace() == old(sink).trace().push(e)
                        &&& final(self).memory() == spec_apply_entry(m, b, h, e)
                    },
                    Err(PushError::RingFull) => {
                        &&& !spec_push_fits(m, b, h, ring, total)
                        &&& final(sink).trace() == old(sink).trace()
                        &&& final(self).memory() == m
                    },
                    Err(PushError::Mem(_)) => final(sink).trace() == old(sink).trace(),
                    Err(PushError::Encode(e)) => e == crate::wire::EncodeError::BufferTooSmall
                        && spec_contiguous_tail(spec_u32_at(m, spec_prod_gpa(b, ring)), h.ring_desc[spec_ring_index(ring)].size) > u16::MAX
                        && final(sink).trace() == old(sink).trace() && final(self).memory() == m,
                }
            }),
            !(r matches Err(PushError::Mem(_))) ==> spec_reported(old(sink).trace(), final(sink).trace(), old(self).memory(), final(self).memory(), old(self).spec_base(), old(self).spec_header()),
    {
        let ghost m0 = self.memory();
        proof {
            self.lemma_wf();
            assert(spec_desc_ok(self.spec_header().ring_desc[spec_ring_index(ring)]));
            lemma_reported_one(sink.trace(), m0, self.spec_base(), self.spec_header(), SinkEntry::PioAnswer { port: 0, value: 0 });
        }
        let desc = self.ring_desc(ring);
        let size = desc.size;
        let data = self.data_gpa(ring);
        let prod_gpa = self.prod_gpa(ring);
        let cons_gpa = self.cons_gpa(ring);
        let ghost pa = self.page_accessible();
        proof {
            if pa {
                self.lemma_in_page(prod_gpa as int, 4);
                self.lemma_in_page(cons_gpa as int, 4);
            }
        }
        let prod = match read_u32(&self.gm, prod_gpa) {
            Ok(v) => v,
            Err(e) => return Err(PushError::Mem(e)),
        };
        let cons = match read_u32(&self.gm, cons_gpa) {
            Ok(v) => v,
            Err(e) => return Err(PushError::Mem(e)),
        };
        let total = host_record_len(rec);
        let tail = contiguous_tail(prod, size);
        let needed = bytes_needed(prod, size, total as u32);
        if free(prod, cons, size) < needed {
            return Err(PushError::RingFull);
        }
        let mask = size - 1;
        let off = prod & mask;
        let mut recb: Vec<u8> = vec![0u8; total];
        let mut next = seq;
        let new_prod = prod.wrapping_add(needed);
        if needed > total as u32 {
            proof {
                lemma_tail_aligned(prod, size);
            }
            let mut span: Vec<u8> = vec![0u8; tail as usize];
            match encode_pad(span.as_mut_slice(), tail as usize, next) {
                Ok(_) => {},
                Err(e) => return Err(PushError::Encode(e)),
            }
            proof {
                crate::wire::record::lemma_header_bytes_len(crate::wire::record::RecordHeader { len: tail as u16, kind: 0, flags: 0, seq, vnanos: 0 });
                assert(span@ =~= spec_pad_bytes(tail as int, seq));
            }
            next = next.wrapping_add(1);
            let _ = encode_host_record(recb.as_mut_slice(), next, rec);
            let ghost padb = span@;
            proof {
                if pa {
                    self.lemma_in_page(data + off, tail as int);
                }
            }
            match self.gm.write(data + off as u64, span.as_slice()) {
                Ok(()) => {},
                Err(e) => return Err(PushError::Mem(e)),
            }
            proof {
                if pa {
                    assert(self.page_accessible());
                    self.lemma_in_page(data as int, total as int);
                }
            }
            match self.gm.write(data, recb.as_slice()) {
                Ok(()) => {},
                Err(e) => return Err(PushError::Mem(e)),
            }
            span.append(&mut recb);
            proof {
                if pa {
                    assert(self.page_accessible());
                    self.lemma_in_page(prod_gpa as int, 4);
                }
            }
            match write_u32(&mut self.gm, prod_gpa, new_prod) {
                Ok(()) => {},
                Err(e) => return Err(PushError::Mem(e)),
            }
            next = next.wrapping_add(1);
            sink.ring_push(ring, span.as_slice(), new_prod);
            proof {
                let e = SinkEntry::RingPush { ring, bytes: span@, new_prod };
                assert(span@.subrange(0, tail as int) =~= padb);
                assert(span@.subrange(tail as int, span@.len() as int) =~= spec_host_record(*rec, spec_wrap_add(seq, 1)));
                lemma_wrap_add_sub(prod, needed as int);
                assert(span@.len() == needed);
                assert(spec_wrap_sub(new_prod, span@.len() as int) == prod);
                lemma_reported_one(old(sink).trace(), m0, self.spec_base(), self.spec_header(), e);
            }
            Ok(next)
        } else {
            assert(off <= mask) by (bit_vector)
                requires
                    off == prod & mask,
            ;
            let _ = encode_host_record(recb.as_mut_slice(), next, rec);
            proof {
                if pa {
                    self.lemma_in_page(data + off, total as int);
                }
            }
            match self.gm.write(data + off as u64, recb.as_slice()) {
                Ok(()) => {},
                Err(e) => return Err(PushError::Mem(e)),
            }
            proof {
                if pa {
                    assert(self.page_accessible());
                    self.lemma_in_page(prod_gpa as int, 4);
                }
            }
            match write_u32(&mut self.gm, prod_gpa, new_prod) {
                Ok(()) => {},
                Err(e) => return Err(PushError::Mem(e)),
            }
            next = next.wrapping_add(1);
            sink.ring_push(ring, recb.as_slice(), new_prod);
            proof {
                lemma_wrap_add_sub(prod, needed as int);
                assert(spec_wrap_sub(new_prod, recb@.len() as int) == prod);
                lemma_reported_one(old(sink).trace(), m0, self.spec_base(), self.spec_header(), SinkEntry::RingPush { ring, bytes: recb@, new_prod });
            }
            Ok(next)
        }
    }
}

/// The outcome of a host push, relating the state before (`m`, `seq`,
/// `t0`) and after (`m1`, `seq1`, `t1`) to the result `r`.
pub open spec fn spec_push_outcome(
    m: Map<int, u8>,
    base: u64,
    h: ChannelHeader,
    ring: RingId,
    total: int,
    seq: u32,
    rec_here: Seq<u8>,
    rec_after_pad: Seq<u8>,
    r: Result<(), PushError>,
    t0: Seq<SinkEntry>,
    t1: Seq<SinkEntry>,
    m1: Map<int, u8>,
    seq1: u32,
) -> bool {
    let (e, used) = spec_host_push(m, base, h, ring, total, seq, rec_here, rec_after_pad);
    match r {
        Ok(()) => {
            &&& spec_push_fits(m, base, h, ring, total)
            &&& seq1 == spec_wrap_add(seq, used)
            &&& t1 == t0.push(e)
            &&& m1 == spec_apply_entry(m, base, h, e)
        },
        Err(PushError::RingFull) => {
            &&& !spec_push_fits(m, base, h, ring, total)
            &&& t1 == t0
            &&& m1 == m
            &&& seq1 == seq
        },
        Err(PushError::Mem(_)) => t1 == t0 && seq1 == seq,
        Err(PushError::Encode(e)) => {
            &&& e == crate::wire::EncodeError::BufferTooSmall
            &&& spec_contiguous_tail(
                spec_u32_at(m, spec_prod_gpa(base, ring)),
                h.ring_desc[spec_ring_index(ring)].size,
            ) > u16::MAX
            &&& t1 == t0
            &&& m1 == m
            &&& seq1 == seq
        },
    }
}

impl<M: GuestMem> Channel<M> {
    /// Push a command onto ring C. Host-produced: `vnanos` is 0. A ring
    /// without room for the record (and any tail pad) gives
    /// `PushError::RingFull` and changes nothing; the host retries at the
    /// next pause and never spins the guest. The whole write (pad, record,
    /// producer index) is reported to `sink` as one `ring_push`.
    pub fn push_command<S: ChannelWriteSink>(&mut self, cmd: &Command, sink: &mut S) -> (r: Result<(), PushError>)
        requires
            old(self).wf(),
            spec_pad_aligned(old(self).memory(), old(self).spec_base(), old(self).spec_header(), RingId::C, spec_record_len(spec_command_payload(*cmd).len() as int)),
        ensures
            final(self).wf(),
            final(self).page_accessible() == old(self).page_accessible(),
            r matches Err(PushError::Mem(_)) ==> !old(self).page_accessible(),
            final(self).spec_base() == old(self).spec_base(),
            final(self).spec_header() == old(self).spec_header(),
            final(self).interns() == old(self).interns(),
            final(self).pending() == old(self).pending(),
            final(self).counters() == old(self).counters(),
            final(self).seqs().ring_i == old(self).seqs().ring_i,
            !(r matches Err(PushError::Mem(_))) ==> spec_reported(old(sink).trace(), final(sink).trace(), old(self).memory(), final(self).memory(), old(self).spec_base(), old(self).spec_header()),
            ({
                let seq = old(self).seqs().ring_c;
                spec_push_outcome(
                    old(self).memory(),
                    old(self).spec_base(),
                    old(self).spec_header(),
                    RingId::C,
                    spec_record_len(spec_command_payload(*cmd).len() as int),
                    seq,
                    spec_command_record(seq, *cmd),
                    spec_command_record(spec_wrap_add(seq, 1), *cmd),
                    r,
                    old(sink).trace(),
                    final(sink).trace(),
                    final(self).memory(),
                    final(self).seqs().ring_c,
                )
            }),
    {
        let seq = self.next_seq_c;
        let rec = HostRecord::Command(cmd);
        match self.push_record(RingId::C, &rec, sink, seq) {
            Ok(next) => {
                self.next_seq_c = next;
                Ok(())
            },
            Err(e) => Err(e),
        }
    }

    /// Push a workload-control record onto ring I (the quiesce relay; ring
    /// I never carries pad input). Same space and reporting rules as
    /// `push_command`.
    pub fn push_workload_ctrl<S: ChannelWriteSink>(&mut self, rec: &WorkloadCtrl, sink: &mut S) -> (r: Result<(), PushError>)
        requires
            old(self).wf(),
            spec_pad_aligned(old(self).memory(), old(self).spec_base(), old(self).spec_header(), RingId::I, 24),
        ensures
            final(self).wf(),
            final(self).page_accessible() == old(self).page_accessible(),
            r matches Err(PushError::Mem(_)) ==> !old(self).page_accessible(),
            final(self).spec_base() == old(self).spec_base(),
            final(self).spec_header() == old(self).spec_header(),
            final(self).interns() == old(self).interns(),
            final(self).pending() == old(self).pending(),
            final(self).counters() == old(self).counters(),
            final(self).seqs().ring_c == old(self).seqs().ring_c,
            !(r matches Err(PushError::Mem(_))) ==> spec_reported(old(sink).trace(), final(sink).trace(), old(self).memory(), final(self).memory(), old(self).spec_base(), old(self).spec_header()),
            ({
                let seq = old(self).seqs().ring_i;
                spec_push_outcome(
                    old(self).memory(),
                    old(self).spec_base(),
                    old(self).spec_header(),
                    RingId::I,
                    24,
                    seq,
                    spec_ctrl_record(seq, 0, *rec),
                    spec_ctrl_record(spec_wrap_add(seq, 1), 0, *rec),
                    r,
                    old(sink).trace(),
                    final(sink).trace(),
                    final(self).memory(),
                    final(self).seqs().ring_i,
                )
            }),
    {
        let seq = self.next_seq_i;
        let hr = HostRecord::Ctrl(rec);
        match self.push_record(RingId::I, &hr, sink, seq) {
            Ok(next) => {
                self.next_seq_i = next;
                Ok(())
            },
            Err(e) => Err(e),
        }
    }
}

/// What walking a ring's used region finds: the complete records in
/// order, the position after the last one, and the framing or decode error
/// that stopped the walk, if any.
pub struct DrainRun {
    /// Complete records, in ring order.
    pub recs: Seq<Seq<u8>>,
    /// Consumer position after the last complete record.
    pub end: u32,
    /// The error that stopped the walk.
    pub err: Option<DecodeError>,
}

/// Walk `avail` used bytes of a ring of `size` bytes whose data starts at
/// `data`, from position `pos`. A record extending past the published
/// bytes ends the walk cleanly (the producer is mid-write); a bad length,
/// a record crossing the ring end, or an undecodable record (other than
/// an unknown kind, which is skipped by its length) stops it with an error.
pub open spec fn spec_drain_walk(m: Map<int, u8>, data: int, size: u32, pos: u32, avail: u32) -> DrainRun
    decreases avail,
{
    if avail < 8 {
        DrainRun { recs: Seq::empty(), end: pos, err: None }
    } else {
        let off = pos & ((size - 1) as u32);
        let tail = size - off;
        let pre = spec_bytes_at(m, data + off, 8);
        let len = le16(pre, 0);
        let min: u16 = if pre[2] == 0 {
            8
        } else {
            16
        };
        if len % 8 != 0 || len < min || len > 4096 {
            DrainRun { recs: Seq::empty(), end: pos, err: Some(DecodeError::BadLen) }
        } else if len > avail {
            DrainRun { recs: Seq::empty(), end: pos, err: None }
        } else if len > tail {
            DrainRun { recs: Seq::empty(), end: pos, err: Some(DecodeError::BadLen) }
        } else {
            let rec = spec_bytes_at(m, data + off, len as int);
            match spec_decode_event(rec) {
                Err(e) if !(e is UnknownKind) => DrainRun {
                    recs: Seq::empty(),
                    end: pos,
                    err: Some(e),
                },
                _ => {
                    let rest = spec_drain_walk(m, data, size, spec_wrap_add(pos, len as int), (avail - len) as u32);
                    DrainRun { recs: seq![rec] + rest.recs, end: rest.end, err: rest.err }
                },
            }
        }
    }
}

/// Host state a drain folds records into.
pub struct DrainState {
    /// Drained events, in order.
    pub events: Seq<GuestEventModel>,
    /// The intern table.
    pub interns: Map<u32, (Seq<char>, bool)>,
    /// Pending inject queries.
    pub pending: Map<u32, u32>,
    /// Unknown-kind records skipped.
    pub unknown: int,
    /// `NameIntern`s that re-bound a known id to a different name.
    pub redefs: int,
}

/// Fold one drained record: a decoded non-`Pad` event is appended; a
/// `NameIntern` binds its id (first binding's name wins; the
/// REACHABLE_DECL flag accumulates; a re-binding to a different name is
/// counted); an `InjectQuery` becomes pending; an unknown kind is counted.
pub open spec fn spec_fold_record(st: DrainState, ring: RingId, rec: Seq<u8>) -> DrainState {
    match spec_decode_event(rec) {
        Ok((h, ev)) => if ev is Pad {
            st
        } else {
            let ge = spec_guest_event(ring, h, ev);
            let interns = match ev {
                EventModel::NameIntern { name_id, name } => if st.interns.contains_key(name_id) {
                    st.interns.insert(
                        name_id,
                        (st.interns[name_id].0, st.interns[name_id].1 || ge.reachable_decl),
                    )
                } else {
                    st.interns.insert(name_id, (utf8_lossy(name), ge.reachable_decl))
                },
                _ => st.interns,
            };
            let pending = match ev {
                EventModel::InjectQuery { iseq, name_id } => st.pending.insert(iseq, name_id),
                _ => st.pending,
            };
            let redefs = match ev {
                EventModel::NameIntern { name_id, name } => if st.interns.contains_key(name_id)
                    && st.interns[name_id].0 != utf8_lossy(name) {
                    st.redefs + 1
                } else {
                    st.redefs
                },
                _ => st.redefs,
            };
            DrainState { events: st.events.push(ge), interns, pending, unknown: st.unknown, redefs }
        },
        Err(_) => DrainState { unknown: st.unknown + 1, ..st },
    }
}

/// Fold a sequence of records, in order.
pub open spec fn spec_fold(st: DrainState, ring: RingId, recs: Seq<Seq<u8>>) -> DrainState
    decreases recs.len(),
{
    if recs.len() == 0 {
        st
    } else {
        spec_fold_record(spec_fold(st, ring, recs.drop_last()), ring, recs.last())
    }
}

/// The views of a vector of drained events.
pub open spec fn spec_events_view(v: Seq<GuestEvent>) -> Seq<GuestEventModel> {
    Seq::new(v.len(), |i: int| v[i]@)
}

proof fn lemma_fold_push(st: DrainState, ring: RingId, recs: Seq<Seq<u8>>, rec: Seq<u8>)
    ensures
        spec_fold(st, ring, recs.push(rec)) == spec_fold_record(spec_fold(st, ring, recs), ring, rec),
{
    assert(recs.push(rec).drop_last() =~= recs);
}

proof fn lemma_walk_bounds(m: Map<int, u8>, data: int, size: u32, pos: u32, avail: u32)
    ensures
        spec_drain_walk(m, data, size, pos, avail).recs.len() * 8 <= avail,
    decreases avail,
{
    if avail >= 8 {
        let off = pos & ((size - 1) as u32);
        let pre = spec_bytes_at(m, data + off, 8);
        let len = le16(pre, 0);
        if len % 8 == 0 && len >= 8 && len <= avail {
            lemma_walk_bounds(m, data, size, spec_wrap_add(pos, len as int), (avail - len) as u32);
        }
    }
}

/// The state a drain starts from.
pub open spec fn spec_drain_start(events: Seq<GuestEventModel>, interns: Map<u32, (Seq<char>, bool)>, pending: Map<u32, u32>, unknown: u64, redefs: u64) -> DrainState {
    DrainState { events, interns, pending, unknown: unknown as int, redefs: redefs as int }
}

/// The walk of `ring` in memory `m` of a channel at `base` with header `h`.
pub open spec fn spec_ring_walk(m: Map<int, u8>, base: u64, h: ChannelHeader, ring: RingId) -> DrainRun {
    let size = h.ring_desc[spec_ring_index(ring)].size;
    let prod = spec_u32_at(m, spec_prod_gpa(base, ring));
    let cons = spec_u32_at(m, spec_cons_gpa(base, ring));
    spec_drain_walk(m, spec_data_gpa(base, h, ring), size, cons, spec_wrap_sub(prod, cons as int))
}

/// The ring's consumer index is 8-aligned and its size at least one
/// minimal record, so every record prefix read stays inside the ring.
pub open spec fn spec_ring_aligned(m: Map<int, u8>, base: u64, h: ChannelHeader, ring: RingId) -> bool {
    &&& spec_u32_at(m, spec_cons_gpa(base, ring)) % 8 == 0
    &&& h.ring_desc[spec_ring_index(ring)].size >= 8
}

/// The ring's index pair claims more used bytes than it holds.
pub open spec fn spec_ring_corrupt(m: Map<int, u8>, base: u64, h: ChannelHeader, ring: RingId) -> bool {
    let size = h.ring_desc[spec_ring_index(ring)].size;
    let prod = spec_u32_at(m, spec_prod_gpa(base, ring));
    let cons = spec_u32_at(m, spec_cons_gpa(base, ring));
    spec_wrap_sub(prod, cons as int) > size
}

impl<M: GuestMem> Channel<M> {
    /// The drain-relevant host state.
    pub closed spec fn drain_state(&self, out: Seq<GuestEvent>) -> DrainState {
        spec_drain_start(spec_events_view(out), self.interns(), self.pending(), self.unknown_kind_records, self.intern_redefinitions)
    }

    #[verifier::spinoff_prover]
    #[verifier::rlimit(60)]
    fn drain_ring<S: ChannelWriteSink>(&mut self, ring: RingId, sink: &mut S, out: &mut Vec<GuestEvent>) -> (r: Result<(), WireError>)
        requires
            old(self).wf(),
            old(self).counters().0 <= u64::MAX - 0x20_0000,
            old(self).counters().2 <= u64::MAX - 0x20_0000,
        ensures
            final(self).wf(),
            final(self).page_accessible() == old(self).page_accessible(),
            r matches Err(WireError::Mem(_)) ==> !old(self).page_accessible() || !spec_ring_aligned(
                old(self).memory(),
                old(self).spec_base(),
                old(self).spec_header(),
                ring,
            ),
            final(self).spec_base() == old(self).spec_base(),
            final(self).spec_header() == old(self).spec_header(),
            final(self).seqs() == old(self).seqs(),
            final(self).counters().1 == old(self).counters().1,
            final(self).counters().0 <= old(self).counters().0 + 0x20_0000,
            final(self).counters().2 <= old(self).counters().2 + 0x20_0000,
            spec_reported(old(sink).trace(), final(sink).trace(), old(self).memory(), final(self).memory(), old(self).spec_base(), old(self).spec_header()),
            ({
                let m = old(self).memory();
                let b = old(self).spec_base();
                let h = old(self).spec_header();
                let run = spec_ring_walk(m, b, h, ring);
                let cons = spec_u32_at(m, spec_cons_gpa(b, ring));
                let fin = spec_fold(old(self).drain_state(old(out)@), ring, run.recs);
                match r {
                    Ok(()) => {
                        &&& !spec_ring_corrupt(m, b, h, ring)
                        &&& run.err is None
                        &&& final(self).drain_state(final(out)@) == fin
                        &&& if run.end != cons {
                            let e = SinkEntry::ConsBump { ring, new_cons: run.end };
                            &&& final(sink).trace() == old(sink).trace().push(e)
                            &&& final(self).memory() == spec_apply_entry(m, b, h, e)
                        } else {
                            &&& final(sink).trace() == old(sink).trace()
                            &&& final(self).memory() == m
                        }
                    },
                    Err(WireError::CorruptIndices { ring: bad }) => {
                        &&& bad == ring
                        &&& spec_ring_corrupt(m, b, h, ring)
                        &&& final(sink).trace() == old(sink).trace()
                        &&& final(self).memory() == m
                        &&& final(self).drain_state(final(out)@) == old(self).drain_state(old(out)@)
                    },
                    Err(WireError::Decode(e)) => {
                        &&& !spec_ring_corrupt(m, b, h, ring)
                        &&& run.err == Some(e)
                        &&& final(sink).trace() == old(sink).trace()
                        &&& final(self).memory() == m
                        &&& final(self).drain_state(final(out)@) == fin
                    },
                    Err(WireError::Mem(_)) => final(sink).trace() == old(sink).trace()
                        && final(self).memory() == m,
                    Err(WireError::SeqlockLivelock) => false,
                }
            }),
    {
        let ghost m = self.memory();
        let ghost st0 = self.drain_state(out@);
        proof {
            lemma_reported_one(sink.trace(), m, self.spec_base(), self.spec_header(), SinkEntry::ConsBump { ring, new_cons: 0 });
        }
        proof {
            self.lemma_wf();
            assert(spec_desc_ok(self.spec_header().ring_desc[spec_ring_index(ring)]));
        }
        let desc = self.ring_desc(ring);
        let size = desc.size;
        let mask = size - 1;
        let data = self.data_gpa(ring);
        let cons_gpa = self.cons_gpa(ring);
        let ghost pa = self.page_accessible();
        proof {
            if pa {
                self.lemma_in_page(spec_prod_gpa(self.spec_base(), ring), 4);
                self.lemma_in_page(cons_gpa as int, 4);
            }
        }
        let prod = match read_u32(&self.gm, self.prod_gpa(ring)) {
            Ok(v) => v,
            Err(e) => return Err(WireError::Mem(e)),
        };
        let cons = match read_u32(&self.gm, cons_gpa) {
            Ok(v) => v,
            Err(e) => return Err(WireError::Mem(e)),
        };
        let avail0 = prod.wrapping_sub(cons);
        let mut avail = avail0;
        proof {
            assert(avail0 == spec_wrap_sub(prod, cons as int)) by {
                if prod >= cons {
                    assert((prod - cons) % 0x1_0000_0000 == prod - cons);
                } else {
                    assert((prod - cons) % 0x1_0000_0000 == prod - cons + 0x1_0000_0000);
                }
            }
        }
        if avail > size {
            return Err(WireError::CorruptIndices { ring });
        }
        let ghost run0 = spec_drain_walk(m, data as int, size, cons, avail0);
        let ghost mut done: Seq<Seq<u8>> = Seq::empty();
        let ghost c0 = self.unknown_kind_records;
        let ghost d0 = self.intern_redefinitions;
        let mut pos = cons;
        proof {
            assert(run0.recs =~= done + run0.recs);
        }
        while avail >= 8
            invariant
                self.wf(),
                self.memory() == m,
                m == old(self).memory(),
                self.spec_base() == old(self).spec_base(),
                self.spec_header() == old(self).spec_header(),
                self.seqs() == old(self).seqs(),
                self.counters().1 == old(self).counters().1,
                c0 == old(self).counters().0,
                c0 <= u64::MAX - 0x20_0000,
                d0 == old(self).counters().2,
                d0 <= u64::MAX - 0x20_0000,
                st0 == old(self).drain_state(old(out)@),
                size == self.spec_header().ring_desc[spec_ring_index(ring)].size,
                spec_desc_ok(self.spec_header().ring_desc[spec_ring_index(ring)]),
                mask == size - 1,
                data == spec_data_gpa(self.spec_base(), self.spec_header(), ring),
                data + size <= u64::MAX,
                avail <= avail0 <= size,
                avail0 <= 0x20_0000,
                run0 == spec_drain_walk(m, data as int, size, cons, avail0),
                run0.recs == done + spec_drain_walk(m, data as int, size, pos, avail).recs,
                run0.end == spec_drain_walk(m, data as int, size, pos, avail).end,
                run0.err == spec_drain_walk(m, data as int, size, pos, avail).err,
                self.drain_state(out@) == spec_fold(st0, ring, done),
                self.unknown_kind_records <= c0 + (avail0 - avail),
                self.intern_redefinitions <= d0 + (avail0 - avail),
                sink.trace() == old(sink).trace(),
                spec_reported(old(sink).trace(), sink.trace(), m, m, self.spec_base(), self.spec_header()),
                avail0 == spec_wrap_sub(spec_u32_at(m, spec_prod_gpa(self.spec_base(), ring)), cons as int),
                cons == spec_u32_at(m, spec_cons_gpa(self.spec_base(), ring)),
                cons_gpa == spec_cons_gpa(self.spec_base(), ring),
                pa == old(self).page_accessible(),
                self.spec_gm() == old(self).spec_gm(),
                cons % 8 == 0 && size >= 8 ==> pos % 8 == 0,
            ensures
                run0.recs == done,
                run0.end == pos,
                run0.err is None,
            decreases avail,
        {
            let off = pos & mask;
            assert(off <= mask) by (bit_vector)
                requires
                    off == pos & mask,
            ;
            let tail = size - off;
            let mut pre = [0u8; 8];
            proof {
                if pa && cons % 8 == 0 && size >= 8 {
                    lemma_tail_aligned(pos, size);
                    self.lemma_in_page(data + off, 8);
                }
            }
            match self.gm.read(data + off as u64, &mut pre) {
                Ok(()) => {},
                Err(e) => return Err(WireError::Mem(e)),
            }
            let len = get_u16(&pre, 0) as u32;
            let kind = pre[2];
            let min: u32 = if kind == 0 {
                8
            } else {
                16
            };
            if len % 8 != 0 || len < min || len > 4096 {
                proof {
                    assert(run0.recs =~= done);
                }
                return Err(WireError::Decode(DecodeError::BadLen));
            }
            if len > avail {
                proof {
                    assert(run0.recs =~= done);
                }
                break;
            }
            if len > tail {
                proof {
                    assert(run0.recs =~= done);
                }
                return Err(WireError::Decode(DecodeError::BadLen));
            }
            let mut buf: Vec<u8> = vec![0u8; len as usize];
            proof {
                if pa {
                    self.lemma_in_page(data + off, len as int);
                }
            }
            match self.gm.read(data + off as u64, buf.as_mut_slice()) {
                Ok(()) => {},
                Err(e) => return Err(WireError::Mem(e)),
            }
            let ghost rec = buf@;
            match decode_event(buf.as_slice()) {
                Ok((hdr, payload)) => {
                    let ghost st = self.drain_state(out@);
                    match to_owned(hdr.flags, &payload) {
                        Some(owned) => {
                            match &owned {
                                OwnedPayload::NameIntern { name_id, name, reachable_decl } => {
                                    let id = *name_id;
                                    let decl = *reachable_decl;
                                    if self.interns.contains_key(&id) {
                                        let mut e = self.interns.remove(&id).unwrap();
                                        let s = lossy_string(name.as_slice());
                                        if !(e.name == s) {
                                            self.intern_redefinitions = self.intern_redefinitions + 1;
                                        }
                                        e.reachable_decl = e.reachable_decl || decl;
                                        self.interns.insert(id, e);
                                    } else {
                                        let s = lossy_string(name.as_slice());
                                        self.interns.insert(id, InternEntry { name: s, reachable_decl: decl });
                                    }
                                },
                                OwnedPayload::InjectQuery { iseq, name_id } => {
                                    self.pending_injects.insert(*iseq, *name_id);
                                },
                                _ => {},
                            }
                            out.push(GuestEvent {
                                ring,
                                seq: hdr.seq,
                                vnanos: hdr.vnanos,
                                truncated: hdr.flags & crate::wire::record::FLAG_TRUNCATED != 0,
                                payload: owned,
                            });
                        },
                        None => {},
                    }
                    proof {
                        let want = spec_fold_record(st, ring, rec);
                        assert(self.interns() =~= want.interns);
                        assert(spec_events_view(out@) =~= want.events);
                    }
                },
                Err(DecodeError::UnknownKind(_)) => {
                    self.unknown_kind_records = self.unknown_kind_records + 1;
                },
                Err(e) => {
                    proof {
                        assert(run0.recs =~= done);
                    }
                    return Err(WireError::Decode(e));
                },
            }
            proof {
                lemma_fold_push(st0, ring, done, rec);
                let rest = spec_drain_walk(m, data as int, size, spec_wrap_add(pos, len as int), (avail - len) as u32);
                assert(spec_drain_walk(m, data as int, size, pos, avail).recs == seq![rec] + rest.recs);
                assert(done + (seq![rec] + rest.recs) =~= done.push(rec) + rest.recs);
                done = done.push(rec);
                lemma_wrap_add_sub(pos, len as int);
            }
            proof {
                lemma_wrap_add_sub(pos, len as int);
            }
            pos = pos.wrapping_add(len);
            avail = avail - len;
        }
        if pos != cons {
            proof {
                if pa {
                    self.lemma_in_page(cons_gpa as int, 4);
                }
            }
            match write_u32(&mut self.gm, cons_gpa, pos) {
                Ok(()) => {},
                Err(e) => return Err(WireError::Mem(e)),
            }
            sink.cons_bump(ring, pos);
            proof {
                lemma_reported_one(old(sink).trace(), m, self.spec_base(), self.spec_header(), SinkEntry::ConsBump { ring, new_cons: pos });
            }
        }
        Ok(())
    }
}

/// Memory after a successful drain of `ring`: the consumer index moves to
/// the end of the last complete record (no write when nothing was taken).
pub open spec fn spec_drained_mem(m: Map<int, u8>, base: u64, h: ChannelHeader, ring: RingId) -> Map<int, u8> {
    let run = spec_ring_walk(m, base, h, ring);
    if run.end != spec_u32_at(m, spec_cons_gpa(base, ring)) {
        spec_apply_entry(m, base, h, SinkEntry::ConsBump { ring, new_cons: run.end })
    } else {
        m
    }
}

/// Entries a successful drain of `ring` reports.
pub open spec fn spec_drained_trace(m: Map<int, u8>, base: u64, h: ChannelHeader, ring: RingId) -> Seq<SinkEntry> {
    let run = spec_ring_walk(m, base, h, ring);
    if run.end != spec_u32_at(m, spec_cons_gpa(base, ring)) {
        seq![SinkEntry::ConsBump { ring, new_cons: run.end }]
    } else {
        Seq::empty()
    }
}

impl<M: GuestMem> Channel<M> {
    /// Drain all complete records from rings A and W, ring A first. Call
    /// only while the vCPU is paused. A record extending past the
    /// published producer index ends a ring's drain at the last complete
    /// record; unknown kinds are skipped by length and counted; `Pad`
    /// records are consumed silently. `NameIntern` events are folded into
    /// the intern table and `InjectQuery` events into the pending-inject
    /// table. Each consumer-index store is reported through `sink`.
    pub fn drain_events<S: ChannelWriteSink>(&mut self, sink: &mut S) -> (r: Result<Vec<GuestEvent>, WireError>)
        requires
            old(self).wf(),
            old(self).counters().0 <= u64::MAX - 0x40_0000,
            old(self).counters().2 <= u64::MAX - 0x40_0000,
        ensures
            final(self).wf(),
            final(self).page_accessible() == old(self).page_accessible(),
            r matches Err(WireError::Mem(_)) ==> {
                let m = old(self).memory();
                let b = old(self).spec_base();
                let h = old(self).spec_header();
                ||| !old(self).page_accessible()
                ||| !spec_ring_aligned(m, b, h, RingId::A)
                ||| !spec_ring_aligned(spec_drained_mem(m, b, h, RingId::A), b, h, RingId::W)
            },
            final(self).spec_base() == old(self).spec_base(),
            final(self).spec_header() == old(self).spec_header(),
            final(self).seqs() == old(self).seqs(),
            final(self).counters().1 == old(self).counters().1,
            spec_reported(old(sink).trace(), final(sink).trace(), old(self).memory(), final(self).memory(), old(self).spec_base(), old(self).spec_header()),
            r is Err ==> !(r matches Err(WireError::SeqlockLivelock)),
            ({
                let m = old(self).memory();
                let b = old(self).spec_base();
                let h = old(self).spec_header();
                let run_a = spec_ring_walk(m, b, h, RingId::A);
                let a_clean = !spec_ring_corrupt(m, b, h, RingId::A) && run_a.err is None;
                let m_a = spec_drained_mem(m, b, h, RingId::A);
                let run_w = spec_ring_walk(m_a, b, h, RingId::W);
                match r {
                    Err(WireError::CorruptIndices { ring }) => (ring == RingId::A && spec_ring_corrupt(m, b, h, RingId::A))
                        || (ring == RingId::W && a_clean && spec_ring_corrupt(m_a, b, h, RingId::W)),
                    Err(WireError::Decode(e)) => (!spec_ring_corrupt(m, b, h, RingId::A) && run_a.err == Some(e))
                        || (a_clean && !spec_ring_corrupt(m_a, b, h, RingId::W) && run_w.err == Some(e)),
                    _ => true,
                }
            }),
            r is Ok ==> {
                let m = old(self).memory();
                let b = old(self).spec_base();
                let h = old(self).spec_header();
                let run_a = spec_ring_walk(m, b, h, RingId::A);
                let m_a = spec_drained_mem(m, b, h, RingId::A);
                let run_w = spec_ring_walk(m_a, b, h, RingId::W);
                let st = spec_fold(
                    spec_fold(
                        spec_drain_start(Seq::empty(), old(self).interns(), old(self).pending(), old(self).counters().0, old(self).counters().2),
                        RingId::A,
                        run_a.recs,
                    ),
                    RingId::W,
                    run_w.recs,
                );
                &&& !spec_ring_corrupt(m, b, h, RingId::A) && run_a.err is None
                &&& !spec_ring_corrupt(m_a, b, h, RingId::W) && run_w.err is None
                &&& spec_events_view(r->Ok_0@) == st.events
                &&& final(self).interns() == st.interns
                &&& final(self).pending() == st.pending
                &&& final(self).counters().0 == st.unknown
                &&& final(self).counters().2 == st.redefs
                &&& final(sink).trace() == old(sink).trace() + spec_drained_trace(m, b, h, RingId::A)
                    + spec_drained_trace(m_a, b, h, RingId::W)
                &&& final(self).memory() == spec_drained_mem(m_a, b, h, RingId::W)
            },
    {
        let mut out: Vec<GuestEvent> = Vec::new();
        let ghost t0 = sink.trace();
        let ghost m0 = self.memory();
        proof {
            assert(spec_events_view(out@) =~= Seq::<GuestEventModel>::empty());
        }
        match self.drain_ring(RingId::A, sink, &mut out) {
            Ok(()) => {},
            Err(e) => return Err(e),
        }
        let ghost t1 = sink.trace();
        let ghost m1 = self.memory();
        let r = self.drain_ring(RingId::W, sink, &mut out);
        proof {
            lemma_reported_trans(t0, t1, sink.trace(), m0, m1, self.memory(), self.spec_base(), self.spec_header());
        }
        match r {
            Ok(()) => {
                proof {
                    let b = self.spec_base();
                    let h = self.spec_header();
                    let ta = spec_drained_trace(m0, b, h, RingId::A);
                    let tw = spec_drained_trace(m1, b, h, RingId::W);
                    assert(t1 =~= t0 + ta);
                    assert(sink.trace() =~= t0 + ta + tw);
                }
                Ok(out)
            },
            Err(e) => Err(e),
        }
    }
}

} // verus!

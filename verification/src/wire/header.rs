//! Channel header: magic, version, ring descriptors, drop counters, index
//! cells. The channel is a single 2 MiB page; every offset below is
//! relative to its base.
use super::bytes::{b32, b64, get_u32, get_u64, le32, le64, lemma_le_round_trips, push_u32, push_u64, splice, write_at};
use super::{DecodeError, EncodeError};
use vstd::prelude::*;

verus! {

/// Channel magic: `"DETGUEST"` read as a little-endian u64.
pub const CHANNEL_MAGIC: u64 = 0x5453_4555_4754_4544;
/// Wire protocol version this crate implements.
pub const PROTO_VERSION: u32 = 1;
/// Total channel size: one 2 MiB page.
pub const CHANNEL_SIZE: usize = 0x20_0000;
/// Channel size in 4 KiB pages (the INIT_GO commit value).
pub const CHANNEL_SIZE_PAGES: u32 = 0x200;
/// `header_flags` bit 0: agent finished channel init and emitted `Hello`.
pub const FLAG_AGENT_READY: u32 = 1;
/// `header_flags` bit 1: a workload has mapped the channel.
pub const FLAG_WORKLOAD_ATTACHED: u32 = 2;
/// Offset of `magic` (u64).
pub const OFF_MAGIC: usize = 0x000;
/// Offset of `proto_version` (u32).
pub const OFF_PROTO_VERSION: usize = 0x008;
/// Offset of `header_flags` (u32).
pub const OFF_HEADER_FLAGS: usize = 0x00C;
/// Offset of `ring_desc[4]` ({offset: u32, size: u32} for C, I, A, W).
pub const OFF_RING_DESC: usize = 0x010;
/// Offset of the reserved area after the ring descriptors; the fixed header
/// fields end here.
pub const OFF_RESERVED: usize = 0x030;
/// Offset of `ringA_dropped_records` (u64).
pub const OFF_RING_A_DROPPED_RECORDS: usize = 0x040;
/// Offset of `ringA_dropped_bytes` (u64).
pub const OFF_RING_A_DROPPED_BYTES: usize = 0x048;
/// Offset of `ringW_dropped_records` (u64).
pub const OFF_RING_W_DROPPED_RECORDS: usize = 0x050;
/// Offset of `ringW_dropped_bytes` (u64).
pub const OFF_RING_W_DROPPED_BYTES: usize = 0x058;
/// Offset of `ringW_dropped_by_kind[16]` (u64 each, index = event kind).
pub const OFF_RING_W_DROPPED_BY_KIND: usize = 0x060;
/// Number of per-kind drop counter slots.
pub const DROPPED_BY_KIND_SLOTS: usize = 16;
/// Offset of the ring C producer index (host-owned).
pub const OFF_RING_C_PROD: usize = 0x100;
/// Offset of the ring C consumer index (agent-owned).
pub const OFF_RING_C_CONS: usize = 0x140;
/// Offset of the ring I producer index (host-owned).
pub const OFF_RING_I_PROD: usize = 0x180;
/// Offset of the ring I consumer index (SDK-owned).
pub const OFF_RING_I_CONS: usize = 0x1C0;
/// Offset of the ring A producer index (agent-owned).
pub const OFF_RING_A_PROD: usize = 0x200;
/// Offset of the ring A consumer index (host-owned).
pub const OFF_RING_A_CONS: usize = 0x240;
/// Offset of the ring W producer index (SDK-owned).
pub const OFF_RING_W_PROD: usize = 0x280;
/// Offset of the ring W consumer index (host-owned).
pub const OFF_RING_W_CONS: usize = 0x2C0;
/// Offset of the region manifest area.
pub const OFF_MANIFEST: usize = 0x1000;
/// Ring C data offset.
pub const OFF_RING_C_DATA: usize = 0x8000;
/// Ring C size (16 KiB).
pub const RING_C_SIZE: u32 = 0x4000;
/// Ring I data offset.
pub const OFF_RING_I_DATA: usize = 0xC000;
/// Ring I size (16 KiB).
pub const RING_I_SIZE: u32 = 0x4000;
/// Ring A data offset.
pub const OFF_RING_A_DATA: usize = 0x1_0000;
/// Ring A size (64 KiB).
pub const RING_A_SIZE: u32 = 0x1_0000;
/// Ring W data offset.
pub const OFF_RING_W_DATA: usize = 0x2_0000;
/// Ring W size (1 MiB, the largest power of two that fits its area).
pub const RING_W_SIZE: u32 = 0x10_0000;
/// Reserved area after ring W data.
pub const OFF_RESERVED_TAIL: usize = 0x12_0000;

/// The four SPSC rings, in descriptor order.
#[derive(Debug, Clone, Copy, PartialEq, Eq, PartialOrd, Ord, Hash, Structural)]
pub enum RingId {
    /// host → agent control commands.
    C,
    /// host → workload control records (quiesce relay; never pad input).
    I,
    /// agent → host events.
    A,
    /// SDK (workload) → host events.
    W,
}

/// Descriptor slot of a ring.
pub open spec fn spec_ring_index(r: RingId) -> int {
    match r {
        RingId::C => 0,
        RingId::I => 1,
        RingId::A => 2,
        RingId::W => 3,
    }
}

/// Producer index cell offset of a ring.
pub open spec fn spec_prod_offset(r: RingId) -> usize {
    match r {
        RingId::C => OFF_RING_C_PROD,
        RingId::I => OFF_RING_I_PROD,
        RingId::A => OFF_RING_A_PROD,
        RingId::W => OFF_RING_W_PROD,
    }
}

/// Consumer index cell offset of a ring.
pub open spec fn spec_cons_offset(r: RingId) -> usize {
    match r {
        RingId::C => OFF_RING_C_CONS,
        RingId::I => OFF_RING_I_CONS,
        RingId::A => OFF_RING_A_CONS,
        RingId::W => OFF_RING_W_CONS,
    }
}

/// Canonical data area of a ring.
pub open spec fn spec_canonical_desc(r: RingId) -> RingDesc {
    match r {
        RingId::C => RingDesc { offset: 0x8000, size: RING_C_SIZE },
        RingId::I => RingDesc { offset: 0xC000, size: RING_I_SIZE },
        RingId::A => RingDesc { offset: 0x1_0000, size: RING_A_SIZE },
        RingId::W => RingDesc { offset: 0x2_0000, size: RING_W_SIZE },
    }
}

impl RingId {
    /// All rings in descriptor order.
    pub const ALL: [RingId; 4] = [RingId::C, RingId::I, RingId::A, RingId::W];

    /// Descriptor slot of this ring (C 0, I 1, A 2, W 3).
    pub fn index(self) -> (r: usize)
        ensures
            r == spec_ring_index(self),
    {
        match self {
            RingId::C => 0,
            RingId::I => 1,
            RingId::A => 2,
            RingId::W => 3,
        }
    }

    /// Offset of this ring's producer index cell.
    pub fn prod_offset(self) -> (r: usize)
        ensures
            r == spec_prod_offset(self),
    {
        match self {
            RingId::C => OFF_RING_C_PROD,
            RingId::I => OFF_RING_I_PROD,
            RingId::A => OFF_RING_A_PROD,
            RingId::W => OFF_RING_W_PROD,
        }
    }

    /// Offset of this ring's consumer index cell.
    pub fn cons_offset(self) -> (r: usize)
        ensures
            r == spec_cons_offset(self),
    {
        match self {
            RingId::C => OFF_RING_C_CONS,
            RingId::I => OFF_RING_I_CONS,
            RingId::A => OFF_RING_A_CONS,
            RingId::W => OFF_RING_W_CONS,
        }
    }

    /// Canonical data area for this ring.
    pub fn canonical_desc(self) -> (r: RingDesc)
        ensures
            r == spec_canonical_desc(self),
    {
        match self {
            RingId::C => RingDesc { offset: 0x8000, size: RING_C_SIZE },
            RingId::I => RingDesc { offset: 0xC000, size: RING_I_SIZE },
            RingId::A => RingDesc { offset: 0x1_0000, size: RING_A_SIZE },
            RingId::W => RingDesc { offset: 0x2_0000, size: RING_W_SIZE },
        }
    }
}

/// `x` is a power of two.
pub open spec fn spec_is_pow2(x: u32) -> bool {
    x != 0 && x & ((x - 1) as u32) == 0
}

/// Whether `x` is a power of two.
pub fn is_power_of_two(x: u32) -> (r: bool)
    ensures
        r == spec_is_pow2(x),
{
    x != 0 && (x & (x - 1)) == 0
}

/// One ring descriptor in the channel header.
#[derive(Debug, Clone, Copy, PartialEq, Eq, Structural)]
pub struct RingDesc {
    /// Byte offset of the ring data area from the channel base.
    pub offset: u32,
    /// Ring data size in bytes; must be a power of two.
    pub size: u32,
}

/// A descriptor is acceptable: nonzero power-of-two size, data area
/// inside the page past the header/manifest area, 8-aligned.
pub open spec fn spec_desc_ok(d: RingDesc) -> bool {
    &&& spec_is_pow2(d.size)
    &&& d.offset >= OFF_RING_C_DATA
    &&& d.offset + d.size <= CHANNEL_SIZE
    &&& d.offset % 8 == 0
}

impl RingDesc {
    /// Validate this descriptor against the channel bounds (attach path).
    pub fn validate(&self) -> (r: Result<(), DecodeError>)
        ensures
            r is Ok <==> spec_desc_ok(*self),
            r is Err ==> r == Err::<(), DecodeError>(DecodeError::BadField),
    {
        if !is_power_of_two(self.size) {
            return Err(DecodeError::BadField);
        }
        let off = self.offset as u64;
        let size = self.size as u64;
        if off < OFF_RING_C_DATA as u64 || off + size > CHANNEL_SIZE as u64 {
            return Err(DecodeError::BadField);
        }
        if off % 8 != 0 {
            return Err(DecodeError::BadField);
        }
        Ok(())
    }
}

/// The data areas of two descriptors share at least one byte.
pub open spec fn spec_overlap(a: RingDesc, b: RingDesc) -> bool {
    a.offset < b.offset + b.size && b.offset < a.offset + a.size
}

/// Decoded channel header (fixed fields only).
#[derive(Debug, Clone, Copy, PartialEq, Eq)]
pub struct ChannelHeader {
    /// Must equal `CHANNEL_MAGIC`.
    pub magic: u64,
    /// Must equal `PROTO_VERSION`.
    pub proto_version: u32,
    /// `FLAG_AGENT_READY` | `FLAG_WORKLOAD_ATTACHED`.
    pub header_flags: u32,
    /// Descriptors for rings C, I, A, W in that order.
    pub ring_desc: [RingDesc; 4],
}

/// The spec-canonical header: proto v1, canonical ring placement, no flags.
pub open spec fn spec_canonical_header() -> ChannelHeader {
    ChannelHeader {
        magic: CHANNEL_MAGIC,
        proto_version: PROTO_VERSION,
        header_flags: 0,
        ring_desc: [
            spec_canonical_desc(RingId::C),
            spec_canonical_desc(RingId::I),
            spec_canonical_desc(RingId::A),
            spec_canonical_desc(RingId::W),
        ],
    }
}

/// Wire bytes of one descriptor.
pub open spec fn spec_desc_bytes(d: RingDesc) -> Seq<u8> {
    b32(d.offset) + b32(d.size)
}

/// Wire bytes `0x000..0x030` of a channel header.
pub open spec fn spec_channel_header_bytes(h: ChannelHeader) -> Seq<u8> {
    b64(h.magic) + b32(h.proto_version) + b32(h.header_flags) + spec_desc_bytes(
        h.ring_desc[0],
    ) + spec_desc_bytes(h.ring_desc[1]) + spec_desc_bytes(h.ring_desc[2]) + spec_desc_bytes(
        h.ring_desc[3],
    )
}

/// Descriptor `i` as stored in `s`.
pub open spec fn spec_parse_desc(s: Seq<u8>, i: int) -> RingDesc {
    RingDesc { offset: le32(s, OFF_RING_DESC + i * 8), size: le32(s, OFF_RING_DESC + i * 8 + 4) }
}

/// The header fields as stored at the start of `s` (at least 0x30 bytes).
pub open spec fn spec_parse_channel_header(s: Seq<u8>) -> ChannelHeader {
    ChannelHeader {
        magic: le64(s, 0),
        proto_version: le32(s, 8),
        header_flags: le32(s, 12),
        ring_desc: [
            spec_parse_desc(s, 0),
            spec_parse_desc(s, 1),
            spec_parse_desc(s, 2),
            spec_parse_desc(s, 3),
        ],
    }
}

/// Attach-path validation outcome.
pub open spec fn spec_validate_header(h: ChannelHeader) -> Result<(), DecodeError> {
    if h.magic != CHANNEL_MAGIC {
        Err(DecodeError::BadMagic)
    } else if h.proto_version != PROTO_VERSION {
        Err(DecodeError::BadVersion)
    } else if !(forall|i: int| 0 <= i < 4 ==> spec_desc_ok(#[trigger] h.ring_desc[i])) {
        Err(DecodeError::BadField)
    } else if exists|i: int, j: int|
        0 <= i < j < 4 && spec_overlap(#[trigger] h.ring_desc[i], #[trigger] h.ring_desc[j]) {
        Err(DecodeError::BadField)
    } else {
        Ok(())
    }
}

/// Byte offset `x` of the channel page lies in the data area `d`.
pub open spec fn spec_in_area(d: RingDesc, x: int) -> bool {
    d.offset <= x < d.offset + d.size
}

/// What a header that validates guarantees: the magic and version are
/// this protocol's, every ring's data area lies in the page past the
/// header and manifest, and no byte belongs to two different rings (for
/// every pair of rings, not only neighbours).
pub proof fn lemma_valid_header_rings_disjoint(h: ChannelHeader)
    requires
        spec_validate_header(h) is Ok,
    ensures
        h.magic == CHANNEL_MAGIC,
        h.proto_version == PROTO_VERSION,
        forall|i: int, x: int|
            0 <= i < 4 && #[trigger] spec_in_area(h.ring_desc[i], x) ==> OFF_RING_C_DATA <= x < CHANNEL_SIZE,
        forall|i: int, j: int, x: int|
            0 <= i < 4 && 0 <= j < 4 && i != j && #[trigger] spec_in_area(h.ring_desc[i], x)
                ==> !#[trigger] spec_in_area(h.ring_desc[j], x),
{
    assert forall|i: int, j: int, x: int|
        0 <= i < 4 && 0 <= j < 4 && i != j && #[trigger] spec_in_area(h.ring_desc[i], x) implies !#[trigger] spec_in_area(h.ring_desc[j], x) by {
        if spec_in_area(h.ring_desc[j], x) {
            if i < j {
                assert(spec_overlap(h.ring_desc[i], h.ring_desc[j]));
            } else {
                assert(spec_overlap(h.ring_desc[j], h.ring_desc[i]));
            }
        }
    }
    assert forall|i: int, x: int| 0 <= i < 4 && #[trigger] spec_in_area(h.ring_desc[i], x) implies OFF_RING_C_DATA <= x < CHANNEL_SIZE by {
        assert(spec_desc_ok(h.ring_desc[i]));
    }
}

/// Conversely, a header in which two different rings share a byte does
/// not validate: it is refused with `BadField` (or earlier, for a wrong
/// magic or version).
pub proof fn lemma_shared_byte_refused(h: ChannelHeader, i: int, j: int, x: int)
    requires
        0 <= i < 4,
        0 <= j < 4,
        i != j,
        spec_in_area(h.ring_desc[i], x),
        spec_in_area(h.ring_desc[j], x),
    ensures
        spec_validate_header(h) is Err,
        h.magic == CHANNEL_MAGIC && h.proto_version == PROTO_VERSION ==> spec_validate_header(h)
            == Err::<(), DecodeError>(DecodeError::BadField),
{
    if spec_validate_header(h) is Ok {
        lemma_valid_header_rings_disjoint(h);
    }
}

impl ChannelHeader {
    /// A spec-canonical header: proto v1, canonical ring placement, no flags.
    pub fn canonical() -> (r: Self)
        ensures
            r == spec_canonical_header(),
    {
        ChannelHeader {
            magic: CHANNEL_MAGIC,
            proto_version: PROTO_VERSION,
            header_flags: 0,
            ring_desc: [
                RingId::C.canonical_desc(),
                RingId::I.canonical_desc(),
                RingId::A.canonical_desc(),
                RingId::W.canonical_desc(),
            ],
        }
    }

    /// Serialize the fixed header fields into the start of a channel page
    /// (bytes `0x000..0x030` only; counters and index cells are untouched).
    pub fn write_to(&self, buf: &mut [u8]) -> (r: Result<(), EncodeError>)
        ensures
            r is Err <==> old(buf)@.len() < OFF_RESERVED,
            r is Err ==> r == Err::<(), EncodeError>(EncodeError::BufferTooSmall) && final(buf)@
                == old(buf)@,
            r is Ok ==> final(buf)@ == splice(old(buf)@, 0, spec_channel_header_bytes(*self)),
    {
        if buf.len() < OFF_RESERVED {
            return Err(EncodeError::BufferTooSmall);
        }
        let mut v: Vec<u8> = Vec::new();
        push_u64(&mut v, self.magic);
        push_u32(&mut v, self.proto_version);
        push_u32(&mut v, self.header_flags);
        let mut i: usize = 0;
        while i < 4
            invariant
                i <= 4,
                v@ == b64(self.magic) + b32(self.proto_version) + b32(self.header_flags)
                    + descs_bytes(self.ring_desc@, i as int),
            decreases 4 - i,
        {
            let d = self.ring_desc[i];
            push_u32(&mut v, d.offset);
            push_u32(&mut v, d.size);
            proof {
                assert(self.ring_desc@[i as int] == self.ring_desc[i as int]);
                assert(descs_bytes(self.ring_desc@, i + 1) =~= descs_bytes(self.ring_desc@, i as int)
                    + spec_desc_bytes(d));
            }
            i = i + 1;
        }
        proof {
            lemma_le_round_trips();
            reveal_with_fuel(descs_bytes, 5);
            assert(descs_bytes(self.ring_desc@, 4) =~= spec_desc_bytes(self.ring_desc[0])
                + spec_desc_bytes(self.ring_desc[1]) + spec_desc_bytes(self.ring_desc[2])
                + spec_desc_bytes(self.ring_desc[3]));
            assert(v@ =~= spec_channel_header_bytes(*self));
            assert(spec_channel_header_bytes(*self).len() == 48);
        }
        write_at(buf, 0, v.as_slice());
        Ok(())
    }

    /// Decode the fixed header fields from the start of a channel page.
    /// Pure parse — no validation beyond length.
    pub fn read_from(buf: &[u8]) -> (r: Result<Self, DecodeError>)
        ensures
            buf@.len() < OFF_RESERVED ==> r == Err::<ChannelHeader, DecodeError>(
                DecodeError::Truncated,
            ),
            buf@.len() >= OFF_RESERVED ==> r == Ok::<ChannelHeader, DecodeError>(
                spec_parse_channel_header(buf@),
            ),
    {
        if buf.len() < OFF_RESERVED {
            return Err(DecodeError::Truncated);
        }
        let magic = get_u64(buf, OFF_MAGIC);
        let proto_version = get_u32(buf, OFF_PROTO_VERSION);
        let header_flags = get_u32(buf, OFF_HEADER_FLAGS);
        let d0 = RingDesc { offset: get_u32(buf, 0x10), size: get_u32(buf, 0x14) };
        let d1 = RingDesc { offset: get_u32(buf, 0x18), size: get_u32(buf, 0x1C) };
        let d2 = RingDesc { offset: get_u32(buf, 0x20), size: get_u32(buf, 0x24) };
        let d3 = RingDesc { offset: get_u32(buf, 0x28), size: get_u32(buf, 0x2C) };
        Ok(ChannelHeader { magic, proto_version, header_flags, ring_desc: [d0, d1, d2, d3] })
    }

    /// Attach-path validation: magic, version, every ring descriptor inside
    /// the page with power-of-two size, and no two ring data areas
    /// overlapping (two SPSC rings aliasing the same bytes would break the
    /// single-owner discipline).
    pub fn validate(&self) -> (r: Result<(), DecodeError>)
        ensures
            r == spec_validate_header(*self),
    {
        if self.magic != CHANNEL_MAGIC {
            return Err(DecodeError::BadMagic);
        }
        if self.proto_version != PROTO_VERSION {
            return Err(DecodeError::BadVersion);
        }
        let mut k: usize = 0;
        while k < 4
            invariant
                k <= 4,
                self.magic == CHANNEL_MAGIC,
                self.proto_version == PROTO_VERSION,
                forall|i: int| 0 <= i < k ==> spec_desc_ok(#[trigger] self.ring_desc[i]),
            decreases 4 - k,
        {
            if self.ring_desc[k].validate().is_err() {
                assert(!spec_desc_ok(self.ring_desc[k as int]));
                return Err(DecodeError::BadField);
            }
            k = k + 1;
        }
        let mut i: usize = 0;
        while i < 4
            invariant
                i <= 4,
                self.magic == CHANNEL_MAGIC,
                self.proto_version == PROTO_VERSION,
                forall|q: int| 0 <= q < 4 ==> spec_desc_ok(#[trigger] self.ring_desc[q]),
                forall|a: int, b: int|
                    0 <= a < i && a < b < 4 ==> !spec_overlap(
                        #[trigger] self.ring_desc[a],
                        #[trigger] self.ring_desc[b],
                    ),
            decreases 4 - i,
        {
            let mut j: usize = i + 1;
            while j < 4
                invariant
                    i < 4,
                    i + 1 <= j <= 4,
                    self.magic == CHANNEL_MAGIC,
                    self.proto_version == PROTO_VERSION,
                    forall|q: int| 0 <= q < 4 ==> spec_desc_ok(#[trigger] self.ring_desc[q]),
                    forall|a: int, b: int|
                        0 <= a < i && a < b < 4 ==> !spec_overlap(
                            #[trigger] self.ring_desc[a],
                            #[trigger] self.ring_desc[b],
                        ),
                    forall|b: int|
                        i < b < j ==> !spec_overlap(self.ring_desc[i as int], #[trigger] self.ring_desc[b]),
                decreases 4 - j,
            {
                let a = self.ring_desc[i];
                let b = self.ring_desc[j];
                let a_end = a.offset as u64 + a.size as u64;
                let b_end = b.offset as u64 + b.size as u64;
                if (a.offset as u64) < b_end && (b.offset as u64) < a_end {
                    assert(spec_overlap(self.ring_desc[i as int], self.ring_desc[j as int]));
                    return Err(DecodeError::BadField);
                }
                j = j + 1;
            }
            i = i + 1;
        }
        Ok(())
    }
}

/// Concatenated wire bytes of the first `n` descriptors.
pub open spec fn descs_bytes(d: Seq<RingDesc>, n: int) -> Seq<u8>
    decreases n,
{
    if n <= 0 {
        Seq::empty()
    } else {
        descs_bytes(d, n - 1) + spec_desc_bytes(d[n - 1])
    }
}

/// Reading a written header gives it back.
pub proof fn lemma_channel_header_round_trip(h: ChannelHeader, page: Seq<u8>)
    requires
        page.len() >= OFF_RESERVED,
    ensures
        spec_parse_channel_header(splice(page, 0, spec_channel_header_bytes(h))) == h,
{
    lemma_le_round_trips();
    let s = splice(page, 0, spec_channel_header_bytes(h));
    let hb = spec_channel_header_bytes(h);
    assert(hb.len() == 48);
    assert(s.subrange(0, 8) =~= b64(h.magic));
    assert(s.subrange(8, 12) =~= b32(h.proto_version));
    assert(s.subrange(12, 16) =~= b32(h.header_flags));
    assert(s.subrange(16, 20) =~= b32(h.ring_desc[0].offset));
    assert(s.subrange(20, 24) =~= b32(h.ring_desc[0].size));
    assert(s.subrange(24, 28) =~= b32(h.ring_desc[1].offset));
    assert(s.subrange(28, 32) =~= b32(h.ring_desc[1].size));
    assert(s.subrange(32, 36) =~= b32(h.ring_desc[2].offset));
    assert(s.subrange(36, 40) =~= b32(h.ring_desc[2].size));
    assert(s.subrange(40, 44) =~= b32(h.ring_desc[3].offset));
    assert(s.subrange(44, 48) =~= b32(h.ring_desc[3].size));
    let p = spec_parse_channel_header(s);
    assert(p.ring_desc =~= h.ring_desc);
}

/// The canonical header passes attach validation.
pub proof fn lemma_canonical_header_validates()
    ensures
        spec_validate_header(spec_canonical_header()) is Ok,
{
    let h = spec_canonical_header();
    assert(spec_is_pow2(RING_C_SIZE)) by (bit_vector);
    assert(spec_is_pow2(RING_A_SIZE)) by (bit_vector);
    assert(spec_is_pow2(RING_W_SIZE)) by (bit_vector);
    assert forall|i: int| 0 <= i < 4 implies spec_desc_ok(#[trigger] h.ring_desc[i]) by {}
    assert forall|i: int, j: int| 0 <= i < j < 4 implies !spec_overlap(
        #[trigger] h.ring_desc[i],
        #[trigger] h.ring_desc[j],
    ) by {}
}

} // verus!

//! Region manifest: layout, entry/extent codecs and seqlock helpers.
//!
//! All functions take the manifest area slice (starting at
//! `header::OFF_MANIFEST`) and use offsets relative to it. Seqlock
//! discipline: the agent is the only writer — `generation += 1` (odd),
//! mutate, `generation += 1` (even); readers copy while `generation` is
//! even and unchanged across the copy. Fencing is the caller's concern.
use super::bytes::{b16, b32, b64, get_u16, get_u32, get_u64, le16, le32, le64, lemma_le_round_trips, push_u16, push_u32, push_u64, push_zeros, splice, write_at, zeros};
use super::{DecodeError, EncodeError};
use vstd::prelude::*;

verus! {

/// Manifest magic `"DTDF"` as a little-endian u32.
pub const MANIFEST_MAGIC: u32 = 0x4644_5444;
/// Manifest format version this crate implements.
pub const MANIFEST_VERSION: u16 = 1;
/// Region slots.
pub const REGION_CAPACITY: usize = 64;
/// Extent pool slots.
pub const EXTENT_CAPACITY: usize = 1024;
/// Hard cap on a region name, bytes (NUL-padded in the entry).
pub const MAX_REGION_NAME: usize = 56;
/// `RegionEntry.flags` bit 31: entry unregistered; slot retained.
pub const REGION_FLAG_DEAD: u32 = 0x8000_0000;
/// Region flag: the host treats contents as a framebuffer.
pub const REGION_FLAG_FRAMEBUFFER: u32 = 1;
/// Region flag: contents change every step.
pub const REGION_FLAG_HOT: u32 = 2;
/// Region flag: host may write this region (reserved).
pub const REGION_FLAG_HOST_WRITABLE: u32 = 4;
/// Header offset.
pub const OFF_HEADER: usize = 0x0;
/// `generation` offset (u64) — the seqlock word.
pub const OFF_GENERATION: usize = 0x8;
/// First region entry offset.
pub const OFF_ENTRIES: usize = 0x20;
/// Region entry stride.
pub const REGION_ENTRY_SIZE: usize = 96;
/// Extent pool offset.
pub const OFF_EXTENTS: usize = 0x1820;
/// Extent stride.
pub const EXTENT_SIZE: usize = 16;
/// Total manifest bytes.
pub const MANIFEST_TOTAL_SIZE: usize = 0x5820;

/// Decoded manifest header.
#[derive(Debug, Clone, Copy, PartialEq, Eq, Structural)]
pub struct ManifestHeader {
    /// Must equal `MANIFEST_MAGIC`.
    pub magic: u32,
    /// Must equal `MANIFEST_VERSION`.
    pub manifest_version: u16,
    /// Must equal `REGION_CAPACITY`.
    pub region_capacity: u16,
    /// Seqlock generation: odd while the agent is writing.
    pub generation: u64,
    /// Live entries (dead entries keep their slots).
    pub region_count: u32,
    /// Used slots in the extent pool.
    pub extent_count: u32,
}

/// The 32 header bytes (the last 8 reserved, zero).
pub open spec fn spec_manifest_header_bytes(h: ManifestHeader) -> Seq<u8> {
    b32(h.magic) + b16(h.manifest_version) + b16(h.region_capacity) + b64(h.generation) + b32(
        h.region_count,
    ) + b32(h.extent_count) + zeros(8)
}

/// The header as stored at the start of `m` (at least 0x20 bytes).
pub open spec fn spec_parse_manifest_header(m: Seq<u8>) -> ManifestHeader {
    ManifestHeader {
        magic: le32(m, 0),
        manifest_version: le16(m, 4),
        region_capacity: le16(m, 6),
        generation: le64(m, 8),
        region_count: le32(m, 16),
        extent_count: le32(m, 20),
    }
}

/// Host-side validation outcome.
pub open spec fn spec_validate_manifest_header(h: ManifestHeader) -> Result<(), DecodeError> {
    if h.magic != MANIFEST_MAGIC {
        Err(DecodeError::BadMagic)
    } else if h.manifest_version != MANIFEST_VERSION {
        Err(DecodeError::BadVersion)
    } else if h.region_capacity != REGION_CAPACITY || h.region_count > REGION_CAPACITY
        || h.extent_count > EXTENT_CAPACITY {
        Err(DecodeError::BadField)
    } else {
        Ok(())
    }
}

/// The header `init_manifest` writes.
pub open spec fn spec_empty_manifest_header() -> ManifestHeader {
    ManifestHeader {
        magic: MANIFEST_MAGIC,
        manifest_version: MANIFEST_VERSION,
        region_capacity: REGION_CAPACITY as u16,
        generation: 0,
        region_count: 0,
        extent_count: 0,
    }
}

impl ManifestHeader {
    /// Parse from the manifest area.
    pub fn read_from(m: &[u8]) -> (r: Result<ManifestHeader, DecodeError>)
        ensures
            m@.len() < OFF_ENTRIES ==> r == Err::<ManifestHeader, DecodeError>(
                DecodeError::Truncated,
            ),
            m@.len() >= OFF_ENTRIES ==> r == Ok::<ManifestHeader, DecodeError>(
                spec_parse_manifest_header(m@),
            ),
    {
        if m.len() < OFF_ENTRIES {
            return Err(DecodeError::Truncated);
        }
        Ok(
            ManifestHeader {
                magic: get_u32(m, 0),
                manifest_version: get_u16(m, 4),
                region_capacity: get_u16(m, 6),
                generation: get_u64(m, 8),
                region_count: get_u32(m, 16),
                extent_count: get_u32(m, 20),
            },
        )
    }

    /// Serialize into the manifest area (the 8 reserved bytes are zeroed).
    pub fn write_to(&self, m: &mut [u8]) -> (r: Result<(), EncodeError>)
        ensures
            r is Err <==> old(m)@.len() < OFF_ENTRIES,
            r is Err ==> r == Err::<(), EncodeError>(EncodeError::BufferTooSmall) && final(m)@
                == old(m)@,
            r is Ok ==> final(m)@ == splice(old(m)@, 0, spec_manifest_header_bytes(*self)),
    {
        if m.len() < OFF_ENTRIES {
            return Err(EncodeError::BufferTooSmall);
        }
        let mut v: Vec<u8> = Vec::new();
        push_u32(&mut v, self.magic);
        push_u16(&mut v, self.manifest_version);
        push_u16(&mut v, self.region_capacity);
        push_u64(&mut v, self.generation);
        push_u32(&mut v, self.region_count);
        push_u32(&mut v, self.extent_count);
        push_zeros(&mut v, 8);
        proof {
            lemma_le_round_trips();
            assert(v@ =~= spec_manifest_header_bytes(*self));
        }
        write_at(m, 0, v.as_slice());
        Ok(())
    }

    /// Host-side validation: magic, version, capacity, counts within bounds.
    pub fn validate(&self) -> (r: Result<(), DecodeError>)
        ensures
            r == spec_validate_manifest_header(*self),
    {
        if self.magic != MANIFEST_MAGIC {
            return Err(DecodeError::BadMagic);
        }
        if self.manifest_version != MANIFEST_VERSION {
            return Err(DecodeError::BadVersion);
        }
        if self.region_capacity as usize != REGION_CAPACITY || self.region_count as usize
            > REGION_CAPACITY || self.extent_count as usize > EXTENT_CAPACITY {
            return Err(DecodeError::BadField);
        }
        Ok(())
    }
}

/// One region entry (96 bytes on the wire).
#[derive(Debug, Clone, Copy, PartialEq, Eq)]
pub struct RegionEntry {
    /// Slot index; stable for the life of the channel.
    pub region_id: u32,
    /// Intern id (name also inlined below).
    pub name_id: u32,
    /// Workload-declared layout version.
    pub layout_version: u32,
    /// Region flags; bit 31 = DEAD.
    pub flags: u32,
    /// Guest-virtual base (informational).
    pub gva: u64,
    /// Region length in bytes.
    pub len: u64,
    /// Index of the first extent in the pool.
    pub extent_off: u32,
    /// Number of extents.
    pub extent_n: u32,
    /// UTF-8 name, NUL-padded to 56 bytes.
    pub name: [u8; 56],
}

/// Byte offset of entry `i` within the manifest area.
pub open spec fn spec_entry_offset(i: int) -> int {
    OFF_ENTRIES + i * REGION_ENTRY_SIZE
}

/// The 96 wire bytes of an entry.
pub open spec fn spec_entry_bytes(e: RegionEntry) -> Seq<u8> {
    b32(e.region_id) + b32(e.name_id) + b32(e.layout_version) + b32(e.flags) + b64(e.gva) + b64(
        e.len,
    ) + b32(e.extent_off) + b32(e.extent_n) + e.name@
}

/// `e` is the entry stored at byte offset `at` of `m`.
pub open spec fn spec_entry_at(e: RegionEntry, m: Seq<u8>, at: int) -> bool {
    &&& e.region_id == le32(m, at)
    &&& e.name_id == le32(m, at + 4)
    &&& e.layout_version == le32(m, at + 8)
    &&& e.flags == le32(m, at + 12)
    &&& e.gva == le64(m, at + 16)
    &&& e.len == le64(m, at + 24)
    &&& e.extent_off == le32(m, at + 32)
    &&& e.extent_n == le32(m, at + 36)
    &&& e.name@ == m.subrange(at + 40, at + 96)
}

/// Length of the name up to the first NUL (56 when there is none).
pub open spec fn spec_name_len(name: Seq<u8>) -> int
    decreases name.len(),
{
    if name.len() == 0 {
        0
    } else if name[0] == 0 {
        0
    } else {
        1 + spec_name_len(name.subrange(1, name.len() as int))
    }
}

/// The NUL-padded name field for `name` (at most 56 bytes).
pub open spec fn spec_packed_name(name: Seq<u8>) -> Seq<u8> {
    name + zeros((MAX_REGION_NAME - name.len()) as nat)
}

impl RegionEntry {
    /// Byte offset of entry `i` within the manifest area.
    pub fn offset(i: usize) -> (r: usize)
        requires
            spec_entry_offset(i as int) <= usize::MAX,
        ensures
            r == spec_entry_offset(i as int),
    {
        OFF_ENTRIES + i * REGION_ENTRY_SIZE
    }

    /// Build the NUL-padded name field; `Err` if over `MAX_REGION_NAME`.
    pub fn pack_name(name: &[u8]) -> (r: Result<[u8; 56], EncodeError>)
        ensures
            name@.len() > MAX_REGION_NAME ==> r == Err::<[u8; 56], EncodeError>(
                EncodeError::FieldTooLong,
            ),
            name@.len() <= MAX_REGION_NAME ==> r is Ok && r->Ok_0@ == spec_packed_name(name@),
    {
        if name.len() > MAX_REGION_NAME {
            return Err(EncodeError::FieldTooLong);
        }
        let mut out = [0u8; 56];
        let mut i: usize = 0;
        while i < name.len()
            invariant
                name@.len() <= 56,
                i <= name@.len(),
                out@.len() == 56,
                forall|k: int| 0 <= k < 56 ==> #[trigger] out@[k] == if k < i {
                    name@[k]
                } else {
                    0u8
                },
            decreases name@.len() - i,
        {
            out[i] = name[i];
            i = i + 1;
        }
        assert(out@ =~= spec_packed_name(name@));
        Ok(out)
    }

    /// The live name bytes (up to the first NUL).
    pub fn name_bytes(&self) -> (r: &[u8])
        ensures
            r@ == self.name@.subrange(0, spec_name_len(self.name@)),
            forall|k: int| 0 <= k < r@.len() ==> r@[k] != 0,
    {
        let mut end: usize = 0;
        while end < MAX_REGION_NAME && self.name[end] != 0
            invariant
                end <= 56,
                self.name@.len() == 56,
                forall|k: int| 0 <= k < end ==> self.name@[k] != 0,
            decreases 56 - end,
        {
            end = end + 1;
        }
        proof {
            lemma_name_len(self.name@, end as int);
        }
        &self.name.as_slice()[0..end]
    }

    /// Entry is live (not DEAD).
    pub fn is_live(&self) -> (r: bool)
        ensures
            r == (self.flags & REGION_FLAG_DEAD == 0),
    {
        self.flags & REGION_FLAG_DEAD == 0
    }

    /// Parse entry `i` from the manifest area.
    pub fn read_from(m: &[u8], i: usize) -> (r: Result<RegionEntry, DecodeError>)
        ensures
            i >= REGION_CAPACITY ==> r == Err::<RegionEntry, DecodeError>(DecodeError::BadField),
            i < REGION_CAPACITY && m@.len() < spec_entry_offset(i as int) + REGION_ENTRY_SIZE ==> r
                == Err::<RegionEntry, DecodeError>(DecodeError::Truncated),
            i < REGION_CAPACITY && m@.len() >= spec_entry_offset(i as int) + REGION_ENTRY_SIZE ==> r
                is Ok && spec_entry_at(r->Ok_0, m@, spec_entry_offset(i as int)),
    {
        if i >= REGION_CAPACITY {
            return Err(DecodeError::BadField);
        }
        let at = Self::offset(i);
        if m.len() < at + REGION_ENTRY_SIZE {
            return Err(DecodeError::Truncated);
        }
        let mut name = [0u8; 56];
        let _n = m.len();
        let mut k: usize = 0;
        while k < 56
            invariant
                at + 96 <= m@.len(),
                m@.len() <= usize::MAX,
                k <= 56,
                name@.len() == 56,
                forall|j: int| 0 <= j < k ==> #[trigger] name@[j] == m@[at + 40 + j],
            decreases 56 - k,
        {
            name[k] = m[at + 40 + k];
            k = k + 1;
        }
        assert(name@ =~= m@.subrange(at + 40, at + 96));
        Ok(
            RegionEntry {
                region_id: get_u32(m, at),
                name_id: get_u32(m, at + 4),
                layout_version: get_u32(m, at + 8),
                flags: get_u32(m, at + 12),
                gva: get_u64(m, at + 16),
                len: get_u64(m, at + 24),
                extent_off: get_u32(m, at + 32),
                extent_n: get_u32(m, at + 36),
                name,
            },
        )
    }

    /// Serialize into slot `i` of the manifest area.
    pub fn write_to(&self, m: &mut [u8], i: usize) -> (r: Result<(), EncodeError>)
        ensures
            i >= REGION_CAPACITY ==> r == Err::<(), EncodeError>(EncodeError::FieldTooLong)
                && final(m)@ == old(m)@,
            i < REGION_CAPACITY && old(m)@.len() < spec_entry_offset(i as int) + REGION_ENTRY_SIZE
                ==> r == Err::<(), EncodeError>(EncodeError::BufferTooSmall) && final(m)@ == old(
                m,
            )@,
            i < REGION_CAPACITY && old(m)@.len() >= spec_entry_offset(i as int) + REGION_ENTRY_SIZE
                ==> r is Ok && final(m)@ == splice(
                old(m)@,
                spec_entry_offset(i as int),
                spec_entry_bytes(*self),
            ),
    {
        if i >= REGION_CAPACITY {
            return Err(EncodeError::FieldTooLong);
        }
        let at = Self::offset(i);
        if m.len() < at + REGION_ENTRY_SIZE {
            return Err(EncodeError::BufferTooSmall);
        }
        let mut v: Vec<u8> = Vec::new();
        push_u32(&mut v, self.region_id);
        push_u32(&mut v, self.name_id);
        push_u32(&mut v, self.layout_version);
        push_u32(&mut v, self.flags);
        push_u64(&mut v, self.gva);
        push_u64(&mut v, self.len);
        push_u32(&mut v, self.extent_off);
        push_u32(&mut v, self.extent_n);
        let mut k: usize = 0;
        let ghost before = v@;
        while k < 56
            invariant
                k <= 56,
                self.name@.len() == 56,
                v@ == before + self.name@.subrange(0, k as int),
            decreases 56 - k,
        {
            v.push(self.name[k]);
            k = k + 1;
            assert(v@ =~= before + self.name@.subrange(0, k as int));
        }
        proof {
            lemma_le_round_trips();
            assert(self.name@.subrange(0, 56) =~= self.name@);
            assert(v@ =~= spec_entry_bytes(*self));
        }
        write_at(m, at, v.as_slice());
        Ok(())
    }

    /// Bounds-check this entry's extent range against the pool in use.
    pub fn validate_extents(&self, hdr: &ManifestHeader) -> (r: Result<(), DecodeError>)
        ensures
            r is Ok <==> self.extent_off + self.extent_n <= hdr.extent_count,
            r is Err ==> r == Err::<(), DecodeError>(DecodeError::BadField),
    {
        let off = self.extent_off as u64;
        let n = self.extent_n as u64;
        if off + n <= hdr.extent_count as u64 {
            Ok(())
        } else {
            Err(DecodeError::BadField)
        }
    }
}

proof fn lemma_name_len(name: Seq<u8>, end: int)
    requires
        0 <= end <= name.len(),
        forall|k: int| 0 <= k < end ==> name[k] != 0,
        end == name.len() || name[end] == 0,
    ensures
        spec_name_len(name) == end,
    decreases end,
{
    if end > 0 {
        let t = name.subrange(1, name.len() as int);
        assert forall|k: int| 0 <= k < end - 1 implies t[k] != 0 by {
            assert(t[k] == name[k + 1]);
        }
        if end < name.len() {
            assert(t[end - 1] == name[end]);
        }
        lemma_name_len(t, end - 1);
    }
}

/// One extent in the pool: a contiguous guest-physical range.
#[derive(Debug, Clone, Copy, PartialEq, Eq, Structural)]
pub struct Extent {
    /// Guest-physical base.
    pub gpa: u64,
    /// Length in bytes. Extents of one region are concatenated in order.
    pub len: u64,
}

/// Byte offset of extent `i` within the manifest area.
pub open spec fn spec_extent_offset(i: int) -> int {
    OFF_EXTENTS + i * EXTENT_SIZE
}

impl Extent {
    /// Byte offset of extent `i` within the manifest area.
    pub fn offset(i: usize) -> (r: usize)
        requires
            spec_extent_offset(i as int) <= usize::MAX,
        ensures
            r == spec_extent_offset(i as int),
    {
        OFF_EXTENTS + i * EXTENT_SIZE
    }

    /// Parse extent `i` from the manifest area.
    pub fn read_from(m: &[u8], i: usize) -> (r: Result<Extent, DecodeError>)
        ensures
            i >= EXTENT_CAPACITY ==> r == Err::<Extent, DecodeError>(DecodeError::BadField),
            i < EXTENT_CAPACITY && m@.len() < spec_extent_offset(i as int) + EXTENT_SIZE ==> r
                == Err::<Extent, DecodeError>(DecodeError::Truncated),
            i < EXTENT_CAPACITY && m@.len() >= spec_extent_offset(i as int) + EXTENT_SIZE ==> r
                == Ok::<Extent, DecodeError>(
                Extent {
                    gpa: le64(m@, spec_extent_offset(i as int)),
                    len: le64(m@, spec_extent_offset(i as int) + 8),
                },
            ),
    {
        if i >= EXTENT_CAPACITY {
            return Err(DecodeError::BadField);
        }
        let at = Self::offset(i);
        if m.len() < at + EXTENT_SIZE {
            return Err(DecodeError::Truncated);
        }
        Ok(Extent { gpa: get_u64(m, at), len: get_u64(m, at + 8) })
    }

    /// Serialize into pool slot `i`.
    pub fn write_to(&self, m: &mut [u8], i: usize) -> (r: Result<(), EncodeError>)
        ensures
            i >= EXTENT_CAPACITY ==> r == Err::<(), EncodeError>(EncodeError::FieldTooLong)
                && final(m)@ == old(m)@,
            i < EXTENT_CAPACITY && old(m)@.len() < spec_extent_offset(i as int) + EXTENT_SIZE ==> r
                == Err::<(), EncodeError>(EncodeError::BufferTooSmall) && final(m)@ == old(m)@,
            i < EXTENT_CAPACITY && old(m)@.len() >= spec_extent_offset(i as int) + EXTENT_SIZE
                ==> r is Ok && final(m)@ == splice(
                old(m)@,
                spec_extent_offset(i as int),
                b64(self.gpa) + b64(self.len),
            ),
    {
        if i >= EXTENT_CAPACITY {
            return Err(EncodeError::FieldTooLong);
        }
        let at = Self::offset(i);
        if m.len() < at + EXTENT_SIZE {
            return Err(EncodeError::BufferTooSmall);
        }
        let mut v: Vec<u8> = Vec::new();
        push_u64(&mut v, self.gpa);
        push_u64(&mut v, self.len);
        proof {
            lemma_le_round_trips();
        }
        write_at(m, at, v.as_slice());
        Ok(())
    }
}

/// Initialize an empty manifest: canonical header, generation 0, zero
/// counts.
pub fn init_manifest(m: &mut [u8]) -> (r: Result<(), EncodeError>)
    ensures
        r is Err <==> old(m)@.len() < OFF_ENTRIES,
        r is Err ==> final(m)@ == old(m)@,
        r is Ok ==> final(m)@ == splice(
            old(m)@,
            0,
            spec_manifest_header_bytes(spec_empty_manifest_header()),
        ),
{
    ManifestHeader {
        magic: MANIFEST_MAGIC,
        manifest_version: MANIFEST_VERSION,
        region_capacity: 64,
        generation: 0,
        region_count: 0,
        extent_count: 0,
    }.write_to(m)
}

/// Read the seqlock generation word.
pub fn read_generation(m: &[u8]) -> (r: Result<u64, DecodeError>)
    ensures
        m@.len() < OFF_GENERATION + 8 ==> r == Err::<u64, DecodeError>(DecodeError::Truncated),
        m@.len() >= OFF_GENERATION + 8 ==> r == Ok::<u64, DecodeError>(
            le64(m@, OFF_GENERATION as int),
        ),
{
    if m.len() < OFF_GENERATION + 8 {
        return Err(DecodeError::Truncated);
    }
    Ok(get_u64(m, OFF_GENERATION))
}

/// Seqlock writer entry: bump an even generation to odd and return it.
/// Fails if a write is already open (odd generation) or the area is too
/// short; fails without writing if the generation is at `u64::MAX`.
pub fn writer_begin(m: &mut [u8]) -> (r: Result<u64, EncodeError>)
    ensures
        old(m)@.len() < OFF_GENERATION + 8 ==> r == Err::<u64, EncodeError>(
            EncodeError::BufferTooSmall,
        ),
        old(m)@.len() >= OFF_GENERATION + 8 && le64(old(m)@, OFF_GENERATION as int) % 2 != 0
            ==> r == Err::<u64, EncodeError>(EncodeError::SeqlockMisuse),
        old(m)@.len() >= OFF_GENERATION + 8 && le64(old(m)@, OFF_GENERATION as int) % 2 == 0
            ==> r == Ok::<u64, EncodeError>((le64(old(m)@, OFF_GENERATION as int) + 1) as u64)
            && final(m)@ == splice(old(m)@, OFF_GENERATION as int, b64(r->Ok_0)),
        r is Err ==> final(m)@ == old(m)@,
{
    let g = match read_generation(m) {
        Ok(g) => g,
        Err(_) => return Err(EncodeError::BufferTooSmall),
    };
    if g % 2 != 0 {
        return Err(EncodeError::SeqlockMisuse);
    }
    let new = g + 1;
    let mut v: Vec<u8> = Vec::new();
    push_u64(&mut v, new);
    proof {
        lemma_le_round_trips();
    }
    write_at(m, OFF_GENERATION, v.as_slice());
    Ok(new)
}

/// The generation after one bump (wrapping at the top of the range).
pub open spec fn spec_next_generation(g: u64) -> u64 {
    if g == u64::MAX {
        0
    } else {
        (g + 1) as u64
    }
}

/// Seqlock writer exit: bump an odd generation back to even and return
/// it. Fails if no write is open (even generation) or the area is too
/// short.
pub fn writer_end(m: &mut [u8]) -> (r: Result<u64, EncodeError>)
    ensures
        old(m)@.len() < OFF_GENERATION + 8 ==> r == Err::<u64, EncodeError>(
            EncodeError::BufferTooSmall,
        ),
        old(m)@.len() >= OFF_GENERATION + 8 && le64(old(m)@, OFF_GENERATION as int) % 2 != 1
            ==> r == Err::<u64, EncodeError>(EncodeError::SeqlockMisuse),
        old(m)@.len() >= OFF_GENERATION + 8 && le64(old(m)@, OFF_GENERATION as int) % 2 == 1
            ==> r == Ok::<u64, EncodeError>(spec_next_generation(le64(old(m)@, OFF_GENERATION as int)))
            && final(m)@ == splice(old(m)@, OFF_GENERATION as int, b64(r->Ok_0)),
        r is Err ==> final(m)@ == old(m)@,
{
    let g = match read_generation(m) {
        Ok(g) => g,
        Err(_) => return Err(EncodeError::BufferTooSmall),
    };
    if g % 2 != 1 {
        return Err(EncodeError::SeqlockMisuse);
    }
    let new = if g == u64::MAX {
        0
    } else {
        g + 1
    };
    let mut v: Vec<u8> = Vec::new();
    push_u64(&mut v, new);
    proof {
        lemma_le_round_trips();
    }
    write_at(m, OFF_GENERATION, v.as_slice());
    Ok(new)
}

/// The generation word stored after writing `g` into it.
pub proof fn lemma_generation_write(m: Seq<u8>, g: u64)
    requires
        m.len() >= OFF_GENERATION + 8,
    ensures
        le64(splice(m, OFF_GENERATION as int, b64(g)), OFF_GENERATION as int) == g,
        splice(m, OFF_GENERATION as int, b64(g)).len() == m.len(),
{
    lemma_le_round_trips();
    assert(splice(m, 8, b64(g)).subrange(8, 16) =~= b64(g));
}

/// Seqlock discipline: from an even generation, `writer_begin` opens an odd
/// write, a nested `writer_begin` is refused, `writer_end` closes it at
/// the next even value, and a second `writer_end` is refused.
pub proof fn lemma_seqlock_discipline(m: Seq<u8>)
    requires
        m.len() >= OFF_GENERATION + 8,
        le64(m, OFF_GENERATION as int) % 2 == 0,
        le64(m, OFF_GENERATION as int) < u64::MAX - 1,
    ensures
        ({
            let g = le64(m, OFF_GENERATION as int);
            let m1 = splice(m, OFF_GENERATION as int, b64((g + 1) as u64));
            let m2 = splice(m1, OFF_GENERATION as int, b64((g + 2) as u64));
            &&& le64(m1, OFF_GENERATION as int) == g + 1
            &&& le64(m1, OFF_GENERATION as int) % 2 == 1
            &&& le64(m2, OFF_GENERATION as int) == g + 2
            &&& le64(m2, OFF_GENERATION as int) % 2 == 0
        }),
{
    let g = le64(m, OFF_GENERATION as int);
    lemma_generation_write(m, (g + 1) as u64);
    let m1 = splice(m, OFF_GENERATION as int, b64((g + 1) as u64));
    lemma_generation_write(m1, (g + 2) as u64);
}

/// Reading back a written entry gives its fields and name.
pub proof fn lemma_entry_round_trip(e: RegionEntry, m: Seq<u8>, i: int)
    requires
        0 <= i < REGION_CAPACITY,
        m.len() >= spec_entry_offset(i) + REGION_ENTRY_SIZE,
    ensures
        spec_entry_at(e, splice(m, spec_entry_offset(i), spec_entry_bytes(e)), spec_entry_offset(i)),
{
    lemma_le_round_trips();
    let at = spec_entry_offset(i);
    let s = splice(m, at, spec_entry_bytes(e));
    assert(spec_entry_bytes(e).len() == 96);
    assert(s.subrange(at, at + 4) =~= b32(e.region_id));
    assert(s.subrange(at + 4, at + 8) =~= b32(e.name_id));
    assert(s.subrange(at + 8, at + 12) =~= b32(e.layout_version));
    assert(s.subrange(at + 12, at + 16) =~= b32(e.flags));
    assert(s.subrange(at + 16, at + 24) =~= b64(e.gva));
    assert(s.subrange(at + 24, at + 32) =~= b64(e.len));
    assert(s.subrange(at + 32, at + 36) =~= b32(e.extent_off));
    assert(s.subrange(at + 36, at + 40) =~= b32(e.extent_n));
    assert(s.subrange(at + 40, at + 96) =~= e.name@);
}

/// The live length of `name` followed by NUL padding (or nothing) is the
/// name's own length when the name holds no NUL.
proof fn lemma_name_len_of_padded(name: Seq<u8>, pad: Seq<u8>)
    requires
        forall|k: int| 0 <= k < name.len() ==> name[k] != 0,
        pad.len() == 0 || pad[0] == 0,
    ensures
        spec_name_len(name + pad) == name.len(),
    decreases name.len(),
{
    let s = name + pad;
    if name.len() > 0 {
        let t = name.subrange(1, name.len() as int);
        assert(s.subrange(1, s.len() as int) =~= t + pad);
        lemma_name_len_of_padded(t, pad);
    } else {
        assert(s =~= pad);
    }
}

/// The name step of the entry round trip: a name of at most
/// `MAX_REGION_NAME` bytes with no NUL, packed into the name field, is
/// what the field's live name reads back.
pub proof fn lemma_packed_name_round_trip(name: Seq<u8>)
    requires
        name.len() <= MAX_REGION_NAME,
        forall|k: int| 0 <= k < name.len() ==> name[k] != 0,
    ensures
        spec_name_len(spec_packed_name(name)) == name.len(),
        spec_packed_name(name).subrange(0, spec_name_len(spec_packed_name(name))) == name,
{
    let z = zeros((MAX_REGION_NAME - name.len()) as nat);
    lemma_name_len_of_padded(name, z);
    assert(spec_packed_name(name).subrange(0, name.len() as int) =~= name);
}

/// Reading back a written manifest header gives it back.
pub proof fn lemma_manifest_header_round_trip(h: ManifestHeader, m: Seq<u8>)
    requires
        m.len() >= OFF_ENTRIES,
    ensures
        spec_parse_manifest_header(splice(m, 0, spec_manifest_header_bytes(h))) == h,
{
    lemma_le_round_trips();
    let s = splice(m, 0, spec_manifest_header_bytes(h));
    assert(spec_manifest_header_bytes(h).len() == 32);
    assert(s.subrange(0, 4) =~= b32(h.magic));
    assert(s.subrange(4, 6) =~= b16(h.manifest_version));
    assert(s.subrange(6, 8) =~= b16(h.region_capacity));
    assert(s.subrange(8, 16) =~= b64(h.generation));
    assert(s.subrange(16, 20) =~= b32(h.region_count));
    assert(s.subrange(20, 24) =~= b32(h.extent_count));
}

/// Reading back a written extent gives it back.
pub proof fn lemma_extent_round_trip(x: Extent, m: Seq<u8>, i: int)
    requires
        0 <= i < EXTENT_CAPACITY,
        m.len() >= spec_extent_offset(i) + EXTENT_SIZE,
    ensures
        ({
            let s = splice(m, spec_extent_offset(i), b64(x.gpa) + b64(x.len));
            le64(s, spec_extent_offset(i)) == x.gpa && le64(s, spec_extent_offset(i) + 8) == x.len
        }),
{
    lemma_le_round_trips();
    let at = spec_extent_offset(i);
    let s = splice(m, at, b64(x.gpa) + b64(x.len));
    assert(s.subrange(at, at + 8) =~= b64(x.gpa));
    assert(s.subrange(at + 8, at + 16) =~= b64(x.len));
}

/// A freshly initialized manifest validates, at generation 0 with no
/// regions or extents.
pub proof fn lemma_init_manifest_validates(m: Seq<u8>)
    requires
        m.len() >= OFF_ENTRIES,
    ensures
        ({
            let h = spec_parse_manifest_header(
                splice(m, 0, spec_manifest_header_bytes(spec_empty_manifest_header())),
            );
            &&& h == spec_empty_manifest_header()
            &&& spec_validate_manifest_header(h) is Ok
        }),
{
    lemma_manifest_header_round_trip(spec_empty_manifest_header(), m);
}

} // verus!

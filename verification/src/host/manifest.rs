//! Seqlock-consistent manifest reads and extent-walking region reads.
use crate::host::channel::{spec_u64_at, Channel};
use crate::host::guestmem::{read_u64, spec_bytes_at, GuestMem, MemError};
use crate::host::sink::{RegionReadError, WireError};
use crate::wire::bytes::{bytes_eq, le32, le64};
use crate::wire::header::OFF_MANIFEST;
use crate::wire::manifest::{
    spec_entry_offset, spec_extent_offset, spec_name_len,
    spec_parse_manifest_header, spec_validate_manifest_header, Extent, ManifestHeader, RegionEntry,
    EXTENT_CAPACITY, MANIFEST_TOTAL_SIZE, OFF_GENERATION, REGION_CAPACITY, REGION_FLAG_DEAD,
};
use crate::wire::DecodeError;
use vstd::prelude::*;
use vstd::string::StringSliceAdditionalSpecFns;

verus! {

/// Bounded seqlock retries. A retry only happens when the pause landed in
/// the middle of a registration; exceeding the bound means the generation
/// word is corrupt or stuck odd.
pub const SEQLOCK_RETRIES: usize = 64;

/// The content of a manifest entry, name as its 56-byte field.
pub struct EntryModel {
    /// Manifest slot id.
    pub region_id: u32,
    /// Interned name id.
    pub name_id: u32,
    /// Layout version.
    pub layout_version: u32,
    /// Flags (bit 31 DEAD).
    pub flags: u32,
    /// Base in the workload's address space.
    pub gva: u64,
    /// Length in bytes.
    pub len: u64,
    /// First extent slot.
    pub extent_off: u32,
    /// Extent count.
    pub extent_n: u32,
    /// NUL-padded name field.
    pub name: Seq<u8>,
}

/// The model of a decoded entry.
pub open spec fn spec_entry_model(e: RegionEntry) -> EntryModel {
    EntryModel {
        region_id: e.region_id,
        name_id: e.name_id,
        layout_version: e.layout_version,
        flags: e.flags,
        gva: e.gva,
        len: e.len,
        extent_off: e.extent_off,
        extent_n: e.extent_n,
        name: e.name@,
    }
}

/// The entry stored at byte offset `at` of the manifest area `m`.
pub open spec fn spec_parse_entry(m: Seq<u8>, at: int) -> EntryModel {
    EntryModel {
        region_id: le32(m, at),
        name_id: le32(m, at + 4),
        layout_version: le32(m, at + 8),
        flags: le32(m, at + 12),
        gva: le64(m, at + 16),
        len: le64(m, at + 24),
        extent_off: le32(m, at + 32),
        extent_n: le32(m, at + 36),
        name: m.subrange(at + 40, at + 96),
    }
}

/// An entry is live (DEAD clear).
pub open spec fn spec_live(e: EntryModel) -> bool {
    e.flags & REGION_FLAG_DEAD == 0
}

/// A manifest snapshot as mathematical values.
pub struct ManifestModel {
    /// The validated header.
    pub header: ManifestHeader,
    /// All 64 entry slots.
    pub entries: Seq<EntryModel>,
    /// The used prefix of the extent pool.
    pub extents: Seq<Extent>,
}

/// Parse and validate a manifest area: header checks, every live entry's
/// extent range inside the used pool.
pub open spec fn spec_parse_manifest(area: Seq<u8>) -> Result<ManifestModel, DecodeError> {
    let h = spec_parse_manifest_header(area);
    match spec_validate_manifest_header(h) {
        Err(e) => Err(e),
        Ok(()) => {
            let entries = Seq::new(
                REGION_CAPACITY as nat,
                |i: int| spec_parse_entry(area, spec_entry_offset(i)),
            );
            let extents = Seq::new(
                h.extent_count as nat,
                |i: int|
                    Extent {
                        gpa: le64(area, spec_extent_offset(i)),
                        len: le64(area, spec_extent_offset(i) + 8),
                    },
            );
            if exists|i: int|
                0 <= i < 64 && spec_live(#[trigger] entries[i]) && entries[i].extent_off
                    + entries[i].extent_n > h.extent_count {
                Err(DecodeError::BadField)
            } else {
                Ok(ManifestModel { header: h, entries, extents })
            }
        },
    }
}

/// What a manifest read gives for channel memory `m` at `base`, when the
/// guest-memory reads succeed: a generation left odd by a writer exhausts
/// the retries; otherwise the area is parsed.
pub open spec fn spec_manifest_read(m: Map<int, u8>, base: u64) -> Result<ManifestModel, WireError> {
    if spec_u64_at(m, base + OFF_MANIFEST + OFF_GENERATION) % 2 != 0 {
        Err(WireError::SeqlockLivelock)
    } else {
        match spec_parse_manifest(spec_bytes_at(m, base + OFF_MANIFEST, MANIFEST_TOTAL_SIZE as int)) {
            Ok(mm) => Ok(mm),
            Err(e) => Err(WireError::Decode(e)),
        }
    }
}

/// A consistent snapshot of the region manifest.
#[derive(Debug, Clone)]
pub struct RegionManifest {
    /// Parsed, validated manifest header.
    pub header: ManifestHeader,
    /// All 64 entry slots (dead entries keep their slots).
    pub entries: Vec<RegionEntry>,
    /// The used prefix of the extent pool.
    pub extents: Vec<Extent>,
}

impl View for RegionManifest {
    type V = ManifestModel;

    open spec fn view(&self) -> ManifestModel {
        ManifestModel {
            header: self.header,
            entries: Seq::new(self.entries@.len(), |i: int| spec_entry_model(self.entries@[i])),
            extents: self.extents@,
        }
    }
}

/// One resolved live region: its manifest fields plus its extent list.
#[derive(Debug, Clone, PartialEq, Eq)]
pub struct ResolvedRegion {
    /// Manifest slot index.
    pub region_id: u32,
    /// Workload-declared layout version.
    pub layout_version: u32,
    /// Region length in bytes.
    pub len: u64,
    /// Region flag bits.
    pub flags: u32,
    /// Extents in logical concatenation order.
    pub extents: Vec<Extent>,
}

/// The content of a resolved region.
pub struct ResolvedModel {
    /// Manifest slot index.
    pub region_id: u32,
    /// Layout version.
    pub layout_version: u32,
    /// Length in bytes.
    pub len: u64,
    /// Flags.
    pub flags: u32,
    /// Extents in order.
    pub extents: Seq<Extent>,
}

impl View for ResolvedRegion {
    type V = ResolvedModel;

    open spec fn view(&self) -> ResolvedModel {
        ResolvedModel {
            region_id: self.region_id,
            layout_version: self.layout_version,
            len: self.len,
            flags: self.flags,
            extents: self.extents@,
        }
    }
}

/// The live name bytes of an entry (up to the first NUL).
pub open spec fn spec_entry_name(e: EntryModel) -> Seq<u8> {
    e.name.subrange(0, spec_name_len(e.name))
}

/// The first entry, from `i` on, that is live and carries `name`.
pub open spec fn spec_find_entry(entries: Seq<EntryModel>, name: Seq<u8>, i: int) -> Option<int>
    decreases entries.len() - i,
{
    if i < 0 || i >= entries.len() {
        None
    } else if spec_live(entries[i]) && spec_entry_name(entries[i]) == name {
        Some(i)
    } else {
        spec_find_entry(entries, name, i + 1)
    }
}

/// Resolve a live region by name bytes: the first live entry with that
/// name, provided its extent range lies inside the pool.
pub open spec fn spec_resolve(mm: ManifestModel, name: Seq<u8>) -> Option<ResolvedModel> {
    match spec_find_entry(mm.entries, name, 0) {
        None => None,
        Some(i) => {
            let e = mm.entries[i];
            let off = e.extent_off as int;
            let n = e.extent_n as int;
            if off + n > mm.extents.len() {
                None
            } else {
                Some(
                    ResolvedModel {
                        region_id: e.region_id,
                        layout_version: e.layout_version,
                        len: e.len,
                        flags: e.flags,
                        extents: mm.extents.subrange(off, off + n),
                    },
                )
            }
        },
    }
}

impl RegionManifest {
    /// Resolve a live region by name.
    pub fn resolve(&self, name: &str) -> (r: Option<ResolvedRegion>)
        ensures
            match r {
                Some(reg) => spec_resolve(self@, name.spec_bytes()) == Some(reg@),
                None => spec_resolve(self@, name.spec_bytes()) is None,
            },
    {
        let nb = name.as_bytes();
        let mut i: usize = 0;
        while i < self.entries.len()
            invariant
                i <= self.entries@.len(),
                nb@ == name.spec_bytes(),
                spec_find_entry(self@.entries, nb@, 0) == spec_find_entry(self@.entries, nb@, i as int),
            decreases self.entries@.len() - i,
        {
            let e = &self.entries[i];
            if e.is_live() && bytes_eq(e.name_bytes(), nb) {
                let off = e.extent_off as u64;
                let n = e.extent_n as u64;
                if off + n > self.extents.len() as u64 {
                    return None;
                }
                let end = off + n;
                let elen = self.extents.len();
                let mut xs: Vec<Extent> = Vec::new();
                let mut k: u64 = off;
                while k < end
                    invariant
                        off <= k <= end,
                        end <= self.extents@.len(),
                        elen == self.extents@.len(),
                        xs@ == self.extents@.subrange(off as int, k as int),
                    decreases end - k,
                {
                    let ki = k as usize;
                    assert(ki as int == k as int);
                    let x = self.extents[ki];
                    xs.push(x);
                    proof {
                        assert(x == self.extents@[ki as int]);
                        assert(xs@ =~= self.extents@.subrange(off as int, k + 1));
                    }
                    k = k + 1;
                }
                let reg = ResolvedRegion {
                    region_id: e.region_id,
                    layout_version: e.layout_version,
                    len: e.len,
                    flags: e.flags,
                    extents: xs,
                };
                return Some(reg);
            }
            i = i + 1;
        }
        None
    }
}

fn parse_manifest_area(area: &[u8]) -> (r: Result<RegionManifest, DecodeError>)
    requires
        area@.len() == MANIFEST_TOTAL_SIZE,
    ensures
        match r {
            Ok(rm) => spec_parse_manifest(area@) == Ok::<ManifestModel, DecodeError>(rm@),
            Err(e) => spec_parse_manifest(area@) == Err::<ManifestModel, DecodeError>(e),
        },
{
    let header = match ManifestHeader::read_from(area) {
        Ok(h) => h,
        Err(e) => return Err(e),
    };
    match header.validate() {
        Ok(()) => {},
        Err(e) => return Err(e),
    }
    let ghost want_entries = Seq::new(
        REGION_CAPACITY as nat,
        |i: int| spec_parse_entry(area@, spec_entry_offset(i)),
    );
    let ghost want_extents = Seq::new(
        header.extent_count as nat,
        |i: int|
            Extent {
                gpa: le64(area@, spec_extent_offset(i)),
                len: le64(area@, spec_extent_offset(i) + 8),
            },
    );
    let mut entries: Vec<RegionEntry> = Vec::new();
    let mut i: usize = 0;
    while i < REGION_CAPACITY
        invariant
            i <= REGION_CAPACITY,
            area@.len() == MANIFEST_TOTAL_SIZE,
            entries@.len() == i,
            forall|k: int| 0 <= k < i ==> #[trigger] spec_entry_model(entries@[k]) == want_entries[k],
            want_entries == Seq::new(REGION_CAPACITY as nat, |i: int| spec_parse_entry(area@, spec_entry_offset(i))),
        decreases REGION_CAPACITY - i,
    {
        let e = match RegionEntry::read_from(area, i) {
            Ok(e) => e,
            Err(err) => {
                proof {
                    assert(false);
                }
                return Err(err);
            },
        };
        proof {
            assert(spec_entry_model(e) == spec_parse_entry(area@, spec_entry_offset(i as int)));
        }
        entries.push(e);
        i = i + 1;
    }
    let n = header.extent_count as usize;
    let mut extents: Vec<Extent> = Vec::new();
    let mut j: usize = 0;
    while j < n
        invariant
            j <= n,
            n == header.extent_count,
            n <= EXTENT_CAPACITY,
            area@.len() == MANIFEST_TOTAL_SIZE,
            extents@.len() == j,
            forall|k: int| 0 <= k < j ==> #[trigger] extents@[k] == want_extents[k],
            want_extents == Seq::new(header.extent_count as nat, |i: int| Extent { gpa: le64(area@, spec_extent_offset(i)), len: le64(area@, spec_extent_offset(i) + 8) }),
            entries@.len() == REGION_CAPACITY,
            forall|q: int| 0 <= q < REGION_CAPACITY ==> #[trigger] spec_entry_model(entries@[q]) == want_entries[q],
            want_entries == Seq::new(REGION_CAPACITY as nat, |i: int| spec_parse_entry(area@, spec_entry_offset(i))),
            header == spec_parse_manifest_header(area@),
            spec_validate_manifest_header(header) is Ok,
        decreases n - j,
    {
        let x = match Extent::read_from(area, j) {
            Ok(x) => x,
            Err(err) => {
                proof {
                    assert(false);
                }
                return Err(err);
            },
        };
        extents.push(x);
        j = j + 1;
    }
    let mut k: usize = 0;
    while k < REGION_CAPACITY
        invariant
            k <= REGION_CAPACITY,
            entries@.len() == REGION_CAPACITY,
            forall|q: int| 0 <= q < REGION_CAPACITY ==> #[trigger] spec_entry_model(entries@[q]) == want_entries[q],
            forall|q: int| 0 <= q < k ==> !(spec_live(#[trigger] want_entries[q]) && want_entries[q].extent_off + want_entries[q].extent_n > header.extent_count),
            want_entries == Seq::new(REGION_CAPACITY as nat, |i: int| spec_parse_entry(area@, spec_entry_offset(i))),
            header == spec_parse_manifest_header(area@),
            spec_validate_manifest_header(header) is Ok,
            extents@.len() == n,
            n == header.extent_count,
            forall|q: int| 0 <= q < n ==> #[trigger] extents@[q] == want_extents[q],
            want_extents == Seq::new(header.extent_count as nat, |i: int| Extent { gpa: le64(area@, spec_extent_offset(i)), len: le64(area@, spec_extent_offset(i) + 8) }),
        decreases REGION_CAPACITY - k,
    {
        let e = &entries[k];
        proof {
            assert(spec_entry_model(entries@[k as int]) == want_entries[k as int]);
        }
        if e.is_live() {
            match e.validate_extents(&header) {
                Ok(()) => {},
                Err(err) => {
                    proof {
                        assert(spec_entry_model(entries@[k as int]) == want_entries[k as int]);
                        let q = k as int;
                        assert(spec_live(want_entries[q]) && want_entries[q].extent_off + want_entries[q].extent_n > header.extent_count);
                        assert(exists|i: int| 0 <= i < 64 && spec_live(#[trigger] want_entries[i]) && want_entries[i].extent_off + want_entries[i].extent_n > header.extent_count);
                        assert(header == spec_parse_manifest_header(area@));
                    }
                    return Err(err);
                },
            }
        }
        k = k + 1;
    }
    let rm = RegionManifest { header, entries, extents };
    proof {
        assert(rm@.entries =~= want_entries);
        assert(rm@.extents =~= want_extents);
    }
    Ok(rm)
}

impl<M: GuestMem> Channel<M> {
    /// Seqlock-consistent manifest snapshot: read `generation` (even, or
    /// retry), copy the manifest area, re-read `generation`, retry on
    /// change; a generation that stays odd ends in `SeqlockLivelock`.
    pub fn read_manifest(&self) -> (r: Result<RegionManifest, WireError>)
        requires
            self.wf(),
        ensures
            match r {
                Ok(rm) => spec_manifest_read(self.memory(), self.spec_base()) == Ok::<ManifestModel, WireError>(rm@),
                Err(WireError::Mem(_)) => !self.page_accessible(),
                Err(e) => spec_manifest_read(self.memory(), self.spec_base()) == Err::<ManifestModel, WireError>(e),
            },
    {
        proof {
            self.lemma_wf();
        }
        let base = self.base_gpa();
        let gm = self.guest_mem();
        let gen_gpa = base + (OFF_MANIFEST + OFF_GENERATION) as u64;
        let area_gpa = base + OFF_MANIFEST as u64;
        let mut area: Vec<u8> = vec![0u8; MANIFEST_TOTAL_SIZE];
        let mut attempt: usize = 0;
        proof {
            if self.page_accessible() {
                self.lemma_in_page(gen_gpa as int, 8);
                self.lemma_in_page(area_gpa as int, MANIFEST_TOTAL_SIZE as int);
            }
        }
        while attempt < SEQLOCK_RETRIES
            invariant
                area@.len() == MANIFEST_TOTAL_SIZE,
                gm.mem() == self.memory(),
                *gm == self.spec_gm(),
                self.page_accessible() ==> gm.accessible(gen_gpa as int, 8) && gm.accessible(
                    area_gpa as int,
                    MANIFEST_TOTAL_SIZE as int,
                ),
                base == self.spec_base(),
                gen_gpa == base + OFF_MANIFEST + OFF_GENERATION,
                area_gpa == base + OFF_MANIFEST,
                spec_u64_at(gm.mem(), gen_gpa as int) % 2 != 0 || attempt == 0,
            decreases SEQLOCK_RETRIES - attempt,
        {
            let g1 = match read_u64(gm, gen_gpa) {
                Ok(v) => v,
                Err(e) => return Err(WireError::Mem(e)),
            };
            if g1 % 2 != 0 {
                attempt = attempt + 1;
                continue;
            }
            match gm.read(area_gpa, area.as_mut_slice()) {
                Ok(()) => {},
                Err(e) => return Err(WireError::Mem(e)),
            }
            let g2 = match read_u64(gm, gen_gpa) {
                Ok(v) => v,
                Err(e) => return Err(WireError::Mem(e)),
            };
            if g1 != g2 {
                attempt = attempt + 1;
                continue;
            }
            return match parse_manifest_area(area.as_slice()) {
                Ok(rm) => Ok(rm),
                Err(e) => Err(WireError::Decode(e)),
            };
        }
        Err(WireError::SeqlockLivelock)
    }
}

/// Every extent of `xs` is addressable without overflow and accessible.
pub open spec fn spec_extents_accessible<M: GuestMem>(gm: M, xs: Seq<Extent>) -> bool {
    forall|i: int|
        0 <= i < xs.len() ==> #[trigger] xs[i].gpa + xs[i].len <= u64::MAX && gm.accessible(
            xs[i].gpa as int,
            xs[i].len as int,
        )
}

/// Total length of an extent list.
pub open spec fn spec_extents_len(xs: Seq<Extent>) -> int
    decreases xs.len(),
{
    if xs.len() == 0 {
        0
    } else {
        spec_extents_len(xs.drop_last()) + xs.last().len
    }
}

/// The bytes of an extent list in `m`, concatenated in order.
pub open spec fn spec_extents_bytes(m: Map<int, u8>, xs: Seq<Extent>) -> Seq<u8>
    decreases xs.len(),
{
    if xs.len() == 0 {
        Seq::empty()
    } else {
        spec_extents_bytes(m, xs.drop_last()) + spec_bytes_at(m, xs.last().gpa as int, xs.last().len as int)
    }
}

proof fn lemma_extents_bytes_len(m: Map<int, u8>, xs: Seq<Extent>)
    ensures
        spec_extents_bytes(m, xs).len() == spec_extents_len(xs),
        spec_extents_len(xs) >= 0,
    decreases xs.len(),
{
    if xs.len() > 0 {
        lemma_extents_bytes_len(m, xs.drop_last());
    }
}

proof fn lemma_extents_prefix(m: Map<int, u8>, xs: Seq<Extent>, j: int)
    requires
        0 <= j <= xs.len(),
    ensures
        spec_extents_len(xs.subrange(0, j)) <= spec_extents_len(xs),
        spec_extents_bytes(m, xs).subrange(0, spec_extents_len(xs.subrange(0, j))) == spec_extents_bytes(m, xs.subrange(0, j)),
    decreases xs.len(),
{
    lemma_extents_bytes_len(m, xs);
    lemma_extents_bytes_len(m, xs.subrange(0, j));
    if j == xs.len() {
        assert(xs.subrange(0, j) =~= xs);
    } else {
        let d = xs.drop_last();
        lemma_extents_prefix(m, d, j);
        assert(d.subrange(0, j) =~= xs.subrange(0, j));
        lemma_extents_bytes_len(m, d);
        assert(spec_extents_bytes(m, xs).subrange(0, spec_extents_len(xs.subrange(0, j))) =~= spec_extents_bytes(m, d).subrange(0, spec_extents_len(xs.subrange(0, j))));
    }
}

proof fn lemma_extents_step(m: Map<int, u8>, xs: Seq<Extent>, j: int)
    requires
        0 <= j < xs.len(),
    ensures
        spec_extents_len(xs.subrange(0, j + 1)) == spec_extents_len(xs.subrange(0, j)) + xs[j].len,
        spec_extents_bytes(m, xs.subrange(0, j + 1)) == spec_extents_bytes(m, xs.subrange(0, j)) + spec_bytes_at(m, xs[j].gpa as int, xs[j].len as int),
{
    assert(xs.subrange(0, j + 1).drop_last() =~= xs.subrange(0, j));
}

impl<M: GuestMem> Channel<M> {
    /// Resolve and read a published region: walk its extent list,
    /// concatenating logically, reading each overlapping piece from guest
    /// memory into `buf` from logical offset `offset`.
    pub fn read_region(&self, name: &str, offset: u64, buf: &mut [u8]) -> (r: Result<(), RegionReadError>)
        requires
            self.wf(),
        ensures
            final(buf)@.len() == old(buf)@.len(),
            ({
                let mr = spec_manifest_read(self.memory(), self.spec_base());
                let len = old(buf)@.len() as int;
                match r {
                    Ok(()) => {
                        &&& mr is Ok
                        &&& spec_resolve(mr->Ok_0, name.spec_bytes()) is Some
                        &&& {
                            let reg = spec_resolve(mr->Ok_0, name.spec_bytes())->0;
                            &&& offset + len <= reg.len
                            &&& spec_extents_len(reg.extents) >= reg.len
                            &&& final(buf)@ == spec_extents_bytes(self.memory(), reg.extents).subrange(offset as int, offset + len)
                        }
                    },
                    Err(RegionReadError::NameNotFound) => mr is Ok && spec_resolve(mr->Ok_0, name.spec_bytes()) is None,
                    Err(RegionReadError::OutOfBounds) => {
                        &&& mr is Ok
                        &&& spec_resolve(mr->Ok_0, name.spec_bytes()) is Some
                        &&& {
                            let reg = spec_resolve(mr->Ok_0, name.spec_bytes())->0;
                            offset + len > reg.len || spec_extents_len(reg.extents) < reg.len
                        }
                    },
                    Err(RegionReadError::Wire(e)) => (!(e is Mem) ==> mr == Err::<ManifestModel, WireError>(e))
                        && (e is Mem ==> !self.page_accessible()),
                    Err(RegionReadError::Mem(_)) => {
                        &&& mr is Ok
                        &&& spec_resolve(mr->Ok_0, name.spec_bytes()) is Some
                        &&& !spec_extents_accessible(
                            self.spec_gm(),
                            spec_resolve(mr->Ok_0, name.spec_bytes())->0.extents,
                        )
                    },
                }
            }),
    {
        let manifest = match self.read_manifest() {
            Ok(m) => m,
            Err(e) => return Err(RegionReadError::Wire(e)),
        };
        let region = match manifest.resolve(name) {
            Some(reg) => reg,
            None => return Err(RegionReadError::NameNotFound),
        };
        let want = buf.len() as u64;
        let end = match offset.checked_add(want) {
            Some(e) => e,
            None => return Err(RegionReadError::OutOfBounds),
        };
        if end > region.len {
            return Err(RegionReadError::OutOfBounds);
        }
        let xs = &region.extents;
        let ghost mem = self.memory();
        proof {
            assert(xs@.len() <= EXTENT_CAPACITY);
        }
        let mut covered: u128 = 0;
        let mut i: usize = 0;
        while i < xs.len()
            invariant
                i <= xs@.len(),
                xs@.len() <= EXTENT_CAPACITY,
                covered == spec_extents_len(xs@.subrange(0, i as int)),
                covered <= i * 0x1_0000_0000_0000_0000,
            decreases xs@.len() - i,
        {
            proof {
                lemma_extents_step(mem, xs@, i as int);
            }
            covered = covered + xs[i].len as u128;
            i = i + 1;
        }
        proof {
            assert(xs@.subrange(0, xs@.len() as int) =~= xs@);
        }
        if covered < region.len as u128 {
            return Err(RegionReadError::OutOfBounds);
        }
        let len = buf.len();
        let gm = self.guest_mem();
        let mut filled: usize = 0;
        let mut to_skip: u64 = offset;
        let mut j: usize = 0;
        proof {
            assert(xs@.subrange(0, 0) =~= Seq::<Extent>::empty());
            assert(spec_extents_len(xs@.subrange(0, 0)) == 0);
        }
        while j < xs.len()
            invariant
                j <= xs@.len(),
                len == buf@.len(),
                len == old(buf)@.len(),
                gm.mem() == mem,
                mem == self.memory(),
                *gm == self.spec_gm(),
                spec_manifest_read(self.memory(), self.spec_base()) == Ok::<ManifestModel, WireError>(manifest@),
                spec_resolve(manifest@, name.spec_bytes()) == Some(region@),
                xs@ == region@.extents,
                filled <= len,
                to_skip <= offset,
                offset + len <= region.len,
                spec_extents_len(xs@) >= region.len,
                filled < len ==> spec_extents_len(xs@.subrange(0, j as int)) + to_skip == offset + filled,
                filled == len && len > 0 ==> spec_extents_len(xs@.subrange(0, j as int)) >= offset + len,
                filled > 0 ==> to_skip == 0,
                filled > 0 ==> buf@.subrange(0, filled as int) == spec_extents_bytes(mem, xs@.subrange(0, j as int)).subrange(offset as int, offset + filled),
            ensures
                filled == len || j == xs@.len(),
            decreases xs@.len() - j,
        {
            if filled == len {
                break;
            }
            proof {
                lemma_extents_step(mem, xs@, j as int);
                lemma_extents_bytes_len(mem, xs@.subrange(0, j as int));
                lemma_extents_bytes_len(mem, xs@.subrange(0, j as int + 1));
            }
            let x = xs[j];
            if to_skip >= x.len {
                to_skip = to_skip - x.len;
                j = j + 1;
                continue;
            }
            let avail = x.len - to_skip;
            let room = (len - filled) as u64;
            let take = if avail < room {
                avail
            } else {
                room
            };
            proof {
                if spec_extents_accessible(*gm, xs@) {
                    assert(xs@[j as int] == x);
                    gm.lemma_accessible_within(x.gpa as int, x.len as int, x.gpa + to_skip, take as int);
                }
            }
            let gpa = match x.gpa.checked_add(to_skip) {
                Some(g) => g,
                None => return Err(RegionReadError::Mem(MemError::Overflow)),
            };
            let mut chunk: Vec<u8> = vec![0u8; take as usize];
            match gm.read(gpa, chunk.as_mut_slice()) {
                Ok(()) => {},
                Err(e) => return Err(RegionReadError::Mem(e)),
            }
            let ghost before = buf@;
            crate::wire::bytes::write_at(buf, filled, chunk.as_slice());
            proof {
                let pj = spec_extents_len(xs@.subrange(0, j as int));
                let cj = spec_extents_bytes(mem, xs@.subrange(0, j as int));
                let cj1 = spec_extents_bytes(mem, xs@.subrange(0, j as int + 1));
                let xb = spec_bytes_at(mem, x.gpa as int, x.len as int);
                assert(chunk@ =~= xb.subrange(to_skip as int, to_skip + take));
                assert(cj1 == cj + xb);
                let nf = filled + take;
                assert(buf@.subrange(0, nf as int) =~= cj1.subrange(offset as int, offset + nf));
            }
            filled = filled + take as usize;
            to_skip = 0;
            j = j + 1;
        }
        proof {
            lemma_extents_prefix(mem, xs@, j as int);
            lemma_extents_bytes_len(mem, xs@);
            lemma_extents_bytes_len(mem, xs@.subrange(0, j as int));
            if filled < len {
                assert(j == xs@.len());
                assert(xs@.subrange(0, j as int) =~= xs@);
                assert(false);
            }
            let all = spec_extents_bytes(mem, xs@);
            let cj = spec_extents_bytes(mem, xs@.subrange(0, j as int));
            let pj = spec_extents_len(xs@.subrange(0, j as int));
            if len > 0 {
                assert(buf@ =~= buf@.subrange(0, len as int));
                assert(all.subrange(0, pj) == cj);
                assert(cj.subrange(offset as int, offset + len) =~= all.subrange(offset as int, offset + len));
            }
            assert(buf@ =~= all.subrange(offset as int, offset + len));
        }
        Ok(())
    }
}

} // verus!

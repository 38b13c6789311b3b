//! The agent side of region registration: the manifest writer (the agent
//! is the only one, under the seqlock), the registration ledger, and the
//! answers to `Register` / `Unregister` requests and `ReverifyRegions`.
//!
//! Region ids are sequential and never reused; the extent pool is
//! append-only. Every manifest change is bracketed by the seqlock: the
//! generation goes odd, the slots are written, the generation goes even.
use crate::wire::bytes::{b64, splice};
use crate::wire::manifest::{
    spec_entry_offset, spec_extent_offset, spec_manifest_header_bytes, spec_packed_name,
    spec_parse_manifest_header, spec_validate_manifest_header, spec_next_generation,
    writer_begin, writer_end, Extent, ManifestHeader, RegionEntry, EXTENT_CAPACITY,
    MANIFEST_TOTAL_SIZE, OFF_GENERATION, REGION_CAPACITY, REGION_FLAG_DEAD, spec_entry_at,
    spec_entry_bytes,
};
use crate::wire::bytes::{b32, le32, le64};
use crate::wire::manifest::MAX_REGION_NAME;
use crate::agent::translate::TranslateError;
use crate::text::{chars_of, lossy_string, push_dec, push_str, spec_dec, string_from_chars, utf8_lossy};
use crate::wire::events::RegionEvent;
use crate::wire::manifest::read_generation;
use crate::wire::regionipc::{
    decode_request, spec_decode_request, Reply, Request, RequestModel, REGIONIPC_MAX_DATAGRAM,
    STATUS_BAD_REQUEST, STATUS_INTERNAL, STATUS_MANIFEST_FULL,
    STATUS_NOT_PINNED, STATUS_OK, STATUS_TOO_MANY_EXTENTS, STATUS_UNKNOWN_PID,
    STATUS_UNKNOWN_REGION,
};
use vstd::prelude::*;

verus! {

/// The manifest's seqlock generation.
pub open spec fn spec_generation(m: Seq<u8>) -> u64 {
    le64(m, OFF_GENERATION as int)
}

/// `m` with `ext` written to the extent pool from slot `first` on.
pub open spec fn spec_write_extents(m: Seq<u8>, first: int, ext: Seq<Extent>) -> Seq<u8>
    decreases ext.len(),
{
    if ext.len() == 0 {
        m
    } else {
        let last = ext[ext.len() - 1];
        splice(
            spec_write_extents(m, first, ext.subrange(0, ext.len() - 1)),
            spec_extent_offset(first + ext.len() - 1),
            b64(last.gpa) + b64(last.len),
        )
    }
}

/// The 96 bytes of a region entry with these fields.
pub open spec fn spec_entry_fields(
    region_id: u32,
    name_id: u32,
    layout_version: u32,
    flags: u32,
    gva: u64,
    len: u64,
    extent_off: u32,
    extent_n: u32,
    name: Seq<u8>,
) -> Seq<u8> {
    b32(region_id) + b32(name_id) + b32(layout_version) + b32(flags) + b64(gva) + b64(len) + b32(
        extent_off,
    ) + b32(extent_n) + spec_packed_name(name)
}

/// What `write_region` answers for manifest `m`: the new region's id and
/// the (even) generation after the write, or the reply status.
pub open spec fn spec_write_region_result(m: Seq<u8>, name: Seq<u8>, n_extents: nat) -> Result<
    (u32, u64),
    u16,
> {
    let h = spec_parse_manifest_header(m);
    if name.len() > MAX_REGION_NAME {
        Err(STATUS_BAD_REQUEST)
    } else if spec_validate_manifest_header(h) is Err {
        Err(STATUS_INTERNAL)
    } else if h.region_count >= REGION_CAPACITY {
        Err(STATUS_MANIFEST_FULL)
    } else if h.extent_count + n_extents > EXTENT_CAPACITY {
        Err(STATUS_TOO_MANY_EXTENTS)
    } else if spec_generation(m) % 2 != 0 {
        Err(STATUS_INTERNAL)
    } else {
        Ok((h.region_count, spec_next_generation((spec_generation(m) + 1) as u64)))
    }
}

/// The manifest after a successful `write_region`: generation odd, the
/// extents appended to the pool, the entry in the next slot, the header
/// counting both, generation even again.
pub open spec fn spec_write_region_mem(
    m: Seq<u8>,
    name: Seq<u8>,
    name_id: u32,
    layout_version: u32,
    flags: u32,
    gva: u64,
    len: u64,
    ext: Seq<Extent>,
) -> Seq<u8> {
    let h = spec_parse_manifest_header(m);
    let odd = (spec_generation(m) + 1) as u64;
    let m1 = splice(m, OFF_GENERATION as int, b64(odd));
    let m2 = spec_write_extents(m1, h.extent_count as int, ext);
    let m3 = splice(
        m2,
        spec_entry_offset(h.region_count as int),
        spec_entry_fields(
            h.region_count,
            name_id,
            layout_version,
            flags,
            gva,
            len,
            h.extent_count,
            ext.len() as u32,
            name,
        ),
    );
    let h2 = ManifestHeader {
        generation: odd,
        region_count: (h.region_count + 1) as u32,
        extent_count: (h.extent_count + ext.len()) as u32,
        ..h
    };
    let m4 = splice(m3, 0, spec_manifest_header_bytes(h2));
    splice(m4, OFF_GENERATION as int, b64(spec_next_generation(odd)))
}

/// Writing the extents keeps the manifest's length.
proof fn lemma_write_extents_len(m: Seq<u8>, first: int, ext: Seq<Extent>)
    requires
        0 <= first,
        ext.len() == 0 || first + ext.len() <= EXTENT_CAPACITY,
        m.len() >= MANIFEST_TOTAL_SIZE,
    ensures
        spec_write_extents(m, first, ext).len() == m.len(),
    decreases ext.len(),
{
    vstd::bytes::lemma_auto_spec_u64_to_from_le_bytes();
    if ext.len() > 0 {
        lemma_write_extents_len(m, first, ext.subrange(0, ext.len() - 1));
    }
}

/// The generation stored by a header write is the header's own.
proof fn lemma_header_generation(m: Seq<u8>, h: ManifestHeader)
    requires
        m.len() >= MANIFEST_TOTAL_SIZE,
    ensures
        spec_generation(splice(m, 0, spec_manifest_header_bytes(h))) == h.generation,
        splice(m, 0, spec_manifest_header_bytes(h)).len() == m.len(),
{
    vstd::bytes::lemma_auto_spec_u64_to_from_le_bytes();
    vstd::bytes::lemma_auto_spec_u32_to_from_le_bytes();
    vstd::bytes::lemma_auto_spec_u16_to_from_le_bytes();
    let hb = spec_manifest_header_bytes(h);
    let s = splice(m, 0, hb);
    assert(hb.len() == 32);
    assert(s.subrange(8, 16) =~= b64(h.generation));
}

/// Write extents `ext` to the pool from slot `first`.
fn write_extents(m: &mut [u8], first: usize, ext: &[Extent])
    requires
        first + ext@.len() <= EXTENT_CAPACITY,
        old(m)@.len() >= MANIFEST_TOTAL_SIZE,
    ensures
        final(m)@ == spec_write_extents(old(m)@, first as int, ext@),
{
    let mut i: usize = 0;
    proof {
        assert(ext@.subrange(0, 0) =~= Seq::<Extent>::empty());
    }
    while i < ext.len()
        invariant
            i <= ext@.len(),
            first + ext@.len() <= EXTENT_CAPACITY,
            old(m)@.len() >= MANIFEST_TOTAL_SIZE,
            m@ == spec_write_extents(old(m)@, first as int, ext@.subrange(0, i as int)),
            m@.len() == old(m)@.len(),
        decreases ext@.len() - i,
    {
        proof {
            assert(ext@.subrange(0, i + 1).subrange(0, i as int) =~= ext@.subrange(0, i as int));
            vstd::bytes::lemma_auto_spec_u64_to_from_le_bytes();
        }
        let r = ext[i].write_to(m, first + i);
        i = i + 1;
    }
    proof {
        assert(ext@.subrange(0, ext@.len() as int) =~= ext@);
    }
}

/// Publish a region under the seqlock: its extents appended to the pool,
/// its entry in the next slot (ids are sequential, never reused), the
/// header counting both. Returns the region id and the new (even)
/// generation, or the reply status: `BAD_REQUEST` for an over-long name,
/// `INTERNAL` for a manifest that is not valid or is mid-write,
/// `MANIFEST_FULL`, `TOO_MANY_EXTENTS`. On an error nothing is written.
pub fn write_region(
    m: &mut [u8],
    name: &[u8],
    name_id: u32,
    layout_version: u32,
    flags: u32,
    gva: u64,
    len: u64,
    extents: &[Extent],
) -> (r: Result<(u32, u64), u16>)
    requires
        old(m)@.len() >= MANIFEST_TOTAL_SIZE,
    ensures
        r == spec_write_region_result(old(m)@, name@, extents@.len()),
        r is Ok ==> final(m)@ == spec_write_region_mem(
            old(m)@,
            name@,
            name_id,
            layout_version,
            flags,
            gva,
            len,
            extents@,
        ),
        r is Err ==> final(m)@ == old(m)@,
{
    let packed_name = match RegionEntry::pack_name(name) {
        Ok(p) => p,
        Err(_) => {
            return Err(STATUS_BAD_REQUEST);
        },
    };
    let mut hdr = match ManifestHeader::read_from(m) {
        Ok(h) => h,
        Err(_) => {
            return Err(STATUS_INTERNAL);
        },
    };
    match hdr.validate() {
        Ok(()) => {},
        Err(_) => {
            return Err(STATUS_INTERNAL);
        },
    }
    if hdr.region_count as usize >= REGION_CAPACITY {
        return Err(STATUS_MANIFEST_FULL);
    }
    if extents.len() > EXTENT_CAPACITY - hdr.extent_count as usize {
        return Err(STATUS_TOO_MANY_EXTENTS);
    }
    let region_id = hdr.region_count;
    let extent_off = hdr.extent_count;
    let odd_generation = match writer_begin(m) {
        Ok(g) => g,
        Err(_) => {
            return Err(STATUS_INTERNAL);
        },
    };
    let ghost m1 = m@;
    write_extents(m, extent_off as usize, extents);
    proof {
        lemma_write_extents_len(m1, extent_off as int, extents@);
    }
    let entry = RegionEntry {
        region_id,
        name_id,
        layout_version,
        flags,
        gva,
        len,
        extent_off,
        extent_n: extents.len() as u32,
        name: packed_name,
    };
    let _ = entry.write_to(m, region_id as usize);
    hdr.generation = odd_generation;
    hdr.region_count = hdr.region_count + 1;
    hdr.extent_count = hdr.extent_count + extents.len() as u32;
    let ghost m3 = m@;
    let _ = hdr.write_to(m);
    proof {
        lemma_header_generation(m3, hdr);
    }
    let generation = match writer_end(m) {
        Ok(g) => g,
        Err(_) => {
            return Err(STATUS_INTERNAL);
        },
    };
    Ok((region_id, generation))
}

/// An entry's bytes are what it was read from.
proof fn lemma_entry_round_trip(e: RegionEntry, m: Seq<u8>, at: int)
    requires
        0 <= at,
        at + 96 <= m.len(),
        spec_entry_at(e, m, at),
    ensures
        spec_entry_bytes(e) == m.subrange(at, at + 96),
{
    vstd::bytes::lemma_auto_spec_u64_to_from_le_bytes();
    vstd::bytes::lemma_auto_spec_u32_to_from_le_bytes();
    assert(b32(e.region_id) =~= m.subrange(at, at + 4));
    assert(b32(e.name_id) =~= m.subrange(at + 4, at + 8));
    assert(b32(e.layout_version) =~= m.subrange(at + 8, at + 12));
    assert(b32(e.flags) =~= m.subrange(at + 12, at + 16));
    assert(b64(e.gva) =~= m.subrange(at + 16, at + 24));
    assert(b64(e.len) =~= m.subrange(at + 24, at + 32));
    assert(b32(e.extent_off) =~= m.subrange(at + 32, at + 36));
    assert(b32(e.extent_n) =~= m.subrange(at + 36, at + 40));
    assert(spec_entry_bytes(e) =~= m.subrange(at, at + 96));
}

/// What `mark_region_dead` answers for manifest `m`: the new (even)
/// generation, or the reply status.
pub open spec fn spec_mark_dead_result(m: Seq<u8>, region_id: u32) -> Result<u64, u16> {
    if region_id >= REGION_CAPACITY || spec_generation(m) % 2 != 0 {
        Err(STATUS_INTERNAL)
    } else {
        Ok(spec_next_generation((spec_generation(m) + 1) as u64))
    }
}

/// The manifest after a successful `mark_region_dead`: the entry's flags
/// word gains DEAD, under the seqlock.
pub open spec fn spec_mark_dead_mem(m: Seq<u8>, region_id: u32) -> Seq<u8> {
    let odd = (spec_generation(m) + 1) as u64;
    let at = spec_entry_offset(region_id as int);
    let m1 = splice(m, OFF_GENERATION as int, b64(odd));
    let m2 = splice(m1, at + 12, b32(le32(m, at + 12) | REGION_FLAG_DEAD));
    splice(m2, OFF_GENERATION as int, b64(spec_next_generation(odd)))
}

/// Set the DEAD flag on `region_id` under the seqlock; returns the new
/// (even) generation, or `INTERNAL` for a slot past the table or a
/// manifest mid-write (nothing is written then).
pub fn mark_region_dead(m: &mut [u8], region_id: u32) -> (r: Result<u64, u16>)
    requires
        old(m)@.len() >= MANIFEST_TOTAL_SIZE,
    ensures
        r == spec_mark_dead_result(old(m)@, region_id),
        r is Ok ==> final(m)@ == spec_mark_dead_mem(old(m)@, region_id),
        r is Err ==> final(m)@ == old(m)@,
{
    let mut entry = match RegionEntry::read_from(m, region_id as usize) {
        Ok(e) => e,
        Err(_) => {
            return Err(STATUS_INTERNAL);
        },
    };
    let ghost at = spec_entry_offset(region_id as int);
    let ghost m0 = m@;
    let ghost e0 = entry;
    proof {
        lemma_entry_round_trip(e0, m0, at);
    }
    entry.flags = entry.flags | REGION_FLAG_DEAD;
    let odd = match writer_begin(m) {
        Ok(g) => g,
        Err(_) => {
            return Err(STATUS_INTERNAL);
        },
    };
    let ghost m1 = m@;
    proof {
        vstd::bytes::lemma_auto_spec_u64_to_from_le_bytes();
        assert(m1.subrange(8, 16) =~= b64(odd));
        vstd::bytes::lemma_auto_spec_u32_to_from_le_bytes();
        assert(m1.subrange(at, at + 96) =~= m0.subrange(at, at + 96));
        assert(splice(m1, at, spec_entry_bytes(entry)) =~= splice(
            m1,
            at + 12,
            b32(le32(m0, at + 12) | REGION_FLAG_DEAD),
        ));
    }
    let _ = entry.write_to(m, region_id as usize);
    proof {
        assert(m@.subrange(8, 16) =~= m1.subrange(8, 16));
        assert(spec_generation(m@) == odd);
    }
    match writer_end(m) {
        Ok(g) => Ok(g),
        Err(_) => Err(STATUS_INTERNAL),
    }
}

/// Where `rewrite_extents` puts `n` extents for `region_id`: in place
/// when they fit the entry's old run, else appended to the pool (`true`).
pub open spec fn spec_rewrite_plan(m: Seq<u8>, region_id: u32, n: nat) -> Result<(u32, bool), u16> {
    let at = spec_entry_offset(region_id as int);
    let h = spec_parse_manifest_header(m);
    if region_id >= REGION_CAPACITY {
        Err(STATUS_INTERNAL)
    } else if n <= le32(m, at + 36) {
        Ok((le32(m, at + 32), false))
    } else if h.extent_count + n > EXTENT_CAPACITY {
        Err(STATUS_TOO_MANY_EXTENTS)
    } else {
        Ok((h.extent_count, true))
    }
}

/// What `rewrite_extents` answers for manifest `m`.
pub open spec fn spec_rewrite_result(m: Seq<u8>, region_id: u32, n: nat) -> Result<u64, u16> {
    match spec_rewrite_plan(m, region_id, n) {
        Err(s) => Err(s),
        Ok((off, _)) => if spec_generation(m) % 2 != 0 || (n > 0 && off + n > EXTENT_CAPACITY) {
            Err(STATUS_INTERNAL)
        } else {
            Ok(spec_next_generation((spec_generation(m) + 1) as u64))
        },
    }
}

/// The manifest after `rewrite_extents` (when the plan succeeds and no
/// write is open): the extents written at their place, the entry pointing
/// at them, the header counting an appended run, the generation even
/// again. A run that would reach past the pool is written up to its end,
/// and the write stops there with the seqlock left open.
pub open spec fn spec_rewrite_mem(m: Seq<u8>, region_id: u32, ext: Seq<Extent>) -> Seq<u8> {
    let (off, bump) = spec_rewrite_plan(m, region_id, ext.len())->Ok_0;
    let at = spec_entry_offset(region_id as int);
    let h = spec_parse_manifest_header(m);
    let odd = (spec_generation(m) + 1) as u64;
    let m1 = splice(m, OFF_GENERATION as int, b64(odd));
    if ext.len() > 0 && off + ext.len() > EXTENT_CAPACITY {
        let k = if off >= EXTENT_CAPACITY {
            0
        } else {
            EXTENT_CAPACITY - off
        };
        spec_write_extents(m1, off as int, ext.subrange(0, k))
    } else {
        let m2 = spec_write_extents(m1, off as int, ext);
        let m3 = splice(m2, at + 32, b32(off) + b32(ext.len() as u32));
        let m4 = if bump {
            splice(
                m3,
                0,
                spec_manifest_header_bytes(
                    ManifestHeader {
                        generation: odd,
                        extent_count: (h.extent_count + ext.len()) as u32,
                        ..h
                    },
                ),
            )
        } else {
            m3
        };
        splice(m4, OFF_GENERATION as int, b64(spec_next_generation(odd)))
    }
}

/// Writing extents leaves the bytes before the pool as they were.
proof fn lemma_write_extents_keeps_front(m: Seq<u8>, first: int, ext: Seq<Extent>)
    requires
        0 <= first,
        ext.len() == 0 || first + ext.len() <= EXTENT_CAPACITY,
        m.len() >= MANIFEST_TOTAL_SIZE,
    ensures
        spec_write_extents(m, first, ext).subrange(0, 0x1820) == m.subrange(0, 0x1820),
        spec_write_extents(m, first, ext).len() == m.len(),
    decreases ext.len(),
{
    vstd::bytes::lemma_auto_spec_u64_to_from_le_bytes();
    if ext.len() > 0 {
        let prev = ext.subrange(0, ext.len() - 1);
        lemma_write_extents_keeps_front(m, first, prev);
        let w = spec_write_extents(m, first, prev);
        let last = ext[ext.len() - 1];
        assert(splice(w, spec_extent_offset(first + ext.len() - 1), b64(last.gpa) + b64(last.len)).subrange(0, 0x1820) =~= w.subrange(0, 0x1820));
    }
}

/// Rewrite a live region's extents in place (when no more than before)
/// or append them to the pool (when more), under the seqlock; returns the
/// new (even) generation. `INTERNAL` for a slot past the table, a
/// manifest mid-write, or an old run reaching past the pool;
/// `TOO_MANY_EXTENTS` when the pool cannot take an appended run.
#[verifier::loop_isolation(false)]
#[verifier::rlimit(50)]
#[verifier::spinoff_prover]
pub fn rewrite_extents(m: &mut [u8], region_id: u32, extents: &[Extent]) -> (r: Result<u64, u16>)
    requires
        old(m)@.len() >= MANIFEST_TOTAL_SIZE,
    ensures
        r == spec_rewrite_result(old(m)@, region_id, extents@.len()),
        spec_rewrite_plan(old(m)@, region_id, extents@.len()) is Err || spec_generation(old(m)@) % 2
            != 0 ==> final(m)@ == old(m)@,
        spec_rewrite_plan(old(m)@, region_id, extents@.len()) is Ok && spec_generation(old(m)@) % 2
            == 0 ==> final(m)@ == spec_rewrite_mem(old(m)@, region_id, extents@),
{
    let mut entry = match RegionEntry::read_from(m, region_id as usize) {
        Ok(e) => e,
        Err(_) => {
            return Err(STATUS_INTERNAL);
        },
    };
    let ghost at = spec_entry_offset(region_id as int);
    let ghost m0 = m@;
    let ghost e0 = entry;
    proof {
        lemma_entry_round_trip(e0, m0, at);
    }
    let mut hdr = match ManifestHeader::read_from(m) {
        Ok(h) => h,
        Err(_) => {
            return Err(STATUS_INTERNAL);
        },
    };
    let n = extents.len();
    let (extent_off, bump_pool) = if n <= entry.extent_n as usize {
        (entry.extent_off, false)
    } else {
        if n > EXTENT_CAPACITY || hdr.extent_count as usize > EXTENT_CAPACITY - n {
            return Err(STATUS_TOO_MANY_EXTENTS);
        }
        (hdr.extent_count, true)
    };
    let odd = match writer_begin(m) {
        Ok(g) => g,
        Err(_) => {
            return Err(STATUS_INTERNAL);
        },
    };
    let ghost m1 = m@;
    proof {
        vstd::bytes::lemma_auto_spec_u64_to_from_le_bytes();
        vstd::bytes::lemma_auto_spec_u32_to_from_le_bytes();
        assert(m1.subrange(8, 16) =~= b64(odd));
        assert(m1.subrange(at, at + 96) =~= m0.subrange(at, at + 96));
    }
    let mut i: usize = 0;
    proof {
        assert(extents@.subrange(0, 0) =~= Seq::<Extent>::empty());
    }
    while i < n
        invariant
            i <= n,
            n == extents@.len(),
            m1.len() >= MANIFEST_TOTAL_SIZE,
            i == 0 || (extent_off as int) + i <= EXTENT_CAPACITY,
            m@ == spec_write_extents(m1, extent_off as int, extents@.subrange(0, i as int)),
            m@.len() == m1.len(),
        decreases n - i,
    {
        if extent_off as u64 + i as u64 >= EXTENT_CAPACITY as u64 {
            return Err(STATUS_INTERNAL);
        }
        proof {
            assert(extents@.subrange(0, i + 1).subrange(0, i as int) =~= extents@.subrange(
                0,
                i as int,
            ));
            vstd::bytes::lemma_auto_spec_u64_to_from_le_bytes();
        }
        let _ = extents[i].write_to(m, extent_off as usize + i);
        i = i + 1;
    }
    proof {
        assert(extents@.subrange(0, n as int) =~= extents@);
        lemma_write_extents_keeps_front(m1, extent_off as int, extents@);
    }
    let ghost m2 = m@;
    entry.extent_off = extent_off;
    entry.extent_n = n as u32;
    proof {
        assert(m2.subrange(at, at + 96) =~= m1.subrange(at, at + 96)) by {
            assert(m2.subrange(0, 0x1820) =~= m1.subrange(0, 0x1820));
            assert(m2.subrange(0, 0x1820).subrange(at, at + 96) =~= m2.subrange(at, at + 96));
            assert(m1.subrange(0, 0x1820).subrange(at, at + 96) =~= m1.subrange(at, at + 96));
        }
        vstd::bytes::lemma_auto_spec_u64_to_from_le_bytes();
        vstd::bytes::lemma_auto_spec_u32_to_from_le_bytes();
        assert(spec_entry_bytes(entry) =~= spec_entry_bytes(e0).subrange(0, 32) + (b32(extent_off)
            + b32(n as u32)) + spec_entry_bytes(e0).subrange(40, 96));
        assert(splice(m2, at, spec_entry_bytes(entry)) =~= splice(
            m2,
            at + 32,
            b32(extent_off) + b32(n as u32),
        ));
    }
    let _ = entry.write_to(m, region_id as usize);
    let ghost m3 = m@;
    if bump_pool {
        hdr.generation = odd;
        hdr.extent_count = hdr.extent_count + n as u32;
        let _ = hdr.write_to(m);
        proof {
            lemma_header_generation(m3, hdr);
        }
    } else {
        proof {
            assert(m3.subrange(0, 0x1820) =~= splice(m2, at + 32, b32(extent_off) + b32(n as u32)).subrange(0, 0x1820));
            assert(m3.subrange(8, 16) =~= m2.subrange(0, 0x1820).subrange(8, 16));
            assert(m1.subrange(0, 0x1820).subrange(8, 16) =~= m1.subrange(8, 16));
            assert(m2.subrange(0, 0x1820) =~= m1.subrange(0, 0x1820));
            assert(spec_generation(m3) == odd);
        }
    }
    match writer_end(m) {
        Ok(g) => Ok(g),
        Err(_) => Err(STATUS_INTERNAL),
    }
}

/// Why translating a GVA range into extents failed.
#[derive(Debug, PartialEq, Eq)]
pub enum BuildExtentsError {
    /// A page did not translate.
    Translate(TranslateError),
    /// The range needs more extents than one registration may hold.
    TooManyExtents,
}

/// One translated chunk appended to a region's extents: it lengthens the
/// last extent when it continues it physically, else it starts a new one;
/// `None` when that would take more extents than the pool holds.
pub open spec fn spec_push_extent(xs: Seq<Extent>, gpa: u64, len: u64) -> Option<Seq<Extent>> {
    if xs.len() > 0 && xs.last().gpa + xs.last().len == gpa && xs.last().len + len <= u64::MAX {
        Some(xs.update(xs.len() - 1, Extent { gpa: xs.last().gpa, len: (xs.last().len + len) as u64 }))
    } else if xs.len() < EXTENT_CAPACITY {
        Some(xs.push(Extent { gpa, len }))
    } else {
        None
    }
}

/// Append the chunk `[gpa, gpa + len)` of a region being translated.
pub fn push_extent(extents: &mut Vec<Extent>, gpa: u64, len: u64) -> (r: Result<(), BuildExtentsError>)
    ensures
        match spec_push_extent(old(extents)@, gpa, len) {
            Some(xs) => r is Ok && final(extents)@ == xs,
            None => r == Err::<(), BuildExtentsError>(BuildExtentsError::TooManyExtents)
                && final(extents)@ == old(extents)@,
        },
{
    let n = extents.len();
    if n > 0 {
        let last = extents[n - 1];
        if last.gpa as u128 + last.len as u128 == gpa as u128 && last.len as u128 + len as u128
            <= u64::MAX as u128 {
            extents.set(n - 1, Extent { gpa: last.gpa, len: last.len + len });
            return Ok(());
        }
    }
    if n < EXTENT_CAPACITY {
        extents.push(Extent { gpa, len });
        Ok(())
    } else {
        Err(BuildExtentsError::TooManyExtents)
    }
}

/// The reply status for a failed translation.
pub open spec fn spec_build_error_status(e: BuildExtentsError) -> u16 {
    match e {
        BuildExtentsError::Translate(TranslateError::Io(_)) => STATUS_INTERNAL,
        BuildExtentsError::Translate(_) => STATUS_NOT_PINNED,
        BuildExtentsError::TooManyExtents => STATUS_TOO_MANY_EXTENTS,
    }
}

/// The reply status for a failed translation: an I/O error is internal,
/// an untranslatable page means the range is not pinned.
pub fn build_error_status(e: &BuildExtentsError) -> (r: u16)
    ensures
        r == spec_build_error_status(*e),
{
    match e {
        BuildExtentsError::Translate(TranslateError::Io(_)) => STATUS_INTERNAL,
        BuildExtentsError::Translate(_) => STATUS_NOT_PINNED,
        BuildExtentsError::TooManyExtents => STATUS_TOO_MANY_EXTENTS,
    }
}

/// Translates a process's GVA range into GPA extents (a pagemap walk in
/// the guest; injectable so the ledger logic runs without one).
pub trait Translator {
    /// Whether `r` is an answer the translator may give for
    /// `[gva, gva+len)` in process `pid` (the page tables it walks may
    /// change between calls, so more than one answer may be possible). A
    /// translator that does not narrow it may give any answer.
    closed spec fn gives(&self, pid: i32, gva: u64, len: u64, r: Result<Seq<Extent>, BuildExtentsError>) -> bool {
        true
    }

    /// The extents of `[gva, gva+len)` in process `pid`: an answer the
    /// translator gives for exactly these arguments. Which answers it may
    /// give is not changed by the call.
    fn translate(&mut self, pid: i32, gva: u64, len: u64) -> (r: Result<Vec<Extent>, BuildExtentsError>)
        ensures
            old(self).gives(pid, gva, len, ext_view(r)),
            forall|p: i32, g: u64, l: u64, x: Result<Seq<Extent>, BuildExtentsError>|
                #[trigger] final(self).gives(p, g, l, x) == old(self).gives(p, g, l, x),
    ;
}

/// One registered region as the agent knows it: everything a reverify
/// needs to re-walk pagemap without asking the workload anything.
#[derive(Debug)]
pub struct RegionRecord {
    pub region_id: u32,
    pub name: Vec<u8>,
    pub name_id: u32,
    pub layout_version: u32,
    pub pid: i32,
    pub gva: u64,
    pub len: u64,
    pub extents: Vec<Extent>,
    pub dead: bool,
}

/// The mathematical form of a `RegionRecord`.
pub struct RecordModel {
    pub region_id: u32,
    pub name: Seq<u8>,
    pub name_id: u32,
    pub layout_version: u32,
    pub pid: i32,
    pub gva: u64,
    pub len: u64,
    pub extents: Seq<Extent>,
    pub dead: bool,
}

impl View for RegionRecord {
    type V = RecordModel;

    open spec fn view(&self) -> RecordModel {
        RecordModel {
            region_id: self.region_id,
            name: self.name@,
            name_id: self.name_id,
            layout_version: self.layout_version,
            pid: self.pid,
            gva: self.gva,
            len: self.len,
            extents: self.extents@,
            dead: self.dead,
        }
    }
}

/// The views of a sequence of records.
pub open spec fn records_view(v: Seq<RegionRecord>) -> Seq<RecordModel> {
    v.map_values(|r: RegionRecord| r@)
}

/// The registration ledger, in registration order.
#[derive(Debug)]
pub struct RegionLedger {
    records: Vec<RegionRecord>,
}

impl View for RegionLedger {
    type V = Seq<RecordModel>;

    closed spec fn view(&self) -> Seq<RecordModel> {
        records_view(self.records@)
    }
}

/// Something the agent emits on ring A after a ledger change.
#[derive(Debug, PartialEq, Eq)]
pub enum AgentEvent {
    /// `NameIntern` for a registered region's name.
    NameIntern { name_id: u32, name: Vec<u8> },
    /// `RegionRegister` for a new region.
    RegionRegister(RegionEvent),
    /// `RegionUpdate` from a reverify sweep.
    RegionUpdate(RegionEvent),
    /// An error-level `LogLine` on the agent stream.
    Alarm(String),
}

/// The mathematical form of an `AgentEvent`.
pub enum AgentEventModel {
    NameIntern { name_id: u32, name: Seq<u8> },
    RegionRegister(RegionEvent),
    RegionUpdate(RegionEvent),
    Alarm(Seq<char>),
}

/// One emission: the event, and whether the doorbell follows it.
#[derive(Debug, PartialEq, Eq)]
pub struct Emit {
    pub event: AgentEvent,
    pub doorbell: bool,
}

impl View for Emit {
    type V = (AgentEventModel, bool);

    open spec fn view(&self) -> (AgentEventModel, bool) {
        (
            match self.event {
                AgentEvent::NameIntern { name_id, name } => AgentEventModel::NameIntern {
                    name_id,
                    name: name@,
                },
                AgentEvent::RegionRegister(e) => AgentEventModel::RegionRegister(e),
                AgentEvent::RegionUpdate(e) => AgentEventModel::RegionUpdate(e),
                AgentEvent::Alarm(s) => AgentEventModel::Alarm(s@),
            },
            self.doorbell,
        )
    }
}

/// The views of a sequence of emissions.
pub open spec fn emits_view(v: Seq<Emit>) -> Seq<(AgentEventModel, bool)> {
    v.map_values(|e: Emit| e@)
}

/// A reply carrying only a status.
pub open spec fn spec_err_reply(status: u16) -> Reply {
    Reply { status, region_id: 0, name_id: 0, manifest_generation: 0 }
}

/// A reply carrying only a status.
fn err_reply(status: u16) -> (r: Reply)
    ensures
        r == spec_err_reply(status),
{
    Reply { status, region_id: 0, name_id: 0, manifest_generation: 0 }
}

/// What a `Register` request leads to: the reply, the emissions, the
/// ledger and the manifest after it.
pub struct RegisterOutcome {
    pub reply: Reply,
    pub emits: Seq<(AgentEventModel, bool)>,
    pub ledger: Seq<RecordModel>,
    pub mem: Seq<u8>,
}

/// A `Register` from `peer` (the workload being `workload`), the range
/// having translated to `ext`: only the supervised workload may register;
/// a failed translation or manifest write is answered with its status; a
/// written region is interned, announced (with the doorbell) and kept in
/// the ledger.
pub open spec fn spec_register(
    ledger: Seq<RecordModel>,
    m: Seq<u8>,
    peer: i32,
    workload: Option<i32>,
    flags: u32,
    layout_version: u32,
    name_id: u32,
    gva: u64,
    len: u64,
    name: Seq<u8>,
    ext: Result<Seq<Extent>, BuildExtentsError>,
) -> RegisterOutcome {
    let unchanged = |reply: Reply|
        RegisterOutcome { reply, emits: Seq::empty(), ledger, mem: m };
    if workload != Some(peer) {
        unchanged(spec_err_reply(STATUS_UNKNOWN_PID))
    } else {
        match ext {
            Err(e) => unchanged(spec_err_reply(spec_build_error_status(e))),
            Ok(x) => match spec_write_region_result(m, name, x.len()) {
                Err(status) => unchanged(spec_err_reply(status)),
                Ok((region_id, generation)) => {
                    let m2 = spec_write_region_mem(
                        m,
                        name,
                        name_id,
                        layout_version,
                        flags,
                        gva,
                        len,
                        x,
                    );
                    if generation > u32::MAX {
                        RegisterOutcome {
                            reply: spec_err_reply(STATUS_INTERNAL),
                            emits: Seq::empty(),
                            ledger,
                            mem: m2,
                        }
                    } else {
                        RegisterOutcome {
                            reply: Reply {
                                status: STATUS_OK,
                                region_id,
                                name_id,
                                manifest_generation: generation,
                            },
                            emits: seq![
                                (AgentEventModel::NameIntern { name_id, name }, false),
                                (
                                    AgentEventModel::RegionRegister(
                                        RegionEvent {
                                            region_id,
                                            name_id,
                                            layout_version,
                                            manifest_generation: generation as u32,
                                        },
                                    ),
                                    true,
                                ),
                            ],
                            ledger: ledger.push(
                                RecordModel {
                                    region_id,
                                    name,
                                    name_id,
                                    layout_version,
                                    pid: peer,
                                    gva,
                                    len,
                                    extents: x,
                                    dead: false,
                                },
                            ),
                            mem: m2,
                        }
                    }
                },
            },
        }
    }
}

/// The view of a translation result.
pub open spec fn ext_view(r: Result<Vec<Extent>, BuildExtentsError>) -> Result<
    Seq<Extent>,
    BuildExtentsError,
> {
    match r {
        Ok(v) => Ok(v@),
        Err(e) => Err(e),
    }
}

/// A copy of `v`.
fn copy_u8s(v: &[u8]) -> (r: Vec<u8>)
    ensures
        r@ == v@,
{
    let mut r: Vec<u8> = Vec::new();
    let mut i: usize = 0;
    while i < v.len()
        invariant
            i <= v@.len(),
            r@ == v@.subrange(0, i as int),
        decreases v@.len() - i,
    {
        r.push(v[i]);
        i = i + 1;
        proof {
            assert(r@ =~= v@.subrange(0, i as int));
        }
    }
    proof {
        assert(v@.subrange(0, v@.len() as int) =~= v@);
    }
    r
}

impl RegionLedger {
    /// An empty ledger.
    pub fn new() -> (r: Self)
        ensures
            r@ == Seq::<RecordModel>::empty(),
    {
        let r = RegionLedger { records: Vec::new() };
        proof {
            assert(r@ =~= Seq::<RecordModel>::empty());
        }
        r
    }

    /// The records, in registration order.
    pub fn records(&self) -> (r: &[RegionRecord])
        ensures
            records_view(r@) == self@,
    {
        self.records.as_slice()
    }

    /// Answer a `Register` from `peer` whose range translated to
    /// `extents`, writing the manifest `m`.
    pub fn register_with(
        &mut self,
        m: &mut [u8],
        peer: i32,
        workload: Option<i32>,
        flags: u32,
        layout_version: u32,
        name_id: u32,
        gva: u64,
        len: u64,
        name: &[u8],
        extents: Result<Vec<Extent>, BuildExtentsError>,
    ) -> (r: (Reply, Vec<Emit>))
        requires
            old(m)@.len() >= MANIFEST_TOTAL_SIZE,
        ensures
            ({
                let o = spec_register(
                    old(self)@,
                    old(m)@,
                    peer,
                    workload,
                    flags,
                    layout_version,
                    name_id,
                    gva,
                    len,
                    name@,
                    ext_view(extents),
                );
                &&& r.0 == o.reply
                &&& emits_view(r.1@) == o.emits
                &&& final(self)@ == o.ledger
                &&& final(m)@ == o.mem
            }),
    {
        let ghost ev = ext_view(extents);
        let none: Vec<Emit> = Vec::new();
        proof {
            assert(emits_view(none@) =~= Seq::<(AgentEventModel, bool)>::empty());
        }
        if workload != Some(peer) {
            return (err_reply(STATUS_UNKNOWN_PID), none);
        }
        let x = match extents {
            Ok(x) => x,
            Err(e) => {
                return (err_reply(build_error_status(&e)), none);
            },
        };
        let (region_id, generation) = match write_region(
            m,
            name,
            name_id,
            layout_version,
            flags,
            gva,
            len,
            x.as_slice(),
        ) {
            Ok(ok) => ok,
            Err(status) => {
                return (err_reply(status), none);
            },
        };
        if generation > 0xFFFF_FFFFu64 {
            return (err_reply(STATUS_INTERNAL), none);
        }
        let gen32 = generation as u32;
        let mut emits: Vec<Emit> = Vec::new();
        emits.push(Emit { event: AgentEvent::NameIntern { name_id, name: copy_u8s(name) }, doorbell: false });
        emits.push(
            Emit {
                event: AgentEvent::RegionRegister(
                    RegionEvent { region_id, name_id, layout_version, manifest_generation: gen32 },
                ),
                doorbell: true,
            },
        );
        let rec = RegionRecord {
            region_id,
            name: copy_u8s(name),
            name_id,
            layout_version,
            pid: peer,
            gva,
            len,
            extents: x,
            dead: false,
        };
        let ghost before = self.records@;
        self.records.push(rec);
        proof {
            assert(records_view(self.records@) =~= records_view(before).push(rec@));
            assert(emits_view(emits@) =~= seq![
                (AgentEventModel::NameIntern { name_id, name: name@ }, false),
                (
                    AgentEventModel::RegionRegister(
                        RegionEvent {
                            region_id,
                            name_id,
                            layout_version,
                            manifest_generation: gen32,
                        },
                    ),
                    true,
                ),
            ]);
        }
        (Reply { status: STATUS_OK, region_id, name_id, manifest_generation: generation }, emits)
    }

    /// Answer an `Unregister` of `region_id` from `peer`: only the
    /// supervised workload may unregister, only a live region it
    /// registered; the entry is marked DEAD in the manifest `m`.
    pub fn unregister(&mut self, m: &mut [u8], peer: i32, workload: Option<i32>, region_id: u32) -> (r:
        Reply)
        requires
            old(m)@.len() >= MANIFEST_TOTAL_SIZE,
        ensures
            ({
                let o = spec_unregister(old(self)@, old(m)@, peer, workload, region_id);
                &&& r == o.0
                &&& final(self)@ == o.1
                &&& final(m)@ == o.2
            }),
    {
        if workload != Some(peer) {
            return err_reply(STATUS_UNKNOWN_PID);
        }
        proof {
            lemma_find_live(self@, region_id);
        }
        let mut k: usize = 0;
        while k < self.records.len() && !(self.records[k].region_id == region_id
            && !self.records[k].dead)
            invariant
                k <= self.records@.len(),
                self@ == old(self)@,
                self@ == records_view(self.records@),
                m@ == old(m)@,
                forall|j: int| 0 <= j < k ==> !spec_is_live(#[trigger] self@[j], region_id),
            decreases self.records@.len() - k,
        {
            k = k + 1;
        }
        if k == self.records.len() {
            proof {
                let f = spec_find_live(self@, region_id);
                if f >= 0 {
                    assert(!spec_is_live(self@[f], region_id));
                }
            }
            return err_reply(STATUS_UNKNOWN_REGION);
        }
        proof {
            let f = spec_find_live(self@, region_id);
            assert(spec_is_live(self@[k as int], region_id));
            if f >= 0 && f < k {
                assert(!spec_is_live(self@[f], region_id));
            }
        }
        match mark_region_dead(m, region_id) {
            Ok(generation) => {
                let name_id = self.records[k].name_id;
                let ghost before = self.records@;
                let mut rec = self.records.remove(k);
                rec.dead = true;
                self.records.insert(k, rec);
                proof {
                    assert(self.records@ =~= before.update(k as int, rec));
                    assert(records_view(self.records@) =~= records_view(before).update(k as int, rec@));
                }
                Reply { status: STATUS_OK, region_id, name_id, manifest_generation: generation }
            },
            Err(status) => err_reply(status),
        }
    }

    /// Answer one request datagram from `peer`: one longer than the
    /// datagram cap or that does not decode is a bad request and changes
    /// nothing; a decoded request is handled.
    pub fn answer<T: Translator>(
        &mut self,
        m: &mut [u8],
        datagram: &[u8],
        peer: i32,
        workload: Option<i32>,
        translator: &mut T,
    ) -> (r: (Reply, Vec<Emit>))
        requires
            old(m)@.len() >= MANIFEST_TOTAL_SIZE,
        ensures
            !(datagram@.len() <= REGIONIPC_MAX_DATAGRAM && (spec_decode_request(datagram@) matches Ok(
                req,
            ) && spec_asks_translation(req, peer, workload))) ==> *final(translator) == *old(translator),
            (datagram@.len() > REGIONIPC_MAX_DATAGRAM || spec_decode_request(datagram@) is Err) ==> {
                &&& r.0 == spec_err_reply(STATUS_BAD_REQUEST)
                &&& r.1@.len() == 0
                &&& final(self)@ == old(self)@
                &&& final(m)@ == old(m)@
            },
            datagram@.len() <= REGIONIPC_MAX_DATAGRAM ==> (spec_decode_request(datagram@) matches Ok(req)
                ==> spec_handled(
                *old(translator),
                old(self)@,
                old(m)@,
                req,
                peer,
                workload,
                r.0,
                emits_view(r.1@),
                final(self)@,
                final(m)@,
            )),
    {
        if datagram.len() > REGIONIPC_MAX_DATAGRAM {
            return (err_reply(STATUS_BAD_REQUEST), Vec::new());
        }
        match decode_request(datagram) {
            Ok(req) => self.handle(m, &req, peer, workload, translator),
            Err(_) => (err_reply(STATUS_BAD_REQUEST), Vec::new()),
        }
    }

    /// Answer one request from `peer`, translating a register's range with
    /// `translator` (only once the peer may register). What the
    /// translation gives is the translator's; the answer is the one for
    /// whatever it gave.
    pub fn handle<T: Translator>(
        &mut self,
        m: &mut [u8],
        req: &Request,
        peer: i32,
        workload: Option<i32>,
        translator: &mut T,
    ) -> (r: (Reply, Vec<Emit>))
        requires
            old(m)@.len() >= MANIFEST_TOTAL_SIZE,
        ensures
            !spec_asks_translation(req@, peer, workload) ==> *final(translator) == *old(translator),
            spec_handled(
                *old(translator),
                old(self)@,
                old(m)@,
                req@,
                peer,
                workload,
                r.0,
                emits_view(r.1@),
                final(self)@,
                final(m)@,
            ),
    {
        match req {
            Request::Register { flags, layout_version, name_id, gva, len, name } => {
                let extents = if workload == Some(peer) {
                    translator.translate(peer, *gva, *len)
                } else {
                    Err(BuildExtentsError::TooManyExtents)
                };
                let ghost ev = ext_view(extents);
                let r = self.register_with(
                    m,
                    peer,
                    workload,
                    *flags,
                    *layout_version,
                    *name_id,
                    *gva,
                    *len,
                    name,
                    extents,
                );
                proof {
                    let rm = req@;
                    match rm {
                        RequestModel::Register {
                            flags: f,
                            layout_version: lv,
                            name_id: ni,
                            gva: g,
                            len: l,
                            name: nm,
                        } => {
                            assert(f == *flags && lv == *layout_version && ni == *name_id && g == *gva
                                && l == *len && nm == name@);
                        },
                        _ => {},
                    }
                }
                r
            },
            Request::Unregister { region_id } => {
                let r = self.unregister(m, peer, workload, *region_id);
                (r, Vec::new())
            },
        }
    }
}

/// Whether answering `req` from `peer` consults the translator: only a
/// register from the supervised workload does.
pub open spec fn spec_asks_translation(req: RequestModel, peer: i32, workload: Option<i32>) -> bool {
    req is Register && workload == Some(peer)
}

/// Whether answering `req` from `peer` may have given `reply` and
/// `emits` and left `ledger2` and `m2`: for a register, the register
/// answer for a translation of the request's own range in `peer` that
/// `translator` gives (none is asked for unless `peer` is the workload);
/// for an unregister, exactly its answer.
pub open spec fn spec_handled<T: Translator>(
    translator: T,
    ledger: Seq<RecordModel>,
    m: Seq<u8>,
    req: RequestModel,
    peer: i32,
    workload: Option<i32>,
    reply: Reply,
    emits: Seq<(AgentEventModel, bool)>,
    ledger2: Seq<RecordModel>,
    m2: Seq<u8>,
) -> bool {
    match req {
        RequestModel::Register { flags, layout_version, name_id, gva, len, name } => exists|
            ext: Result<Seq<Extent>, BuildExtentsError>,
        |
            (workload == Some(peer) ==> translator.gives(peer, gva, len, ext)) && #[trigger] spec_register(
                ledger,
                m,
                peer,
                workload,
                flags,
                layout_version,
                name_id,
                gva,
                len,
                name,
                ext,
            ) == (RegisterOutcome { reply, emits, ledger: ledger2, mem: m2 }),
        RequestModel::Unregister { region_id } => {
            &&& spec_unregister(ledger, m, peer, workload, region_id) == (reply, ledger2, m2)
            &&& emits.len() == 0
        },
    }
}

/// Whether `r` is the live record of `region_id`.
pub open spec fn spec_is_live(r: RecordModel, region_id: u32) -> bool {
    r.region_id == region_id && !r.dead
}

/// The position of the first live record of `region_id`, or -1.
pub open spec fn spec_find_live(ledger: Seq<RecordModel>, region_id: u32) -> int
    decreases ledger.len(),
{
    if ledger.len() == 0 {
        -1
    } else if spec_is_live(ledger[0], region_id) {
        0
    } else {
        let r = spec_find_live(ledger.subrange(1, ledger.len() as int), region_id);
        if r < 0 {
            -1
        } else {
            r + 1
        }
    }
}

/// `spec_find_live` is -1 or the first live record of the id.
proof fn lemma_find_live(ledger: Seq<RecordModel>, region_id: u32)
    ensures
        -1 <= spec_find_live(ledger, region_id) < ledger.len(),
        spec_find_live(ledger, region_id) >= 0 ==> spec_is_live(
            ledger[spec_find_live(ledger, region_id)],
            region_id,
        ),
        forall|j: int|
            0 <= j < ledger.len() && (spec_find_live(ledger, region_id) < 0 || j < spec_find_live(
                ledger,
                region_id,
            )) ==> !spec_is_live(#[trigger] ledger[j], region_id),
    decreases ledger.len(),
{
    if ledger.len() > 0 && !spec_is_live(ledger[0], region_id) {
        let u = ledger.subrange(1, ledger.len() as int);
        lemma_find_live(u, region_id);
        assert forall|j: int|
            0 <= j < ledger.len() && (spec_find_live(ledger, region_id) < 0 || j < spec_find_live(
                ledger,
                region_id,
            )) implies !spec_is_live(#[trigger] ledger[j], region_id) by {
            if j > 0 {
                assert(ledger[j] == u[j - 1]);
            }
        }
    }
}

/// An `Unregister` of `region_id` from `peer`: the reply, the ledger and
/// the manifest after it.
pub open spec fn spec_unregister(
    ledger: Seq<RecordModel>,
    m: Seq<u8>,
    peer: i32,
    workload: Option<i32>,
    region_id: u32,
) -> (Reply, Seq<RecordModel>, Seq<u8>) {
    let k = spec_find_live(ledger, region_id);
    if workload != Some(peer) {
        (spec_err_reply(STATUS_UNKNOWN_PID), ledger, m)
    } else if k < 0 {
        (spec_err_reply(STATUS_UNKNOWN_REGION), ledger, m)
    } else {
        match spec_mark_dead_result(m, region_id) {
            Ok(g) => (
                Reply {
                    status: STATUS_OK,
                    region_id,
                    name_id: ledger[k].name_id,
                    manifest_generation: g,
                },
                ledger.update(k, RecordModel { dead: true, ..ledger[k] }),
                spec_mark_dead_mem(m, region_id),
            ),
            Err(s) => (spec_err_reply(s), ledger, m),
        }
    }
}

/// The event announcing `rec` at manifest generation `g` (saturated to
/// 32 bits).
pub open spec fn spec_region_event(rec: RecordModel, g: u64) -> RegionEvent {
    RegionEvent {
        region_id: rec.region_id,
        name_id: rec.name_id,
        layout_version: rec.layout_version,
        manifest_generation: if g <= u32::MAX {
            g as u32
        } else {
            u32::MAX
        },
    }
}

/// The alarm for a region whose extents moved under pinning.
pub open spec fn spec_drift_alarm(rec: RecordModel) -> Seq<char> {
    "P0: region "@ + spec_dec(rec.region_id as nat) + " ("@ + utf8_lossy(rec.name)
        + ") extents drifted under pinning"@
}

/// The alarm for a region whose range no longer translates.
pub open spec fn spec_gone_alarm(rec: RecordModel) -> Seq<char> {
    "P0: region "@ + spec_dec(rec.region_id as nat) + " ("@ + utf8_lossy(rec.name)
        + ") no longer translates; marking dead"@
}

/// The manifest `rewrite_extents` leaves, whatever it answers.
pub open spec fn spec_rewrite_after(m: Seq<u8>, region_id: u32, ext: Seq<Extent>) -> Seq<u8> {
    if spec_rewrite_plan(m, region_id, ext.len()) is Ok && spec_generation(m) % 2 == 0 {
        spec_rewrite_mem(m, region_id, ext)
    } else {
        m
    }
}

/// Killing `region_id`: the generation to report and the manifest after
/// it (the current generation when the DEAD write fails).
pub open spec fn spec_kill(m: Seq<u8>, region_id: u32) -> (u64, Seq<u8>) {
    match spec_mark_dead_result(m, region_id) {
        Ok(g) => (g, spec_mark_dead_mem(m, region_id)),
        Err(_) => (spec_generation(m), m),
    }
}

/// Re-checking one live record against its fresh translation `res`: the
/// record and manifest after, the update event, and the alarm if any.
/// Unchanged extents echo the generation; drifted ones are rewritten
/// (or, failing that, the region is killed) with an alarm; a range that
/// no longer translates is killed with an alarm.
pub open spec fn spec_sweep_one(
    rec: RecordModel,
    m: Seq<u8>,
    res: Result<Seq<Extent>, BuildExtentsError>,
) -> (RecordModel, Seq<u8>, RegionEvent, Option<Seq<char>>) {
    match res {
        Ok(x) => if x == rec.extents {
            (rec, m, spec_region_event(rec, spec_generation(m)), None)
        } else {
            let mr = spec_rewrite_after(m, rec.region_id, x);
            match spec_rewrite_result(m, rec.region_id, x.len()) {
                Ok(g) => (
                    RecordModel { extents: x, ..rec },
                    mr,
                    spec_region_event(rec, g),
                    Some(spec_drift_alarm(rec)),
                ),
                Err(_) => {
                    let (g, m2) = spec_kill(mr, rec.region_id);
                    (
                        RecordModel { dead: true, ..rec },
                        m2,
                        spec_region_event(rec, g),
                        Some(spec_drift_alarm(rec)),
                    )
                },
            }
        },
        Err(_) => {
            let (g, m2) = spec_kill(m, rec.region_id);
            (
                RecordModel { dead: true, ..rec },
                m2,
                spec_region_event(rec, g),
                Some(spec_gone_alarm(rec)),
            )
        },
    }
}

/// The live records from `i` on.
pub open spec fn spec_live_from(ledger: Seq<RecordModel>, i: int) -> nat
    decreases ledger.len() - i,
{
    if i < 0 || i >= ledger.len() {
        0
    } else if ledger[i].dead {
        spec_live_from(ledger, i + 1)
    } else {
        1 + spec_live_from(ledger, i + 1)
    }
}

/// The live records among the first `k`, in ledger order.
pub open spec fn spec_live_prefix(ledger: Seq<RecordModel>, k: int) -> Seq<RecordModel>
    decreases k,
{
    if k <= 0 {
        Seq::empty()
    } else {
        let p = spec_live_prefix(ledger, k - 1);
        if ledger[k - 1].dead {
            p
        } else {
            p.push(ledger[k - 1])
        }
    }
}

/// What a reverify sweep does from record `i` on, the live records taking
/// the translation results from `j` on: the ledger, the manifest, and the
/// updates (event and alarm), in ledger order.
pub open spec fn spec_sweep(
    ledger: Seq<RecordModel>,
    m: Seq<u8>,
    results: Seq<Result<Seq<Extent>, BuildExtentsError>>,
    i: int,
    j: int,
) -> (Seq<RecordModel>, Seq<u8>, Seq<(RegionEvent, Option<Seq<char>>)>)
    decreases ledger.len() - i,
{
    if i < 0 || i >= ledger.len() {
        (ledger, m, Seq::empty())
    } else if ledger[i].dead {
        spec_sweep(ledger, m, results, i + 1, j)
    } else {
        let (rec2, m2, ev, alarm) = spec_sweep_one(ledger[i], m, results[j]);
        let rest = spec_sweep(ledger.update(i, rec2), m2, results, i + 1, j + 1);
        (rest.0, rest.1, seq![(ev, alarm)] + rest.2)
    }
}

/// The emissions for the updates from `k` on: each alarm as a LogLine,
/// then the update; the doorbell after the last update only.
pub open spec fn spec_update_emits(ups: Seq<(RegionEvent, Option<Seq<char>>)>, k: int) -> Seq<
    (AgentEventModel, bool),
>
    decreases ups.len() - k,
{
    if k < 0 || k >= ups.len() {
        Seq::empty()
    } else {
        let alarm = match ups[k].1 {
            Some(msg) => seq![(AgentEventModel::Alarm(msg), false)],
            None => Seq::empty(),
        };
        alarm + seq![(AgentEventModel::RegionUpdate(ups[k].0), k == ups.len() - 1)]
            + spec_update_emits(ups, k + 1)
    }
}

/// The views of translation results.
pub open spec fn results_view(v: Seq<Result<Vec<Extent>, BuildExtentsError>>) -> Seq<
    Result<Seq<Extent>, BuildExtentsError>,
> {
    v.map_values(|r: Result<Vec<Extent>, BuildExtentsError>| ext_view(r))
}

/// The view of an optional string.
pub open spec fn opt_text(s: Option<String>) -> Option<Seq<char>> {
    match s {
        Some(x) => Some(x@),
        None => None,
    }
}

/// A copy of `x`.
fn copy_extents(x: &[Extent]) -> (r: Vec<Extent>)
    ensures
        r@ == x@,
{
    let mut r: Vec<Extent> = Vec::new();
    let mut i: usize = 0;
    while i < x.len()
        invariant
            i <= x@.len(),
            r@ == x@.subrange(0, i as int),
        decreases x@.len() - i,
    {
        r.push(x[i]);
        i = i + 1;
        proof {
            assert(r@ =~= x@.subrange(0, i as int));
        }
    }
    proof {
        assert(x@.subrange(0, x@.len() as int) =~= x@);
    }
    r
}

/// Whether `a` and `b` list the same extents.
fn extents_eq(a: &[Extent], b: &[Extent]) -> (r: bool)
    ensures
        r == (a@ == b@),
{
    if a.len() != b.len() {
        return false;
    }
    let mut i: usize = 0;
    while i < a.len()
        invariant
            i <= a@.len(),
            a@.len() == b@.len(),
            forall|k: int| 0 <= k < i ==> a@[k] == b@[k],
        decreases a@.len() - i,
    {
        if a[i] != b[i] {
            return false;
        }
        i = i + 1;
    }
    proof {
        assert(a@ =~= b@);
    }
    true
}

/// The event announcing `rec` at generation `g`.
fn region_event(rec: &RegionRecord, g: u64) -> (e: RegionEvent)
    ensures
        e == spec_region_event(rec@, g),
{
    RegionEvent {
        region_id: rec.region_id,
        name_id: rec.name_id,
        layout_version: rec.layout_version,
        manifest_generation: if g <= 0xFFFF_FFFFu64 {
            g as u32
        } else {
            0xFFFF_FFFFu32
        },
    }
}

/// Kill `region_id`: mark it DEAD, reporting the new generation, or the
/// current one when that fails.
fn kill(m: &mut [u8], region_id: u32) -> (g: u64)
    requires
        old(m)@.len() >= MANIFEST_TOTAL_SIZE,
    ensures
        (g, final(m)@) == spec_kill(old(m)@, region_id),
        final(m)@.len() == old(m)@.len(),
{
    match mark_region_dead(m, region_id) {
        Ok(g) => {
            proof {
                vstd::bytes::lemma_auto_spec_u64_to_from_le_bytes();
                vstd::bytes::lemma_auto_spec_u32_to_from_le_bytes();
            }
            g
        },
        Err(_) => match read_generation(m) {
            Ok(g) => g,
            Err(_) => 0,
        },
    }
}

/// `P0: region <id> (<name>)` followed by `tail`.
fn alarm_text(rec: &RegionRecord, tail: &str) -> (r: String)
    ensures
        r@ == "P0: region "@ + spec_dec(rec.region_id as nat) + " ("@ + utf8_lossy(rec.name@) + tail@,
{
    let mut c = chars_of("P0: region ");
    push_dec(&mut c, rec.region_id as u128);
    push_str(&mut c, " (");
    let n = lossy_string(rec.name.as_slice());
    push_str(&mut c, n.as_str());
    push_str(&mut c, tail);
    string_from_chars(c.as_slice())
}

/// Re-check one live record against its fresh translation.
fn sweep_one(rec: &RegionRecord, m: &mut [u8], res: &Result<Vec<Extent>, BuildExtentsError>) -> (r: (
    RegionRecord,
    RegionEvent,
    Option<String>,
))
    requires
        old(m)@.len() >= MANIFEST_TOTAL_SIZE,
    ensures
        ({
            let o = spec_sweep_one(rec@, old(m)@, ext_view(*res));
            &&& r.0@ == o.0
            &&& final(m)@ == o.1
            &&& r.1 == o.2
            &&& opt_text(r.2) == o.3
        }),
        final(m)@.len() == old(m)@.len(),
{
    let same = RegionRecord {
        region_id: rec.region_id,
        name: copy_u8s(rec.name.as_slice()),
        name_id: rec.name_id,
        layout_version: rec.layout_version,
        pid: rec.pid,
        gva: rec.gva,
        len: rec.len,
        extents: copy_extents(rec.extents.as_slice()),
        dead: rec.dead,
    };
    match res {
        Ok(x) => {
            if extents_eq(x.as_slice(), rec.extents.as_slice()) {
                let g = match read_generation(m) {
                    Ok(g) => g,
                    Err(_) => 0,
                };
                let ev = region_event(rec, g);
                (same, ev, None)
            } else {
                let alarm = alarm_text(rec, ") extents drifted under pinning");
                proof {
                    assert(alarm@ =~= spec_drift_alarm(rec@));
                    lemma_rewrite_after_len(old(m)@, rec.region_id, x@);
                }
                match rewrite_extents(m, rec.region_id, x.as_slice()) {
                    Ok(g) => {
                        let mut moved = same;
                        moved.extents = copy_extents(x.as_slice());
                        let ev = region_event(rec, g);
                        (moved, ev, Some(alarm))
                    },
                    Err(_) => {
                        let g = kill(m, rec.region_id);
                        let mut dead = same;
                        dead.dead = true;
                        let ev = region_event(rec, g);
                        (dead, ev, Some(alarm))
                    },
                }
            }
        },
        Err(_) => {
            let alarm = alarm_text(rec, ") no longer translates; marking dead");
            proof {
                assert(alarm@ =~= spec_gone_alarm(rec@));
            }
            let g = kill(m, rec.region_id);
            let mut dead = same;
            dead.dead = true;
            let ev = region_event(rec, g);
            (dead, ev, Some(alarm))
        },
    }
}

/// What `rewrite_extents` leaves keeps the manifest's length.
proof fn lemma_rewrite_after_len(m: Seq<u8>, region_id: u32, ext: Seq<Extent>)
    requires
        m.len() >= MANIFEST_TOTAL_SIZE,
    ensures
        spec_rewrite_after(m, region_id, ext).len() == m.len(),
{
    vstd::bytes::lemma_auto_spec_u64_to_from_le_bytes();
    vstd::bytes::lemma_auto_spec_u32_to_from_le_bytes();
    vstd::bytes::lemma_auto_spec_u16_to_from_le_bytes();
    if spec_rewrite_plan(m, region_id, ext.len()) is Ok && spec_generation(m) % 2 == 0 {
        let (off, bump) = spec_rewrite_plan(m, region_id, ext.len())->Ok_0;
        let m1 = splice(m, OFF_GENERATION as int, b64((spec_generation(m) + 1) as u64));
        if ext.len() > 0 && off + ext.len() > EXTENT_CAPACITY {
            let k: int = if off >= EXTENT_CAPACITY {
                0
            } else {
                EXTENT_CAPACITY - off
            };
            lemma_write_extents_len(m1, off as int, ext.subrange(0, k));
        } else {
            lemma_write_extents_keeps_front(m1, off as int, ext);
        }
    }
}

/// A sweep step from a live record: what is left to do equals the rest.
proof fn lemma_sweep_live_count(ledger: Seq<RecordModel>, i: int, rec2: RecordModel)
    requires
        0 <= i < ledger.len(),
        !ledger[i].dead,
    ensures
        spec_live_from(ledger.update(i, rec2), i + 1) == spec_live_from(ledger, i + 1),
    decreases ledger.len() - i,
{
    lemma_live_from_update(ledger, i, rec2, i + 1);
}

/// Changing a record before `from` leaves the live count from `from`.
proof fn lemma_live_from_update(ledger: Seq<RecordModel>, i: int, rec2: RecordModel, from: int)
    requires
        0 <= i < ledger.len(),
        i < from,
    ensures
        spec_live_from(ledger.update(i, rec2), from) == spec_live_from(ledger, from),
    decreases ledger.len() - from,
{
    if 0 <= from < ledger.len() {
        lemma_live_from_update(ledger, i, rec2, from + 1);
    }
}

impl RegionLedger {
    /// The number of live records.
    pub closed spec fn spec_live(&self) -> nat {
        spec_live_from(self@, 0)
    }

    /// The ledger-order positions of the live records.
    pub fn live_count(&self) -> (n: usize)
        ensures
            n == spec_live_from(self@, 0),
    {
        let mut n: usize = 0;
        let total = self.records.len();
        let mut i: usize = total;
        proof {
            assert(spec_live_from(self@, i as int) == 0);
        }
        while i > 0
            invariant
                i <= self.records@.len(),
                self@ == records_view(self.records@),
                n == spec_live_from(self@, i as int),
                n <= self.records@.len() - i,
                total == self.records@.len(),
            decreases i,
        {
            i = i - 1;
            if !self.records[i].dead {
                n = n + 1;
            }
        }
        n
    }

    /// The reverify sweep over every live record in ledger order, each
    /// against its fresh translation in `results` (one per live record,
    /// in order). Returns the emissions: per record an alarm LogLine where
    /// something moved, then its `RegionUpdate`; the doorbell after the
    /// last.
    pub fn reverify_with(&mut self, m: &mut [u8], results: Vec<Result<Vec<Extent>, BuildExtentsError>>) -> (r:
        Vec<Emit>)
        requires
            old(m)@.len() >= MANIFEST_TOTAL_SIZE,
            results@.len() == spec_live_from(old(self)@, 0),
        ensures
            ({
                let sw = spec_sweep(old(self)@, old(m)@, results_view(results@), 0, 0);
                &&& final(self)@ == sw.0
                &&& final(m)@ == sw.1
                &&& emits_view(r@) == spec_update_emits(sw.2, 0)
            }),
    {
        let ghost rv = results_view(results@);
        let ghost total = spec_sweep(old(self)@, old(m)@, rv, 0, 0);
        let mut ups: Vec<(RegionEvent, Option<String>)> = Vec::new();
        let ghost mut ups_model: Seq<(RegionEvent, Option<Seq<char>>)> = Seq::empty();
        let mut i: usize = 0;
        let mut j: usize = 0;
        let rn = results.len();
        proof {
            assert(ups_model + total.2 =~= total.2);
        }
        while i < self.records.len()
            invariant
                i <= self.records@.len(),
                self@ == records_view(self.records@),
                m@.len() >= MANIFEST_TOTAL_SIZE,
                rv == results_view(results@),
                rn == results@.len(),
                j + spec_live_from(self@, i as int) == results@.len(),
                ups@.len() == ups_model.len(),
                forall|q: int| 0 <= q < ups@.len() ==> (#[trigger] ups_model[q]) == (ups@[q].0, opt_text(ups@[q].1)),
                total == ({
                    let rest = spec_sweep(self@, m@, rv, i as int, j as int);
                    (rest.0, rest.1, ups_model + rest.2)
                }),
            decreases self.records@.len() - i,
        {
            if self.records[i].dead {
                i = i + 1;
            } else {
                proof {
                    assert(j < results@.len());
                }
                let ghost before_ledger = self@;
                let ghost before_m = m@;
                let (rec2, ev, alarm) = sweep_one(&self.records[i], m, &results[j]);
                proof {
                    assert(rv[j as int] == ext_view(results@[j as int]));
                    lemma_sweep_live_count(before_ledger, i as int, rec2@);
                }
                let ghost rec2m = rec2@;
                let _old = self.records.remove(i);
                self.records.insert(i, rec2);
                proof {
                    assert(records_view(self.records@) =~= before_ledger.update(i as int, rec2m));
                }
                let ghost am = opt_text(alarm);
                ups.push((ev, alarm));
                proof {
                    let rest = spec_sweep(self@, m@, rv, i + 1, j + 1);
                    assert(ups_model.push((ev, am)) + rest.2 =~= ups_model + (seq![(ev, am)] + rest.2));
                    ups_model = ups_model.push((ev, am));
                }
                assert(j < rn);
                i = i + 1;
                j = j + 1;
            }
        }
        proof {
            assert(ups_model + Seq::<(RegionEvent, Option<Seq<char>>)>::empty() =~= ups_model);
        }
        let mut emits: Vec<Emit> = Vec::new();
        let n = ups.len();
        let mut k: usize = 0;
        proof {
            assert(emits_view(emits@) + spec_update_emits(ups_model, 0) =~= spec_update_emits(ups_model, 0));
        }
        while k < n
            invariant
                k <= n,
                n == ups@.len(),
                ups@.len() == ups_model.len(),
                forall|q: int| 0 <= q < ups@.len() ==> (#[trigger] ups_model[q]) == (ups@[q].0, opt_text(ups@[q].1)),
                emits_view(emits@) + spec_update_emits(ups_model, k as int) == spec_update_emits(ups_model, 0),
            decreases n - k,
        {
            let ghost before = emits_view(emits@);
            let ev = ups[k].0;
            match &ups[k].1 {
                Some(msg) => {
                    let copy = string_from_chars(chars_of(msg.as_str()).as_slice());
                    emits.push(Emit { event: AgentEvent::Alarm(copy), doorbell: false });
                },
                None => {},
            }
            emits.push(Emit { event: AgentEvent::RegionUpdate(ev), doorbell: k + 1 == n });
            proof {
                let alarm_part = match ups_model[k as int].1 {
                    Some(msg) => seq![(AgentEventModel::Alarm(msg), false)],
                    None => Seq::empty(),
                };
                assert(emits_view(emits@) =~= before + alarm_part + seq![(AgentEventModel::RegionUpdate(ups_model[k as int].0), k == ups_model.len() - 1)]);
                assert(before + (alarm_part + seq![(AgentEventModel::RegionUpdate(ups_model[k as int].0), k == ups_model.len() - 1)] + spec_update_emits(ups_model, k + 1)) =~= emits_view(emits@) + spec_update_emits(ups_model, k + 1));
            }
            k = k + 1;
        }
        proof {
            assert(emits_view(emits@) + Seq::<(AgentEventModel, bool)>::empty() =~= emits_view(emits@));
        }
        emits
    }

    /// The reverify sweep, translating each live record's range with
    /// `translator`: the answer is the sweep's for translations that
    /// `translator` gives of each live record's own `(pid, gva, len)`, in
    /// ledger order.
    pub fn reverify<T: Translator>(&mut self, m: &mut [u8], translator: &mut T) -> (r: Vec<Emit>)
        requires
            old(m)@.len() >= MANIFEST_TOTAL_SIZE,
        ensures
            exists|res: Seq<Result<Seq<Extent>, BuildExtentsError>>|
                res.len() == spec_live_from(old(self)@, 0) && (forall|i: int|
                    0 <= i < res.len() ==> {
                        let rec = spec_live_prefix(old(self)@, old(self)@.len() as int)[i];
                        old(translator).gives(rec.pid, rec.gva, rec.len, #[trigger] res[i])
                    }) && {
                    let sw = #[trigger] spec_sweep(old(self)@, old(m)@, res, 0, 0);
                    &&& final(self)@ == sw.0
                    &&& final(m)@ == sw.1
                    &&& emits_view(r@) == spec_update_emits(sw.2, 0)
                },
    {
        let mut results: Vec<Result<Vec<Extent>, BuildExtentsError>> = Vec::new();
        let mut k: usize = 0;
        while k < self.records.len()
            invariant
                k <= self.records@.len(),
                self@ == old(self)@,
                self@ == records_view(self.records@),
                results@.len() + spec_live_from(self@, k as int) == spec_live_from(self@, 0),
                results@.len() == spec_live_prefix(self@, k as int).len(),
                forall|p: i32, g: u64, l: u64, x: Result<Seq<Extent>, BuildExtentsError>|
                    #[trigger] translator.gives(p, g, l, x) == old(translator).gives(p, g, l, x),
                forall|q: int|
                    0 <= q < results@.len() ==> {
                        let rec = spec_live_prefix(self@, k as int)[q];
                        old(translator).gives(rec.pid, rec.gva, rec.len, ext_view(#[trigger] results@[q]))
                    },
            decreases self.records@.len() - k,
        {
            let ghost pre = spec_live_prefix(self@, k as int);
            let ghost res0 = results@;
            if !self.records[k].dead {
                let rec = &self.records[k];
                let t = translator.translate(rec.pid, rec.gva, rec.len);
                proof {
                    assert(self@[k as int] == rec@);
                }
                results.push(t);
                proof {
                    assert(spec_live_prefix(self@, k + 1) == pre.push(self@[k as int]));
                    assert forall|q: int| 0 <= q < results@.len() implies {
                        let rec = spec_live_prefix(self@, k + 1)[q];
                        old(translator).gives(rec.pid, rec.gva, rec.len, ext_view(#[trigger] results@[q]))
                    } by {
                        if q < results@.len() - 1 {
                            assert(results@[q] == res0[q]);
                        }
                    }
                }
            } else {
                proof {
                    assert(spec_live_prefix(self@, k + 1) == pre);
                }
            }
            k = k + 1;
        }
        let ghost rv = results_view(results@);
        let r = self.reverify_with(m, results);
        proof {
            let sw = spec_sweep(old(self)@, old(m)@, rv, 0, 0);
            assert(rv.len() == spec_live_from(old(self)@, 0));
            assert forall|i: int| 0 <= i < rv.len() implies {
                let rec = spec_live_prefix(old(self)@, old(self)@.len() as int)[i];
                old(translator).gives(rec.pid, rec.gva, rec.len, #[trigger] rv[i])
            } by {
                assert(rv[i] == ext_view(results@[i]));
            }
        }
        r
    }
}

/// The generation a final seqlock exit stores is the one read back.
proof fn lemma_exit_generation(m: Seq<u8>, g: u64)
    requires
        m.len() >= MANIFEST_TOTAL_SIZE,
    ensures
        spec_generation(splice(m, OFF_GENERATION as int, b64(g))) == g,
{
    vstd::bytes::lemma_auto_spec_u64_to_from_le_bytes();
    assert(splice(m, OFF_GENERATION as int, b64(g)).subrange(8, 16) =~= b64(g));
}

/// Every successful manifest change closes the seqlock: the generation
/// left in the manifest is the one reported, it is even, and it is two
/// past the one before (wrapping), so a reader that sees the same even
/// generation before and after its read saw no change.
pub proof fn lemma_manifest_writes_close_the_seqlock(
    m: Seq<u8>,
    name: Seq<u8>,
    name_id: u32,
    layout_version: u32,
    flags: u32,
    gva: u64,
    len: u64,
    ext: Seq<Extent>,
    region_id: u32,
)
    requires
        m.len() >= MANIFEST_TOTAL_SIZE,
    ensures
        spec_write_region_result(m, name, ext.len()) matches Ok((_, g)) ==> {
            &&& spec_generation(
                spec_write_region_mem(m, name, name_id, layout_version, flags, gva, len, ext),
            ) == g
            &&& g % 2 == 0
            &&& g == spec_next_generation(spec_next_generation(spec_generation(m)))
        },
        spec_mark_dead_result(m, region_id) matches Ok(g) ==> {
            &&& spec_generation(spec_mark_dead_mem(m, region_id)) == g
            &&& g % 2 == 0
            &&& g == spec_next_generation(spec_next_generation(spec_generation(m)))
        },
        spec_rewrite_result(m, region_id, ext.len()) matches Ok(g) ==> {
            &&& spec_generation(spec_rewrite_mem(m, region_id, ext)) == g
            &&& g % 2 == 0
            &&& g == spec_next_generation(spec_next_generation(spec_generation(m)))
        },
{
    vstd::bytes::lemma_auto_spec_u64_to_from_le_bytes();
    vstd::bytes::lemma_auto_spec_u32_to_from_le_bytes();
    vstd::bytes::lemma_auto_spec_u16_to_from_le_bytes();
    if let Ok((_, g)) = spec_write_region_result(m, name, ext.len()) {
        let h = spec_parse_manifest_header(m);
        let odd = (spec_generation(m) + 1) as u64;
        let m1 = splice(m, OFF_GENERATION as int, b64(odd));
        lemma_write_extents_len(m1, h.extent_count as int, ext);
        let m2 = spec_write_extents(m1, h.extent_count as int, ext);
        let m3 = splice(
            m2,
            spec_entry_offset(h.region_count as int),
            spec_entry_fields(
                h.region_count,
                name_id,
                layout_version,
                flags,
                gva,
                len,
                h.extent_count,
                ext.len() as u32,
                name,
            ),
        );
        let h2 = ManifestHeader {
            generation: odd,
            region_count: (h.region_count + 1) as u32,
            extent_count: (h.extent_count + ext.len()) as u32,
            ..h
        };
        lemma_header_generation(m3, h2);
        lemma_exit_generation(splice(m3, 0, spec_manifest_header_bytes(h2)), spec_next_generation(odd));
    }
    if let Ok(g) = spec_mark_dead_result(m, region_id) {
        let odd = (spec_generation(m) + 1) as u64;
        let at = spec_entry_offset(region_id as int);
        let m1 = splice(m, OFF_GENERATION as int, b64(odd));
        let m2 = splice(m1, at + 12, b32(le32(m, at + 12) | REGION_FLAG_DEAD));
        lemma_exit_generation(m2, spec_next_generation(odd));
    }
    if let Ok(g) = spec_rewrite_result(m, region_id, ext.len()) {
        let (off, bump) = spec_rewrite_plan(m, region_id, ext.len())->Ok_0;
        let at = spec_entry_offset(region_id as int);
        let h = spec_parse_manifest_header(m);
        let odd = (spec_generation(m) + 1) as u64;
        let m1 = splice(m, OFF_GENERATION as int, b64(odd));
        lemma_write_extents_keeps_front(m1, off as int, ext);
        let m2 = spec_write_extents(m1, off as int, ext);
        let m3 = splice(m2, at + 32, b32(off) + b32(ext.len() as u32));
        let m4 = if bump {
            splice(
                m3,
                0,
                spec_manifest_header_bytes(
                    ManifestHeader {
                        generation: odd,
                        extent_count: (h.extent_count + ext.len()) as u32,
                        ..h
                    },
                ),
            )
        } else {
            m3
        };
        lemma_exit_generation(m4, spec_next_generation(odd));
    }
}

} // verus!

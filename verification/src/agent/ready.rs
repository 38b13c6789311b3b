//! The READY condition's reading of the region manifest: the snapshot that
//! `Ready` reports, and the per-region evidence the agent emits before it.
//!
//! Every expected region must be live in the manifest at its pinned
//! layout version, matched by its UTF-8 name; `Ready` is withheld naming
//! every region still missing, in the boot manifest's order.
use crate::agent::boot::{regions_view, ExpectedRegion, RegionModel};
use crate::text::{chars_of, push_chars, push_dec, push_str, spec_dec, string_from_chars};
use crate::wire::bytes::{bytes_eq, le32};
use crate::wire::manifest::{
    spec_entry_at, spec_entry_offset, spec_name_len, spec_parse_manifest_header, spec_validate_manifest_header,
    ManifestHeader, RegionEntry, OFF_ENTRIES, REGION_CAPACITY, REGION_ENTRY_SIZE,
    REGION_FLAG_DEAD,
};
use crate::wire::{spec_decode_error_debug, DecodeError};
use vstd::prelude::*;
use vstd::utf8::encode_utf8;

verus! {

/// The manifest state that `Ready` reports.
#[derive(Debug, Clone, Copy, PartialEq, Eq, Structural)]
pub struct ReadyManifest {
    /// Live regions.
    pub region_count: u32,
    /// Seqlock generation of the snapshot.
    pub manifest_generation: u64,
}

/// One expected region as the manifest holds it.
#[derive(Debug, Clone, PartialEq, Eq)]
pub struct RegionEvidence {
    /// Manifest slot.
    pub region_id: u32,
    /// Intern id of the name.
    pub name_id: u32,
    /// The name's bytes.
    pub name: Vec<u8>,
    /// Layout version (the pinned one).
    pub layout_version: u32,
    /// The snapshot's generation, as the `RegionRegister` payload holds it.
    pub manifest_generation: u32,
}

/// The mathematical form of `RegionEvidence`.
pub struct EvidenceModel {
    pub region_id: u32,
    pub name_id: u32,
    pub name: Seq<u8>,
    pub layout_version: u32,
    pub manifest_generation: u32,
}

impl View for RegionEvidence {
    type V = EvidenceModel;

    open spec fn view(&self) -> EvidenceModel {
        EvidenceModel {
            region_id: self.region_id,
            name_id: self.name_id,
            name: self.name@,
            layout_version: self.layout_version,
            manifest_generation: self.manifest_generation,
        }
    }
}

/// The views of a sequence of evidence records.
pub open spec fn evidence_view(v: Seq<RegionEvidence>) -> Seq<EvidenceModel> {
    v.map_values(|e: RegionEvidence| e@)
}

/// The manifest header, decoded and validated, or the reason it is not.
pub open spec fn spec_ready_header(m: Seq<u8>) -> Result<ManifestHeader, Seq<char>> {
    if m.len() < OFF_ENTRIES {
        Err("decode manifest before Ready: "@ + spec_decode_error_debug(DecodeError::Truncated))
    } else {
        let h = spec_parse_manifest_header(m);
        match spec_validate_manifest_header(h) {
            Ok(()) => Ok(h),
            Err(e) => Err("validate manifest before Ready: "@ + spec_decode_error_debug(e)),
        }
    }
}

/// The `Ready` snapshot of a manifest copy.
pub open spec fn spec_ready_manifest(m: Seq<u8>) -> Result<(u32, u64), Seq<char>> {
    match spec_ready_header(m) {
        Ok(h) => Ok((h.region_count, h.generation)),
        Err(e) => Err(e),
    }
}

/// Decode and validate the manifest header of a stable manifest copy.
fn ready_header(m: &[u8]) -> (r: Result<ManifestHeader, String>)
    ensures
        match spec_ready_header(m@) {
            Ok(h) => r == Ok::<ManifestHeader, String>(h),
            Err(e) => r matches Err(s) && s@ == e,
        },
{
    let hdr = match ManifestHeader::read_from(m) {
        Ok(h) => h,
        Err(e) => {
            let mut s = chars_of("decode manifest before Ready: ");
            let d = e.debug_text();
            push_str(&mut s, d.as_str());
            return Err(string_from_chars(s.as_slice()));
        },
    };
    match hdr.validate() {
        Ok(()) => Ok(hdr),
        Err(e) => {
            let mut s = chars_of("validate manifest before Ready: ");
            let d = e.debug_text();
            push_str(&mut s, d.as_str());
            Err(string_from_chars(s.as_slice()))
        },
    }
}

/// The `Ready` snapshot of a stable manifest copy.
pub fn ready_manifest(m: &[u8]) -> (r: Result<ReadyManifest, String>)
    ensures
        match spec_ready_manifest(m@) {
            Ok((count, generation)) => r == Ok::<ReadyManifest, String>(
                ReadyManifest { region_count: count, manifest_generation: generation },
            ),
            Err(e) => r matches Err(s) && s@ == e,
        },
{
    match ready_header(m) {
        Ok(hdr) => Ok(
            ReadyManifest { region_count: hdr.region_count, manifest_generation: hdr.generation },
        ),
        Err(e) => Err(e),
    }
}

/// The name bytes of entry `i` (up to its first NUL).
pub open spec fn spec_entry_name(m: Seq<u8>, i: int) -> Seq<u8> {
    let field = m.subrange(spec_entry_offset(i) + 40, spec_entry_offset(i) + 96);
    field.subrange(0, spec_name_len(field))
}

/// Entry `i` is live, at the expected layout version, under the expected
/// name.
pub open spec fn spec_entry_matches(m: Seq<u8>, i: int, exp: RegionModel) -> bool {
    let at = spec_entry_offset(i);
    &&& le32(m, at + 12) & REGION_FLAG_DEAD == 0
    &&& le32(m, at + 8) == exp.layout_version
    &&& spec_entry_name(m, i) == encode_utf8(exp.name)
}

/// The first of entries `i..count` that matches `exp`, or the decode
/// failure met on the way.
pub open spec fn spec_find_match(m: Seq<u8>, count: nat, exp: RegionModel, i: nat) -> Result<
    Option<nat>,
    Seq<char>,
>
    decreases count - i,
{
    if i >= count {
        Ok(None)
    } else if m.len() < spec_entry_offset(i as int) + REGION_ENTRY_SIZE {
        Err(
            "decode region manifest entry "@ + spec_dec(i) + ": "@ + spec_decode_error_debug(
                DecodeError::Truncated,
            ),
        )
    } else if spec_entry_matches(m, i as int, exp) {
        Ok(Some(i))
    } else {
        spec_find_match(m, count, exp, i + 1)
    }
}

/// The evidence that entry `i` gives.
pub open spec fn spec_evidence_of(m: Seq<u8>, i: int, generation: u32) -> EvidenceModel {
    let at = spec_entry_offset(i);
    EvidenceModel {
        region_id: le32(m, at),
        name_id: le32(m, at + 4),
        name: spec_entry_name(m, i),
        layout_version: le32(m, at + 8),
        manifest_generation: generation,
    }
}

/// `"{name}@{layout_version}"`, how a missing region is named.
pub open spec fn spec_missing_label(exp: RegionModel) -> Seq<char> {
    exp.name + "@"@ + spec_dec(exp.layout_version as nat)
}

/// The evidence found and the regions missing among the first `k`
/// expected regions, or the first decode failure.
pub open spec fn spec_collect(
    m: Seq<u8>,
    count: nat,
    generation: u32,
    exps: Seq<RegionModel>,
    k: nat,
) -> Result<(Seq<EvidenceModel>, Seq<Seq<char>>), Seq<char>>
    decreases k,
{
    if k == 0 {
        Ok((Seq::empty(), Seq::empty()))
    } else {
        match spec_collect(m, count, generation, exps, (k - 1) as nat) {
            Err(e) => Err(e),
            Ok((found, missing)) => match spec_find_match(m, count, exps[k - 1], 0) {
                Err(e) => Err(e),
                Ok(Some(i)) => Ok((found.push(spec_evidence_of(m, i as int, generation)), missing)),
                Ok(None) => Ok((found, missing.push(spec_missing_label(exps[k - 1])))),
            },
        }
    }
}

/// A decode failure among the first `k` expected regions is the failure
/// for every longer prefix.
proof fn lemma_collect_err_sticks(
    m: Seq<u8>,
    count: nat,
    generation: u32,
    exps: Seq<RegionModel>,
    k: nat,
    k2: nat,
)
    requires
        k <= k2,
        spec_collect(m, count, generation, exps, k) is Err,
    ensures
        spec_collect(m, count, generation, exps, k2) == spec_collect(m, count, generation, exps, k),
    decreases k2 - k,
{
    if k < k2 {
        lemma_collect_err_sticks(m, count, generation, exps, k, (k2 - 1) as nat);
    }
}

/// `items.join(sep)`.
pub open spec fn spec_join(items: Seq<Seq<char>>, sep: Seq<char>) -> Seq<char>
    decreases items.len(),
{
    if items.len() == 0 {
        Seq::empty()
    } else if items.len() == 1 {
        items[0]
    } else {
        spec_join(items.drop_last(), sep) + sep + items.last()
    }
}

/// The READY condition on a stable manifest copy: the `Ready` snapshot and
/// the evidence for each expected region, in order; or the decode,
/// validation, generation or missing-region failure.
pub open spec fn spec_region_evidence(m: Seq<u8>, exps: Seq<RegionModel>) -> Result<
    ((u32, u64), Seq<EvidenceModel>),
    Seq<char>,
> {
    match spec_ready_header(m) {
        Err(e) => Err(e),
        Ok(h) => if h.generation > u32::MAX {
            Err(
                "manifest generation "@ + spec_dec(h.generation as nat)
                    + " exceeds RegionRegister payload"@,
            )
        } else {
            match spec_collect(m, h.region_count as nat, h.generation as u32, exps, exps.len()) {
                Err(e) => Err(e),
                Ok((found, missing)) => if missing.len() > 0 {
                    Err("expected_regions pending before Ready: "@ + spec_join(missing, ", "@))
                } else {
                    Ok(((h.region_count, h.generation), found))
                },
            }
        },
    }
}

/// A match found by the scan lies below `count`, is readable, and matches.
proof fn lemma_find_match(m: Seq<u8>, count: nat, exp: RegionModel, j: nat)
    requires
        spec_find_match(m, count, exp, j) matches Ok(Some(_)),
    ensures
        spec_find_match(m, count, exp, j) matches Ok(Some(i)) && j <= i < count && m.len()
            >= spec_entry_offset(i as int) + REGION_ENTRY_SIZE && spec_entry_matches(m, i as int, exp),
    decreases count - j,
{
    if j < count && m.len() >= spec_entry_offset(j as int) + REGION_ENTRY_SIZE && !spec_entry_matches(
        m,
        j as int,
        exp,
    ) {
        lemma_find_match(m, count, exp, j + 1);
    }
}

/// The first entry below `count` that matches `exp`, with its slot.
fn find_match(m: &[u8], count: u32, exp: &ExpectedRegion) -> (r: Result<Option<(usize, RegionEntry)>, String>)
    requires
        count <= REGION_CAPACITY,
    ensures
        match spec_find_match(m@, count as nat, exp@, 0) {
            Ok(Some(i)) => r matches Ok(Some((k, e))) && k == i && spec_entry_at(
                e,
                m@,
                spec_entry_offset(i as int),
            ),
            Ok(None) => r matches Ok(None),
            Err(e) => r matches Err(s) && s@ == e,
        },
{
    let want = exp.name.as_str().as_bytes();
    let mut i: usize = 0;
    while i < count as usize
        invariant
            count <= REGION_CAPACITY,
            i <= count,
            want@ == encode_utf8(exp@.name),
            spec_find_match(m@, count as nat, exp@, 0) == spec_find_match(
                m@,
                count as nat,
                exp@,
                i as nat,
            ),
        decreases count - i,
    {
        let entry = match RegionEntry::read_from(m, i) {
            Ok(e) => e,
            Err(e) => {
                let mut s = chars_of("decode region manifest entry ");
                push_dec(&mut s, i as u128);
                push_str(&mut s, ": ");
                let d = e.debug_text();
                push_str(&mut s, d.as_str());
                return Err(string_from_chars(s.as_slice()));
            },
        };
        if entry.is_live() && entry.layout_version == exp.layout_version && bytes_eq(
            entry.name_bytes(),
            want,
        ) {
            return Ok(Some((i, entry)));
        }
        i = i + 1;
    }
    Ok(None)
}

/// Append `", "`-separated labels.
fn push_label(out: &mut Vec<char>, first: bool, exp: &ExpectedRegion)
    ensures
        final(out)@ == old(out)@ + (if first {
            Seq::empty()
        } else {
            ", "@
        }) + spec_missing_label(exp@),
{
    if !first {
        push_str(out, ", ");
    }
    push_str(out, exp.name.as_str());
    push_str(out, "@");
    push_dec(out, exp.layout_version as u128);
    proof {
        assert(final(out)@ =~= old(out)@ + (if first {
            Seq::empty()
        } else {
            ", "@
        }) + spec_missing_label(exp@));
    }
}

/// The READY condition over a stable manifest copy: the snapshot `Ready` will
/// report and the evidence for every expected region, or why `Ready`
/// must wait.
pub fn expected_region_evidence(m: &[u8], expected: &[ExpectedRegion]) -> (r: Result<
    (ReadyManifest, Vec<RegionEvidence>),
    String,
>)
    ensures
        match spec_region_evidence(m@, regions_view(expected@)) {
            Ok(((count, generation), found)) => r matches Ok((snap, ev)) && snap == (ReadyManifest {
                region_count: count,
                manifest_generation: generation,
            }) && evidence_view(ev@) == found,
            Err(e) => r matches Err(s) && s@ == e,
        },
{
    let hdr = match ready_header(m) {
        Ok(h) => h,
        Err(e) => {
            return Err(e);
        },
    };
    if hdr.generation > u32::MAX as u64 {
        let mut s = chars_of("manifest generation ");
        push_dec(&mut s, hdr.generation as u128);
        push_str(&mut s, " exceeds RegionRegister payload");
        return Err(string_from_chars(s.as_slice()));
    }
    let generation = hdr.generation as u32;
    let count = hdr.region_count;
    let ghost exps = regions_view(expected@);
    let mut evidence: Vec<RegionEvidence> = Vec::new();
    let mut missing: Vec<char> = Vec::new();
    let mut n_missing: usize = 0;
    let ghost mut labels: Seq<Seq<char>> = Seq::empty();
    let mut k: usize = 0;
    proof {
        assert(evidence_view(evidence@) =~= Seq::<EvidenceModel>::empty());
    }
    while k < expected.len()
        invariant
            k <= expected@.len(),
            spec_ready_header(m@) == Ok::<ManifestHeader, Seq<char>>(hdr),
            hdr.generation <= u32::MAX,
            count == hdr.region_count,
            generation == hdr.generation,
            count <= REGION_CAPACITY,
            exps == regions_view(expected@),
            spec_collect(m@, count as nat, generation, exps, k as nat) == Ok::<
                (Seq<EvidenceModel>, Seq<Seq<char>>),
                Seq<char>,
            >((evidence_view(evidence@), labels)),
            missing@ == spec_join(labels, ", "@),
            n_missing == labels.len(),
            n_missing <= k,
        decreases expected@.len() - k,
    {
        let exp = &expected[k];
        proof {
            assert(exps[k as int] == exp@);
        }
        match find_match(m, count, exp) {
            Err(e) => {
                proof {
                    assert(exps[k as int] == exp@);
                    assert(spec_collect(m@, count as nat, generation, exps, (k + 1) as nat) == Err::<
                        (Seq<EvidenceModel>, Seq<Seq<char>>),
                        Seq<char>,
                    >(e@));
                    lemma_collect_err_sticks(
                        m@,
                        count as nat,
                        generation,
                        exps,
                        (k + 1) as nat,
                        expected@.len(),
                    );
                    assert(exps.len() == expected@.len());
                    assert(spec_region_evidence(m@, exps) == Err::<((u32, u64), Seq<EvidenceModel>), Seq<char>>(e@));
                }
                return Err(e);
            },
            Ok(Some((i, entry))) => {
                let name = entry.name_bytes();
                let mut nv: Vec<u8> = Vec::new();
                let mut j: usize = 0;
                while j < name.len()
                    invariant
                        j <= name@.len(),
                        nv@ == name@.subrange(0, j as int),
                    decreases name@.len() - j,
                {
                    nv.push(name[j]);
                    j = j + 1;
                    proof {
                        assert(nv@ =~= name@.subrange(0, j as int));
                    }
                }
                proof {
                    assert(nv@ =~= name@);
                }
                let ev = RegionEvidence {
                    region_id: entry.region_id,
                    name_id: entry.name_id,
                    name: nv,
                    layout_version: entry.layout_version,
                    manifest_generation: generation,
                };
                proof {
                    assert(ev@ == spec_evidence_of(m@, i as int, generation));
                }
                let ghost before = evidence@;
                evidence.push(ev);
                proof {
                    assert(evidence_view(evidence@) =~= evidence_view(before).push(ev@));
                }
            },
            Ok(None) => {
                push_label(&mut missing, n_missing == 0, exp);
                proof {
                    let x = spec_missing_label(exp@);
                    assert(labels.push(x).drop_last() =~= labels);
                    if labels.len() == 0 {
                        assert(spec_join(labels, ", "@) =~= Seq::<char>::empty());
                        assert(missing@ =~= x);
                    }
                    labels = labels.push(x);
                }
                n_missing = n_missing + 1;
            },
        }
        k = k + 1;
    }
    if n_missing > 0 {
        let mut s = chars_of("expected_regions pending before Ready: ");
        push_chars(&mut s, missing.as_slice());
        return Err(string_from_chars(s.as_slice()));
    }
    Ok((ReadyManifest { region_count: count, manifest_generation: hdr.generation }, evidence))
}

} // verus!

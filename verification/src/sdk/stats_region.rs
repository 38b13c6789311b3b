//! The auto-registered `detsdk.stats` region: its v1 byte layout and the
//! updates the SDK makes to it.
use crate::sdk::beacons::{spec_slot, BEACON_SLOTS};
use crate::wire::bytes::{b32, b64, push_u32, push_u64, push_zeros, zeros};
use vstd::prelude::*;

verus! {

/// Named slots in each of the reachable and assertion tables.
pub const NAME_SLOTS: usize = 1_024;
/// Bytes in the region.
pub const STATS_REGION_SIZE: usize = 0x46040;
/// The region's alignment.
pub const STATS_ALIGN: usize = 64;
/// Offset of `stats_version` (u32).
pub const STATS_OFF_VERSION: usize = 0x00000;
/// Offset of `asserts_passed_total` (u64).
pub const STATS_OFF_ASSERTS_PASSED: usize = 0x00008;
/// Offset of `asserts_failed_total` (u64).
pub const STATS_OFF_ASSERTS_FAILED: usize = 0x00010;
/// Offset of `reachable_names` (u64).
pub const STATS_OFF_REACHABLE_NAMES: usize = 0x00018;
/// Offset of `inject_queries_total` (u64).
pub const STATS_OFF_INJECT_QUERIES: usize = 0x00020;
/// Offset of the beacon counts (u32 each).
pub const STATS_OFF_BEACON_COUNTS: usize = 0x00040;
/// Offset of the reachable table (8 bytes a slot).
pub const STATS_OFF_REACHABLE: usize = 0x40040;
/// Offset of the assertion table (16 bytes a slot).
pub const STATS_OFF_ASSERTIONS: usize = 0x42040;

/// One reachable-table slot.
#[derive(Debug, Clone, Copy, PartialEq, Eq, Default, Structural)]
pub struct ReachableStat {
    pub name_id: u32,
    pub hits: u32,
}

/// One assertion-table slot.
#[derive(Debug, Clone, Copy, PartialEq, Eq, Default, Structural)]
pub struct AssertStat {
    pub name_id: u32,
    pub pass_lo: u32,
    pub fail_lo: u32,
}

/// The region's contents.
#[derive(Debug)]
pub struct StatsRegion {
    pub stats_version: u32,
    pub asserts_passed_total: u64,
    pub asserts_failed_total: u64,
    pub reachable_names: u64,
    pub inject_queries_total: u64,
    pub beacon_counts: Vec<u32>,
    pub reachable: Vec<ReachableStat>,
    pub assertions: Vec<AssertStat>,
}

impl StatsRegion {
    /// Tables of their fixed sizes.
    pub open spec fn wf(&self) -> bool {
        &&& self.beacon_counts@.len() == BEACON_SLOTS
        &&& self.reachable@.len() == NAME_SLOTS
        &&& self.assertions@.len() == NAME_SLOTS
    }
}

/// The slot for `name_id` in a table whose slot ids are `ids`: the slot
/// already holding it, else the first free one (id 0), else none.
pub open spec fn spec_named_slot(ids: Seq<u32>, name_id: u32) -> Option<int> {
    if exists|i: int| 0 <= i < ids.len() && ids[i] == name_id {
        Some(choose|i: int| 0 <= i < ids.len() && ids[i] == name_id && forall|j: int| 0 <= j < i ==> ids[j] != name_id)
    } else if exists|i: int| 0 <= i < ids.len() && ids[i] == 0 {
        Some(choose|i: int| 0 <= i < ids.len() && ids[i] == 0 && forall|j: int| 0 <= j < i ==> ids[j] != 0)
    } else {
        None
    }
}

/// The slot ids of the reachable table.
pub open spec fn reachable_ids(s: Seq<ReachableStat>) -> Seq<u32> {
    s.map_values(|e: ReachableStat| e.name_id)
}

/// The slot ids of the assertion table.
pub open spec fn assertion_ids(s: Seq<AssertStat>) -> Seq<u32> {
    s.map_values(|e: AssertStat| e.name_id)
}

/// The first position of `v` in `ids`.
fn position(ids: &Vec<u32>, v: u32) -> (r: Option<usize>)
    ensures
        match r {
            Some(i) => i < ids@.len() && ids@[i as int] == v && forall|j: int| 0 <= j < i ==> ids@[j] != v,
            None => forall|j: int| 0 <= j < ids@.len() ==> ids@[j] != v,
        },
{
    let mut i: usize = 0;
    while i < ids.len()
        invariant
            i <= ids@.len(),
            forall|j: int| 0 <= j < i ==> ids@[j] != v,
        decreases ids@.len() - i,
    {
        if ids[i] == v {
            return Some(i);
        }
        i = i + 1;
    }
    None
}

/// The slot for `name_id` given the table's slot ids.
fn named_slot(ids: &Vec<u32>, name_id: u32) -> (r: Option<usize>)
    ensures
        match r {
            Some(i) => spec_named_slot(ids@, name_id) == Some(i as int) && i < ids@.len(),
            None => spec_named_slot(ids@, name_id) is None,
        },
{
    match position(ids, name_id) {
        Some(i) => {
            proof {
                let c = choose|k: int| 0 <= k < ids@.len() && ids@[k] == name_id && forall|j: int| 0 <= j < k ==> ids@[j] != name_id;
                assert(0 <= c < ids@.len() && ids@[c] == name_id && forall|j: int| 0 <= j < c ==> ids@[j] != name_id);
                assert(c == i as int);
            }
            Some(i)
        },
        None => match position(ids, 0) {
            Some(i) => {
                proof {
                    let c = choose|k: int| 0 <= k < ids@.len() && ids@[k] == 0 && forall|j: int| 0 <= j < k ==> ids@[j] != 0;
                    assert(0 <= c < ids@.len() && ids@[c] == 0 && forall|j: int| 0 <= j < c ==> ids@[j] != 0);
                    assert(c == i as int);
                }
                Some(i)
            },
            None => None,
        },
    }
}

/// The little-endian bytes of each count, in order.
pub open spec fn spec_u32s_bytes(s: Seq<u32>) -> Seq<u8>
    decreases s.len(),
{
    if s.len() == 0 {
        Seq::empty()
    } else {
        spec_u32s_bytes(s.subrange(0, s.len() - 1)) + b32(s[s.len() - 1])
    }
}

/// The bytes of each reachable slot, in order.
pub open spec fn spec_reachable_bytes(s: Seq<ReachableStat>) -> Seq<u8>
    decreases s.len(),
{
    if s.len() == 0 {
        Seq::empty()
    } else {
        spec_reachable_bytes(s.subrange(0, s.len() - 1)) + b32(s[s.len() - 1].name_id) + b32(
            s[s.len() - 1].hits,
        )
    }
}

/// The bytes of each assertion slot, in order (a zero pad word last).
pub open spec fn spec_assertion_bytes(s: Seq<AssertStat>) -> Seq<u8>
    decreases s.len(),
{
    if s.len() == 0 {
        Seq::empty()
    } else {
        spec_assertion_bytes(s.subrange(0, s.len() - 1)) + b32(s[s.len() - 1].name_id) + b32(
            s[s.len() - 1].pass_lo,
        ) + b32(s[s.len() - 1].fail_lo) + b32(0)
    }
}

/// The region's v1 bytes.
pub open spec fn spec_stats_bytes(r: StatsRegion) -> Seq<u8> {
    b32(r.stats_version) + b32(0) + b64(r.asserts_passed_total) + b64(r.asserts_failed_total) + b64(
        r.reachable_names,
    ) + b64(r.inject_queries_total) + zeros(24) + spec_u32s_bytes(r.beacon_counts@)
        + spec_reachable_bytes(r.reachable@) + spec_assertion_bytes(r.assertions@)
}

impl StatsRegion {
    /// The v1 region: version 1, everything else zero.
    pub fn new() -> (r: Self)
        ensures
            r.wf(),
            r.stats_version == 1,
            r.asserts_passed_total == 0,
            r.asserts_failed_total == 0,
            r.reachable_names == 0,
            r.inject_queries_total == 0,
            forall|i: int| 0 <= i < BEACON_SLOTS ==> #[trigger] r.beacon_counts@[i] == 0,
            forall|i: int| 0 <= i < NAME_SLOTS ==> #[trigger] r.reachable@[i] == (ReachableStat { name_id: 0, hits: 0 }),
            forall|i: int| 0 <= i < NAME_SLOTS ==> #[trigger] r.assertions@[i] == (AssertStat { name_id: 0, pass_lo: 0, fail_lo: 0 }),
    {
        let mut beacon_counts: Vec<u32> = Vec::new();
        let mut i: usize = 0;
        while i < BEACON_SLOTS
            invariant
                i <= BEACON_SLOTS,
                beacon_counts@.len() == i,
                forall|j: int| 0 <= j < i ==> beacon_counts@[j] == 0,
            decreases BEACON_SLOTS - i,
        {
            beacon_counts.push(0);
            i = i + 1;
        }
        let mut reachable: Vec<ReachableStat> = Vec::new();
        let mut assertions: Vec<AssertStat> = Vec::new();
        let mut k: usize = 0;
        while k < NAME_SLOTS
            invariant
                k <= NAME_SLOTS,
                reachable@.len() == k,
                assertions@.len() == k,
                forall|j: int| 0 <= j < k ==> reachable@[j] == (ReachableStat { name_id: 0, hits: 0 }),
                forall|j: int| 0 <= j < k ==> assertions@[j] == (AssertStat { name_id: 0, pass_lo: 0, fail_lo: 0 }),
            decreases NAME_SLOTS - k,
        {
            reachable.push(ReachableStat { name_id: 0, hits: 0 });
            assertions.push(AssertStat { name_id: 0, pass_lo: 0, fail_lo: 0 });
            k = k + 1;
        }
        StatsRegion {
            stats_version: 1,
            asserts_passed_total: 0,
            asserts_failed_total: 0,
            reachable_names: 0,
            inject_queries_total: 0,
            beacon_counts,
            reachable,
            assertions,
        }
    }

    /// Count a hit of beacon `id` in its slot (saturating).
    pub fn record_beacon(&mut self, id: u32)
        requires
            old(self).wf(),
        ensures
            final(self).wf(),
            final(self).beacon_counts@ == old(self).beacon_counts@.update(
                spec_slot(id),
                if old(self).beacon_counts@[spec_slot(id)] == u32::MAX {
                    u32::MAX
                } else {
                    (old(self).beacon_counts@[spec_slot(id)] + 1) as u32
                },
            ),
            final(self).reachable@ == old(self).reachable@,
            final(self).assertions@ == old(self).assertions@,
    {
        assert(id & 0xFFFF == id % 65536) by (bit_vector);
        let slot = (id & 0xFFFF) as usize;
        let c = self.beacon_counts[slot];
        let nc = if c == u32::MAX {
            u32::MAX
        } else {
            c + 1
        };
        self.beacon_counts.set(slot, nc);
    }

    /// Record `hits` for reachability name `name_id` in its slot (the
    /// slot holding it, else the first free one; none when full).
    pub fn record_reachable(&mut self, name_id: u32, hits: u32)
        requires
            old(self).wf(),
        ensures
            final(self).wf(),
            final(self).reachable@ == match spec_named_slot(
                reachable_ids(old(self).reachable@),
                name_id,
            ) {
                Some(i) => old(self).reachable@.update(i, ReachableStat { name_id, hits }),
                None => old(self).reachable@,
            },
            final(self).beacon_counts@ == old(self).beacon_counts@,
            final(self).assertions@ == old(self).assertions@,
    {
        let mut ids: Vec<u32> = Vec::new();
        let mut i: usize = 0;
        while i < self.reachable.len()
            invariant
                i <= self.reachable@.len(),
                self.wf(),
                ids@.len() == i,
                forall|j: int| 0 <= j < i ==> #[trigger] ids@[j] == self.reachable@[j].name_id,
            decreases self.reachable@.len() - i,
        {
            ids.push(self.reachable[i].name_id);
            i = i + 1;
        }
        proof {
            assert(ids@ =~= reachable_ids(self.reachable@));
        }
        match named_slot(&ids, name_id) {
            Some(s) => {
                self.reachable.set(s, ReachableStat { name_id, hits });
            },
            None => {},
        }
    }

    /// Record the low words of assertion `name_id`'s pass and fail counts
    /// in its slot (the slot holding it, else the first free one; none
    /// when full).
    pub fn record_assert(&mut self, name_id: u32, pass: u32, fail: u32)
        requires
            old(self).wf(),
        ensures
            final(self).wf(),
            final(self).assertions@ == match spec_named_slot(
                assertion_ids(old(self).assertions@),
                name_id,
            ) {
                Some(i) => old(self).assertions@.update(
                    i,
                    AssertStat { name_id, pass_lo: pass, fail_lo: fail },
                ),
                None => old(self).assertions@,
            },
            final(self).beacon_counts@ == old(self).beacon_counts@,
            final(self).reachable@ == old(self).reachable@,
    {
        let mut ids: Vec<u32> = Vec::new();
        let mut i: usize = 0;
        while i < self.assertions.len()
            invariant
                i <= self.assertions@.len(),
                self.wf(),
                ids@.len() == i,
                forall|j: int| 0 <= j < i ==> #[trigger] ids@[j] == self.assertions@[j].name_id,
            decreases self.assertions@.len() - i,
        {
            ids.push(self.assertions[i].name_id);
            i = i + 1;
        }
        proof {
            assert(ids@ =~= assertion_ids(self.assertions@));
        }
        match named_slot(&ids, name_id) {
            Some(s) => {
                self.assertions.set(s, AssertStat { name_id, pass_lo: pass, fail_lo: fail });
            },
            None => {},
        }
    }

    /// The region's v1 bytes, as the host reads them.
    pub fn to_bytes(&self) -> (r: Vec<u8>)
        requires
            self.wf(),
        ensures
            r@ == spec_stats_bytes(*self),
            r@.len() == STATS_REGION_SIZE,
    {
        let mut out: Vec<u8> = Vec::new();
        push_u32(&mut out, self.stats_version);
        push_u32(&mut out, 0);
        push_u64(&mut out, self.asserts_passed_total);
        push_u64(&mut out, self.asserts_failed_total);
        push_u64(&mut out, self.reachable_names);
        push_u64(&mut out, self.inject_queries_total);
        push_zeros(&mut out, 24);
        let ghost head = out@;
        proof {
            vstd::bytes::lemma_auto_spec_u32_to_from_le_bytes();
            vstd::bytes::lemma_auto_spec_u64_to_from_le_bytes();
            assert(head.len() == 0x40);
        }
        let mut i: usize = 0;
        while i < self.beacon_counts.len()
            invariant
                i <= self.beacon_counts@.len(),
                self.wf(),
                out@ == head + spec_u32s_bytes(self.beacon_counts@.subrange(0, i as int)),
                out@.len() == 0x40 + 4 * i,
            decreases self.beacon_counts@.len() - i,
        {
            proof {
                vstd::bytes::lemma_auto_spec_u32_to_from_le_bytes();
                assert(self.beacon_counts@.subrange(0, i + 1).subrange(0, i as int) =~= self.beacon_counts@.subrange(0, i as int));
            }
            push_u32(&mut out, self.beacon_counts[i]);
            i = i + 1;
            proof {
                assert(out@ =~= head + spec_u32s_bytes(self.beacon_counts@.subrange(0, i as int)));
            }
        }
        proof {
            assert(self.beacon_counts@.subrange(0, i as int) =~= self.beacon_counts@);
        }
        let ghost mid = out@;
        let mut k: usize = 0;
        while k < self.reachable.len()
            invariant
                k <= self.reachable@.len(),
                self.wf(),
                out@ == mid + spec_reachable_bytes(self.reachable@.subrange(0, k as int)),
                out@.len() == 0x40040 + 8 * k,
            decreases self.reachable@.len() - k,
        {
            proof {
                vstd::bytes::lemma_auto_spec_u32_to_from_le_bytes();
                assert(self.reachable@.subrange(0, k + 1).subrange(0, k as int) =~= self.reachable@.subrange(0, k as int));
            }
            push_u32(&mut out, self.reachable[k].name_id);
            push_u32(&mut out, self.reachable[k].hits);
            k = k + 1;
            proof {
                assert(out@ =~= mid + spec_reachable_bytes(self.reachable@.subrange(0, k as int)));
            }
        }
        proof {
            assert(self.reachable@.subrange(0, k as int) =~= self.reachable@);
        }
        let ghost mid2 = out@;
        let mut a: usize = 0;
        while a < self.assertions.len()
            invariant
                a <= self.assertions@.len(),
                self.wf(),
                out@ == mid2 + spec_assertion_bytes(self.assertions@.subrange(0, a as int)),
                out@.len() == 0x42040 + 16 * a,
            decreases self.assertions@.len() - a,
        {
            proof {
                vstd::bytes::lemma_auto_spec_u32_to_from_le_bytes();
                assert(self.assertions@.subrange(0, a + 1).subrange(0, a as int) =~= self.assertions@.subrange(0, a as int));
            }
            push_u32(&mut out, self.assertions[a].name_id);
            push_u32(&mut out, self.assertions[a].pass_lo);
            push_u32(&mut out, self.assertions[a].fail_lo);
            push_u32(&mut out, 0);
            a = a + 1;
            proof {
                assert(out@ =~= mid2 + spec_assertion_bytes(self.assertions@.subrange(0, a as int)));
            }
        }
        proof {
            assert(self.assertions@.subrange(0, a as int) =~= self.assertions@);
            assert(out@ =~= spec_stats_bytes(*self));
        }
        out
    }
}

} // verus!

//! Coverage beacon counters: one saturating count and a seen bit per slot.
use vstd::prelude::*;

verus! {

/// Coverage counter slots.
pub const BEACON_SLOTS: usize = 65_536;

/// The slot a beacon id counts in: its low 16 bits.
pub open spec fn spec_slot(id: u32) -> int {
    (id % 65536) as int
}

/// Per-slot beacon counts and first-hit bits.
#[derive(Debug)]
pub struct BeaconCounters {
    counts: Vec<u32>,
    seen: Vec<bool>,
}

/// The outcome of one beacon hit.
#[derive(Debug, Clone, Copy, PartialEq, Eq, Structural)]
pub struct BeaconHit {
    /// The slot hit.
    pub id: u32,
    /// Whether the slot had not been hit before.
    pub first_hit: bool,
}

impl BeaconCounters {
    /// The counts by slot.
    pub closed spec fn spec_counts(&self) -> Seq<u32> {
        self.counts@
    }

    /// The first-hit bits by slot.
    pub closed spec fn spec_seen(&self) -> Seq<bool> {
        self.seen@
    }

    /// One count and one bit per slot.
    pub closed spec fn wf(&self) -> bool {
        self.counts@.len() == BEACON_SLOTS && self.seen@.len() == BEACON_SLOTS
    }

    /// Count a hit of beacon `id` in its slot (saturating), reporting the
    /// slot and whether this is its first hit.
    pub fn hit(&mut self, id: u32) -> (r: BeaconHit)
        requires
            old(self).wf(),
        ensures
            final(self).wf(),
            r.id == spec_slot(id),
            r.first_hit == !old(self).spec_seen()[spec_slot(id)],
            final(self).spec_counts() == old(self).spec_counts().update(
                spec_slot(id),
                if old(self).spec_counts()[spec_slot(id)] == u32::MAX {
                    u32::MAX
                } else {
                    (old(self).spec_counts()[spec_slot(id)] + 1) as u32
                },
            ),
            final(self).spec_seen() == old(self).spec_seen().update(spec_slot(id), true),
    {
        let index = (id & 0xFFFF) as usize;
        assert(id & 0xFFFF == id % 65536) by (bit_vector);
        let c = self.counts[index];
        let nc = if c == u32::MAX {
            u32::MAX
        } else {
            c + 1
        };
        self.counts.set(index, nc);
        let first_hit = !self.seen[index];
        self.seen.set(index, true);
        BeaconHit { id: index as u32, first_hit }
    }

    /// The count of beacon `id`'s slot.
    pub fn count(&self, id: u32) -> (r: u32)
        requires
            self.wf(),
        ensures
            r == self.spec_counts()[spec_slot(id)],
    {
        assert(id & 0xFFFF == id % 65536) by (bit_vector);
        self.counts[(id & 0xFFFF) as usize]
    }

    /// Restore the count of beacon `id`'s slot (from a saved snapshot).
    pub fn restore_count(&mut self, id: u32, count: u32)
        requires
            old(self).wf(),
        ensures
            final(self).wf(),
            final(self).spec_counts() == old(self).spec_counts().update(spec_slot(id), count),
            final(self).spec_seen() == old(self).spec_seen(),
    {
        assert(id & 0xFFFF == id % 65536) by (bit_vector);
        self.counts.set((id & 0xFFFF) as usize, count);
    }
}

impl Default for BeaconCounters {
    fn default() -> (r: Self)
        ensures
            r.wf(),
            forall|i: int| 0 <= i < BEACON_SLOTS ==> #[trigger] r.spec_counts()[i] == 0,
            forall|i: int| 0 <= i < BEACON_SLOTS ==> !#[trigger] r.spec_seen()[i],
    {
        let mut counts: Vec<u32> = Vec::new();
        let mut seen: Vec<bool> = Vec::new();
        let mut i: usize = 0;
        while i < BEACON_SLOTS
            invariant
                i <= BEACON_SLOTS,
                counts@.len() == i,
                seen@.len() == i,
                forall|j: int| 0 <= j < i ==> counts@[j] == 0,
                forall|j: int| 0 <= j < i ==> !seen@[j],
            decreases BEACON_SLOTS - i,
        {
            counts.push(0);
            seen.push(false);
            i = i + 1;
        }
        BeaconCounters { counts, seen }
    }
}

} // verus!

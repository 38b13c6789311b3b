//! Guest physical memory as the host sees it, and the `Vec`-backed mock
//! used by host-side tests.
//!
//! Memory is modelled as a map from guest-physical address to byte; an
//! address is in the map's domain exactly when it is mapped.
use crate::wire::bytes::{b32, le32, le64, write_at};
use vstd::prelude::*;

verus! {

/// Every byte of `[gpa, gpa + len)` is mapped in `m`.
pub open spec fn spec_mapped(m: Map<int, u8>, gpa: int, len: int) -> bool {
    forall|a: int| gpa <= a < gpa + len ==> #[trigger] m.dom().contains(a)
}

/// The `len` bytes of `m` at `gpa`.
pub open spec fn spec_bytes_at(m: Map<int, u8>, gpa: int, len: int) -> Seq<u8> {
    Seq::new(len as nat, |i: int| m[gpa + i])
}

/// `m` with `data` stored at `gpa`.
pub open spec fn spec_write_mem(m: Map<int, u8>, gpa: int, data: Seq<u8>) -> Map<int, u8> {
    Map::new(
        |a: int| m.dom().contains(a),
        |a: int|
            if gpa <= a < gpa + data.len() {
                data[a - gpa]
            } else {
                m[a]
            },
    )
}

/// Guest memory access failure.
#[derive(Debug, Clone, Copy, PartialEq, Eq, Structural)]
pub enum MemError {
    /// `[gpa, gpa+len)` is not (fully) mapped.
    Unmapped {
        /// Failing guest-physical address.
        gpa: u64,
        /// Access length.
        len: usize,
    },
    /// Arithmetic overflow computing the access range.
    Overflow,
}

/// Hypervisor-provided access to guest physical memory, over its memslot
/// mappings. All offsets are guest-physical addresses.
pub trait GuestMem {
    /// The mapped bytes.
    spec fn mem(&self) -> Map<int, u8>;

    /// Whether an access of `[gpa, gpa + len)` succeeds (the range lies in
    /// one mapping).
    spec fn accessible(&self, gpa: int, len: int) -> bool;

    /// A range inside an accessible range is accessible.
    proof fn lemma_accessible_within(&self, gpa: int, len: int, g2: int, l2: int)
        requires
            self.accessible(gpa, len),
            gpa <= g2,
            0 <= l2,
            g2 + l2 <= gpa + len,
        ensures
            self.accessible(g2, l2),
    ;

    /// Read `buf.len()` bytes at `gpa`: it succeeds exactly when the range
    /// is accessible, and then the range is mapped and `buf` holds its
    /// bytes.
    fn read(&self, gpa: u64, buf: &mut [u8]) -> (r: Result<(), MemError>)
        ensures
            final(buf)@.len() == old(buf)@.len(),
            r is Ok <==> self.accessible(gpa as int, old(buf)@.len() as int),
            r is Ok ==> spec_mapped(self.mem(), gpa as int, old(buf)@.len() as int) && final(buf)@
                == spec_bytes_at(self.mem(), gpa as int, old(buf)@.len() as int),
    ;

    /// Write `buf` at `gpa`: it succeeds exactly when the range is
    /// accessible, and then the range was mapped and now holds `buf`; on
    /// failure memory is unchanged. What is accessible does not change.
    fn write(&mut self, gpa: u64, buf: &[u8]) -> (r: Result<(), MemError>)
        ensures
            r is Ok <==> old(self).accessible(gpa as int, buf@.len() as int),
            r is Ok ==> spec_mapped(old(self).mem(), gpa as int, buf@.len() as int)
                && final(self).mem() == spec_write_mem(old(self).mem(), gpa as int, buf@),
            r is Err ==> final(self).mem() == old(self).mem(),
            forall|g: int, l: int| #[trigger] final(self).accessible(g, l) == old(self).accessible(g, l),
    ;
}

/// Read the little-endian `u32` at `gpa`.
pub fn read_u32<M: GuestMem>(gm: &M, gpa: u64) -> (r: Result<u32, MemError>)
    ensures
        r is Ok <==> gm.accessible(gpa as int, 4),
        r is Ok ==> spec_mapped(gm.mem(), gpa as int, 4) && r->Ok_0 == le32(
            spec_bytes_at(gm.mem(), gpa as int, 4),
            0,
        ),
{
    let mut b = [0u8; 4];
    match gm.read(gpa, &mut b) {
        Ok(()) => {
            let v = crate::wire::bytes::get_u32(&b, 0);
            Ok(v)
        },
        Err(e) => Err(e),
    }
}

/// Read the little-endian `u64` at `gpa`.
pub fn read_u64<M: GuestMem>(gm: &M, gpa: u64) -> (r: Result<u64, MemError>)
    ensures
        r is Ok <==> gm.accessible(gpa as int, 8),
        r is Ok ==> spec_mapped(gm.mem(), gpa as int, 8) && r->Ok_0 == le64(
            spec_bytes_at(gm.mem(), gpa as int, 8),
            0,
        ),
{
    let mut b = [0u8; 8];
    match gm.read(gpa, &mut b) {
        Ok(()) => {
            let v = crate::wire::bytes::get_u64(&b, 0);
            Ok(v)
        },
        Err(e) => Err(e),
    }
}

/// Write `v` little-endian at `gpa`.
pub fn write_u32<M: GuestMem>(gm: &mut M, gpa: u64, v: u32) -> (r: Result<(), MemError>)
    ensures
        r is Ok <==> old(gm).accessible(gpa as int, 4),
        r is Ok ==> spec_mapped(old(gm).mem(), gpa as int, 4) && final(gm).mem()
            == spec_write_mem(old(gm).mem(), gpa as int, b32(v)),
        r is Err ==> final(gm).mem() == old(gm).mem(),
        forall|g: int, l: int| #[trigger] final(gm).accessible(g, l) == old(gm).accessible(g, l),
{
    let b = vstd::bytes::u32_to_le_bytes(v);
    gm.write(gpa, b.as_slice())
}

/// One mapped range of the mock.
#[derive(Debug)]
pub struct Segment {
    base: u64,
    data: Vec<u8>,
}

/// Segment `s` covers `[gpa, gpa + len)`.
pub open spec fn spec_seg_covers(base: u64, len: nat, gpa: int, n: int) -> bool {
    base <= gpa && gpa + n <= base + len
}

/// A segmented, `Vec<u8>`-backed mock: a set of non-overlapping GPA
/// ranges. Several segments model discontiguous layouts; one segment is
/// the common case.
#[derive(Debug)]
pub struct MockGuestMem {
    segments: Vec<Segment>,
}

impl MockGuestMem {
    /// Mapped range `i` covers `[gpa, gpa + n)`.
    pub open spec fn covers(&self, i: int, gpa: int, n: int) -> bool {
        spec_seg_covers(self.ranges()[i].0, self.ranges()[i].1, gpa, n)
    }

    /// Some one mapped range covers `[gpa, gpa + n)`: an access there
    /// succeeds (one that spans two adjacent ranges does not).
    pub open spec fn covered(&self, gpa: int, n: int) -> bool {
        exists|i: int| 0 <= i < self.ranges().len() && #[trigger] self.covers(i, gpa, n)
    }

    /// The mapped ranges, as `(base, len)` pairs in insertion order.
    pub closed spec fn ranges(&self) -> Seq<(u64, nat)> {
        Seq::new(
            self.segments@.len(),
            |i: int| (self.segments@[i].base, self.segments@[i].data@.len()),
        )
    }

    #[verifier::type_invariant]
    closed spec fn wf(&self) -> bool {
        &&& forall|i: int|
            0 <= i < self.segments@.len() ==> #[trigger] self.segments@[i].base
                + self.segments@[i].data@.len() <= u64::MAX
        &&& forall|i: int, j: int|
            0 <= i < self.segments@.len() && 0 <= j < self.segments@.len() && i != j ==> (
            #[trigger] self.segments@[i].base + self.segments@[i].data@.len()
                <= #[trigger] self.segments@[j].base || self.segments@[j].base
                + self.segments@[j].data@.len() <= self.segments@[i].base)
    }

    /// The segment holding address `a`, if any.
    closed spec fn seg_of(&self, a: int) -> int {
        choose|i: int| 0 <= i < self.segments@.len() && #[trigger] self.covers(i, a, 1)
    }

    /// The mapped bytes.
    pub closed spec fn bytes(&self) -> Map<int, u8> {
        Map::new(
            |a: int| exists|i: int| 0 <= i < self.segments@.len() && #[trigger] self.covers(i, a, 1),
            |a: int|
                self.segments@[self.seg_of(a)].data@[a - self.segments@[self.seg_of(a)].base],
        )
    }

    /// An empty mock (no mapped ranges).
    pub fn new() -> (m: MockGuestMem)
        ensures
            m.ranges() == Seq::<(u64, nat)>::empty(),
            m.bytes() == Map::<int, u8>::empty(),
    {
        let m = MockGuestMem { segments: Vec::new() };
        assert(m.bytes() =~= Map::<int, u8>::empty());
        assert(m.ranges() =~= Seq::<(u64, nat)>::empty());
        m
    }

    /// Map `data` at `[base, base + data.len())`. The range must not
    /// overflow and must not overlap an existing segment.
    pub fn add_segment(&mut self, base: u64, data: Vec<u8>)
        requires
            base + data@.len() <= u64::MAX,
            forall|i: int|
                0 <= i < old(self).ranges().len() ==> base + data@.len() <= #[trigger] old(
                    self,
                ).ranges()[i].0 || old(self).ranges()[i].0 + old(self).ranges()[i].1 <= base,
        ensures
            final(self).ranges() == old(self).ranges().push((base, data@.len())),
            final(self).bytes() == old(self).bytes().union_prefer_right(
                Map::new(|a: int| base <= a < base + data@.len(), |a: int| data@[a - base]),
            ),
    {
        proof {
            use_type_invariant(&*self);
        }
        let ghost old_self = *self;
        let ghost d = data@;
        let mut segs: Vec<Segment> = Vec::new();
        std::mem::swap(&mut segs, &mut self.segments);
        segs.push(Segment { base, data });
        proof {
            let n = old_self.segments@.len() as int;
            assert forall|i: int| 0 <= i < n implies #[trigger] segs@[i]
                == old_self.segments@[i] by {}
            assert forall|i: int| 0 <= i < n implies segs@[i].base == old_self.ranges()[i].0
                && segs@[i].data@.len() == old_self.ranges()[i].1 by {}
            assert forall|i: int|
                0 <= i < segs@.len() implies #[trigger] segs@[i].base + segs@[i].data@.len() <= u64::MAX by {}
            assert forall|i: int, j: int|
                0 <= i < segs@.len() && 0 <= j < segs@.len() && i != j implies (
                #[trigger] segs@[i].base + segs@[i].data@.len() <= #[trigger] segs@[j].base
                    || segs@[j].base + segs@[j].data@.len() <= segs@[i].base) by {
                if i == n {
                    assert(old_self.ranges()[j].0 == segs@[j].base);
                } else if j == n {
                    assert(old_self.ranges()[i].0 == segs@[i].base);
                }
            }
        }
        self.segments = segs;
        proof {
            let n = old_self.segments@.len() as int;
            assert(self.segments@[n].base == base);
            assert(self.segments@[n].data@ == d);
            assert forall|i: int| 0 <= i < n implies #[trigger] self.segments@[i]
                == old_self.segments@[i] by {}
            assert(self.ranges() =~= old_self.ranges().push((base, d.len())));
            let fresh = Map::new(|a: int| base <= a < base + d.len(), |a: int| d[a - base]);
            assert forall|a: int| #[trigger] self.bytes().dom().contains(a) <==> old_self.bytes().union_prefer_right(fresh).dom().contains(a) by {
                if self.bytes().dom().contains(a) {
                    let i = choose|i: int| 0 <= i < self.segments@.len() && #[trigger] self.covers(i, a, 1);
                    if i < n {
                        assert(old_self.covers(i, a, 1));
                    }
                }
                if old_self.bytes().dom().contains(a) {
                    let i = choose|i: int| 0 <= i < old_self.segments@.len() && #[trigger] old_self.covers(i, a, 1);
                    assert(self.covers(i, a, 1));
                }
                if fresh.dom().contains(a) {
                    assert(self.covers(n, a, 1));
                }
            }
            assert forall|a: int| #[trigger] self.bytes().dom().contains(a) implies self.bytes()[a] == old_self.bytes().union_prefer_right(fresh)[a] by {
                let i = self.seg_of(a);
                if fresh.dom().contains(a) {
                    assert(self.covers(n, a, 1));
                } else {
                    let j = old_self.seg_of(a);
                    assert(old_self.covers(j, a, 1));
                    assert(self.covers(j, a, 1));
                }
            }
            assert(self.bytes() =~= old_self.bytes().union_prefer_right(fresh));
        }
    }

    /// Single zeroed segment of `len` bytes at `base`.
    pub fn with_zeroed(base: u64, len: usize) -> (m: MockGuestMem)
        requires
            base + len <= u64::MAX,
        ensures
            m.ranges() == seq![(base, len as nat)],
            m.bytes() == Map::new(|a: int| base <= a < base + len, |a: int| 0u8),
    {
        let mut m = MockGuestMem::new();
        let data: Vec<u8> = vec![0u8; len];
        m.add_segment(base, data);
        assert(m.ranges() =~= seq![(base, len as nat)]);
        assert(m.bytes() =~= Map::new(|a: int| base <= a < base + len, |a: int| 0u8));
        m
    }

    fn locate(&self, gpa: u64, len: usize) -> (r: Option<(usize, usize)>)
        ensures
            match r {
                Some((i, off)) => i < self.segments@.len() && self.covers(i as int, gpa as int, len as int)
                    && off == gpa - self.segments@[i as int].base,
                None => !self.covered(gpa as int, len as int),
            },
    {
        proof {
            use_type_invariant(self);
        }
        let end = match gpa.checked_add(len as u64) {
            Some(e) => e,
            None => return None,
        };
        let mut i: usize = 0;
        while i < self.segments.len()
            invariant
                i <= self.segments@.len(),
                end == gpa + len,
                forall|j: int| 0 <= j < i ==> !#[trigger] self.covers(j, gpa as int, len as int),
                forall|j: int|
                    0 <= j < self.segments@.len() ==> #[trigger] self.segments@[j].base
                        + self.segments@[j].data@.len() <= u64::MAX,
            decreases self.segments@.len() - i,
        {
            let s = &self.segments[i];
            let s_end = s.base + s.data.len() as u64;
            if gpa >= s.base && end <= s_end {
                return Some((i, (gpa - s.base) as usize));
            }
            i = i + 1;
        }
        None
    }

    proof fn lemma_covered_bytes(&self, i: int, gpa: int, n: int)
        requires
            self.wf(),
            0 <= i < self.segments@.len(),
            self.covers(i, gpa, n),
        ensures
            forall|a: int|
                gpa <= a < gpa + n ==> #[trigger] self.bytes()[a] == self.segments@[i].data@[a
                    - self.segments@[i].base],
            spec_mapped(self.bytes(), gpa, n),
    {
        assert forall|a: int| gpa <= a < gpa + n implies self.bytes().dom().contains(a)
            && #[trigger] self.bytes()[a] == self.segments@[i].data@[a - self.segments@[i].base] by {
            assert(self.covers(i, a, 1));
            let j = self.seg_of(a);
            assert(self.covers(j, a, 1));
            if j != i {
                assert(self.segments@[i].base + self.segments@[i].data@.len()
                    <= self.segments@[j].base || self.segments@[j].base
                    + self.segments@[j].data@.len() <= self.segments@[i].base);
            }
        }
        assert forall|a: int| gpa <= a < gpa + n implies #[trigger] self.bytes().dom().contains(a) by {
            assert(self.bytes()[a] == self.segments@[i].data@[a - self.segments@[i].base]);
        }
    }

    /// Borrow a mapped range (test assertions).
    pub fn slice(&self, gpa: u64, len: usize) -> (r: Option<&[u8]>)
        ensures
            r is Some <==> self.covered(gpa as int, len as int),
            r is Some ==> r->0@ == spec_bytes_at(self.bytes(), gpa as int, len as int),
    {
        proof {
            use_type_invariant(self);
        }
        match self.locate(gpa, len) {
            Some((seg, off)) => {
                let d = self.segments[seg].data.as_slice();
                let _dl = d.len();
                let s = &d[off..off + len];
                proof {
                    self.lemma_covered_bytes(seg as int, gpa as int, len as int);
                    assert(s@ =~= spec_bytes_at(self.bytes(), gpa as int, len as int));
                }
                Some(s)
            },
            None => None,
        }
    }
}

impl GuestMem for MockGuestMem {
    closed spec fn mem(&self) -> Map<int, u8> {
        self.bytes()
    }

    open spec fn accessible(&self, gpa: int, len: int) -> bool {
        self.covered(gpa, len)
    }

    proof fn lemma_accessible_within(&self, gpa: int, len: int, g2: int, l2: int) {
        let i = choose|i: int| 0 <= i < self.ranges().len() && #[trigger] self.covers(i, gpa, len);
        assert(self.covers(i, g2, l2));
    }

    fn read(&self, gpa: u64, buf: &mut [u8]) -> (r: Result<(), MemError>)
        ensures
            r is Ok <==> self.covered(gpa as int, old(buf)@.len() as int),
            r is Err ==> r == Err::<(), MemError>(MemError::Unmapped { gpa, len: old(buf)@.len() as usize }) && final(buf)@ == old(buf)@,
    {
        proof {
            use_type_invariant(self);
        }
        let n = buf.len();
        match self.locate(gpa, n) {
            Some((seg, off)) => {
                let d = self.segments[seg].data.as_slice();
                let _dl = d.len();
                let src = &d[off..off + n];
                write_at(buf, 0, src);
                proof {
                    self.lemma_covered_bytes(seg as int, gpa as int, n as int);
                    assert(buf@ =~= spec_bytes_at(self.bytes(), gpa as int, n as int));
                }
                Ok(())
            },
            None => Err(MemError::Unmapped { gpa, len: n }),
        }
    }

    fn write(&mut self, gpa: u64, buf: &[u8]) -> (r: Result<(), MemError>)
        ensures
            r is Ok <==> old(self).covered(gpa as int, buf@.len() as int),
            r is Err ==> r == Err::<(), MemError>(MemError::Unmapped { gpa, len: buf@.len() as usize }),
            final(self).ranges() == old(self).ranges(),
    {
        proof {
            use_type_invariant(&*self);
        }
        let n = buf.len();
        match self.locate(gpa, n) {
            Some((seg, off)) => {
                let ghost old_self = *self;
                proof {
                    old_self.lemma_covered_bytes(seg as int, gpa as int, n as int);
                }
                let mut segs: Vec<Segment> = Vec::new();
                std::mem::swap(&mut segs, &mut self.segments);
                let s = &mut segs[seg];
                write_at(s.data.as_mut_slice(), off, buf);
                self.segments = segs;
                proof {
                    let ns = *self;
                    assert forall|j: int| 0 <= j < ns.segments@.len() && j != seg implies #[trigger] ns.segments@[j] == old_self.segments@[j] by {}
                    assert(ns.ranges() =~= old_self.ranges());
                    let want = spec_write_mem(old_self.bytes(), gpa as int, buf@);
                    assert forall|a: int| #[trigger] ns.bytes().dom().contains(a) <==> want.dom().contains(a) by {
                        if ns.bytes().dom().contains(a) {
                            let i = choose|i: int| 0 <= i < ns.segments@.len() && #[trigger] ns.covers(i, a, 1);
                            assert(old_self.covers(i, a, 1));
                        }
                        if old_self.bytes().dom().contains(a) {
                            let i = choose|i: int| 0 <= i < old_self.segments@.len() && #[trigger] old_self.covers(i, a, 1);
                            assert(ns.covers(i, a, 1));
                        }
                    }
                    assert forall|a: int| #[trigger] ns.bytes().dom().contains(a) implies ns.bytes()[a] == want[a] by {
                        let i = ns.seg_of(a);
                        assert(ns.covers(i, a, 1));
                        assert(old_self.covers(i, a, 1));
                        old_self.lemma_covered_bytes(i, a, 1);
                        ns.lemma_covered_bytes(i, a, 1);
                        if i != seg {
                            if gpa <= a < gpa + n {
                                assert(old_self.covers(seg as int, a, 1));
                                assert(false);
                            }
                        }
                    }
                    assert(ns.bytes() =~= want);
                    assert forall|g: int, l: int| #[trigger] ns.accessible(g, l) == old_self.accessible(g, l) by {
                        if ns.covered(g, l) {
                            let i = choose|i: int| 0 <= i < ns.ranges().len() && #[trigger] ns.covers(i, g, l);
                            assert(old_self.covers(i, g, l));
                        }
                        if old_self.covered(g, l) {
                            let i = choose|i: int| 0 <= i < old_self.ranges().len() && #[trigger] old_self.covers(i, g, l);
                            assert(ns.covers(i, g, l));
                        }
                    }
                }
                Ok(())
            },
            None => Err(MemError::Unmapped { gpa, len: n }),
        }
    }
}

} // verus!

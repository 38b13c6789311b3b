//! The receiving side of the capture handoff: packing feature ranges of
//! published regions, in request order, refusing a range whose region's
//! layout version has drifted.
use crate::text::{chars_eq, chars_of, push_chars, push_dec, push_str, spec_dec, string_from_chars};
use vstd::prelude::*;

verus! {

/// A published region as the capture sees it.
#[derive(Debug, Clone)]
pub struct CaptureRegion {
    /// The region's name.
    pub name: String,
    /// Its layout version.
    pub layout: u32,
    /// Its bytes.
    pub bytes: Vec<u8>,
}

/// One requested feature range.
#[derive(Debug, Clone)]
pub struct FeatureRange {
    /// The region it is read from.
    pub name: String,
    /// The layout version the request was written against.
    pub layout: u32,
    /// Start within the region.
    pub offset: usize,
    /// Length in bytes.
    pub len: usize,
}

/// The position of the first region named `name`, or -1.
pub open spec fn spec_find_region(regions: Seq<CaptureRegion>, name: Seq<char>) -> int
    decreases regions.len(),
{
    if regions.len() == 0 {
        -1
    } else if regions[0].name@ == name {
        0
    } else {
        let r = spec_find_region(regions.subrange(1, regions.len() as int), name);
        if r < 0 {
            -1
        } else {
            r + 1
        }
    }
}

/// The bytes of `range`, or why it cannot be read.
pub open spec fn spec_range_bytes(regions: Seq<CaptureRegion>, range: FeatureRange) -> Result<
    Seq<u8>,
    Seq<char>,
> {
    let k = spec_find_region(regions, range.name@);
    if k < 0 {
        Err("missing region "@ + range.name@)
    } else if regions[k].layout != range.layout {
        Err(
            "FAILED_PRECONDITION: "@ + range.name@ + " layout_version expected "@ + spec_dec(
                range.layout as nat,
            ) + ", got "@ + spec_dec(regions[k].layout as nat),
        )
    } else if range.offset + range.len > usize::MAX || range.offset + range.len
        > regions[k].bytes@.len() {
        Err("range outside "@ + range.name@)
    } else {
        Ok(regions[k].bytes@.subrange(range.offset as int, range.offset + range.len))
    }
}

/// The packed bytes of `ranges`, in order, or the first range's error.
pub open spec fn spec_capture(regions: Seq<CaptureRegion>, ranges: Seq<FeatureRange>) -> Result<
    Seq<u8>,
    Seq<char>,
>
    decreases ranges.len(),
{
    if ranges.len() == 0 {
        Ok(Seq::empty())
    } else {
        match spec_capture(regions, ranges.subrange(0, ranges.len() - 1)) {
            Err(e) => Err(e),
            Ok(before) => match spec_range_bytes(regions, ranges[ranges.len() - 1]) {
                Err(e) => Err(e),
                Ok(b) => Ok(before + b),
            },
        }
    }
}

/// Once a prefix of the ranges fails, every longer prefix fails the same.
proof fn lemma_capture_err_extends(regions: Seq<CaptureRegion>, ranges: Seq<FeatureRange>, i: int, j: int)
    requires
        0 <= i <= j <= ranges.len(),
        spec_capture(regions, ranges.subrange(0, i)) is Err,
    ensures
        spec_capture(regions, ranges.subrange(0, j)) == spec_capture(regions, ranges.subrange(0, i)),
    decreases j - i,
{
    if j > i {
        lemma_capture_err_extends(regions, ranges, i, j - 1);
        assert(ranges.subrange(0, j).subrange(0, j - 1) =~= ranges.subrange(0, j - 1));
    }
}

/// The first region named `name`.
fn find_region(regions: &[CaptureRegion], name: &[char]) -> (r: Option<usize>)
    ensures
        match r {
            Some(k) => k as int == spec_find_region(regions@, name@) && k < regions@.len(),
            None => spec_find_region(regions@, name@) < 0,
        },
{
    let mut i: usize = 0;
    proof {
        assert(regions@.subrange(0, regions@.len() as int) =~= regions@);
    }
    while i < regions.len()
        invariant
            i <= regions@.len(),
            spec_find_region(regions@, name@) == if spec_find_region(
                regions@.subrange(i as int, regions@.len() as int),
                name@,
            ) < 0 {
                -1
            } else {
                i + spec_find_region(regions@.subrange(i as int, regions@.len() as int), name@)
            },
        decreases regions@.len() - i,
    {
        let ghost rest = regions@.subrange(i as int, regions@.len() as int);
        proof {
            assert(rest.subrange(1, rest.len() as int) =~= regions@.subrange(
                i + 1,
                regions@.len() as int,
            ));
            assert(rest[0] == regions@[i as int]);
        }
        let rn = chars_of(regions[i].name.as_str());
        if chars_eq(rn.as_slice(), name) {
            return Some(i);
        }
        i = i + 1;
    }
    None
}

/// Pack the bytes of `ranges` in request order. A range naming no
/// region, written against another layout version than the region's, or
/// reaching past the region's end fails the whole capture.
pub fn capture_features(regions: &[CaptureRegion], ranges: &[FeatureRange]) -> (r: Result<
    Vec<u8>,
    String,
>)
    ensures
        match spec_capture(regions@, ranges@) {
            Ok(b) => r matches Ok(v) && v@ == b,
            Err(e) => r matches Err(m) && m@ == e,
        },
{
    let mut packed: Vec<u8> = Vec::new();
    let mut i: usize = 0;
    proof {
        assert(ranges@.subrange(0, 0) =~= Seq::<FeatureRange>::empty());
    }
    while i < ranges.len()
        invariant
            i <= ranges@.len(),
            spec_capture(regions@, ranges@.subrange(0, i as int)) == Ok::<Seq<u8>, Seq<char>>(
                packed@,
            ),
        decreases ranges@.len() - i,
    {
        let range = &ranges[i];
        proof {
            assert(ranges@.subrange(0, i + 1).subrange(0, i as int) =~= ranges@.subrange(
                0,
                i as int,
            ));
            assert(ranges@.subrange(0, i + 1)[i as int] == ranges@[i as int]);
        }
        let name = chars_of(range.name.as_str());
        let k = match find_region(regions, name.as_slice()) {
            Some(k) => k,
            None => {
                let mut m = chars_of("missing region ");
                push_chars(&mut m, name.as_slice());
                proof {
                    lemma_capture_err_extends(regions@, ranges@, i + 1, ranges@.len() as int);
                    assert(ranges@.subrange(0, ranges@.len() as int) =~= ranges@);
                }
                return Err(string_from_chars(m.as_slice()));
            },
        };
        let region = &regions[k];
        if region.layout != range.layout {
            let mut m = chars_of("FAILED_PRECONDITION: ");
            push_chars(&mut m, name.as_slice());
            push_str(&mut m, " layout_version expected ");
            push_dec(&mut m, range.layout as u128);
            push_str(&mut m, ", got ");
            push_dec(&mut m, region.layout as u128);
            proof {
                lemma_capture_err_extends(regions@, ranges@, i + 1, ranges@.len() as int);
                assert(ranges@.subrange(0, ranges@.len() as int) =~= ranges@);
            }
            return Err(string_from_chars(m.as_slice()));
        }
        let end = match range.offset.checked_add(range.len) {
            Some(e) if e <= region.bytes.len() => e,
            _ => {
                let mut m = chars_of("range outside ");
                push_chars(&mut m, name.as_slice());
                proof {
                    lemma_capture_err_extends(regions@, ranges@, i + 1, ranges@.len() as int);
                    assert(ranges@.subrange(0, ranges@.len() as int) =~= ranges@);
                }
                return Err(string_from_chars(m.as_slice()));
            },
        };
        let ghost before = packed@;
        let mut p = range.offset;
        while p < end
            invariant
                range.offset <= p <= end <= region.bytes@.len(),
                packed@ == before + region.bytes@.subrange(range.offset as int, p as int),
            decreases end - p,
        {
            packed.push(region.bytes[p]);
            p = p + 1;
            proof {
                assert(packed@ =~= before + region.bytes@.subrange(range.offset as int, p as int));
            }
        }
        i = i + 1;
    }
    proof {
        assert(ranges@.subrange(0, ranges@.len() as int) =~= ranges@);
    }
    Ok(packed)
}

} // verus!

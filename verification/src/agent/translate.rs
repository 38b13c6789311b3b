//! Decoding `/proc/self/pagemap` entries for GVA to GPA self-translation.
//!
//! Each 8-byte entry: bit 63 = present, bit 62 = swapped, bits 0-54 =
//! PFN. A guest PFN is a GPA page: `gpa = pfn << 12` (the guest kernel's
//! physical address space is the GPA space the hypervisor exposes).
use vstd::prelude::*;

verus! {

/// Pagemap entry: page present.
pub const PM_PRESENT: u64 = 0x8000_0000_0000_0000;
/// Pagemap entry: page swapped out.
pub const PM_SWAPPED: u64 = 0x4000_0000_0000_0000;
/// Pagemap entry: the PFN field (bits 0-54).
pub const PM_PFN_MASK: u64 = 0x007F_FFFF_FFFF_FFFF;

/// Why a translation failed.
#[derive(Debug, PartialEq, Eq)]
pub enum TranslateError {
    /// Page not present (not faulted in / reclaimed); registration must
    /// fail loudly (`NotPinned`).
    NotPresent {
        /// The failing virtual address.
        vaddr: u64,
    },
    /// Page is in swap; must be impossible in the swapless image.
    Swapped {
        /// The failing virtual address.
        vaddr: u64,
    },
    /// Kernel hid the PFN (no CAP_SYS_ADMIN); fail loud at startup.
    PfnHidden {
        /// The failing virtual address.
        vaddr: u64,
    },
    /// pagemap I/O error, by its `std::io::ErrorKind`.
    Io(std::io::ErrorKind),
}

/// `std::io::ErrorKind`, carried through `TranslateError::Io`.
#[verifier::external_type_specification]
#[verifier::external_body]
pub struct ExIoErrorKind(std::io::ErrorKind);

/// What `decode_entry` gives for the raw pagemap `entry` of `vaddr`.
pub open spec fn spec_decode_entry(vaddr: u64, entry: u64) -> Result<u64, TranslateError> {
    if entry & PM_SWAPPED != 0 {
        Err(TranslateError::Swapped { vaddr })
    } else if entry & PM_PRESENT == 0 {
        Err(TranslateError::NotPresent { vaddr })
    } else if entry & PM_PFN_MASK == 0 {
        Err(TranslateError::PfnHidden { vaddr })
    } else {
        Ok((entry & PM_PFN_MASK) << 12u64)
    }
}

/// Decode one raw pagemap entry for `vaddr`: a swapped page first, then
/// a missing one, then a hidden PFN are errors; else the page's GPA.
pub fn decode_entry(vaddr: u64, entry: u64) -> (r: Result<u64, TranslateError>)
    ensures
        r == spec_decode_entry(vaddr, entry),
{
    if entry & PM_SWAPPED != 0 {
        return Err(TranslateError::Swapped { vaddr });
    }
    if entry & PM_PRESENT == 0 {
        return Err(TranslateError::NotPresent { vaddr });
    }
    let pfn = entry & PM_PFN_MASK;
    if pfn == 0 {
        return Err(TranslateError::PfnHidden { vaddr });
    }
    Ok(pfn << 12)
}

} // verus!

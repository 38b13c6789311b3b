//! Region publication: flags, errors, handles, and the checks made before
//! a region is registered with the agent.
use crate::wire::manifest::{
    MAX_REGION_NAME, REGION_FLAG_FRAMEBUFFER, REGION_FLAG_HOST_WRITABLE, REGION_FLAG_HOT,
};
use crate::wire::regionipc::{
    STATUS_MANIFEST_FULL, STATUS_NAME_TOO_LONG, STATUS_NOT_PINNED, STATUS_OK,
    STATUS_TOO_MANY_EXTENTS,
};
use vstd::prelude::*;

verus! {

/// Region publication flags.
#[derive(Debug, Clone, Copy, PartialEq, Eq, Hash, Structural)]
pub struct RegionFlags(u32);

impl RegionFlags {
    /// Host treats contents as a framebuffer.
    pub fn framebuffer() -> (r: RegionFlags)
        ensures
            r.spec_bits() == REGION_FLAG_FRAMEBUFFER,
    {
        RegionFlags(REGION_FLAG_FRAMEBUFFER)
    }

    /// Contents change every step.
    pub fn hot() -> (r: RegionFlags)
        ensures
            r.spec_bits() == REGION_FLAG_HOT,
    {
        RegionFlags(REGION_FLAG_HOT)
    }

    /// Host may write this region; reserved in v1.
    pub fn host_writable() -> (r: RegionFlags)
        ensures
            r.spec_bits() == REGION_FLAG_HOST_WRITABLE,
    {
        RegionFlags(REGION_FLAG_HOST_WRITABLE)
    }

    /// The raw bits, in specifications.
    pub closed spec fn spec_bits(self) -> u32 {
        self.0
    }

    /// Empty flag set.
    pub fn empty() -> (r: RegionFlags)
        ensures
            r.spec_bits() == 0,
    {
        RegionFlags(0)
    }

    /// Raw flag bits.
    pub fn bits(self) -> (r: u32)
        ensures
            r == self.spec_bits(),
    {
        self.0
    }

    /// Build from raw bits, preserving unknown future bits.
    pub fn from_bits_retain(bits: u32) -> (r: RegionFlags)
        ensures
            r.spec_bits() == bits,
    {
        RegionFlags(bits)
    }

    /// True when all `other` bits are present.
    pub fn contains(self, other: RegionFlags) -> (r: bool)
        ensures
            r == (self.spec_bits() & other.spec_bits() == other.spec_bits()),
    {
        (self.0 & other.0) == other.0
    }

    /// The union of both flag sets (`|`).
    pub fn union(self, other: RegionFlags) -> (r: RegionFlags)
        ensures
            r.spec_bits() == self.spec_bits() | other.spec_bits(),
    {
        RegionFlags(self.0 | other.0)
    }

    /// The flags both sets hold (`&`).
    pub fn intersection(self, other: RegionFlags) -> (r: RegionFlags)
        ensures
            r.spec_bits() == self.spec_bits() & other.spec_bits(),
    {
        RegionFlags(self.0 & other.0)
    }
}

impl Default for RegionFlags {
    fn default() -> (r: Self)
        ensures
            r.spec_bits() == 0,
    {
        RegionFlags(0)
    }
}

/// Errors from region publication.
#[derive(Debug, Clone, PartialEq, Eq, Structural)]
#[non_exhaustive]
pub enum RegionError {
    /// The manifest has no free region slot.
    ManifestFull,
    /// The region would exceed the manifest extent pool.
    TooManyExtents,
    /// The requested bytes are not present and pinned.
    NotPinned,
    /// Region name exceeds the manifest field.
    NameTooLong,
    /// The agent IPC path is unavailable.
    AgentUnavailable,
}

impl RegionError {
    /// The human-readable text of the error.
    pub fn message(&self) -> (r: &'static str)
        ensures
            r@ == match self {
                RegionError::ManifestFull => "region manifest is full"@,
                RegionError::TooManyExtents => "region has too many extents"@,
                RegionError::NotPinned => "region is not pinned"@,
                RegionError::NameTooLong => "region name is too long"@,
                RegionError::AgentUnavailable => "agent is unavailable"@,
            },
    {
        match self {
            RegionError::ManifestFull => "region manifest is full",
            RegionError::TooManyExtents => "region has too many extents",
            RegionError::NotPinned => "region is not pinned",
            RegionError::NameTooLong => "region name is too long",
            RegionError::AgentUnavailable => "agent is unavailable",
        }
    }
}

/// Published region handle.
///
/// Unregistering (once) asks the agent to mark the manifest entry DEAD,
/// so workloads hold their handles for as long as the region should stay
/// host-readable. The memory itself stays mlocked.
#[derive(Debug)]
pub struct RegionHandle {
    region_id: u32,
    live: bool,
}

impl RegionHandle {
    /// The slot id, in specifications.
    pub closed spec fn spec_region_id(&self) -> u32 {
        self.region_id
    }

    /// Whether the unregister request is still to be sent.
    pub closed spec fn spec_live(&self) -> bool {
        self.live
    }

    /// A live handle for manifest slot `region_id`.
    pub fn new(region_id: u32) -> (h: RegionHandle)
        ensures
            h.spec_region_id() == region_id,
            h.spec_live(),
    {
        RegionHandle { region_id, live: true }
    }

    /// Manifest region slot id.
    pub fn region_id(&self) -> (r: u32)
        ensures
            r == self.spec_region_id(),
    {
        self.region_id
    }

    /// The region to unregister, the first time only: a live handle gives
    /// its id and is live no more; after that, `None`.
    pub fn take_unregister(&mut self) -> (r: Option<u32>)
        ensures
            final(self).spec_region_id() == old(self).spec_region_id(),
            !final(self).spec_live(),
            r == if old(self).spec_live() {
                Some(old(self).spec_region_id())
            } else {
                None::<u32>
            },
    {
        if self.live {
            self.live = false;
            Some(self.region_id)
        } else {
            None
        }
    }

    /// Explicitly unregister this region (best-effort): the region id
    /// whose `Unregister` request the caller sends, if still live.
    pub fn unregister(self) -> (r: Option<u32>)
        ensures
            r == if self.spec_live() {
                Some(self.spec_region_id())
            } else {
                None::<u32>
            },
    {
        let mut h = self;
        h.take_unregister()
    }
}

/// What `validate_region` decides for a name of `name_len` bytes (its
/// `str::len`) at a
/// range starting at address `addr` (0 is null) of `len` bytes.
pub open spec fn spec_validate_region(name_len: nat, addr: usize, len: usize) -> Result<
    (),
    RegionError,
> {
    if name_len > MAX_REGION_NAME {
        Err(RegionError::NameTooLong)
    } else if len == 0 || addr == 0 {
        Err(RegionError::NotPinned)
    } else {
        Ok(())
    }
}

/// Check a publication before it goes to the agent: the name must fit
/// the manifest field, and the range must be non-empty and non-null (a
/// zero-length publication is meaningless to the host).
pub fn validate_region(name: &str, addr: usize, len: usize) -> (r: Result<(), RegionError>)
    ensures
        r == spec_validate_region(name.len() as nat, addr, len),
{
    if name.len() > MAX_REGION_NAME {
        return Err(RegionError::NameTooLong);
    }
    if len == 0 || addr == 0 {
        return Err(RegionError::NotPinned);
    }
    Ok(())
}

/// The error for a non-OK reply status.
pub open spec fn spec_status_to_error(status: u16) -> RegionError {
    if status == STATUS_MANIFEST_FULL {
        RegionError::ManifestFull
    } else if status == STATUS_TOO_MANY_EXTENTS {
        RegionError::TooManyExtents
    } else if status == STATUS_NOT_PINNED {
        RegionError::NotPinned
    } else if status == STATUS_NAME_TOO_LONG {
        RegionError::NameTooLong
    } else {
        RegionError::AgentUnavailable
    }
}

/// Map a non-OK reply status onto the public error type. Bad-request,
/// unknown-pid, unknown-region and internal statuses mean the agent path
/// is present but unusable from here.
pub fn status_to_error(status: u16) -> (r: RegionError)
    requires
        status != STATUS_OK,
    ensures
        r == spec_status_to_error(status),
{
    if status == STATUS_MANIFEST_FULL {
        RegionError::ManifestFull
    } else if status == STATUS_TOO_MANY_EXTENTS {
        RegionError::TooManyExtents
    } else if status == STATUS_NOT_PINNED {
        RegionError::NotPinned
    } else if status == STATUS_NAME_TOO_LONG {
        RegionError::NameTooLong
    } else {
        RegionError::AgentUnavailable
    }
}

} // verus!

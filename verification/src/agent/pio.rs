//! The detcall port protocol's values: the identify answer and the
//! CHANNEL_INIT write sequence. The port instructions themselves are the
//! caller's.
use crate::wire::ports::{IDENT_VALUE, PORT_INIT_GO, PORT_INIT_HI, PORT_INIT_LO};
use vstd::prelude::*;

verus! {

/// Whether the identify read's `answer` is the determinism hypervisor's
/// magic and protocol.
pub fn ident_ok(answer: u32) -> (r: bool)
    ensures
        r == (answer == IDENT_VALUE),
{
    answer == IDENT_VALUE
}

/// The CHANNEL_INIT port writes, in order: the channel GPA's low and high
/// 32 bits are latched, then the size in 4 KiB pages commits (the status
/// is then read back from `PORT_INIT_GO`).
pub fn channel_init_writes(gpa: u64, size_pages: u32) -> (r: [(u16, u32); 3])
    ensures
        r@ == seq![
            (PORT_INIT_LO, (gpa % 0x1_0000_0000) as u32),
            (PORT_INIT_HI, (gpa / 0x1_0000_0000) as u32),
            (PORT_INIT_GO, size_pages),
        ],
{
    let lo = gpa as u32;
    let hi = (gpa >> 32) as u32;
    assert(lo == gpa % 0x1_0000_0000) by (bit_vector)
        requires
            lo == gpa as u32,
    ;
    assert(hi == gpa / 0x1_0000_0000) by (bit_vector)
        requires
            hi == (gpa >> 32) as u32,
    ;
    let r = [(PORT_INIT_LO, lo), (PORT_INIT_HI, hi), (PORT_INIT_GO, size_pages)];
    assert(r@ =~= seq![
        (PORT_INIT_LO, (gpa % 0x1_0000_0000) as u32),
        (PORT_INIT_HI, (gpa / 0x1_0000_0000) as u32),
        (PORT_INIT_GO, size_pages),
    ]);
    r
}

} // verus!

//! The SYSCALL/SYSRET boundary: which return addresses are safe to hand to
//! `SYSRET`.

use vstd::prelude::*;

verus! {

/// Whether `address` is a canonical x86-64 virtual address: bits [63:48]
/// all equal bit 47. `SYSRET` to a non-canonical `RIP` faults in ring 0, so
/// a return address must pass this first.
pub fn is_canonical_virtual_address(address: u64) -> (canonical: bool)
    ensures
        canonical == (address < 0x8000_0000_0000 || address >= 0xFFFF_8000_0000_0000),
{
    let upper = address >> 47u64;
    assert((upper == 0 || upper == 0x1_FFFF) == (address < 0x8000_0000_0000 || address
        >= 0xFFFF_8000_0000_0000)) by (bit_vector)
        requires
            upper == address >> 47u64,
    ;
    upper == 0 || upper == 0x1_FFFF
}

} // verus!

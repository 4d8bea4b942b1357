//! Decoding system register values: the physical address size and the
//! translation granules `ID_AA64MMFR0_EL1` reports, and whether `SCTLR_EL1`
//! has EL1 translation on.

use vstd::prelude::*;

verus! {

/// What `ID_AA64MMFR0_EL1` says about the memory system.
#[derive(Debug, Clone, Copy, PartialEq, Eq)]
pub struct MemoryModel {
    /// `PARange` decoded to bits, or `None` for a reserved encoding.
    pub physical_address_bits: Option<u8>,
    /// 4 KiB granule supported (`TGran4 != 0b1111`).
    pub granule_4k: bool,
    /// 16 KiB granule supported (`TGran16 != 0b0000`).
    pub granule_16k: bool,
    /// 64 KiB granule supported (`TGran64 != 0b1111`).
    pub granule_64k: bool,
}

/// `PARange`, bits [3:0], in bits of physical address.
pub open spec fn physical_range(field: u64) -> Option<u8> {
    if field == 0 {
        Some(32u8)
    } else if field == 1 {
        Some(36u8)
    } else if field == 2 {
        Some(40u8)
    } else if field == 3 {
        Some(42u8)
    } else if field == 4 {
        Some(44u8)
    } else if field == 5 {
        Some(48u8)
    } else if field == 6 {
        Some(52u8)
    } else {
        None
    }
}

impl MemoryModel {
    /// Decode a value of `ID_AA64MMFR0_EL1`.
    ///
    /// The encodings are not uniform: `TGran4` and `TGran64` use `0b1111`
    /// for "not supported", `TGran16` uses `0b0000`.
    pub fn from_id_register(value: u64) -> (model: Self)
        ensures
            model.physical_address_bits == physical_range(value & 0xF),
            model.granule_4k == ((value >> 28u64) & 0xF != 0b1111),
            model.granule_64k == ((value >> 24u64) & 0xF != 0b1111),
            model.granule_16k == ((value >> 20u64) & 0xF != 0b0000),
    {
        let field = value & 0xF;
        let physical_address_bits = if field == 0b0000 {
            Some(32)
        } else if field == 0b0001 {
            Some(36)
        } else if field == 0b0010 {
            Some(40)
        } else if field == 0b0011 {
            Some(42)
        } else if field == 0b0100 {
            Some(44)
        } else if field == 0b0101 {
            Some(48)
        } else if field == 0b0110 {
            Some(52)
        } else {
            None
        };
        let tgran4 = (value >> 28) & 0xF;
        let tgran64 = (value >> 24) & 0xF;
        let tgran16 = (value >> 20) & 0xF;
        Self {
            physical_address_bits,
            granule_4k: tgran4 != 0b1111,
            granule_64k: tgran64 != 0b1111,
            granule_16k: tgran16 != 0b0000,
        }
    }
}

/// Whether a value of `SCTLR_EL1` has `M`, bit 0, set: EL1 translation is
/// enabled, and physical addresses are no longer directly usable at EL1.
pub fn el1_mmu_enabled(sctlr_el1: u64) -> (enabled: bool)
    ensures
        enabled == (sctlr_el1 & 1 != 0),
{
    sctlr_el1 & 1 != 0
}

} // verus!

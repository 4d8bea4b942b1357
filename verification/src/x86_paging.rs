//! x86-64 page-table entry policy: the flag sets each kind of kernel mapping
//! gets, the write-xor-execute check every mapping passes, and the index
//! arithmetic of a four-level walk.
//!
//! Flags are the raw entry bits, as the hardware and the `x86_64` crate's
//! `PageTableFlags` both lay them out.

use vstd::prelude::*;

verus! {

/// Bit 0: the entry maps something.
pub const PRESENT: u64 = 0x1;
/// Bit 1: writes are allowed.
pub const WRITABLE: u64 = 0x2;
/// Bit 2: ring 3 may access it.
pub const USER_ACCESSIBLE: u64 = 0x4;
/// Bit 7: the entry maps a huge page rather than a table.
pub const HUGE_PAGE: u64 = 0x80;
/// Bit 63: instruction fetches are not allowed.
pub const NO_EXECUTE: u64 = 0x8000_0000_0000_0000;

/// Physical address the kernel image is loaded at.
pub const KERNEL_PHYSICAL_LOAD_ADDRESS: u64 = 0x0010_0000;

/// Size of a 2 MiB huge page.
pub const HUGE_PAGE_SIZE_IN_BYTES: u64 = 0x20_0000;

/// Why a mapping was refused.
#[derive(Debug, Clone, Copy, PartialEq, Eq, Structural)]
pub enum MappingError {
    /// Writable and executable at once (W^X).
    WritableAndExecutableViolation,
    /// The physical allocator ran out of page-table pages.
    AllocationFailure,
    /// The virtual address is not canonical.
    InvalidAddress,
}

/// What the W^X rule forbids: writable and not no-execute.
pub open spec fn violates_write_xor_execute(flags: u64) -> bool {
    flags & WRITABLE != 0 && flags & NO_EXECUTE == 0
}

/// Reject flags that make a page writable and executable at once.
pub fn validate_page_table_flags_enforce_write_xor_execute(flags: u64) -> (result: Result<
    (),
    MappingError,
>)
    ensures
        violates_write_xor_execute(flags) ==> result == Err::<(), MappingError>(
            MappingError::WritableAndExecutableViolation,
        ),
        !violates_write_xor_execute(flags) ==> result is Ok,
{
    let is_writable = flags & WRITABLE != 0;
    let is_executable = flags & NO_EXECUTE == 0;
    if is_writable && is_executable {
        return Err(MappingError::WritableAndExecutableViolation);
    }
    Ok(())
}

/// What a mapping error says, for the log.
pub fn describe_mapping_error(error: MappingError) -> (description: &'static str)
    ensures
        description@ == match error {
            MappingError::WritableAndExecutableViolation =>
                "page mapping rejected: writable and executable simultaneously violates W^X (INV-MEM-003)"@,
            MappingError::AllocationFailure =>
                "page table page allocation failed: physical allocator exhausted"@,
            MappingError::InvalidAddress =>
                "page mapping rejected: virtual address is not canonical"@,
        },
{
    match error {
        MappingError::WritableAndExecutableViolation => {
            "page mapping rejected: writable and executable simultaneously violates W^X (INV-MEM-003)"
        },
        MappingError::AllocationFailure => {
            "page table page allocation failed: physical allocator exhausted"
        },
        MappingError::InvalidAddress => "page mapping rejected: virtual address is not canonical",
    }
}

/// Kernel code: present, read-only, executable.
pub fn compute_kernel_code_page_flags() -> (flags: u64)
    ensures
        flags == PRESENT,
{
    PRESENT
}

/// Kernel data: present, writable, not executable.
pub fn compute_kernel_data_page_flags() -> (flags: u64)
    ensures
        flags == PRESENT | WRITABLE | NO_EXECUTE,
{
    let base_flags = PRESENT | WRITABLE;
    base_flags | NO_EXECUTE
}

/// Kernel read-only data: present, not writable, not executable.
pub fn compute_kernel_read_only_data_page_flags() -> (flags: u64)
    ensures
        flags == PRESENT | NO_EXECUTE,
{
    PRESENT | NO_EXECUTE
}

/// Intermediate tables: present and writable, so the leaf decides.
pub fn compute_intermediate_page_table_flags() -> (flags: u64)
    ensures
        flags == PRESENT | WRITABLE,
{
    PRESENT | WRITABLE
}

/// Direct-map pages: present, writable, not executable, 2 MiB.
pub fn compute_direct_map_page_flags() -> (flags: u64)
    ensures
        flags == PRESENT | WRITABLE | NO_EXECUTE | HUGE_PAGE,
{
    PRESENT | WRITABLE | NO_EXECUTE | HUGE_PAGE
}

/// Law: every leaf flag set the kernel maps with passes the W^X rule, and
/// code is not writable while data is not executable.
pub proof fn lemma_kernel_flags_respect_write_xor_execute()
    by (bit_vector)
    ensures
        !violates_write_xor_execute(PRESENT),
        !violates_write_xor_execute(PRESENT | WRITABLE | NO_EXECUTE),
        !violates_write_xor_execute(PRESENT | NO_EXECUTE),
        !violates_write_xor_execute(PRESENT | WRITABLE | NO_EXECUTE | HUGE_PAGE),
        PRESENT & WRITABLE == 0,
        (PRESENT | WRITABLE | NO_EXECUTE) & NO_EXECUTE != 0,
{
}

/// Law: W^X is about two bits alone: flags violate it exactly when bit 1
/// (writable) is set and bit 63 (no-execute) is clear. Setting no-execute,
/// or clearing writable, always makes flags acceptable.
pub proof fn lemma_write_xor_execute_is_two_bits(flags: u64)
    ensures
        violates_write_xor_execute(flags) == ((flags >> 1u64) & 1 == 1 && flags >> 63u64 == 0),
        !violates_write_xor_execute(flags | NO_EXECUTE),
        !violates_write_xor_execute(flags & !WRITABLE),
{
    assert({
        &&& (flags & 2 != 0 && flags & 0x8000_0000_0000_0000 == 0) == ((flags >> 1u64) & 1 == 1
            && flags >> 63u64 == 0)
        &&& (flags | 0x8000_0000_0000_0000) & 0x8000_0000_0000_0000 != 0
        &&& (flags & !2u64) & 2 == 0
    }) by (bit_vector);
}

/// PML4 index: bits [47:39].
pub fn extract_page_map_level_4_index(virtual_address: u64) -> (index: usize)
    ensures
        index == (virtual_address >> 39u64) & 0x1FF,
        index < 512,
{
    proof {
        crate::bits::lemma_and_bound(virtual_address >> 39u64, 0x1FF);
    }
    ((virtual_address >> 39) & 0x1FF) as usize
}

/// PDPT index: bits [38:30].
pub fn extract_page_directory_pointer_table_index(virtual_address: u64) -> (index: usize)
    ensures
        index == (virtual_address >> 30u64) & 0x1FF,
        index < 512,
{
    proof {
        crate::bits::lemma_and_bound(virtual_address >> 30u64, 0x1FF);
    }
    ((virtual_address >> 30) & 0x1FF) as usize
}

/// Page-directory index: bits [29:21].
pub fn extract_page_directory_index(virtual_address: u64) -> (index: usize)
    ensures
        index == (virtual_address >> 21u64) & 0x1FF,
        index < 512,
{
    proof {
        crate::bits::lemma_and_bound(virtual_address >> 21u64, 0x1FF);
    }
    ((virtual_address >> 21) & 0x1FF) as usize
}

/// Page-table index: bits [20:12].
pub fn extract_page_table_index(virtual_address: u64) -> (index: usize)
    ensures
        index == (virtual_address >> 12u64) & 0x1FF,
        index < 512,
{
    proof {
        crate::bits::lemma_and_bound(virtual_address >> 12u64, 0x1FF);
    }
    ((virtual_address >> 12) & 0x1FF) as usize
}

/// Make a level-one entry read-only: clear the writable bit and keep every
/// other bit, so the page stays mapped.
pub fn clear_writable_flag_in_level_one_page_table_entry(entry: &mut u64)
    ensures
        *final(entry) == *old(entry) & !WRITABLE,
{
    let current_value = *entry;
    let updated_value = current_value & !WRITABLE;
    *entry = updated_value;
}

/// Law: clearing the writable bit leaves it clear, changes no other bit, and
/// a second clearing changes nothing.
pub proof fn lemma_clear_writable(entry: u64)
    by (bit_vector)
    ensures
        (entry & !WRITABLE) & WRITABLE == 0,
        (entry & !WRITABLE) | (entry & WRITABLE) == entry,
        (entry & !WRITABLE) & !WRITABLE == entry & !WRITABLE,
{
}

/// Huge pages needed to cover `total` bytes of memory.
pub fn compute_huge_page_count(total_physical_memory_in_bytes: u64) -> (count: u64)
    requires
        total_physical_memory_in_bytes + HUGE_PAGE_SIZE_IN_BYTES <= u64::MAX,
    ensures
        count == (total_physical_memory_in_bytes + HUGE_PAGE_SIZE_IN_BYTES - 1)
            / HUGE_PAGE_SIZE_IN_BYTES as int,
        count * HUGE_PAGE_SIZE_IN_BYTES >= total_physical_memory_in_bytes,
        count * HUGE_PAGE_SIZE_IN_BYTES < total_physical_memory_in_bytes + HUGE_PAGE_SIZE_IN_BYTES,
{
    let count = (total_physical_memory_in_bytes + HUGE_PAGE_SIZE_IN_BYTES - 1)
        / HUGE_PAGE_SIZE_IN_BYTES;
    proof {
        let n = total_physical_memory_in_bytes + HUGE_PAGE_SIZE_IN_BYTES - 1;
        vstd::arithmetic::div_mod::lemma_fundamental_div_mod(n as int, HUGE_PAGE_SIZE_IN_BYTES as int);
    }
    count
}

} // verus!

//! The server binaries the bootloader loaded as multiboot2 modules: which
//! physical byte ranges the first eight of them occupy, which of them is the
//! shell, and the SHA-256 measurement of a module's bytes.

use vstd::prelude::*;
use crate::digest::{sha256, sha256_digest};

verus! {

/// Number of server module slots that are measured.
pub const MAXIMUM_SERVER_MODULE_COUNT: usize = 8;

/// Slot of the shell among the modules: the kernel is module zero, the shell
/// module one.
pub const SHELL_MODULE_INDEX: usize = 1;

/// A module's bytes in physical memory: `byte_count` bytes at
/// `start_address`. An absent or malformed module is the empty span.
#[derive(Debug, Clone, Copy, PartialEq, Eq)]
pub struct ModuleSpan {
    pub start_address: u64,
    pub byte_count: u64,
}

/// The span of a module tag reading `[start_address, end_address)`: empty
/// when the end lies below the start.
pub open spec fn tag_span(start_address: u32, end_address: u32) -> ModuleSpan {
    if end_address < start_address {
        ModuleSpan { start_address: 0, byte_count: 0 }
    } else {
        ModuleSpan { start_address: start_address as u64, byte_count: (end_address - start_address) as u64 }
    }
}

/// Slot `index` of the measured module table built from the module tags'
/// `(start, end)` addresses, in the order the tags appear.
pub open spec fn slot_span(module_ranges: Seq<(u32, u32)>, index: int) -> ModuleSpan {
    if index < module_ranges.len() {
        tag_span(module_ranges[index].0, module_ranges[index].1)
    } else {
        ModuleSpan { start_address: 0, byte_count: 0 }
    }
}

/// The span of one module tag; a tag whose end lies below its start is
/// malformed and gives the empty span.
fn extract_single_module_byte_slice(start_address: u32, end_address: u32) -> (span: ModuleSpan)
    ensures
        span == tag_span(start_address, end_address),
{
    if end_address < start_address {
        return ModuleSpan { start_address: 0, byte_count: 0 };
    }
    ModuleSpan {
        start_address: start_address as u64,
        byte_count: (end_address - start_address) as u64,
    }
}

/// The eight measured module slots, from the `(start, end)` addresses of the
/// module tags in the order the boot information lists them.
///
/// Slot `i` holds module `i`'s bytes; modules past the eighth are not
/// measured, and slots with no module hold the empty span, whose
/// measurement is the SHA-256 of nothing.
pub fn extract_module_byte_slices_from_boot_information(module_ranges: &[(u32, u32)]) -> (spans:
    Vec<ModuleSpan>)
    ensures
        spans@.len() == MAXIMUM_SERVER_MODULE_COUNT,
        forall|i: int|
            0 <= i < MAXIMUM_SERVER_MODULE_COUNT ==> #[trigger] spans@[i] == slot_span(
                module_ranges@,
                i,
            ),
{
    let mut spans: Vec<ModuleSpan> = Vec::new();
    let mut index: usize = 0;
    while index < MAXIMUM_SERVER_MODULE_COUNT
        invariant
            index <= MAXIMUM_SERVER_MODULE_COUNT,
            spans@.len() == index,
            forall|i: int| 0 <= i < index ==> #[trigger] spans@[i] == slot_span(module_ranges@, i),
        decreases MAXIMUM_SERVER_MODULE_COUNT - index,
    {
        if index < module_ranges.len() {
            let (start_address, end_address) = module_ranges[index];
            spans.push(extract_single_module_byte_slice(start_address, end_address));
        } else {
            spans.push(ModuleSpan { start_address: 0, byte_count: 0 });
        }
        index = index + 1;
    }
    spans
}

/// The shell's slot among the measured modules.
pub fn pick_shell_module_byte_slice(spans: &[ModuleSpan]) -> (shell: ModuleSpan)
    requires
        spans@.len() == MAXIMUM_SERVER_MODULE_COUNT,
    ensures
        shell == spans@[SHELL_MODULE_INDEX as int],
{
    spans[SHELL_MODULE_INDEX]
}

/// The SHA-256 measurement of a module's bytes.
pub fn compute_module_sha256(module_bytes: &[u8]) -> (digest: [u8; 32])
    ensures
        digest@ == sha256(module_bytes@),
{
    sha256_digest(module_bytes)
}

/// Law: a measured slot holds exactly the bytes its module tag names:
/// starting at the tag's start and ending at its end. A slot past the
/// modules listed, or for a tag whose end lies below its start, holds no
/// bytes.
pub proof fn lemma_slots_hold_the_tagged_bytes(module_ranges: Seq<(u32, u32)>, index: int)
    requires
        0 <= index,
    ensures
        index < module_ranges.len() && module_ranges[index].0 <= module_ranges[index].1 ==> {
            &&& slot_span(module_ranges, index).start_address == module_ranges[index].0
            &&& slot_span(module_ranges, index).start_address + slot_span(module_ranges, index).byte_count
                == module_ranges[index].1
        },
        !(index < module_ranges.len() && module_ranges[index].0 <= module_ranges[index].1) ==> {
            &&& slot_span(module_ranges, index).start_address == 0
            &&& slot_span(module_ranges, index).byte_count == 0
        },
{
}

} // verus!

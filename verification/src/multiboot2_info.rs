//! What the boot path takes from multiboot2: whether the bootloader's magic
//! value and information pointer can be trusted, and which physical pages of
//! a memory-map region may be handed to the physical allocator as free.
//!
//! Pages below 1 MiB belong to the BIOS and bootloader, and the 1 MiB that
//! follows holds the kernel image; neither is ever offered as free memory.

use vstd::prelude::*;

verus! {

/// The value GRUB leaves in `eax` for a multiboot2 kernel.
pub const MULTIBOOT2_BOOTLOADER_MAGIC: u32 = 0x36D76289;

/// Physical addresses below this are reserved for the BIOS and bootloader.
pub const RESERVED_LOW_MEMORY_BOUNDARY: u64 = 0x100000;

/// Start of the kernel image: the standard multiboot2 load address.
pub const KERNEL_PHYSICAL_START: u64 = 0x100000;

/// End of the kernel image, a conservative upper bound.
pub const KERNEL_PHYSICAL_END: u64 = 0x200000;

/// Size of a physical page.
pub const PAGE_SIZE_IN_BYTES: u64 = 4096;

/// Highest page-aligned address: one page below the top of the address
/// space.
pub const TOP_PAGE: u64 = 0xFFFF_FFFF_FFFF_F000;

/// Whether the bootloader hand-off can be used: the magic value is the
/// multiboot2 one and the information pointer is not null.
pub open spec fn handoff_valid(magic: u32, info_address: u64) -> bool {
    magic == MULTIBOOT2_BOOTLOADER_MAGIC && info_address != 0
}

/// A page the allocator may take as free: above reserved low memory and
/// outside the kernel image.
pub open spec fn page_available(physical_address: u64) -> bool {
    !(physical_address < RESERVED_LOW_MEMORY_BOUNDARY) && !(KERNEL_PHYSICAL_START
        <= physical_address && physical_address < KERNEL_PHYSICAL_END)
}

/// `address` rounded up to a page boundary, wrapping to zero past the top of
/// the address space.
pub open spec fn aligned_up(address: u64) -> u64 {
    if address % PAGE_SIZE_IN_BYTES == 0 {
        address
    } else if address > TOP_PAGE {
        0
    } else {
        (address + (PAGE_SIZE_IN_BYTES - address % PAGE_SIZE_IN_BYTES)) as u64
    }
}

/// The available pages among `current`, `current + 4096`, ... whose whole
/// page ends at or below `region_end`.
pub open spec fn available_from(current: u64, region_end: u64) -> Seq<u64>
    decreases region_end - current,
{
    if current + PAGE_SIZE_IN_BYTES > region_end {
        Seq::empty()
    } else {
        let head = if page_available(current) {
            seq![current]
        } else {
            Seq::empty()
        };
        head + available_from((current + PAGE_SIZE_IN_BYTES) as u64, region_end)
    }
}

/// The pages a walk over the region starting at the page `current` offers.
///
/// A walk that starts on the top page wraps: the page after it is page
/// zero, and the walk goes on from there.
pub open spec fn walk_from(current: u64, region_end: u64) -> Seq<u64> {
    if current == TOP_PAGE {
        let head = if page_available(current) {
            seq![current]
        } else {
            Seq::empty()
        };
        head + available_from(0, region_end)
    } else {
        available_from(current, region_end)
    }
}

/// The free pages of the memory-map region `[region_start, region_end)`,
/// in the order they are registered.
pub open spec fn region_free_pages(region_start: u64, region_end: u64) -> Seq<u64> {
    walk_from(aligned_up(region_start), region_end)
}

/// Whether the multiboot2 magic value and information pointer allow boot to
/// go on; a wrong magic value or a null pointer is fatal.
pub fn multiboot2_info_valid(magic: u32, info_address: u64) -> (valid: bool)
    ensures
        valid == handoff_valid(magic, info_address),
{
    magic == MULTIBOOT2_BOOTLOADER_MAGIC && info_address != 0
}

/// Whether `physical_address` is below the reserved low-memory boundary.
fn page_is_in_reserved_low_memory(physical_address: u64) -> (reserved: bool)
    ensures
        reserved == (physical_address < RESERVED_LOW_MEMORY_BOUNDARY),
{
    physical_address < RESERVED_LOW_MEMORY_BOUNDARY
}

/// Whether `physical_address` lies in the kernel image.
fn page_is_in_kernel_binary_range(physical_address: u64) -> (in_kernel: bool)
    ensures
        in_kernel == (KERNEL_PHYSICAL_START <= physical_address && physical_address
            < KERNEL_PHYSICAL_END),
{
    physical_address >= KERNEL_PHYSICAL_START && physical_address < KERNEL_PHYSICAL_END
}

/// Round `address` up to the next page boundary; an address in the last,
/// partial page of the address space wraps to zero.
pub fn align_address_up_to_page_boundary(address: u64) -> (aligned: u64)
    ensures
        aligned == aligned_up(address),
        aligned % PAGE_SIZE_IN_BYTES == 0,
{
    let remainder = address % PAGE_SIZE_IN_BYTES;
    if remainder == 0 {
        return address;
    }
    address.wrapping_add(PAGE_SIZE_IN_BYTES.wrapping_sub(remainder))
}

/// Every page offered from `current` on is available, page-aligned when
/// `current` is, and ends at or below `region_end`.
proof fn lemma_available_from_pages(current: u64, region_end: u64)
    requires
        current % PAGE_SIZE_IN_BYTES == 0,
    ensures
        forall|i: int|
            0 <= i < available_from(current, region_end).len() ==> {
                let page = #[trigger] available_from(current, region_end)[i];
                &&& page_available(page)
                &&& page % PAGE_SIZE_IN_BYTES == 0
                &&& page + PAGE_SIZE_IN_BYTES <= region_end
                &&& current <= page
            },
    decreases region_end - current,
{
    if current + PAGE_SIZE_IN_BYTES <= region_end {
        let next = (current + PAGE_SIZE_IN_BYTES) as u64;
        lemma_available_from_pages(next, region_end);
        let head = if page_available(current) {
            seq![current]
        } else {
            Seq::<u64>::empty()
        };
        let rest = available_from(next, region_end);
        assert(available_from(current, region_end) == head + rest);
        assert forall|i: int| 0 <= i < available_from(current, region_end).len() implies {
            let page = #[trigger] available_from(current, region_end)[i];
            &&& page_available(page)
            &&& page % PAGE_SIZE_IN_BYTES == 0
            &&& page + PAGE_SIZE_IN_BYTES <= region_end
            &&& current <= page
        } by {
            if i >= head.len() {
                assert(available_from(current, region_end)[i] == rest[i - head.len()]);
            }
        }
    }
}

/// The free pages of the memory-map region `[region_start, region_end)`:
/// each whole page from `region_start` rounded up to a page boundary, in
/// order, that is neither in reserved low memory nor in the kernel image.
///
/// A region ending in the last page of the address space would make the
/// page walk wrap and start over forever, so `region_end` lies below it.
pub fn available_pages_in_region(region_start: u64, region_end: u64) -> (pages: Vec<u64>)
    requires
        region_end < TOP_PAGE,
    ensures
        pages@ == region_free_pages(region_start, region_end),
        forall|i: int|
            0 <= i < pages@.len() ==> {
                let page = #[trigger] pages@[i];
                &&& page_available(page)
                &&& page % PAGE_SIZE_IN_BYTES == 0
                &&& page + PAGE_SIZE_IN_BYTES <= region_end || page == TOP_PAGE
            },
{
    let aligned_start = align_address_up_to_page_boundary(region_start);
    let ghost total = walk_from(aligned_start, region_end);
    let mut pages: Vec<u64> = Vec::new();
    let mut current_address = aligned_start;
    while current_address.wrapping_add(PAGE_SIZE_IN_BYTES) <= region_end
        invariant
            region_end < TOP_PAGE,
            current_address % PAGE_SIZE_IN_BYTES == 0,
            total == walk_from(aligned_start, region_end),
            pages@ + walk_from(current_address, region_end) == total,
        decreases (if current_address == TOP_PAGE {
            u64::MAX as int
        } else {
            region_end - current_address
        }),
    {
        let ghost before = pages@;
        if !page_is_in_reserved_low_memory(current_address) && !page_is_in_kernel_binary_range(
            current_address,
        ) {
            pages.push(current_address);
        }
        let next_address = current_address.wrapping_add(PAGE_SIZE_IN_BYTES);
        proof {
            let head = if page_available(current_address) {
                seq![current_address]
            } else {
                Seq::<u64>::empty()
            };
            assert(pages@ == before + head);
            if current_address == TOP_PAGE {
                assert(next_address == 0);
                assert(walk_from(0, region_end) == available_from(0, region_end));
            } else {
                assert(next_address == current_address + PAGE_SIZE_IN_BYTES);
                assert(next_address != TOP_PAGE);
            }
            assert(walk_from(current_address, region_end) == head + walk_from(
                next_address,
                region_end,
            ));
            assert(before + (head + walk_from(next_address, region_end)) == (before + head)
                + walk_from(next_address, region_end));
        }
        current_address = next_address;
    }
    proof {
        assert(walk_from(current_address, region_end) =~= Seq::<u64>::empty());
        assert(pages@ =~= total);
        lemma_available_from_pages(0, region_end);
        if aligned_start == TOP_PAGE {
            assert forall|i: int| 0 <= i < pages@.len() implies {
                let page = #[trigger] pages@[i];
                &&& page_available(page)
                &&& page % PAGE_SIZE_IN_BYTES == 0
                &&& page + PAGE_SIZE_IN_BYTES <= region_end || page == TOP_PAGE
            } by {
                if page_available(aligned_start) && i > 0 {
                    assert(pages@[i] == available_from(0, region_end)[i - 1]);
                } else if !page_available(aligned_start) {
                    assert(pages@[i] == available_from(0, region_end)[i]);
                }
            }
        } else {
            lemma_available_from_pages(aligned_start, region_end);
        }
    }
    pages
}

/// The pages of the kernel image, `[KERNEL_PHYSICAL_START,
/// KERNEL_PHYSICAL_END)`, in ascending order: the pages registered as the
/// kernel's own.
pub fn kernel_binary_pages() -> (pages: Vec<u64>)
    ensures
        pages@.len() == (KERNEL_PHYSICAL_END - KERNEL_PHYSICAL_START) / PAGE_SIZE_IN_BYTES as int,
        forall|i: int|
            0 <= i < pages@.len() ==> #[trigger] pages@[i] == KERNEL_PHYSICAL_START + i
                * PAGE_SIZE_IN_BYTES,
{
    let mut pages: Vec<u64> = Vec::new();
    let mut current_address = KERNEL_PHYSICAL_START;
    while current_address < KERNEL_PHYSICAL_END
        invariant
            KERNEL_PHYSICAL_START <= current_address <= KERNEL_PHYSICAL_END,
            (current_address - KERNEL_PHYSICAL_START) % PAGE_SIZE_IN_BYTES as int == 0,
            pages@.len() == (current_address - KERNEL_PHYSICAL_START) / PAGE_SIZE_IN_BYTES as int,
            forall|i: int|
                0 <= i < pages@.len() ==> #[trigger] pages@[i] == KERNEL_PHYSICAL_START + i
                    * PAGE_SIZE_IN_BYTES,
        decreases KERNEL_PHYSICAL_END - current_address,
    {
        pages.push(current_address);
        current_address = current_address + PAGE_SIZE_IN_BYTES;
    }
    pages
}

/// Law: no page of the kernel image is ever offered as free, whatever the
/// memory map says.
pub proof fn lemma_kernel_pages_never_free(region_start: u64, region_end: u64, page: u64)
    requires
        KERNEL_PHYSICAL_START <= page < KERNEL_PHYSICAL_END,
    ensures
        !region_free_pages(region_start, region_end).contains(page),
{
    let a = aligned_up(region_start);
    if region_free_pages(region_start, region_end).contains(page) {
        let i = choose|i: int|
            0 <= i < region_free_pages(region_start, region_end).len()
                && region_free_pages(region_start, region_end)[i] == page;
        lemma_available_from_pages(0, region_end);
        assert(a % PAGE_SIZE_IN_BYTES == 0);
        if a == TOP_PAGE {
            if page_available(a) && i > 0 {
                assert(region_free_pages(region_start, region_end)[i] == available_from(
                    0,
                    region_end,
                )[i - 1]);
            } else if !page_available(a) {
                assert(region_free_pages(region_start, region_end)[i] == available_from(
                    0,
                    region_end,
                )[i]);
            }
        } else {
            lemma_available_from_pages(a, region_end);
            assert(region_free_pages(region_start, region_end)[i] == available_from(
                a,
                region_end,
            )[i]);
        }
    }
}

proof fn lemma_available_from_exact(current: u64, region_end: u64)
    requires
        current % PAGE_SIZE_IN_BYTES == 0,
    ensures
        forall|page: u64|
            available_from(current, region_end).contains(page) <==> (page % PAGE_SIZE_IN_BYTES == 0
                && current <= page && page + PAGE_SIZE_IN_BYTES <= region_end && page_available(page)),
        forall|i: int, j: int|
            0 <= i < j < available_from(current, region_end).len() ==> available_from(
                current,
                region_end,
            )[i] < available_from(current, region_end)[j],
    decreases region_end - current,
{
    lemma_available_from_pages(current, region_end);
    let found = available_from(current, region_end);
    if current + PAGE_SIZE_IN_BYTES <= region_end {
        let next = (current + PAGE_SIZE_IN_BYTES) as u64;
        lemma_available_from_exact(next, region_end);
        lemma_available_from_pages(next, region_end);
        let head = if page_available(current) {
            seq![current]
        } else {
            Seq::<u64>::empty()
        };
        let rest = available_from(next, region_end);
        assert(found == head + rest);
        assert forall|page: u64| found.contains(page) <==> (page % PAGE_SIZE_IN_BYTES == 0 && current
            <= page && page + PAGE_SIZE_IN_BYTES <= region_end && page_available(page)) by {
            if found.contains(page) {
                let k = choose|k: int| 0 <= k < found.len() && found[k] == page;
                if k >= head.len() {
                    assert(rest[k - head.len()] == page);
                    assert(rest.contains(page));
                }
            }
            if page % PAGE_SIZE_IN_BYTES == 0 && current <= page && page + PAGE_SIZE_IN_BYTES
                <= region_end && page_available(page) {
                if page == current {
                    assert(found[0] == page);
                } else {
                    assert(next <= page);
                    assert(rest.contains(page));
                    let k = choose|k: int| 0 <= k < rest.len() && rest[k] == page;
                    assert(found[k + head.len()] == page);
                }
            }
        }
        assert forall|i: int, j: int| 0 <= i < j < found.len() implies found[i] < found[j] by {
            if i >= head.len() {
                assert(found[i] == rest[i - head.len()]);
            } else {
                assert(found[i] == current);
                assert(current < found[j]) by {
                    assert(found[j] == rest[j - head.len()]);
                }
            }
            assert(found[j] == rest[j - head.len()]);
        }
    } else {
        assert forall|page: u64| found.contains(page) <==> (page % PAGE_SIZE_IN_BYTES == 0 && current
            <= page && page + PAGE_SIZE_IN_BYTES <= region_end && page_available(page)) by {}
    }
}

/// Law: the free pages of a memory-map region are exactly its whole pages
/// at or above 2 MiB (above reserved low memory and the kernel image), each
/// once, in ascending order. This holds for every region whose start is
/// not within the last page of the address space, where the walk would
/// wrap to page zero.
pub proof fn lemma_region_offers_exactly_its_free_pages(region_start: u64, region_end: u64)
    requires
        region_start <= TOP_PAGE - PAGE_SIZE_IN_BYTES,
    ensures
        forall|page: u64|
            region_free_pages(region_start, region_end).contains(page) <==> (page % 4096 == 0
                && region_start <= page && page + 4096 <= region_end && 0x20_0000 <= page),
        forall|i: int, j: int|
            0 <= i < j < region_free_pages(region_start, region_end).len() ==> region_free_pages(
                region_start,
                region_end,
            )[i] < region_free_pages(region_start, region_end)[j],
{
    let start = aligned_up(region_start);
    assert(start % PAGE_SIZE_IN_BYTES == 0);
    assert(region_start <= start < region_start + PAGE_SIZE_IN_BYTES);
    assert(start != TOP_PAGE);
    lemma_available_from_exact(start, region_end);
    assert(region_free_pages(region_start, region_end) == available_from(start, region_end));
    assert forall|page: u64|
        region_free_pages(region_start, region_end).contains(page) <==> (page % 4096 == 0
            && region_start <= page && page + 4096 <= region_end && 0x20_0000 <= page) by {
        assert(page_available(page) == (0x20_0000 <= page));
        if page % 4096 == 0 {
            assert((region_start <= page) == (start <= page));
        }
        assert(available_from(start, region_end).contains(page) == (page % PAGE_SIZE_IN_BYTES == 0
            && start <= page && page + PAGE_SIZE_IN_BYTES <= region_end && page_available(page)));
    }
}

/// Law: rounding up gives the first page boundary at or above the address,
/// less than a page above it; only an address in the last, partial page of
/// the address space, which has no boundary above it, wraps to zero.
pub proof fn lemma_aligned_up_is_the_next_boundary(address: u64)
    ensures
        aligned_up(address) % 4096 == 0,
        address <= TOP_PAGE ==> address <= aligned_up(address) < address + 4096,
        address > TOP_PAGE ==> aligned_up(address) == 0,
{
}

} // verus!

use brainix_kernel::aarch64_mmu::{
    build_user_root, lifted_attributes, translation_agrees, translation_table_of, BuiltRootReport, AP_EL0, DRAM_BASE,
    DRAM_END, PXN, UXN,
};
use brainix_kernel::aarch64_tables::{BuildError, TableBuilder};
use brainix_kernel::aarch64_walk::{walk, Translation, WalkConfig, WalkError};

const ARENA_BASE: u64 = 0x8_0000_0000;
const ENTRIES_16K: usize = 2048;

/// TCR for a 16 KiB granule (`TG0 = 0b10`) and `64 - t0sz` input bits.
fn tcr_16k(input_bits: u64) -> u64 {
    (64 - input_bits) | (0b10 << 14)
}

fn translate(builder: &TableBuilder, config: WalkConfig, address: u64) -> Result<Translation, WalkError> {
    let arena = builder.arena();
    walk(builder.root(), address, config, |pa: u64| {
        let index = ((pa - ARENA_BASE) / 8) as usize;
        arena[index]
    })
}

#[test]
fn new_refuses_bad_configurations() {
    let arena = vec![0u64; ENTRIES_16K * 2];
    assert_eq!(
        TableBuilder::new(arena.clone(), ARENA_BASE, 13, 36).err(),
        Some(BuildError::UnsupportedConfiguration)
    );
    assert_eq!(
        TableBuilder::new(arena.clone(), ARENA_BASE, 14, 60).err(),
        Some(BuildError::UnsupportedConfiguration)
    );
    assert_eq!(
        TableBuilder::new(arena.clone(), ARENA_BASE + 8, 14, 36).err(),
        Some(BuildError::MisalignedArena)
    );
    assert_eq!(
        TableBuilder::new(vec![0u64; 100], ARENA_BASE, 14, 36).err(),
        Some(BuildError::OutOfTables)
    );
    let builder = TableBuilder::new(arena, ARENA_BASE, 14, 36).unwrap();
    assert_eq!(builder.root(), ARENA_BASE);
    assert_eq!(builder.tables_used(), 1);
    assert_eq!(builder.levels(), 2);
    assert_eq!(builder.block_size(), 0x200_0000);
}

#[test]
fn pages_translate_by_offset_through_the_walker() {
    let config = WalkConfig::from_tcr(tcr_16k(36)).unwrap();
    let mut builder = TableBuilder::new(vec![0u64; ENTRIES_16K * 4], ARENA_BASE, 14, 36).unwrap();
    let attributes = 0x400;
    assert_eq!(builder.map_pages(0x4000_0000, 0x9000_0000, 0x8000, attributes), Ok(()));
    let first = translate(&builder, config, 0x4000_0123).unwrap();
    assert_eq!(first.physical_address, 0x9000_0123);
    assert!(!first.is_block);
    assert_eq!(first.level, 1);
    let second = translate(&builder, config, 0x4000_4567).unwrap();
    assert_eq!(second.physical_address, 0x9000_4567);
    assert_eq!(second.descriptor & 0x400, 0x400);
    assert!(matches!(
        translate(&builder, config, 0x4000_8000),
        Err(WalkError::InvalidDescriptor { descriptor: 0, .. })
    ));
}

#[test]
fn blocks_translate_by_offset_through_the_walker() {
    let config = WalkConfig::from_tcr(tcr_16k(36)).unwrap();
    let mut builder = TableBuilder::new(vec![0u64; ENTRIES_16K * 2], ARENA_BASE, 14, 36).unwrap();
    assert_eq!(builder.map_blocks(0x200_0000, 0x600_0000, 0x400_0000, 0x400), Ok(()));
    let translation = translate(&builder, config, 0x2AB_CDEF).unwrap();
    assert_eq!(translation.physical_address, 0x6AB_CDEF);
    assert!(translation.is_block);
    assert_eq!(translation.level, 0);
    assert_eq!(builder.tables_used(), 1);
}

#[test]
fn mapping_refusals() {
    let mut builder = TableBuilder::new(vec![0u64; ENTRIES_16K * 2], ARENA_BASE, 14, 36).unwrap();
    assert_eq!(builder.map_pages(0x4000_0100, 0x9000_0000, 0x4000, 0), Err(BuildError::MisalignedRange));
    assert_eq!(builder.map_blocks(0x200_0000, 0x600_0000, 0x4000, 0), Err(BuildError::MisalignedRange));
    assert_eq!(
        builder.map_pages(0xF_FFFF_C000, 0, 0x8000, 0),
        Err(BuildError::AddressOutOfRange)
    );
    assert_eq!(builder.map_blocks(0x200_0000, 0x600_0000, 0x200_0000, 0), Ok(()));
    assert_eq!(builder.map_pages(0x200_4000, 0, 0x4000, 0), Err(BuildError::AlreadyMapped));
    assert_eq!(builder.map_pages(0x4000_0000, 0, 0x4000, 0), Ok(()));
    assert_eq!(builder.map_pages(0x8000_0000, 0, 0x4000, 0), Err(BuildError::OutOfTables));
}

#[test]
fn user_root_reaches_exactly_one_page_from_el0() {
    let config = WalkConfig::from_tcr(tcr_16k(42)).unwrap();
    let user_page = DRAM_BASE + 0x1234_4000;
    let kernel_attributes = 0x400;
    let builder = build_user_root(
        vec![0u64; ENTRIES_16K * 7],
        ARENA_BASE,
        user_page,
        14,
        42,
        kernel_attributes,
    )
    .unwrap();
    let probes = [
        DRAM_BASE,
        DRAM_BASE + 0x1200_0000,
        user_page - 0x4000,
        user_page,
        user_page + 0x3FFF,
        user_page + 0x4000,
        DRAM_BASE + 0x1400_0000,
        DRAM_END - 8,
    ];
    for address in probes {
        let translation = translate(&builder, config, address).unwrap();
        assert_eq!(translation.physical_address, address);
        let in_user_page = user_page <= address && address < user_page + 0x4000;
        assert_eq!(translation.descriptor & AP_EL0 != 0, in_user_page);
        if in_user_page {
            assert_ne!(translation.descriptor & PXN, 0);
            assert_eq!(translation.descriptor & UXN, 0);
        } else {
            assert_ne!(translation.descriptor & UXN, 0);
        }
    }
}

#[test]
fn user_root_refusals() {
    assert_eq!(
        build_user_root(vec![0u64; ENTRIES_16K * 7], ARENA_BASE, 0x4000, 14, 42, 0).err(),
        Some(BuildError::AddressOutOfRange)
    );
    assert_eq!(
        build_user_root(vec![0u64; ENTRIES_16K * 7], ARENA_BASE + 8, DRAM_BASE, 14, 42, 0).err(),
        Some(BuildError::MisalignedArena)
    );
    assert_eq!(
        build_user_root(vec![0u64; ENTRIES_16K], ARENA_BASE, DRAM_BASE, 14, 42, 0).err(),
        Some(BuildError::OutOfTables)
    );
}

#[test]
fn built_root_report_records_the_build_and_the_gate() {
    let tcr = tcr_16k(42);
    let config = WalkConfig::from_tcr(tcr).unwrap();
    let live_descriptor: u64 = 0x0060_0100_0000_0405 | (DRAM_BASE & 0xFFFF_FE00_0000);
    let live = Ok(Translation {
        physical_address: DRAM_BASE,
        descriptor: live_descriptor,
        level: 1,
        is_block: true,
    });
    let (mut report, builder) =
        BuiltRootReport::prepare(tcr, 0x1234, live, vec![0u64; ENTRIES_16K * 6], ARENA_BASE);
    let builder = builder.unwrap();
    assert_eq!(report.error, 0);
    assert_eq!(report.granule_bits, 14);
    assert_eq!(report.levels, 3);
    assert_eq!(report.block_size, 0x200_0000);
    assert_eq!(report.attributes, lifted_attributes(live_descriptor, 14));
    assert_eq!(report.attributes, 0x0060_0000_0000_0404);
    assert_eq!(report.built_root, ARENA_BASE);
    assert_eq!(report.restored_root, 0x1234);
    let address = DRAM_BASE + 0x3_0000_1234;
    let ours = translate(&builder, config, address);
    assert_eq!(ours.unwrap().physical_address, address);
    assert!(translation_agrees(ours, address & 0xFFFF_FFFF_F000, address));
    assert!(!translation_agrees(ours, 1, address));
    report.record_check(true);
    assert!(report.switch_permitted());
    let mut switched = report;
    switched.record_switch(7, 7, 0x1234);
    assert!(switched.switched);
    assert_eq!(switched.probe_value, 7);
    report.record_check(false);
    assert_eq!((report.checked, report.mismatches), (2, 1));
    assert!(!report.switch_permitted());
    assert!(!report.switched);
    let (mut checked, builder) =
        BuiltRootReport::prepare(tcr, 0x1234, live, vec![0u64; ENTRIES_16K * 6], ARENA_BASE);
    let builder = builder.unwrap();
    let addresses = [DRAM_BASE + 0x1000, DRAM_BASE + 0x7_0000_0042, DRAM_END - 8];
    let agreeing: Vec<u64> = addresses.iter().map(|a| a & 0xFFFF_FFFF_F000).collect();
    checked.record_checks(&builder, &addresses, &agreeing);
    assert_eq!((checked.checked, checked.mismatches), (3, 0));
    assert!(checked.switch_permitted());
    let one_off = [agreeing[0], agreeing[1], 1];
    checked.record_checks(&builder, &addresses, &one_off);
    assert_eq!((checked.checked, checked.mismatches), (6, 1));
    assert!(!checked.switch_permitted());
}

#[test]
fn built_root_report_failures() {
    let (report, builder) =
        BuiltRootReport::prepare(0b11 << 14, 9, Err(WalkError::AddressOutOfRange), vec![], ARENA_BASE);
    assert!(builder.is_none());
    assert_eq!(report.error, 5);
    assert_eq!(report.restored_root, 9);
    let (report, builder) =
        BuiltRootReport::prepare(tcr_16k(42), 9, Err(WalkError::AddressOutOfRange), vec![], ARENA_BASE);
    assert!(builder.is_none());
    assert_eq!((report.error, report.granule_bits, report.levels), (3, 14, 3));
    let live = Ok(Translation { physical_address: 0, descriptor: 0x401, level: 1, is_block: true });
    let (report, builder) = BuiltRootReport::prepare(tcr_16k(42), 9, live, vec![0u64; 16], ARENA_BASE);
    assert!(builder.is_none());
    assert_eq!((report.error, report.live_descriptor), (1, 0x401));
    let (report, builder) =
        BuiltRootReport::prepare(tcr_16k(42), 9, live, vec![0u64; ENTRIES_16K], ARENA_BASE);
    assert!(builder.is_none());
    assert_eq!((report.error, report.block_size), (1, 0x200_0000));
}

#[test]
fn tables_used_counts_new_tables_only() {
    let arena = vec![0u64; 2048];
    let mut builder = TableBuilder::new(arena, 0x10_0000, 12, 39).unwrap();
    assert_eq!(builder.levels(), 3);
    assert_eq!(builder.tables_used(), 1);
    assert_eq!(builder.map_pages(0x1000, 0x20_0000, 0x1000, 0), Ok(()));
    assert_eq!(builder.tables_used(), 3);
    assert_eq!(builder.map_pages(0x2000, 0x20_1000, 0x1000, 0), Ok(()));
    assert_eq!(builder.tables_used(), 3);
    assert!(builder.tables_used() * 512 <= builder.arena().len());
}

#[test]
fn present_descriptors_are_never_overwritten() {
    let arena = vec![0u64; 2048];
    let mut builder = TableBuilder::new(arena, 0x10_0000, 12, 39).unwrap();
    assert_eq!(builder.map_pages(0x1000, 0x20_0000, 0x1000, 0), Ok(()));
    let before = builder.arena().to_vec();
    assert_eq!(builder.map_pages(0x1000, 0x30_0000, 0x1000, 0x400), Err(BuildError::AlreadyMapped));
    assert_eq!(builder.arena(), &before[..]);
    assert_eq!(builder.map_blocks(0x4000_0000, 0x4000_0000, 0x20_0000, 0), Ok(()));
    let before = builder.arena().to_vec();
    assert_eq!(builder.map_pages(0x4000_3000, 0x30_0000, 0x1000, 0), Err(BuildError::AlreadyMapped));
    assert_eq!(builder.arena(), &before[..]);
    assert_eq!(builder.tables_used(), 4);
}

#[test]
fn translation_table_is_the_address_field_of_ttbr() {
    assert_eq!(translation_table_of(0x0001_0000_8000_4001), 0x0000_0000_8000_4000);
    assert_eq!(translation_table_of(0xFFFF_FFFF_FFFF_FFFF), 0x0000_FFFF_FFFF_FFFE);
    assert_eq!(translation_table_of(0x8000_0000), 0x8000_0000);
}

#[test]
fn root_stays_the_arena_base_across_calls() {
    let arena = vec![0u64; 2048];
    let mut builder = TableBuilder::new(arena, 0x10_0000, 12, 39).unwrap();
    assert_eq!(builder.root(), 0x10_0000);
    assert_eq!(builder.map_pages(0x1000, 0x20_0000, 0x1000, 0), Ok(()));
    assert_eq!(builder.root(), 0x10_0000);
    assert_eq!(builder.map_pages(0x1001, 0x20_0000, 0x1000, 0), Err(BuildError::MisalignedRange));
    assert_eq!(builder.root(), 0x10_0000);
    assert_eq!(builder.map_pages(0x1000, 0x20_0000, 0x1000, 0), Err(BuildError::AlreadyMapped));
    assert_eq!(builder.map_blocks(0x80_0000_0000, 0, 0x20_0000, 0), Err(BuildError::AddressOutOfRange));
    assert_eq!(builder.root(), 0x10_0000);
}

#[test]
fn the_builder_walks_its_own_tables_like_the_walker() {
    let config = WalkConfig::from_tcr(tcr_16k(36)).unwrap();
    let mut builder = TableBuilder::new(vec![0u64; ENTRIES_16K * 4], ARENA_BASE, 14, 36).unwrap();
    assert_eq!(builder.map_pages(0x4000_0000, 0x9000_0000, 0x8000, 0x400), Ok(()));
    assert_eq!(builder.map_blocks(0x200_0000, 0x600_0000, 0x200_0000, 0x400), Ok(()));
    for address in [0x4000_0123u64, 0x4000_4567, 0x4000_8000, 0x201_2345, 0x400_0000, 0x10_0000_0000] {
        assert_eq!(builder.translate(address), translate(&builder, config, address));
    }
    let page = builder.translate(0x4000_7FFF).unwrap();
    assert_eq!((page.physical_address, page.level, page.is_block), (0x9000_7FFF, 1, false));
    assert_eq!(page.descriptor & 0b11, 0b11);
    assert_eq!(builder.translate(0x10_0000_0000), Err(WalkError::AddressOutOfRange));
}

//! Translation-table policy on the target: the attribute bits, the DRAM
//! window, the report codes, and the EL1 regime in which exactly one page is
//! reachable from EL0.
//!
//! Installing tables (`TTBR`, barriers, TLB maintenance) is the caller's;
//! what is decided here is what gets built and what counts as agreement with
//! the hardware's own walk.

use vstd::prelude::*;
use crate::aarch64_tables::{
    BuildError, TableBuilder, block_size_of, block_level_of, covered, empty_translation, ends_at_or_below,
    entries_of, free_at, kept, lemma_translation_reaches, levels_of, prefix_eq, range_outcome,
    tables_needed, lemma_config_shape,
    lemma_blocks_translate_by_offset, lemma_granule_facts, lemma_pages_translate_by_offset, mapped_translation, new_refusal,
    supported_granule, unit_start, OUTPUT_ADDRESS_LIMIT,
};
use crate::aarch64_walk::{Translation, WalkConfig, WalkError, output_address_mask, shift_at, tcr_config};
use crate::bits::{lemma_constants, lemma_leaf_kind, lemma_mod_is_mask};

verus! {

/// `AP[1]`, bit 6: the mapping is reachable from EL0.
pub const AP_EL0: u64 = 0x40;

/// `PXN`, bit 53: privileged execute never.
pub const PXN: u64 = 0x20_0000_0000_0000;

/// `UXN`, bit 54: unprivileged execute never.
pub const UXN: u64 = 0x40_0000_0000_0000;

/// `GP`, bit 50: the page is guarded for branch target identification.
pub const GP: u64 = 0x4_0000_0000_0000;

/// DRAM base on the target.
pub const DRAM_BASE: u64 = 0x100_0000_0000;

/// DRAM size on the target: 32 GiB.
pub const DRAM_SIZE: u64 = 0x8_0000_0000;

/// First address past DRAM.
pub const DRAM_END: u64 = 0x108_0000_0000;

/// Numeric code for a [`BuildError`], for a report read from outside. Zero
/// means no error, so the codes start at one.
pub fn build_error_code(error: BuildError) -> (code: u64)
    ensures
        code == match error {
            BuildError::OutOfTables => 1u64,
            BuildError::MisalignedArena => 2u64,
            BuildError::AddressOutOfRange => 3u64,
            BuildError::MisalignedRange => 4u64,
            BuildError::UnsupportedConfiguration => 5u64,
            BuildError::AlreadyMapped => 6u64,
        },
        1 <= code <= 6,
{
    match error {
        BuildError::OutOfTables => 1,
        BuildError::MisalignedArena => 2,
        BuildError::AddressOutOfRange => 3,
        BuildError::MisalignedRange => 4,
        BuildError::UnsupportedConfiguration => 5,
        BuildError::AlreadyMapped => 6,
    }
}

/// Everything a live descriptor says except where it points and what kind
/// it is: access flag, shareability, permissions, memory type and the upper
/// attributes, lifted rather than invented.
pub fn lifted_attributes(descriptor: u64, granule_bits: u32) -> (attributes: u64)
    requires
        granule_bits < 64,
    ensures
        attributes == descriptor & !output_address_mask(granule_bits) & !3u64,
{
    proof {
        crate::bits::lemma_shift_facts(descriptor, granule_bits);
        crate::bits::lemma_constants();
    }
    let granule = 1u64 << granule_bits;
    let address_mask = ((1u64 << 48) - 1) & !(granule - 1);
    descriptor & !address_mask & !0b11
}

/// Whether the walk `ours` of `address` agrees with the hardware's
/// `PAR_EL1` value `par`.
pub open spec fn agrees_with_hardware(ours: Result<Translation, WalkError>, par: u64, address: u64) -> bool {
    match ours {
        Ok(translation) => par & 1 == 0 && translation.physical_address == (par
            & 0x0000_FFFF_FFFF_F000) | (address & 0xFFF),
        Err(_) => false,
    }
}

/// How many of `addresses` the tables of `builder` translate otherwise than
/// the hardware did, `pars` holding its `PAR_EL1` for each.
pub open spec fn disagreements(builder: TableBuilder, addresses: Seq<u64>, pars: Seq<u64>) -> nat
    decreases addresses.len(),
{
    if addresses.len() == 0 {
        0
    } else {
        let last = (addresses.len() - 1) as int;
        disagreements(builder, addresses.drop_last(), pars.take(last)) + if agrees_with_hardware(
            builder.translation(addresses[last]),
            pars[last],
            addresses[last],
        ) {
            0nat
        } else {
            1nat
        }
    }
}

/// Law: a single address on which the built tables and the hardware
/// disagree makes the count of disagreements non-zero, and so, through
/// [`BuiltRootReport::record_checks`], leaves the report unclean: the switch
/// is refused.
pub proof fn lemma_one_disagreement_refuses_switch(
    builder: TableBuilder,
    addresses: Seq<u64>,
    pars: Seq<u64>,
    report: BuiltRootReport,
    i: int,
)
    requires
        addresses.len() == pars.len(),
        0 <= i < addresses.len(),
        !agrees_with_hardware(builder.translation(addresses[i]), pars[i], addresses[i]),
    ensures
        disagreements(builder, addresses, pars) > 0,
        !(BuiltRootReport {
            mismatches: saturating_sum(report.mismatches, disagreements(builder, addresses, pars) as int),
            ..report
        }).clean(),
    decreases addresses.len(),
{
    let last = addresses.len() - 1;
    if i < last {
        let shorter = addresses.drop_last();
        let fewer = pars.take(last);
        assert(shorter[i] == addresses[i]);
        assert(fewer[i] == pars[i]);
        lemma_one_disagreement_refuses_switch(builder, shorter, fewer, report, i);
    }
}

/// `count + n`, saturating at `usize::MAX`.
pub open spec fn saturating_sum(count: usize, n: int) -> usize {
    if count + n > usize::MAX {
        usize::MAX
    } else {
        (count + n) as usize
    }
}

/// Whether our walk of `address` agrees with the hardware's `PAR_EL1`: the
/// hardware translated it (`PAR.F` clear) and to the same physical address.
pub fn translation_agrees(ours: Result<Translation, WalkError>, par: u64, address: u64) -> (agrees:
    bool)
    ensures
        agrees == agrees_with_hardware(ours, par, address),
{
    match ours {
        Ok(translation) => {
            if par & 1 == 0 {
                let hardware = (par & 0x0000_FFFF_FFFF_F000) | (address & 0xFFF);
                translation.physical_address == hardware
            } else {
                false
            }
        },
        Err(_) => false,
    }
}

/// What happened during a switch to a copied root.
#[derive(Debug, Clone, Copy, PartialEq, Eq)]
pub struct SwitchReport {
    /// `TTBR0_EL2` before the switch.
    pub original_root: u64,
    /// The root actually installed.
    pub installed_root: u64,
    /// A value read back through the new mapping.
    pub probe_value: u64,
    /// `TTBR0_EL2` after restoring.
    pub restored_root: u64,
    /// How many descriptors were copied.
    pub entries_copied: usize,
}

/// What building and installing our own tables produced.
#[derive(Debug, Clone, Copy, PartialEq, Eq)]
pub struct BuiltRootReport {
    /// Granule the live `TCR` selects.
    pub granule_bits: u32,
    /// Levels the walk traverses.
    pub levels: u32,
    /// Bytes one block descriptor covers.
    pub block_size: u64,
    /// A live block descriptor, from the machine's own tables.
    pub live_descriptor: u64,
    /// Attribute bits lifted from it.
    pub attributes: u64,
    /// Physical base of the built root table.
    pub built_root: u64,
    /// Tables the build consumed.
    pub tables_used: usize,
    /// Addresses cross-checked against the hardware before switching.
    pub checked: usize,
    /// How many of them disagreed. Anything but zero and no switch happens.
    pub mismatches: usize,
    /// Whether the switch was performed.
    pub switched: bool,
    /// A value read through the built mapping while it was installed.
    pub probe_value: u64,
    /// The same address read before the switch.
    pub expected_value: u64,
    /// `TTBR0_EL2` after restoring.
    pub restored_root: u64,
    /// Build failure, as [`build_error_code`], or 0.
    pub error: u64,
}


/// The table a `TTBR` value points at: bits [47:1]. The low bit is `CnP`
/// and the top bits are the ASID, neither of which belongs in an address.
pub fn translation_table_of(ttbr: u64) -> (table: u64)
    ensures
        table == ttbr & 0x0000_FFFF_FFFF_FFFE,
{
    ttbr & 0x0000_FFFF_FFFF_FFFE
}

/// Numeric code of a [`BuildError`], as [`build_error_code`] gives it.
pub open spec fn error_code(error: BuildError) -> u64 {
    match error {
        BuildError::OutOfTables => 1u64,
        BuildError::MisalignedArena => 2u64,
        BuildError::AddressOutOfRange => 3u64,
        BuildError::MisalignedRange => 4u64,
        BuildError::UnsupportedConfiguration => 5u64,
        BuildError::AlreadyMapped => 6u64,
    }
}

/// Law: every refusal has its own code, and none is zero, the code that
/// means no error: a report's code names the refusal that ended the build.
pub proof fn lemma_error_codes_name_one_refusal(first: BuildError, second: BuildError)
    ensures
        error_code(first) != 0,
        error_code(first) == error_code(second) ==> first == second,
{
}

/// A built-root report before anything is done: only the root to restore
/// is known.
pub open spec fn initial_report(original_root: u64) -> BuiltRootReport {
    BuiltRootReport {
        granule_bits: 0,
        levels: 0,
        block_size: 0,
        live_descriptor: 0,
        attributes: 0,
        built_root: 0,
        tables_used: 0,
        checked: 0,
        mismatches: 0,
        switched: false,
        probe_value: 0,
        expected_value: 0,
        restored_root: original_root,
        error: 0,
    }
}

/// `report` with `error` recorded.
pub open spec fn failed_with(report: BuiltRootReport, error: u64) -> BuiltRootReport {
    BuiltRootReport { error, ..report }
}

/// `count + 1`, saturating.
pub open spec fn saturating_increment(count: usize) -> usize {
    if count == usize::MAX {
        count
    } else {
        (count + 1) as usize
    }
}

/// The attribute bits lifted from a live descriptor, as
/// [`lifted_attributes`] computes them.
pub open spec fn lifted(descriptor: u64, granule_bits: u32) -> u64 {
    descriptor & !output_address_mask(granule_bits) & !3u64
}

impl BuiltRootReport {
    /// Decode `tcr`, take the live descriptor and its attributes from `live`
    /// (the walk of the live tables under that configuration), and build
    /// all of DRAM as identity-mapped blocks with those attributes over
    /// `arena` at `arena_base`.
    ///
    /// The report carries the first failure as its `error` code, and the
    /// tables come back only when the build succeeded.
    pub fn prepare(
        tcr: u64,
        original_root: u64,
        live: Result<Translation, WalkError>,
        arena: Vec<u64>,
        arena_base: u64,
    ) -> (prepared: (BuiltRootReport, Option<TableBuilder>))
        requires
            arena_base + arena@.len() * 8 <= OUTPUT_ADDRESS_LIMIT,
        ensures
            tcr_config(tcr) is None ==> prepared == (failed_with(initial_report(original_root), 5), None::<TableBuilder>),
            tcr_config(tcr) matches Some(config) ==> {
                let configured = BuiltRootReport {
                    granule_bits: config.granule_bits,
                    levels: config.levels_spec(),
                    ..initial_report(original_root)
                };
                &&& live is Err ==> prepared == (failed_with(configured, 3), None::<TableBuilder>)
                &&& live matches Ok(translation) ==> {
                    let attributes = lifted(translation.descriptor, config.granule_bits);
                    let with_live = BuiltRootReport {
                        live_descriptor: translation.descriptor,
                        attributes,
                        ..configured
                    };
                    let block = block_size_of(config.granule_bits);
                    let with_block = BuiltRootReport { block_size: block, ..with_live };
                    &&& new_refusal(arena@.len(), arena_base, config.granule_bits, config.input_bits_spec()) matches Some(error)
                        ==> prepared == (failed_with(with_live, error_code(error)), None::<TableBuilder>)
                    &&& new_refusal(arena@.len(), arena_base, config.granule_bits, config.input_bits_spec()) is None ==> {
                        &&& DRAM_END <= (1u64 << config.input_bits_spec()) && 1 + (DRAM_SIZE / block)
                            * block_level_of(levels_of(config.granule_bits, config.input_bits_spec()))
                            <= arena@.len() as int / entries_of(config.granule_bits) ==> prepared.1 is Some
                        &&& DRAM_END > (1u64 << config.input_bits_spec()) ==> prepared == (failed_with(
                            with_block,
                            3,
                        ), None::<TableBuilder>)
                        &&& DRAM_END <= (1u64 << config.input_bits_spec()) && prepared.1 is None
                            ==> prepared.0 == failed_with(with_block, 1)
                        &&& prepared.1 matches Some(builder) ==> {
                            &&& builder.wf()
                            &&& builder.base_spec() == arena_base
                            &&& builder.granule_bits_spec() == config.granule_bits
                            &&& builder.input_bits_spec() == config.input_bits_spec()
                            &&& prepared.0 == (BuiltRootReport {
                                built_root: arena_base,
                                tables_used: builder.tables_used_spec() as usize,
                                ..with_block
                            })
                            &&& forall|a: u64|
                                covered(builder.walk_config(), DRAM_BASE, DRAM_SIZE, block, block_level_of(builder.levels_spec()), a)
                                    ==> #[trigger] builder.translation(a) == mapped_translation(
                                    builder.walk_config(),
                                    DRAM_BASE,
                                    DRAM_BASE,
                                    block,
                                    attributes,
                                    1,
                                    block_level_of(builder.levels_spec()),
                                    a,
                                )
                        }
                    }
                }
            },
    {
        let mut report = BuiltRootReport {
            granule_bits: 0,
            levels: 0,
            block_size: 0,
            live_descriptor: 0,
            attributes: 0,
            built_root: 0,
            tables_used: 0,
            checked: 0,
            mismatches: 0,
            switched: false,
            probe_value: 0,
            expected_value: 0,
            restored_root: original_root,
            error: 0,
        };
        let config = match WalkConfig::from_tcr(tcr) {
            Some(config) => config,
            None => {
                report.error = build_error_code(BuildError::UnsupportedConfiguration);
                return (report, None);
            },
        };
        report.granule_bits = config.granule_bits;
        report.levels = config.levels();
        let live = match live {
            Ok(live) => live,
            Err(_) => {
                report.error = build_error_code(BuildError::AddressOutOfRange);
                return (report, None);
            },
        };
        report.live_descriptor = live.descriptor;
        report.attributes = lifted_attributes(live.descriptor, config.granule_bits);
        let mut builder = match TableBuilder::new(arena, arena_base, config.granule_bits, config.input_address_bits()) {
            Ok(builder) => builder,
            Err(error) => {
                report.error = build_error_code(error);
                return (report, None);
            },
        };
        proof {
            builder.lemma_wf_facts();
            lemma_split_facts(0, config.granule_bits);
        }
        report.block_size = builder.block_size();
        let attributes = report.attributes;
        let descriptor = live.descriptor;
        let ghost mask = output_address_mask(config.granule_bits);
        assert(attributes & 3 == 0) by (bit_vector)
            requires
                attributes == descriptor & !mask & !3u64,
        ;
        proof {
            assert(DRAM_SIZE % report.block_size == 0);
        }
        proof {
            lemma_constants();
            if DRAM_END <= (1u64 << config.input_bits_spec()) {
                assert forall|a: u64| DRAM_BASE <= a < DRAM_BASE + DRAM_SIZE implies free_at(
                    #[trigger] builder.translation(a),
                    block_level_of(builder.levels_spec()),
                ) by {
                    assert(builder.translation(a) == crate::aarch64_tables::empty_translation(
                        config.input_bits_spec(),
                        a,
                    ));
                }
            }
        }
        match map_kernel_blocks(&mut builder, DRAM_BASE, DRAM_SIZE, attributes) {
            Ok(()) => {},
            Err(error) => {
                report.error = build_error_code(error);
                return (report, None);
            },
        }
        report.tables_used = builder.tables_used();
        report.built_root = builder.root();
        (report, Some(builder))
    }

    /// Record one address of the cross-check: counted, and counted as a
    /// mismatch unless our walk and the hardware's agree.
    pub fn record_check(&mut self, agrees: bool)
        ensures
            *final(self) == (BuiltRootReport {
                checked: saturating_increment(old(self).checked),
                mismatches: if agrees {
                    old(self).mismatches
                } else {
                    saturating_increment(old(self).mismatches)
                },
                ..*old(self)
            }),
    {
        self.checked = self.checked.saturating_add(1);
        if !agrees {
            self.mismatches = self.mismatches.saturating_add(1);
        }
    }

    /// Cross-check each of `addresses` by walking the tables of `builder`, the
    /// ones built for this report, against `pars`, the hardware's `PAR_EL1`
    /// for each: every address is counted, and every disagreement counted
    /// as a mismatch.
    pub fn record_checks(&mut self, builder: &TableBuilder, addresses: &[u64], pars: &[u64])
        requires
            builder.wf(),
            addresses@.len() == pars@.len(),
        ensures
            *final(self) == (BuiltRootReport {
                checked: saturating_sum(old(self).checked, addresses@.len() as int),
                mismatches: saturating_sum(
                    old(self).mismatches,
                    disagreements(*builder, addresses@, pars@) as int,
                ),
                ..*old(self)
            }),
    {
        let mut index: usize = 0;
        while index < addresses.len()
            invariant
                builder.wf(),
                addresses@.len() == pars@.len(),
                index <= addresses@.len(),
                *self == (BuiltRootReport {
                    checked: saturating_sum(old(self).checked, index as int),
                    mismatches: saturating_sum(
                        old(self).mismatches,
                        disagreements(*builder, addresses@.take(index as int), pars@.take(index as int))
                            as int,
                    ),
                    ..*old(self)
                }),
            decreases addresses@.len() - index,
        {
            let address = addresses[index];
            let agrees = translation_agrees(builder.translate(address), pars[index], address);
            proof {
                let next = (index + 1) as int;
                assert(addresses@.take(next).drop_last() =~= addresses@.take(index as int));
                assert(pars@.take(next).take(index as int) =~= pars@.take(index as int));
                assert(addresses@.take(next)[index as int] == address);
                assert(pars@.take(next)[index as int] == pars@[index as int]);
            }
            self.record_check(agrees);
            index = index + 1;
        }
        proof {
            assert(addresses@.take(addresses@.len() as int) =~= addresses@);
            assert(pars@.take(pars@.len() as int) =~= pars@);
        }
    }

    /// Whether the built root may be installed: the build succeeded and every
    /// checked address agreed with the hardware. A single disagreement
    /// forbids the switch.
    pub fn switch_permitted(&self) -> (permitted: bool)
        ensures
            permitted == self.clean(),
    {
        self.mismatches == 0 && self.error == 0
    }

    /// No failure recorded: the build succeeded and no checked address
    /// disagreed.
    pub open spec fn clean(self) -> bool {
        self.mismatches == 0 && self.error == 0
    }

    /// Record a switch that was made: the value read before it, the value
    /// read through the built tables while they were installed, and the root
    /// after restoring. Only a clean report may record one.
    pub fn record_switch(&mut self, expected_value: u64, probe_value: u64, restored_root: u64)
        requires
            old(self).clean(),
        ensures
            final(self).clean(),
            *final(self) == (BuiltRootReport {
                expected_value,
                probe_value,
                restored_root,
                switched: true,
                ..*old(self)
            }),
    {
        self.expected_value = expected_value;
        self.probe_value = probe_value;
        self.restored_root = restored_root;
        self.switched = true;
    }
}

/// Attributes of the one page EL0 may reach: reachable from EL0, executable
/// by EL0, and not executable by EL1.
pub open spec fn user_page_attributes(kernel_attributes: u64) -> u64 {
    (kernel_attributes | AP_EL0 | PXN) & !UXN
}

/// Attributes of everything else: kernel-only, and not executable from EL0.
pub open spec fn kernel_only_attributes(kernel_attributes: u64) -> u64 {
    kernel_attributes | UXN
}

/// The block that holds `user_page`: `user_page` with the bits below a
/// block cleared.
pub open spec fn split_start(user_page: u64, block: u64) -> u64 {
    user_page & !((block - 1) as u64)
}

/// Attributes of the page at `page` in the block that holds the user page.
pub open spec fn page_attributes_at(user_page: u64, page: u64, kernel_attributes: u64) -> u64 {
    if page == user_page {
        user_page_attributes(kernel_attributes)
    } else {
        kernel_only_attributes(kernel_attributes)
    }
}

/// What the EL1 regime gives an address in the block split into pages: the
/// page descriptor of the granule-sized page holding it, identity-mapped.
#[verifier::opaque]
pub open spec fn split_page_translation(
    config: WalkConfig,
    split: u64,
    user_page: u64,
    kernel_attributes: u64,
    a: u64,
) -> Result<Translation, WalkError> {
    let granule = 1u64 << config.granule_bits;
    let page = unit_start(split, a, granule);
    mapped_translation(
        config,
        page,
        page,
        granule,
        page_attributes_at(user_page, page, kernel_attributes),
        3,
        (config.levels_spec() - 1) as u32,
        a,
    )
}

/// What [`build_user_root`] maps: DRAM identity-mapped, the block holding
/// `user_page` as granule-sized pages with the user page's attributes on the
/// user page only, and the rest of DRAM either side of it as kernel-only
/// blocks.
pub open spec fn user_root_maps(builder: TableBuilder, user_page: u64, kernel_attributes: u64) -> bool {
    let config = builder.walk_config();
    let block = block_size_of(builder.granule_bits_spec());
    let split = split_start(user_page, block);
    let after = (split + block) as u64;
    let block_level = block_level_of(builder.levels_spec());
    &&& DRAM_BASE <= split < DRAM_END
    &&& forall|a: u64|
        split <= a < split + block ==> #[trigger] builder.translation(a) == split_page_translation(
            config,
            split,
            user_page,
            kernel_attributes,
            a,
        )
    &&& forall|a: u64|
        covered(config, DRAM_BASE, (split - DRAM_BASE) as u64, block, block_level, a) ==> #[trigger] builder.translation(a)
            == mapped_translation(
            config,
            DRAM_BASE,
            DRAM_BASE,
            block,
            kernel_only_attributes(kernel_attributes),
            1,
            block_level,
            a,
        )
    &&& forall|a: u64|
        covered(config, after, (DRAM_END - after) as u64, block, block_level, a) ==> #[trigger] builder.translation(a)
            == mapped_translation(
            config,
            after,
            after,
            block,
            kernel_only_attributes(kernel_attributes),
            1,
            block_level,
            a,
        )
}

/// A leaf the builder writes is never read as a free slot.
proof fn lemma_leaf_not_free(config: WalkConfig, va: u64, pa: u64, unit: u64, attributes: u64, kind: u64, stop: u32, a: u64)
    requires
        kind == 3 || (kind == 1 && attributes & 3 == 0 && 3u64 & output_address_mask(config.granule_bits) == 0),
    ensures
        !free_at(mapped_translation(config, va, pa, unit, attributes, kind, stop, a), stop),
        !free_at(mapped_translation(config, va, pa, unit, attributes, kind, stop, a), (config.levels_spec() - 1) as u32),
{
    let target = crate::aarch64_tables::saturating_offset(pa, ((a - va) / (unit as int) * unit) as u64);
    lemma_leaf_kind(target, output_address_mask(config.granule_bits), attributes);
}

/// A page of the split block is never read as a free slot.
proof fn lemma_split_page_not_free(
    config: WalkConfig,
    split: u64,
    user_page: u64,
    kernel_attributes: u64,
    a: u64,
    stop: u32,
)
    ensures
        !free_at(split_page_translation(config, split, user_page, kernel_attributes, a), stop),
{
    reveal(split_page_translation);
    let granule = 1u64 << config.granule_bits;
    let unit = unit_start(split, a, granule);
    lemma_leaf_not_free(config, unit, unit, granule, page_attributes_at(user_page, unit, kernel_attributes), 3, stop, a);
}

/// A block boundary rounded down from `x` is aligned to the block and no
/// larger than `x`.
proof fn lemma_round_down(x: u64, low: u64)
    by (bit_vector)
    ensures
        (x & !low) & low == 0,
        x & !low <= x,
        (x & !low) + (x & low) == x,
        x & low <= low,
{
}

/// The page holding `a`, in a block split at `split`, is the page at
/// `split + offset` when `a` lies in it.
proof fn lemma_page_of(split: u64, offset: u64, a: u64, granule: u64)
    requires
        granule == 4096 || granule == 16384 || granule == 65536,
        offset % granule == 0,
        split + offset <= a < split + offset + granule,
    ensures
        unit_start(split, a, granule) == split + offset,
{
    let d = a - split;
    let q = offset as int / granule as int;
    vstd::arithmetic::div_mod::lemma_fundamental_div_mod(offset as int, granule as int);
    vstd::arithmetic::div_mod::lemma_fundamental_div_mod_converse(d, granule as int, q, d - offset);
}

/// The block holding the user page: aligned to the block, a whole number
/// of pages, and, when it starts in DRAM, ending in DRAM too.
proof fn lemma_split_facts(user_page: u64, granule_bits: u32)
    requires
        supported_granule(granule_bits),
    ensures
        ({
            let granule = 1u64 << granule_bits;
            let block = block_size_of(granule_bits);
            let split = split_start(user_page, block);
            &&& granule == 4096 || granule == 16384 || granule == 65536
            &&& block == 0x20_0000 || block == 0x200_0000 || block == 0x2000_0000
            &&& block % granule == 0
            &&& split % block == 0
            &&& split % granule == 0
            &&& split <= user_page < split + block
            &&& DRAM_BASE % block == 0
            &&& DRAM_SIZE % block == 0
            &&& DRAM_BASE <= split < DRAM_END ==> split + block <= DRAM_END
            &&& DRAM_BASE <= split ==> (split - DRAM_BASE) % (block as int) == 0
            &&& split + block <= DRAM_END ==> (DRAM_END - (split + block)) % (block as int) == 0
            &&& split + block <= DRAM_END ==> ((split + block) as u64) % block == 0
            &&& split + block <= DRAM_END ==> ((split + block) as u64) % granule == 0
        }),
{
    lemma_constants();
    lemma_granule_facts(granule_bits);
    let n = (2 * granule_bits - 3) as u32;
    let block = block_size_of(granule_bits);
    let split = split_start(user_page, block);
    lemma_round_down(user_page, (block - 1) as u64);
    lemma_mod_is_mask(split, n);
    let granule = 1u64 << granule_bits;
    if granule_bits == 12 {
        assert(split + block <= DRAM_END ==> ((split + block) as u64) % 4096 == 0);
    } else if granule_bits == 14 {
        assert(split + block <= DRAM_END ==> ((split + block) as u64) % 16384 == 0);
    } else {
        assert(split + block <= DRAM_END ==> ((split + block) as u64) % 65536 == 0);
    }
    if block == 0x20_0000 {
        assert(DRAM_BASE <= split ==> (split - DRAM_BASE) % 0x20_0000 == 0);
        assert(split + block <= DRAM_END ==> (DRAM_END - (split + block)) % 0x20_0000 == 0);
        assert(split + block <= DRAM_END ==> ((split + block) as u64) % 0x20_0000 == 0);
    } else if block == 0x200_0000 {
        assert(DRAM_BASE <= split ==> (split - DRAM_BASE) % 0x200_0000 == 0);
        assert(split + block <= DRAM_END ==> (DRAM_END - (split + block)) % 0x200_0000 == 0);
        assert(split + block <= DRAM_END ==> ((split + block) as u64) % 0x200_0000 == 0);
    } else {
        assert(DRAM_BASE <= split ==> (split - DRAM_BASE) % 0x2000_0000 == 0);
        assert(split + block <= DRAM_END ==> (DRAM_END - (split + block)) % 0x2000_0000 == 0);
        assert(split + block <= DRAM_END ==> ((split + block) as u64) % 0x2000_0000 == 0);
    }
}

/// One page of the split block mapped: the pages before it keep their
/// translations and the new page translates as its own page.
proof fn lemma_page_step(
    before: TableBuilder,
    after: TableBuilder,
    split: u64,
    offset: u64,
    user_page: u64,
    kernel_attributes: u64,
)
    requires
        before.wf(),
        ({
            let granule = 1u64 << before.granule_bits_spec();
            let page = (split + offset) as u64;
            &&& granule == 4096 || granule == 16384 || granule == 65536
            &&& split % granule == 0
            &&& offset % granule == 0
            &&& split + offset + granule <= DRAM_END
            &&& range_outcome(
                before,
                after,
                Ok(()),
                page,
                page,
                granule,
                page_attributes_at(user_page, page, kernel_attributes),
                granule,
                (before.levels_spec() - 1) as u32,
                3,
            )
        }),
        forall|a: u64|
            split <= a < split + offset ==> #[trigger] before.translation(a)
                == split_page_translation(before.walk_config(), split, user_page, kernel_attributes, a),
    ensures
        forall|a: u64|
            split <= a < split + offset + (1u64 << before.granule_bits_spec()) ==> #[trigger] after.translation(a)
                == split_page_translation(before.walk_config(), split, user_page, kernel_attributes, a),
{
    let granule_bits = before.granule_bits_spec();
    let input_bits = before.input_bits_spec();
    let granule = 1u64 << granule_bits;
    let config = before.walk_config();
    let last = (before.levels_spec() - 1) as u32;
    let page = (split + offset) as u64;
    reveal(split_page_translation);
    before.lemma_wf_facts();
    crate::bits::lemma_and_bound(0, output_address_mask(granule_bits));
    assert forall|a: u64|
        split <= a < split + offset + granule implies #[trigger] after.translation(a)
            == split_page_translation(config, split, user_page, kernel_attributes, a) by {
        if a < page {
            let unit = unit_start(split, a, granule);
            lemma_leaf_not_free(config, unit, unit, granule, page_attributes_at(user_page, unit, kernel_attributes), 3, last, a);
            assert(!covered(config, page, granule, granule, last, a));
            assert(kept(before.translation(a), after.translation(a), last));
        } else {
            lemma_pages_translate_by_offset(granule_bits, input_bits, page, page, granule, 0, a);
            lemma_page_of(split, offset, a, granule);
        }
    }
}

/// An aligned mapping step keeps the builder's parameters, and is refused,
/// if at all, for the range, an existing mapping or the arena.
proof fn lemma_range_result(
    before: TableBuilder,
    after: TableBuilder,
    result: Result<(), BuildError>,
    va: u64,
    length: u64,
    attributes: u64,
    unit: u64,
    stop: u32,
    kind: u64,
)
    requires
        range_outcome(before, after, result, va, va, length, attributes, unit, stop, kind),
        unit > 0,
        va % unit == 0,
        length % unit == 0,
    ensures
        after.wf(),
        after.base_spec() == before.base_spec(),
        after.granule_bits_spec() == before.granule_bits_spec(),
        after.input_bits_spec() == before.input_bits_spec(),
        after.arena_view().len() == before.arena_view().len(),
        result is Ok || result == Err::<(), BuildError>(BuildError::AddressOutOfRange) || result
            == Err::<(), BuildError>(BuildError::AlreadyMapped) || result == Err::<(), BuildError>(BuildError::OutOfTables),
{
}

/// An address shares the bits above `s` with a `2^s`-aligned `y` exactly
/// when it lies in the `2^s` bytes from `y`.
proof fn lemma_chunk(x: u64, y: u64, s: u32)
    by (bit_vector)
    requires
        s < 64,
        y & (((1u64 << s) - 1) as u64) == 0,
        y + (1u64 << s) <= 0xFFFF_FFFF_FFFF_FFFFu64,
    ensures
        (x >> s == y >> s) == (y <= x && x < y + (1u64 << s)),
{
}

/// A page of the split block translates as a page at the last level.
proof fn lemma_split_page_ok(config: WalkConfig, split: u64, user_page: u64, kernel_attributes: u64, a: u64)
    ensures
        split_page_translation(config, split, user_page, kernel_attributes, a) matches Ok(translation)
            && translation.level == (config.levels_spec() - 1) as u32,
{
    reveal(split_page_translation);
    let granule = 1u64 << config.granule_bits;
    let page = unit_start(split, a, granule);
    let target = crate::aarch64_tables::saturating_offset(page, ((a - page) / (granule as int) * granule) as u64);
    lemma_leaf_kind(target, output_address_mask(config.granule_bits), page_attributes_at(user_page, page, kernel_attributes));
}

/// Where two addresses of DRAM stand relative to the split block and its
/// pages, in the terms the walk uses: an address outside the block leaves
/// every page's path above the block level, another page of the block
/// leaves it at the last level, and every page shares the block's path
/// above the last level.
proof fn lemma_split_paths(builder: TableBuilder, split: u64, page: u64, a: u64)
    requires
        builder.wf(),
        split % block_size_of(builder.granule_bits_spec()) == 0,
        split + block_size_of(builder.granule_bits_spec()) <= DRAM_END,
        split <= page < split + block_size_of(builder.granule_bits_spec()),
        page % (1u64 << builder.granule_bits_spec()) == 0,
    ensures
        ({
            let config = builder.walk_config();
            let block = block_size_of(builder.granule_bits_spec());
            let granule = 1u64 << builder.granule_bits_spec();
            let last = (builder.levels_spec() - 1) as u32;
            let bl = block_level_of(builder.levels_spec());
            &&& bl <= last
            &&& !(split <= a < split + block) ==> !prefix_eq(config, a, page, (bl + 1) as nat)
            &&& !(page <= a < page + granule) ==> !prefix_eq(config, a, page, (last + 1) as nat)
            &&& split <= a < split + block ==> prefix_eq(config, a, page, last as nat)
        }),
{
    builder.lemma_wf_facts();
    let g = builder.granule_bits_spec();
    let ib = builder.input_bits_spec();
    let config = builder.walk_config();
    lemma_config_shape(g, ib);
    lemma_granule_facts(g);
    lemma_constants();
    let bb = (2 * g - 3) as u32;
    let levels = builder.levels_spec();
    let last = (levels - 1) as u32;
    let bl = block_level_of(levels);
    crate::bits::lemma_shift_facts(0, bb);
    crate::bits::lemma_shift_facts(0, g);
    lemma_mod_is_mask(split, bb);
    lemma_mod_is_mask(page, g);
    assert(shift_at(config, last) == g);
    if levels >= 2 {
        assert(shift_at(config, bl) == bb) by {
            assert(levels - bl - 1 == 1);
        }
        assert(shift_at(config, (last - 1) as u32) == bb) by {
            assert(levels - (last - 1) - 1 == 1);
        }
    }
    lemma_chunk(page, split, bb);
    lemma_chunk(a, split, bb);
    lemma_chunk(a, page, g);
    let block = block_size_of(g);
    let granule = 1u64 << g;
    assert(block == (1u64 << bb));
    assert(page >> bb == split >> bb);
    assert(!(page <= a < page + granule) ==> !prefix_eq(config, a, page, (last + 1) as nat)) by {
        assert(((last + 1) - 1) as u32 == last);
    }
    if levels < 2 {
        assert(bl == 0 && last == 0);
        assert(shift_at(config, 0) == g);
        assert(((split + block) as u64) % granule == 0) by {
            let r: int = if g == 12 { 512 } else if g == 14 { 2048 } else { 8192 };
            if g == 12 {
                assert(bb == 21);
            } else if g == 14 {
                assert(bb == 25);
            } else {
                assert(bb == 29);
            }
            assert(block == granule * r);
            let q = split as int / block as int;
            vstd::arithmetic::div_mod::lemma_fundamental_div_mod(split as int, block as int);
            assert(split + block == granule * (r * (q + 1))) by (nonlinear_arith)
                requires
                    split == block * q + 0,
                    block == granule * r,
            ;
            vstd::arithmetic::div_mod::lemma_mod_multiples_basic(r * (q + 1), granule as int);
            vstd::arithmetic::mul::lemma_mul_is_commutative(r * (q + 1), granule as int);
        }
        lemma_aligned_below(page, (split + block) as u64, granule);
        assert(!(split <= a < split + block) ==> !prefix_eq(config, a, page, (bl + 1) as nat)) by {
            assert(((bl + 1) - 1) as u32 == 0);
        }
    } else {
        assert(!(split <= a < split + block) ==> !prefix_eq(config, a, page, (bl + 1) as nat)) by {
            assert(((bl + 1) - 1) as u32 == bl);
        }
        assert(split <= a < split + block ==> prefix_eq(config, a, page, last as nat)) by {
            assert((last - 1) as u32 == (last - 1) as u32);
        }
    }
}

/// Map the page at `split + offset` of the split block, identity-mapped,
/// with its attributes.
#[verifier::spinoff_prover]
fn map_user_page(
    builder: &mut TableBuilder,
    granule_bits: u32,
    split: u64,
    offset: u64,
    user_page: u64,
    kernel_attributes: u64,
) -> (result: Result<(), BuildError>)
    requires
        old(builder).wf(),
        granule_bits == old(builder).granule_bits_spec(),
        (1u64 << granule_bits) == 4096 || (1u64 << granule_bits) == 16384 || (1u64
            << granule_bits) == 65536,
        split % (1u64 << granule_bits) == 0,
        offset % (1u64 << granule_bits) == 0,
        split + offset + (1u64 << granule_bits) <= DRAM_END,
        forall|a: u64|
            split <= a < split + offset ==> #[trigger] old(builder).translation(a)
                == split_page_translation(old(builder).walk_config(), split, user_page, kernel_attributes, a),
    ensures
        final(builder).wf(),
        final(builder).base_spec() == old(builder).base_spec(),
        final(builder).granule_bits_spec() == old(builder).granule_bits_spec(),
        final(builder).input_bits_spec() == old(builder).input_bits_spec(),
        final(builder).arena_view().len() == old(builder).arena_view().len(),
        result is Ok || result == Err::<(), BuildError>(BuildError::AddressOutOfRange) || result
            == Err::<(), BuildError>(BuildError::AlreadyMapped) || result == Err::<(), BuildError>(BuildError::OutOfTables),
        result is Ok ==> forall|a: u64|
            split <= a < split + offset + (1u64 << granule_bits) ==> #[trigger] final(builder).translation(a)
                == split_page_translation(old(builder).walk_config(), split, user_page, kernel_attributes, a),
        split + offset + (1u64 << granule_bits) <= (1u64 << old(builder).input_bits_spec()) && free_at(
            old(builder).translation((split + offset) as u64),
            (old(builder).levels_spec() - 1) as u32,
        ) && old(builder).tables_used_spec() + tables_needed(
            old(builder).translation((split + offset) as u64),
            (old(builder).levels_spec() - 1) as u32,
        ) <= old(builder).capacity() ==> result is Ok,
        result is Ok ==> final(builder).tables_used_spec() == old(builder).tables_used_spec()
            + tables_needed(
            old(builder).translation((split + offset) as u64),
            (old(builder).levels_spec() - 1) as u32,
        ),
        split + offset + (1u64 << granule_bits) > (1u64 << old(builder).input_bits_spec()) ==> result
            == Err::<(), BuildError>(BuildError::AddressOutOfRange),
        split + offset + (1u64 << granule_bits) <= (1u64 << old(builder).input_bits_spec()) && free_at(
            old(builder).translation((split + offset) as u64),
            (old(builder).levels_spec() - 1) as u32,
        ) ==> (result is Ok || result == Err::<(), BuildError>(BuildError::OutOfTables)),
        forall|other: u64, d: u32|
            #![trigger final(builder).translation(other), free_at(old(builder).translation(other), d)]
            d <= old(builder).levels_spec() - 1 && !prefix_eq(
                old(builder).walk_config(),
                other,
                (split + offset) as u64,
                (d + 1) as nat,
            ) && free_at(old(builder).translation(other), d) ==> free_at(
                final(builder).translation(other),
                d,
            ),
{
    proof {
        builder.lemma_wf_facts();
        lemma_granule_facts(granule_bits);
    }
    let granule = 1u64 << granule_bits;
    let page = split + offset;
    let attributes = if page == user_page {
        (kernel_attributes | AP_EL0 | PXN) & !UXN
    } else {
        kernel_attributes | UXN
    };
    let ghost before = *builder;
    let result = builder.map_pages(page, page, granule, attributes);
    proof {
        assert(page % granule == 0);
        lemma_range_result(before, *builder, result, page, granule, attributes, granule, (before.levels_spec() - 1) as u32, 3);
        if result is Ok {
            lemma_page_step(before, *builder, split, offset, user_page, kernel_attributes);
        }
    }
    result
}

/// Map the block at `split`, holding `user_page`, as granule-sized pages,
/// identity-mapped, the user page with the user page's attributes and the
/// others kernel-only; refused with the first refusal of a page.
fn map_user_block(
    builder: &mut TableBuilder,
    granule_bits: u32,
    split: u64,
    user_page: u64,
    kernel_attributes: u64,
) -> (result: Result<(), BuildError>)
    requires
        old(builder).wf(),
        granule_bits == old(builder).granule_bits_spec(),
        split == split_start(user_page, block_size_of(old(builder).granule_bits_spec())),
        DRAM_BASE <= split < DRAM_END,
        forall|a: u64| #[trigger]
            old(builder).translation(a) == empty_translation(old(builder).input_bits_spec(), a),
    ensures
        final(builder).wf(),
        final(builder).base_spec() == old(builder).base_spec(),
        final(builder).granule_bits_spec() == old(builder).granule_bits_spec(),
        final(builder).input_bits_spec() == old(builder).input_bits_spec(),
        final(builder).arena_view().len() == old(builder).arena_view().len(),
        result is Ok || result == Err::<(), BuildError>(BuildError::AddressOutOfRange) || result
            == Err::<(), BuildError>(BuildError::AlreadyMapped) || result == Err::<(), BuildError>(BuildError::OutOfTables),
        result is Ok ==> forall|a: u64|
            split <= a < split + block_size_of(old(builder).granule_bits_spec()) ==> #[trigger] final(builder).translation(a)
                == split_page_translation(old(builder).walk_config(), split, user_page, kernel_attributes, a),
        result is Ok && DRAM_END <= (1u64 << old(builder).input_bits_spec())
            ==> final(builder).tables_used_spec() <= old(builder).tables_used_spec()
            + old(builder).levels_spec() - 1,
        result is Ok && DRAM_END <= (1u64 << old(builder).input_bits_spec()) ==> forall|a: u64|
            DRAM_BASE <= a < DRAM_END && !(split <= a < split + block_size_of(
                old(builder).granule_bits_spec(),
            )) ==> free_at(
                #[trigger] final(builder).translation(a),
                block_level_of(old(builder).levels_spec()),
            ),
        DRAM_END <= (1u64 << old(builder).input_bits_spec()) && old(builder).tables_used_spec()
            + old(builder).levels_spec() - 1 <= old(builder).capacity() ==> result is Ok,
        DRAM_END > (1u64 << old(builder).input_bits_spec()) ==> result == Err::<(), BuildError>(
            BuildError::AddressOutOfRange,
        ),
        DRAM_END <= (1u64 << old(builder).input_bits_spec()) ==> (result is Ok || result == Err::<
            (),
            BuildError,
        >(BuildError::OutOfTables)),
{
    proof {
        builder.lemma_wf_facts();
        lemma_config_shape(builder.granule_bits_spec(), builder.input_bits_spec());
        lemma_split_facts(user_page, builder.granule_bits_spec());
        lemma_constants();
    }
    let ghost input_bits = builder.input_bits_spec();
    let ghost config = builder.walk_config();
    let ghost last = (builder.levels_spec() - 1) as u32;
    let ghost arena_len = builder.arena_view().len();
    let ghost arena_base = builder.base_spec();
    let block = builder.block_size();
    let granule = 1u64 << granule_bits;
    proof {
        lemma_dram_against_input_range(input_bits);
    }
    let mut offset: u64 = 0;
    while offset < block
        invariant
            builder.wf(),
            builder.base_spec() == arena_base,
            builder.granule_bits_spec() == granule_bits,
            builder.input_bits_spec() == input_bits,
            builder.arena_view().len() == arena_len,
            arena_base == old(builder).base_spec(),
            granule_bits == old(builder).granule_bits_spec(),
            input_bits == old(builder).input_bits_spec(),
            arena_len == old(builder).arena_view().len(),
            config == old(builder).walk_config(),
            config == builder.walk_config(),
            last == (builder.levels_spec() - 1) as u32,
            split == split_start(user_page, block_size_of(old(builder).granule_bits_spec())),
            supported_granule(granule_bits),
            16 <= input_bits <= 48,
            granule == 1u64 << granule_bits,
            granule == 4096 || granule == 16384 || granule == 65536,
            block == block_size_of(granule_bits),
            block % granule == 0,
            split % granule == 0,
            split + block <= DRAM_END,
            offset <= block,
            offset % granule == 0,
            forall|a: u64|
                split <= a < split + offset ==> #[trigger] builder.translation(a)
                    == split_page_translation(config, split, user_page, kernel_attributes, a),
            split % block == 0,
            offset == 0 ==> builder.tables_used_spec() == old(builder).tables_used_spec(),
            DRAM_END <= (1u64 << input_bits) ==> builder.tables_used_spec()
                <= old(builder).tables_used_spec() + last,
            last == (old(builder).levels_spec() - 1) as u32,
            old(builder).levels_spec() >= 1,
            builder.capacity() == old(builder).capacity(),
            DRAM_END <= (1u64 << input_bits) ==> forall|a: u64|
                DRAM_BASE <= a < DRAM_END && !(split <= a < split + block) ==> free_at(
                    #[trigger] builder.translation(a),
                    block_level_of(old(builder).levels_spec()),
                ),
            DRAM_END <= (1u64 << input_bits) ==> forall|a: u64|
                split + offset <= a < split + block ==> free_at(
                    #[trigger] builder.translation(a),
                    last,
                ),
            DRAM_END > (1u64 << input_bits) ==> offset == 0,
            DRAM_END > (1u64 << input_bits) ==> split >= (1u64 << input_bits),
        decreases block - offset,
    {
        let ghost before = *builder;
        let ghost page = (split + offset) as u64;
        proof {
            lemma_split_paths(before, split, page, page);
            if offset > 0 && DRAM_END <= (1u64 << input_bits) {
                lemma_split_page_ok(config, split, user_page, kernel_attributes, split);
                lemma_split_paths(before, split, split, page);
                lemma_translation_reaches(before, split, page, last);
            }
            before.lemma_wf_facts();
        }
        let result = map_user_page(builder, granule_bits, split, offset, user_page, kernel_attributes);
        if result.is_err() {
            return result;
        }
        proof {
            if DRAM_END <= (1u64 << input_bits) {
                assert forall|a: u64|
                    DRAM_BASE <= a < DRAM_END && !(split <= a < split + block) implies free_at(
                    #[trigger] builder.translation(a),
                    block_level_of(old(builder).levels_spec()),
                ) by {
                    lemma_split_paths(before, split, page, a);
                    assert(free_at(before.translation(a), block_level_of(old(builder).levels_spec())));
                }
                assert forall|a: u64| split + offset + granule <= a < split + block implies free_at(
                    #[trigger] builder.translation(a),
                    last,
                ) by {
                    lemma_split_paths(before, split, page, a);
                    assert(free_at(before.translation(a), last));
                }
            }
        }
        offset = offset + granule;
    }
    Ok(())
}

/// Map `[va, va + length)` of DRAM, identity-mapped, as blocks with
/// `attributes`: covered addresses translate as their block, and leaves
/// already written elsewhere stay.
#[verifier::spinoff_prover]
fn map_kernel_blocks(builder: &mut TableBuilder, va: u64, length: u64, attributes: u64) -> (result: Result<(), BuildError>)
    requires
        old(builder).wf(),
        attributes & 3 == 0,
        va % block_size_of(old(builder).granule_bits_spec()) == 0,
        length % block_size_of(old(builder).granule_bits_spec()) == 0,
    ensures
        final(builder).wf(),
        final(builder).base_spec() == old(builder).base_spec(),
        final(builder).granule_bits_spec() == old(builder).granule_bits_spec(),
        final(builder).input_bits_spec() == old(builder).input_bits_spec(),
        final(builder).arena_view().len() == old(builder).arena_view().len(),
        result is Ok || result == Err::<(), BuildError>(BuildError::AddressOutOfRange) || result
            == Err::<(), BuildError>(BuildError::AlreadyMapped) || result == Err::<(), BuildError>(BuildError::OutOfTables),
        result is Ok ==> forall|a: u64|
            covered(old(builder).walk_config(), va, length, block_size_of(old(builder).granule_bits_spec()), block_level_of(old(builder).levels_spec()), a)
                ==> #[trigger] final(builder).translation(a) == mapped_translation(
                old(builder).walk_config(),
                va,
                va,
                block_size_of(old(builder).granule_bits_spec()),
                attributes,
                1,
                block_level_of(old(builder).levels_spec()),
                a,
            ),
        forall|a: u64|
            !covered(old(builder).walk_config(), va, length, block_size_of(old(builder).granule_bits_spec()), block_level_of(old(builder).levels_spec()), a)
                && !free_at(old(builder).translation(a), block_level_of(old(builder).levels_spec()))
                ==> #[trigger] final(builder).translation(a) == old(builder).translation(a),
        (forall|a: u64|
            va <= a < va + length ==> free_at(
                #[trigger] old(builder).translation(a),
                block_level_of(old(builder).levels_spec()),
            )) && va + length <= (1u64 << old(builder).input_bits_spec())
            && old(builder).tables_used_spec() + (length / block_size_of(old(builder).granule_bits_spec()))
            * block_level_of(old(builder).levels_spec()) <= old(builder).capacity() ==> result is Ok,
        result is Ok ==> final(builder).tables_used_spec() <= old(builder).tables_used_spec() + (length
            / block_size_of(old(builder).granule_bits_spec())) * block_level_of(old(builder).levels_spec()),
        va + length > (1u64 << old(builder).input_bits_spec()) ==> result == Err::<(), BuildError>(
            BuildError::AddressOutOfRange,
        ),
        (forall|a: u64|
            va <= a < va + length ==> free_at(
                #[trigger] old(builder).translation(a),
                block_level_of(old(builder).levels_spec()),
            )) && va + length <= (1u64 << old(builder).input_bits_spec()) ==> (result is Ok || result
            == Err::<(), BuildError>(BuildError::OutOfTables)),
        forall|a: u64|
            !covered(old(builder).walk_config(), va, length, block_size_of(old(builder).granule_bits_spec()), block_level_of(old(builder).levels_spec()), a)
                && free_at(old(builder).translation(a), block_level_of(old(builder).levels_spec()))
                ==> free_at(#[trigger] final(builder).translation(a), block_level_of(old(builder).levels_spec())),
{
    let ghost before = *builder;
    let result = builder.map_blocks(va, va, length, attributes);
    proof {
        before.lemma_wf_facts();
        lemma_constants();
        lemma_range_result(before, *builder, result, va, length, attributes, block_size_of(before.granule_bits_spec()), block_level_of(before.levels_spec()), 1);
    }
    result
}

/// DRAM lies either wholly inside an input range of `2^input_bits` bytes or
/// wholly outside it.
proof fn lemma_dram_against_input_range(input_bits: u32)
    requires
        input_bits < 64,
    ensures
        DRAM_END > (1u64 << input_bits) ==> (1u64 << input_bits) <= DRAM_BASE,
{
    assert(DRAM_END > (1u64 << input_bits) ==> (1u64 << input_bits) <= 0x100_0000_0000u64) by (bit_vector)
        requires
            input_bits < 64,
            DRAM_END == 0x108_0000_0000u64,
    ;
}

/// DRAM either side of a block-aligned split block is whole blocks, one
/// fewer than DRAM holds.
proof fn lemma_dram_split(before: int, after: int, block: int)
    requires
        block > 0,
        before >= 0,
        after >= 0,
        before % block == 0,
        after % block == 0,
        DRAM_SIZE as int % block == 0,
        before + block + after == DRAM_SIZE,
    ensures
        before / block + after / block + 1 == DRAM_SIZE as int / block,
{
    let total = DRAM_SIZE as int;
    vstd::arithmetic::div_mod::lemma_fundamental_div_mod(before, block);
    vstd::arithmetic::div_mod::lemma_fundamental_div_mod(after, block);
    vstd::arithmetic::div_mod::lemma_fundamental_div_mod(total, block);
    let (p, q, r) = (before / block, after / block, total / block);
    assert(p + q + 1 == r) by (nonlinear_arith)
        requires
            block > 0,
            before == block * p,
            after == block * q,
            total == block * r,
            before + block + after == total,
    ;
}

/// Map DRAM either side of the split block at `split` as kernel-only
/// blocks, keeping the pages of the split block.
#[verifier::spinoff_prover]
fn map_dram_around(
    builder: &mut TableBuilder,
    granule_bits: u32,
    split: u64,
    user_page: u64,
    kernel_attributes: u64,
) -> (result: Result<(), BuildError>)
    requires
        old(builder).wf(),
        granule_bits == old(builder).granule_bits_spec(),
        kernel_attributes & 3 == 0,
        split == split_start(user_page, block_size_of(granule_bits)),
        DRAM_BASE <= split < DRAM_END,
        forall|a: u64|
            split <= a < split + block_size_of(granule_bits) ==> #[trigger] old(builder).translation(a)
                == split_page_translation(old(builder).walk_config(), split, user_page, kernel_attributes, a),
    ensures
        final(builder).wf(),
        final(builder).base_spec() == old(builder).base_spec(),
        final(builder).granule_bits_spec() == old(builder).granule_bits_spec(),
        final(builder).input_bits_spec() == old(builder).input_bits_spec(),
        final(builder).arena_view().len() == old(builder).arena_view().len(),
        result is Ok || result == Err::<(), BuildError>(BuildError::AddressOutOfRange) || result
            == Err::<(), BuildError>(BuildError::AlreadyMapped) || result == Err::<(), BuildError>(BuildError::OutOfTables),
        result is Ok ==> user_root_maps(*final(builder), user_page, kernel_attributes),
        (forall|a: u64|
            DRAM_BASE <= a < DRAM_END && !(split <= a < split + block_size_of(granule_bits)) ==> free_at(
                #[trigger] old(builder).translation(a),
                block_level_of(old(builder).levels_spec()),
            )) && DRAM_END <= (1u64 << old(builder).input_bits_spec()) && old(builder).tables_used_spec()
            + (DRAM_SIZE / block_size_of(granule_bits)) * block_level_of(old(builder).levels_spec())
            <= old(builder).capacity() ==> result is Ok,
        (forall|a: u64|
            DRAM_BASE <= a < DRAM_END && !(split <= a < split + block_size_of(granule_bits)) ==> free_at(
                #[trigger] old(builder).translation(a),
                block_level_of(old(builder).levels_spec()),
            )) && DRAM_END <= (1u64 << old(builder).input_bits_spec()) ==> (result is Ok || result
            == Err::<(), BuildError>(BuildError::OutOfTables)),
{
    proof {
        builder.lemma_wf_facts();
        lemma_split_facts(user_page, granule_bits);
        lemma_constants();
    }
    let ghost config = builder.walk_config();
    let ghost block_level = block_level_of(builder.levels_spec());
    let ghost fits = (forall|a: u64|
        DRAM_BASE <= a < DRAM_END && !(split <= a < split + block_size_of(granule_bits)) ==> free_at(
            #[trigger] old(builder).translation(a),
            block_level,
        )) && DRAM_END <= (1u64 << old(builder).input_bits_spec());
    let ghost owed = fits && old(builder).tables_used_spec()
        + (DRAM_SIZE / block_size_of(granule_bits)) * block_level <= old(builder).capacity();
    let block = builder.block_size();
    let kernel_only = kernel_attributes | UXN;
    assert(kernel_only & 3 == 0) by (bit_vector)
        requires
            kernel_attributes & 3 == 0,
            kernel_only == kernel_attributes | 0x40_0000_0000_0000u64,
    ;
    proof {
        lemma_granule_facts(granule_bits);
    }
    let ghost granule = 1u64 << granule_bits;
    let before_length = split - DRAM_BASE;
    let ghost after_length = DRAM_END - (split + block);
    let ghost blocks_before = before_length as int / block as int;
    let ghost blocks_after = after_length / block as int;
    let ghost blocks_all = DRAM_SIZE as int / block as int;
    proof {
        lemma_dram_split(before_length as int, after_length, block as int);
        assert(blocks_before * block_level + blocks_after * block_level <= blocks_all * block_level) by (nonlinear_arith)
            requires
                blocks_before + blocks_after + 1 == blocks_all,
                blocks_before >= 0,
                blocks_after >= 0,
        ;
        assert(blocks_before * block_level <= blocks_all * block_level) by (nonlinear_arith)
            requires
                blocks_before + blocks_after + 1 == blocks_all,
                blocks_before >= 0,
                blocks_after >= 0,
        ;
    }
    if before_length > 0 {
        let ghost before = *builder;
        proof {
            if fits {
                assert forall|a: u64| DRAM_BASE <= a < DRAM_BASE + before_length implies free_at(
                    #[trigger] before.translation(a),
                    block_level,
                ) by {
                    assert(before.translation(a) == old(builder).translation(a));
                }
            }
        }
        match map_kernel_blocks(builder, DRAM_BASE, before_length, kernel_only) {
            Ok(()) => {},
            Err(error) => return Err(error),
        }
        proof {
            assert forall|a: u64| split <= a < split + block implies #[trigger] builder.translation(a)
                == split_page_translation(config, split, user_page, kernel_attributes, a) by {
                lemma_split_page_not_free(config, split, user_page, kernel_attributes, a, block_level);
                assert(before.translation(a) == split_page_translation(config, split, user_page, kernel_attributes, a));
                assert(!covered(config, DRAM_BASE, before_length, block, block_level, a));
            }
        }
    }
    proof {
        if fits {
            assert forall|a: u64| split + block <= a < DRAM_END implies free_at(
                #[trigger] builder.translation(a),
                block_level,
            ) by {
                assert(free_at(old(builder).translation(a), block_level));
                assert(!covered(config, DRAM_BASE, before_length, block, block_level, a));
            }
        }
        if owed {
            assert(builder.capacity() == old(builder).capacity());
            assert(builder.tables_used_spec() <= old(builder).tables_used_spec() + blocks_before * block_level);
            assert(builder.tables_used_spec() + blocks_after * block_level <= builder.capacity());
        }
    }
    let after_start = split + block;
    if after_start < DRAM_END {
        let ghost before = *builder;
        match map_kernel_blocks(builder, after_start, DRAM_END - after_start, kernel_only) {
            Ok(()) => {},
            Err(error) => return Err(error),
        }
        proof {
            assert forall|a: u64| split <= a < split + block implies #[trigger] builder.translation(a)
                == split_page_translation(config, split, user_page, kernel_attributes, a) by {
                lemma_split_page_not_free(config, split, user_page, kernel_attributes, a, block_level);
                assert(before.translation(a) == split_page_translation(config, split, user_page, kernel_attributes, a));
                assert(!covered(config, after_start, (DRAM_END - after_start) as u64, block, block_level, a));
            }
            assert forall|a: u64|
                covered(config, DRAM_BASE, (split - DRAM_BASE) as u64, block, block_level, a) implies #[trigger] builder.translation(a)
                    == mapped_translation(config, DRAM_BASE, DRAM_BASE, block, kernel_only, 1, block_level, a) by {
                lemma_leaf_not_free(config, DRAM_BASE, DRAM_BASE, block, kernel_only, 1, block_level, a);
                assert(before.translation(a) == mapped_translation(config, DRAM_BASE, DRAM_BASE, block, kernel_only, 1, block_level, a));
                assert(!covered(config, after_start, (DRAM_END - after_start) as u64, block, block_level, a));
            }
        }
    }
    Ok(())
}

/// Build an EL1 regime in which exactly one page is reachable from EL0,
/// over `arena` at physical address `arena_base`.
///
/// All of DRAM is identity-mapped as kernel-only blocks, except the block
/// holding `user_page`, which is laid out as granule-sized pages so that
/// one of them, and only one, carries `AP[1]`. The user page also gets
/// `PXN`: EL1 must not execute memory EL0 can write. Everything else gets
/// `UXN`. The pages are mapped first and the blocks either side after them:
/// blocks never overwrite the table the pages hang from.
///
/// Refused like [`TableBuilder::new`]; with
/// [`BuildError::AddressOutOfRange`] when the user page's block lies outside
/// DRAM or DRAM lies outside the input range; and otherwise only with
/// [`BuildError::OutOfTables`]. That refusal never comes when the arena has
/// room for one table per level plus, for each block of DRAM, one per level
/// above the blocks: a generous count, not the least that suffices.
#[verifier::spinoff_prover]
pub fn build_user_root(
    arena: Vec<u64>,
    arena_base: u64,
    user_page: u64,
    granule_bits: u32,
    input_bits: u32,
    kernel_attributes: u64,
) -> (result: Result<TableBuilder, BuildError>)
    requires
        arena_base + arena@.len() * 8 <= OUTPUT_ADDRESS_LIMIT,
        kernel_attributes & 3 == 0,
    ensures
        new_refusal(arena@.len(), arena_base, granule_bits, input_bits) matches Some(error)
            ==> result == Err::<TableBuilder, BuildError>(error),
        new_refusal(arena@.len(), arena_base, granule_bits, input_bits) is None && !(DRAM_BASE
            <= split_start(user_page, block_size_of(granule_bits)) < DRAM_END) ==> result == Err::<
            TableBuilder,
            BuildError,
        >(BuildError::AddressOutOfRange),
        new_refusal(arena@.len(), arena_base, granule_bits, input_bits) is None && DRAM_BASE
            <= split_start(user_page, block_size_of(granule_bits)) < DRAM_END && DRAM_END > (1u64
            << input_bits) ==> result == Err::<TableBuilder, BuildError>(BuildError::AddressOutOfRange),
        new_refusal(arena@.len(), arena_base, granule_bits, input_bits) is None && DRAM_BASE
            <= split_start(user_page, block_size_of(granule_bits)) < DRAM_END && DRAM_END <= (1u64
            << input_bits) ==> (result is Ok || result == Err::<TableBuilder, BuildError>(
            BuildError::OutOfTables,
        )),
        new_refusal(arena@.len(), arena_base, granule_bits, input_bits) is None && DRAM_BASE
            <= split_start(user_page, block_size_of(granule_bits)) < DRAM_END && DRAM_END <= (1u64
            << input_bits) && levels_of(granule_bits, input_bits) + (DRAM_SIZE / block_size_of(granule_bits))
            * block_level_of(levels_of(granule_bits, input_bits)) <= arena@.len() as int / entries_of(granule_bits)
            ==> result is Ok,
        result matches Ok(builder) ==> {
            &&& builder.wf()
            &&& builder.base_spec() == arena_base
            &&& builder.granule_bits_spec() == granule_bits
            &&& builder.input_bits_spec() == input_bits
            &&& builder.arena_view().len() == arena@.len()
            &&& user_root_maps(builder, user_page, kernel_attributes)
        },
{
    let mut builder = match TableBuilder::new(arena, arena_base, granule_bits, input_bits) {
        Ok(builder) => builder,
        Err(error) => return Err(error),
    };
    proof {
        builder.lemma_wf_facts();
        lemma_split_facts(user_page, granule_bits);
        lemma_constants();
    }
    let block = builder.block_size();
    let split = user_page & !(block - 1);
    if split < DRAM_BASE || split >= DRAM_END {
        return Err(BuildError::AddressOutOfRange);
    }
    match map_user_block(&mut builder, granule_bits, split, user_page, kernel_attributes) {
        Ok(()) => {},
        Err(error) => return Err(error),
    }
    match map_dram_around(&mut builder, granule_bits, split, user_page, kernel_attributes) {
        Ok(()) => {},
        Err(error) => return Err(error),
    }
    Ok(builder)
}

/// The bits of a leaf descriptor outside its address field and kind are
/// its attributes'.
proof fn lemma_descriptor_bits(x: u64, m: u64, attributes: u64, kind: u64, b: u64)
    by (bit_vector)
    requires
        m & b == 0,
        kind & b == 0,
    ensures
        ((x & m) | attributes | kind) & b == attributes & b,
{
}

/// The permission bits of the two attribute sets, and that both keep out of
/// an address field that the kernel attributes keep out of.
proof fn lemma_attribute_bits(kernel_attributes: u64, m: u64)
    by (bit_vector)
    ensures
        ((kernel_attributes | 0x40u64 | 0x20_0000_0000_0000u64) & !0x40_0000_0000_0000u64) & 0x40u64 != 0,
        ((kernel_attributes | 0x40u64 | 0x20_0000_0000_0000u64) & !0x40_0000_0000_0000u64) & 0x20_0000_0000_0000u64 != 0,
        ((kernel_attributes | 0x40u64 | 0x20_0000_0000_0000u64) & !0x40_0000_0000_0000u64) & 0x40_0000_0000_0000u64 == 0,
        (kernel_attributes | 0x40_0000_0000_0000u64) & 0x40u64 == kernel_attributes & 0x40u64,
        (kernel_attributes | 0x40_0000_0000_0000u64) & 0x40_0000_0000_0000u64 != 0,
        3u64 & 0x40u64 == 0,
        3u64 & 0x20_0000_0000_0000u64 == 0,
        3u64 & 0x40_0000_0000_0000u64 == 0,
        1u64 & 0x40u64 == 0,
        1u64 & 0x40_0000_0000_0000u64 == 0,
        kernel_attributes & m == 0 && m & 0x60_0000_0000_0040u64 == 0 ==> ((kernel_attributes | 0x40u64
            | 0x20_0000_0000_0000u64) & !0x40_0000_0000_0000u64) & m == 0
            && (kernel_attributes | 0x40_0000_0000_0000u64) & m == 0,
{
}

/// The address field of a descriptor holds none of `AP[1]`, `PXN`, `UXN`.
proof fn lemma_mask_permissions(granule_bits: u32)
    by (bit_vector)
    requires
        12 <= granule_bits <= 16,
    ensures
        (((1u64 << 48u64) - 1) as u64 & !(((1u64 << granule_bits) - 1) as u64)) & 0x60_0000_0000_0040u64 == 0,
        (((1u64 << 48u64) - 1) as u64 & !(((1u64 << granule_bits) - 1) as u64)) & 0x40u64 == 0,
        (((1u64 << 48u64) - 1) as u64 & !(((1u64 << granule_bits) - 1) as u64)) & 0x20_0000_0000_0000u64 == 0,
        (((1u64 << 48u64) - 1) as u64 & !(((1u64 << granule_bits) - 1) as u64)) & 0x40_0000_0000_0000u64 == 0,
{
}

/// The page of a split block holding `a`: aligned, at or below `a`, within
/// the block, and it is the user page exactly when `a` lies in the user page.
proof fn lemma_page_holding(split: u64, block: u64, granule: u64, user_page: u64, a: u64)
    requires
        granule == 4096 || granule == 16384 || granule == 65536,
        split % granule == 0,
        block % granule == 0,
        user_page % granule == 0,
        split <= a < split + block,
    ensures
        ({
            let page = unit_start(split, a, granule);
            &&& page % granule == 0
            &&& split <= page <= a < page + granule
            &&& (a - page) / (granule as int) == 0
            &&& (page == user_page) == (user_page <= a < user_page + granule)
        }),
{
    let g = granule as int;
    let d = a - split;
    let q = d / g;
    let r = d % g;
    vstd::arithmetic::div_mod::lemma_fundamental_div_mod(d, g);
    vstd::arithmetic::div_mod::lemma_fundamental_div_mod(split as int, g);
    let k = split as int / g;
    assert(q >= 0) by (nonlinear_arith)
        requires
            d >= 0,
            g > 0,
            q == d / g,
    ;
    assert(q * g == g * q) by (nonlinear_arith);
    let page_int = split + q * g;
    assert(page_int == a - r);
    let page = unit_start(split, a, granule);
    assert(page as int == page_int);
    assert(page_int == g * (k + q)) by (nonlinear_arith)
        requires
            split == g * k + 0,
            page_int == split + q * g,
    ;
    vstd::arithmetic::div_mod::lemma_mod_multiples_basic(k + q, g);
    assert((k + q) * g == g * (k + q)) by (nonlinear_arith);
    assert(page % granule == 0);
    vstd::arithmetic::div_mod::lemma_basic_div(r, g);
    assert(a - page == r);
    if user_page <= a < user_page + granule && page != user_page {
        if page < user_page {
            lemma_aligned_below(page, user_page, granule);
        } else {
            lemma_aligned_below(user_page, page, granule);
        }
    }
}

/// Of two multiples of `unit`, the smaller lies a whole unit below.
proof fn lemma_aligned_below(x: u64, y: u64, unit: u64)
    requires
        unit > 0,
        x % unit == 0,
        y % unit == 0,
        x < y,
    ensures
        x + unit <= y,
{
    let u = unit as int;
    let qx = x as int / u;
    let qy = y as int / u;
    vstd::arithmetic::div_mod::lemma_fundamental_div_mod(x as int, u);
    vstd::arithmetic::div_mod::lemma_fundamental_div_mod(y as int, u);
    assert(qx < qy) by (nonlinear_arith)
        requires
            x == u * qx,
            y == u * qy,
            x < y,
            u > 0,
    ;
    assert(u * qx + u <= u * qy) by (nonlinear_arith)
        requires
            qx + 1 <= qy,
            u > 0,
    ;
}

/// Law: the EL1 regime [`build_user_root`] builds identity-maps DRAM, and
/// exactly the addresses of the user page are reachable from EL0. The user
/// page is not executable by EL1, and everything else is not executable by
/// EL0. This holds when the kernel attributes leave `AP[1]` clear and keep
/// out of the descriptor's address field, the user page is page-aligned,
/// and the tables have the two or more levels blocks need.
pub proof fn lemma_exactly_one_page_reachable_from_el0(
    builder: TableBuilder,
    user_page: u64,
    kernel_attributes: u64,
    a: u64,
)
    requires
        builder.wf(),
        user_root_maps(builder, user_page, kernel_attributes),
        kernel_attributes & 3 == 0,
        kernel_attributes & AP_EL0 == 0,
        kernel_attributes & output_address_mask(builder.granule_bits_spec()) == 0,
        user_page % (1u64 << builder.granule_bits_spec()) == 0,
        builder.levels_spec() >= 2,
        DRAM_BASE <= a < DRAM_END,
    ensures
        builder.translation(a) matches Ok(translation) && {
            let in_user_page = user_page <= a < user_page + (1u64 << builder.granule_bits_spec());
            &&& translation.physical_address == a
            &&& (translation.descriptor & AP_EL0 != 0) == in_user_page
            &&& in_user_page ==> translation.descriptor & PXN != 0 && translation.descriptor & UXN
                == 0
            &&& !in_user_page ==> translation.descriptor & UXN != 0
        },
{
    let g = builder.granule_bits_spec();
    let input_bits = builder.input_bits_spec();
    let config = builder.walk_config();
    let granule = 1u64 << g;
    let block = block_size_of(g);
    let split = split_start(user_page, block);
    let after = (split + block) as u64;
    let m = output_address_mask(g);
    builder.lemma_wf_facts();
    lemma_granule_facts(g);
    lemma_split_facts(user_page, g);
    lemma_constants();
    lemma_mask_permissions(g);
    lemma_attribute_bits(kernel_attributes, m);
    let kernel_only = kernel_only_attributes(kernel_attributes);
    assert(kernel_only & 3 == 0) by (bit_vector)
        requires
            kernel_attributes & 3 == 0,
            kernel_only == kernel_attributes | 0x40_0000_0000_0000u64,
    ;
    if split <= a < split + block {
        reveal(split_page_translation);
        let page = unit_start(split, a, granule);
        lemma_page_holding(split, block, granule, user_page, a);
        let attributes = page_attributes_at(user_page, page, kernel_attributes);
        assert(attributes & m == 0);
        lemma_pages_translate_by_offset(g, input_bits, page, page, granule, attributes, a);
        assert(((a - page) / (granule as int) * granule) as u64 == 0);
        let last = (builder.levels_spec() - 1) as u32;
        assert(builder.translation(a) == mapped_translation(config, page, page, granule, attributes, 3, last, a));
        lemma_descriptor_bits(page, m, attributes, 3, AP_EL0);
        lemma_descriptor_bits(page, m, attributes, 3, PXN);
        lemma_descriptor_bits(page, m, attributes, 3, UXN);
    } else if a < split {
        let length = (split - DRAM_BASE) as u64;
        lemma_blocks_translate_by_offset(g, input_bits, DRAM_BASE, DRAM_BASE, length, kernel_only, a);
        let target = crate::aarch64_tables::saturating_offset(DRAM_BASE, ((a - DRAM_BASE) / (block as int) * block) as u64);
        lemma_descriptor_bits(target, m, kernel_only, 1, AP_EL0);
        lemma_descriptor_bits(target, m, kernel_only, 1, UXN);
        let block_level = block_level_of(builder.levels_spec());
        assert(builder.translation(a) == mapped_translation(config, DRAM_BASE, DRAM_BASE, block, kernel_only, 1, block_level, a));
        assert(!(user_page <= a));
    } else {
        let length = (DRAM_END - after) as u64;
        lemma_blocks_translate_by_offset(g, input_bits, after, after, length, kernel_only, a);
        let target = crate::aarch64_tables::saturating_offset(after, ((a - after) / (block as int) * block) as u64);
        lemma_descriptor_bits(target, m, kernel_only, 1, AP_EL0);
        lemma_descriptor_bits(target, m, kernel_only, 1, UXN);
        let block_level = block_level_of(builder.levels_spec());
        assert(builder.translation(a) == mapped_translation(config, after, after, block, kernel_only, 1, block_level, a));
        lemma_aligned_below(user_page, after, granule);
        assert(!(a < user_page + granule));
    }
}

} // verus!

//! Building stage-1 translation tables over a table arena.
//!
//! Pure arithmetic over a caller-supplied arena, checked against
//! [`crate::aarch64_walk`]: the contracts of [`TableBuilder::map_blocks`] and
//! [`TableBuilder::map_pages`] say what the walker returns, for every virtual
//! address, over the tables they leave behind.
//!
//! No allocator: when the arena is exhausted, mapping returns
//! [`BuildError::OutOfTables`].

use vstd::prelude::*;
use crate::bits::{
    lemma_shift_facts, lemma_shift_monotone, lemma_constants, lemma_tagged, lemma_under_mask,
    lemma_split_at, lemma_high_bits_fit, lemma_leaf_kind, lemma_mod_is_mask, lemma_descriptor_address,
    lemma_low_clear,
};
use crate::aarch64_walk::{
    WalkConfig, WalkError, Translation, walk, walk_spec, walk_from, shift_at, bits_at, index_at,
    levels_for, output_address_mask,
};

verus! {

/// Descriptors can name physical addresses below this bound (48-bit output
/// addresses), so a table arena has to lie below it.
pub const OUTPUT_ADDRESS_LIMIT: u64 = 0x1_0000_0000_0000;

/// Why a table could not be built.
#[derive(Debug, Clone, Copy, PartialEq, Eq)]
pub enum BuildError {
    /// The arena has no room for another table.
    OutOfTables,
    /// The arena's physical base is not granule-aligned.
    MisalignedArena,
    /// An address does not fit the configured input width.
    AddressOutOfRange,
    /// A range's start, target or length is not a multiple of the block size.
    MisalignedRange,
    /// The granule or input width is not one this builder supports.
    UnsupportedConfiguration,
    /// A descriptor already present would have been overwritten.
    AlreadyMapped,
}

/// The walker's view of an arena that lives at physical address `base`.
pub open spec fn arena_memory(arena: Seq<u64>, base: u64) -> spec_fn(u64) -> u64 {
    |pa: u64|
        if pa >= base && (pa - base) / 8 < arena.len() {
            arena[(pa - base) / 8]
        } else {
            0u64
        }
}

/// Granule sizes this builder supports: 4, 16 and 64 KiB.
pub open spec fn supported_granule(granule_bits: u32) -> bool {
    granule_bits == 12 || granule_bits == 14 || granule_bits == 16
}

/// The walk configuration a builder with these parameters produces tables for.
pub open spec fn config_for(granule_bits: u32, input_bits: u32) -> WalkConfig {
    WalkConfig { granule_bits, t0sz: (64 - input_bits) as u32 }
}

/// Number of levels for a granule and input width.
pub open spec fn levels_of(granule_bits: u32, input_bits: u32) -> u32 {
    config_for(granule_bits, input_bits).levels_spec()
}

/// A walk result that reaches an empty descriptor at `stop` or above: the
/// address is free to be mapped by a descriptor at level `stop`.
pub open spec fn free_at(result: Result<Translation, WalkError>, stop: u32) -> bool {
    match result {
        Err(WalkError::InvalidDescriptor { level, descriptor }) => descriptor == 0 && level <= stop,
        _ => false,
    }
}

/// The descriptor written for an output address, attributes and kind
/// (`0b01` block, `0b11` page).
pub open spec fn leaf_descriptor(granule_bits: u32, output: u64, attributes: u64, kind: u64) -> u64 {
    (output & output_address_mask(granule_bits)) | attributes | kind
}

/// The translation a page descriptor gives `va`.
pub open spec fn page_translation(
    granule_bits: u32,
    descriptor: u64,
    va: u64,
    level: u32,
) -> Translation {
    Translation {
        physical_address: (descriptor & output_address_mask(granule_bits)) | (va & (((1u64
            << granule_bits) - 1) as u64)),
        descriptor,
        level,
        is_block: false,
    }
}

/// The translation a block descriptor of `block_bits` gives `va`.
pub open spec fn block_translation(
    granule_bits: u32,
    block_bits: u32,
    descriptor: u64,
    va: u64,
    level: u32,
) -> Translation {
    let block_size = 1u64 << block_bits;
    Translation {
        physical_address: (descriptor & output_address_mask(granule_bits) & !((block_size
            - 1) as u64)) | (va & ((block_size - 1) as u64)),
        descriptor,
        level,
        is_block: true,
    }
}

/// `output + offset`, saturating at the top of the address space.
pub open spec fn saturating_offset(output: u64, offset: u64) -> u64 {
    if output + offset > u64::MAX { u64::MAX } else { (output + offset) as u64 }
}

/// `u` and `v` select the same descriptor at every level above `level`.
pub open spec fn prefix_eq(config: WalkConfig, u: u64, v: u64, level: nat) -> bool {
    level == 0 || (u >> shift_at(config, (level - 1) as u32)) == (v >> shift_at(
        config,
        (level - 1) as u32,
    ))
}

/// Concrete sizes of a supported granule.
pub proof fn lemma_granule_facts(granule_bits: u32)
    requires
        supported_granule(granule_bits),
    ensures
        (1u64 << granule_bits) == 8 * (1usize << ((granule_bits - 3) as u32)),
        (1u64 << granule_bits) >= 4096,
        (1usize << ((granule_bits - 3) as u32)) >= 512,
        (1usize << ((granule_bits - 3) as u32)) <= 8192,
        (1u64 << granule_bits) <= 65536,
        granule_bits == 12 ==> (1u64 << granule_bits) == 4096,
        granule_bits == 14 ==> (1u64 << granule_bits) == 16384,
        granule_bits == 16 ==> (1u64 << granule_bits) == 65536,
        forall|a: u64|
            #![trigger a % (1u64 << granule_bits)]
            a < OUTPUT_ADDRESS_LIMIT && a % (1u64 << granule_bits) == 0 ==> {
                &&& a & output_address_mask(granule_bits) == a
                &&& (a | 3) == a + 3
                &&& (a | 3) & output_address_mask(granule_bits) == a
                &&& (a | 3) & 3 == 3
            },
        3u64 & output_address_mask(granule_bits) == 0,
{
    lemma_constants();
    let g = granule_bits;
    let low = ((1u64 << g) - 1) as u64;
    let mask = output_address_mask(g);
    assert(((1u64 << 48u64) - 1) as u64 == 0xFFFF_FFFF_FFFFu64);
    assert(mask == 0xFFFF_FFFF_FFFFu64 & !low);
    assert(3u64 & mask == 0);
    assert forall|a: u64|
        #![trigger a % (1u64 << granule_bits)]
        a < OUTPUT_ADDRESS_LIMIT && a % (1u64 << granule_bits) == 0 implies {
            &&& a & output_address_mask(granule_bits) == a
            &&& (a | 3) == a + 3
            &&& (a | 3) & output_address_mask(granule_bits) == a
            &&& (a | 3) & 3 == 3
        } by {
        lemma_mod_is_mask(a, g);
        lemma_under_mask(a, low);
        lemma_tagged(a, mask, 3);
    }
}

/// Shape of the walk for a supported configuration: every shift fits, the
/// top level's index is the whole of the address above its shift, and each
/// lower level resolves a full stride.
pub proof fn lemma_config_shape(granule_bits: u32, input_bits: u32)
    requires
        supported_granule(granule_bits),
        16 <= input_bits <= 48,
    ensures
        ({
            let config = config_for(granule_bits, input_bits);
            let levels = config.levels_spec();
            &&& config.input_bits_spec() == input_bits
            &&& config.stride_spec() == granule_bits - 3
            &&& levels >= 1
            &&& granule_bits + (granule_bits - 3) * (levels - 1) <= input_bits
            &&& config.computable()
            &&& shift_at(config, 0) <= input_bits
            &&& input_bits - shift_at(config, 0) <= granule_bits - 3
            &&& bits_at(config, 0) == input_bits - shift_at(config, 0)
            &&& shift_at(config, (levels - 1) as u32) == granule_bits
            &&& forall|l: u32|
                #![trigger shift_at(config, l)]
                l < levels ==> shift_at(config, l) + (granule_bits - 3) <= input_bits + (
                granule_bits - 3) && shift_at(config, l) >= granule_bits
            &&& forall|l: u32|
                #![trigger shift_at(config, l)]
                0 < l < levels ==> shift_at(config, (l - 1) as u32) == shift_at(config, l) + (
                granule_bits - 3)
            &&& forall|l: u32| #![trigger bits_at(config, l)] 0 < l ==> bits_at(config, l) == granule_bits - 3
        }),
{
    let config = config_for(granule_bits, input_bits);
    let s = (granule_bits - 3) as u32;
    let d = (input_bits - granule_bits) as u32;
    assert(config.input_bits_spec() == input_bits);
    assert(config.stride_spec() == s);
    assert(config.index_bits_spec() == d);
    let levels = config.levels_spec();
    let q = d / s;
    let r = d % s;
    assert(d == s * q + r && 0 <= r < s) by (nonlinear_arith)
        requires
            s > 0,
            q == d / s,
            r == d % s,
    ;
    // s * (levels - 1) < d, or levels == 1 and d == 0
    if r == 0 {
        if q == 0 {
            assert(levels == 1);
        } else {
            assert(levels == q);
            assert(s * (levels - 1) == d - s) by (nonlinear_arith)
                requires
                    levels == q,
                    d == s * q,
            ;
        }
    } else {
        assert(levels == q + 1);
        assert(s * (levels - 1) == d - r) by (nonlinear_arith)
            requires
                levels == q + 1,
                d == s * q + r,
        ;
    }
    assert(s * (levels - 1) <= d);
    assert(d - s * (levels - 1) <= s);
    assert(shift_at(config, 0) == granule_bits + s * (levels - 1));
    assert forall|l: u32| #![trigger shift_at(config, l)] l < levels implies shift_at(config, l)
        + (granule_bits - 3) <= input_bits + (granule_bits - 3) && shift_at(config, l)
        >= granule_bits by {
        assert(s * (levels - l - 1) <= s * (levels - 1)) by (nonlinear_arith)
            requires
                l < levels,
        ;
        assert(s * (levels - l - 1) >= 0) by (nonlinear_arith)
            requires
                l < levels,
        ;
    }
    assert forall|l: u32| #![trigger shift_at(config, l)] 0 < l < levels implies shift_at(
        config,
        (l - 1) as u32,
    ) == shift_at(config, l) + (granule_bits - 3) by {
        let a = s * (levels - l - 1);
        let b = s * (levels - (l - 1) - 1);
        assert(b == a + s) by (nonlinear_arith)
            requires
                a == s * (levels - l - 1),
                b == s * (levels - (l - 1) - 1),
        ;
        assert(b <= s * (levels - 1)) by (nonlinear_arith)
            requires
                b == s * (levels - (l - 1) - 1),
                0 < l < levels,
        ;
        assert(a >= 0) by (nonlinear_arith)
            requires
                a == s * (levels - l - 1),
                l < levels,
        ;
    }
    assert forall|l: u32| #![trigger bits_at(config, l)] 0 < l implies bits_at(config, l)
        == granule_bits - 3 by {}
    assert(shift_at(config, (levels - 1) as u32) == granule_bits) by {
        assert(s * (levels - (levels - 1) - 1) == 0) by (nonlinear_arith);
    }
}


proof fn lemma_top_index_is_whole(u: u64, shift: u32, input_bits: u32)
    requires
        shift <= input_bits <= 48,
        u < (1u64 << input_bits),
    ensures
        (u >> shift) & (((1u64 << ((input_bits - shift) as u32)) - 1) as u64) == u >> shift,
{
    lemma_high_bits_fit(u, shift, input_bits, (input_bits - shift) as u32);
}

proof fn lemma_shift_compose(u: u64, a: u32, s: u32)
    requires
        a + s < 64,
    ensures
        u >> ((a + s) as u32) == (u >> a) >> s,
{
    let b = (a + s) as u32;
    lemma_shift_facts(u, b);
    lemma_shift_facts(u, a);
    let p = u >> a;
    lemma_shift_facts(p, s);
    vstd::bits::lemma_u64_shr_is_div(u, b as u64);
    vstd::bits::lemma_u64_shr_is_div(u, a as u64);
    vstd::bits::lemma_u64_shr_is_div(p, s as u64);
    vstd::arithmetic::power2::lemma_pow2_adds(a as nat, s as nat);
    vstd::arithmetic::power2::lemma_pow2_pos(a as nat);
    vstd::arithmetic::power2::lemma_pow2_pos(s as nat);
    vstd::arithmetic::div_mod::lemma_div_denominator(
        u as int,
        vstd::arithmetic::power2::pow2(a as nat) as int,
        vstd::arithmetic::power2::pow2(s as nat) as int,
    );
}

proof fn lemma_split_shift(u: u64, v: u64, a: u32, s: u32)
    requires
        a + s < 64,
        s == 9 || s == 11 || s == 13,
    ensures
        ((u >> ((a + s) as u32)) == (v >> ((a + s) as u32)) && (u >> a) & (((1u64 << s) - 1) as u64)
            == (v >> a) & (((1u64 << s) - 1) as u64)) == ((u >> a) == (v >> a)),
{
    lemma_shift_compose(u, a, s);
    lemma_shift_compose(v, a, s);
    lemma_split_at(u >> a, v >> a, s);
}

/// Agreeing on the indices above `level + 1` is agreeing on those above
/// `level` and on the index at `level`.
pub proof fn lemma_prefix_step(granule_bits: u32, input_bits: u32, u: u64, v: u64, level: u32)
    requires
        supported_granule(granule_bits),
        16 <= input_bits <= 48,
        u < (1u64 << input_bits),
        v < (1u64 << input_bits),
        level < levels_of(granule_bits, input_bits),
    ensures
        prefix_eq(config_for(granule_bits, input_bits), u, v, (level + 1) as nat) == (prefix_eq(
            config_for(granule_bits, input_bits),
            u,
            v,
            level as nat,
        ) && index_at(config_for(granule_bits, input_bits), u, level) == index_at(
            config_for(granule_bits, input_bits),
            v,
            level,
        )),
{
    let config = config_for(granule_bits, input_bits);
    lemma_config_shape(granule_bits, input_bits);
    if level == 0 {
        let sh = shift_at(config, 0);
        lemma_top_index_is_whole(u, sh, input_bits);
        lemma_top_index_is_whole(v, sh, input_bits);
    } else {
        let a = shift_at(config, level);
        let st = (granule_bits - 3) as u32;
        assert(shift_at(config, (level - 1) as u32) == a + st);
        lemma_split_shift(u, v, a, st);
    }
}

/// Descriptors per table for a granule.
pub open spec fn entries_of(granule_bits: u32) -> int {
    (1usize << ((granule_bits - 3) as u32)) as int
}

/// Bytes per table (one granule).
pub open spec fn granule_of(granule_bits: u32) -> int {
    (1u64 << granule_bits) as int
}

/// Physical address of table `t` of an arena at `base`.
pub open spec fn table_address(base: u64, granule_bits: u32, t: int) -> int {
    base + t * granule_bits_size(granule_bits)
}

/// Bytes per table, as an integer.
pub open spec fn granule_bits_size(granule_bits: u32) -> int {
    granule_of(granule_bits)
}

/// Descriptor `x` of table `t` is either not a table descriptor, or a table
/// descriptor naming an allocated table one level down that serves the
/// addresses whose index at `t`'s level is `x`.
pub open spec fn pointer_ok(
    arena: Seq<u64>,
    base: u64,
    granule_bits: u32,
    input_bits: u32,
    tables_used: int,
    levels: Seq<u32>,
    reps: Seq<u64>,
    t: int,
    x: int,
) -> bool {
    let config = config_for(granule_bits, input_bits);
    let e = arena[t * entries_of(granule_bits) + x];
    (levels[t] + 1 < levels_of(granule_bits, input_bits) && e & 3 == 3) ==> {
        let c = (e - 3 - base) / granule_of(granule_bits);
        &&& 1 <= c < tables_used
        &&& e == table_address(base, granule_bits, c) + 3
        &&& levels[c] == levels[t] + 1
        &&& prefix_eq(config, reps[c], reps[t], levels[t] as nat)
        &&& index_at(config, reps[c], levels[t]) == x
    }
}

/// Every allocated table sits at a level of the walk and serves addresses
/// below the input limit, and every table descriptor in it is well formed.
pub open spec fn tables_ok(
    arena: Seq<u64>,
    base: u64,
    granule_bits: u32,
    input_bits: u32,
    tables_used: int,
    levels: Seq<u32>,
    reps: Seq<u64>,
) -> bool {
    &&& supported_granule(granule_bits)
    &&& 16 <= input_bits <= 48
    &&& base % (1u64 << granule_bits) == 0
    &&& base + arena.len() * 8 <= OUTPUT_ADDRESS_LIMIT
    &&& 0 <= tables_used
    &&& tables_used * entries_of(granule_bits) <= arena.len()
    &&& levels.len() == tables_used
    &&& reps.len() == tables_used
    &&& forall|t: int|
        0 <= t < tables_used ==> #[trigger] levels[t] < levels_of(granule_bits, input_bits)
            && reps[t] < (1u64 << input_bits)
    &&& forall|t: int, x: int|
        0 <= t < tables_used && 0 <= x < entries_of(granule_bits) ==> #[trigger] pointer_ok(
            arena,
            base,
            granule_bits,
            input_bits,
            tables_used,
            levels,
            reps,
            t,
            x,
        )
}

/// The shape every builder's arena keeps: a tree of tables, rooted at table
/// zero, each table at one level and serving the addresses that agree with a
/// representative on the indices above it.
pub open spec fn structure_ok(
    arena: Seq<u64>,
    base: u64,
    granule_bits: u32,
    input_bits: u32,
    tables_used: int,
    levels: Seq<u32>,
    reps: Seq<u64>,
) -> bool {
    &&& tables_ok(arena, base, granule_bits, input_bits, tables_used, levels, reps)
    &&& 1 <= tables_used
    &&& levels[0] == 0
}

/// Where the walker reads descriptor `x` of table `t`, and what it finds.
pub proof fn lemma_read_entry(arena: Seq<u64>, base: u64, granule_bits: u32, t: int, x: int)
    requires
        supported_granule(granule_bits),
        base % (1u64 << granule_bits) == 0,
        base + arena.len() * 8 <= OUTPUT_ADDRESS_LIMIT,
        0 <= t,
        0 <= x < entries_of(granule_bits),
        t * entries_of(granule_bits) + x < arena.len(),
    ensures
        table_address(base, granule_bits, t) < OUTPUT_ADDRESS_LIMIT,
        table_address(base, granule_bits, t) % granule_of(granule_bits) == 0,
        (table_address(base, granule_bits, t) as u64).saturating_add((x * 8) as u64)
            == table_address(base, granule_bits, t) + x * 8,
        arena_memory(arena, base)(((table_address(base, granule_bits, t) as u64).saturating_add(
            (x * 8) as u64,
        ))) == arena[t * entries_of(granule_bits) + x],
{
    lemma_granule_facts(granule_bits);
    let e = entries_of(granule_bits);
    let gsz = granule_of(granule_bits);
    assert(gsz == 8 * e);
    assert(t * gsz == 8 * (t * e)) by (nonlinear_arith)
        requires
            gsz == 8 * e,
    ;
    assert((t * e + x + 1) * 8 <= arena.len() * 8) by (nonlinear_arith)
        requires
            t * e + x < arena.len(),
    ;
    assert(table_address(base, granule_bits, t) + x * 8 == base + 8 * (t * e + x));
    assert((8 * (t * e + x)) / 8 == t * e + x) by (nonlinear_arith);
    assert((t * gsz) % gsz == 0) by (nonlinear_arith)
        requires
            gsz > 0,
    ;
    let q = (base as int) / gsz;
    vstd::arithmetic::div_mod::lemma_fundamental_div_mod(base as int, gsz);
    assert(base + t * gsz == (q + t) * gsz) by (nonlinear_arith)
        requires
            base == gsz * q + (base as int) % gsz,
            (base as int) % gsz == 0,
    ;
    vstd::arithmetic::div_mod::lemma_mod_multiples_basic(q + t, gsz);
}

/// Equal prefixes at `level` give equal prefixes, and equal indices, at
/// every level above it.
pub proof fn lemma_prefix_mono(
    granule_bits: u32,
    input_bits: u32,
    u: u64,
    v: u64,
    level: u32,
    k: u32,
)
    requires
        supported_granule(granule_bits),
        16 <= input_bits <= 48,
        u < (1u64 << input_bits),
        v < (1u64 << input_bits),
        level <= levels_of(granule_bits, input_bits),
        k <= level,
        prefix_eq(config_for(granule_bits, input_bits), u, v, level as nat),
    ensures
        prefix_eq(config_for(granule_bits, input_bits), u, v, k as nat),
        k < level ==> index_at(config_for(granule_bits, input_bits), u, k) == index_at(
            config_for(granule_bits, input_bits),
            v,
            k,
        ),
    decreases level - k,
{
    if k < level {
        lemma_prefix_step(granule_bits, input_bits, u, v, (level - 1) as u32);
        lemma_prefix_mono(granule_bits, input_bits, u, v, (level - 1) as u32, k);
        if k < level - 1 {
        } else {
        }
    }
}

/// The walk of `va` from a table it reaches depends only on the descriptors
/// that serve `va`: an arena agreeing on those gives the same walk.
pub proof fn lemma_walk_frame(
    arena1: Seq<u64>,
    arena2: Seq<u64>,
    base: u64,
    granule_bits: u32,
    input_bits: u32,
    tables_used: int,
    levels: Seq<u32>,
    reps: Seq<u64>,
    va: u64,
    level: u32,
    t: int,
)
    requires
        structure_ok(arena1, base, granule_bits, input_bits, tables_used, levels, reps),
        arena2.len() == arena1.len(),
        0 <= t < tables_used,
        levels[t] == level,
        va < (1u64 << input_bits),
        prefix_eq(config_for(granule_bits, input_bits), va, reps[t], level as nat),
        forall|u: int, y: int|
            0 <= u < tables_used && 0 <= y < entries_of(granule_bits) && prefix_eq(
                config_for(granule_bits, input_bits),
                va,
                reps[u],
                levels[u] as nat,
            ) && index_at(config_for(granule_bits, input_bits), va, levels[u]) == y
                ==> #[trigger] arena2[u * entries_of(granule_bits) + y] == arena1[u
                * entries_of(granule_bits) + y],
    ensures
        walk_from(
            config_for(granule_bits, input_bits),
            va,
            arena_memory(arena1, base),
            level,
            table_address(base, granule_bits, t) as u64,
        ) == walk_from(
            config_for(granule_bits, input_bits),
            va,
            arena_memory(arena2, base),
            level,
            table_address(base, granule_bits, t) as u64,
        ),
    decreases levels_of(granule_bits, input_bits) - level,
{
    let config = config_for(granule_bits, input_bits);
    let nlev = levels_of(granule_bits, input_bits);
    lemma_config_shape(granule_bits, input_bits);
    lemma_granule_facts(granule_bits);
    let e = entries_of(granule_bits);
    let idx = index_at(config, va, level);
    assert(levels[t] < nlev);
    // the index fits in a table
    assert(idx < e) by {
        let b = bits_at(config, level);
        assert(b <= granule_bits - 3);
        lemma_index_bound(va >> shift_at(config, level), b, granule_bits);
    }
    assert(t * e + idx < arena1.len()) by (nonlinear_arith)
        requires
            t < tables_used,
            tables_used * e <= arena1.len(),
            0 <= idx < e,
    ;
    lemma_read_entry(arena1, base, granule_bits, t, idx as int);
    lemma_read_entry(arena2, base, granule_bits, t, idx as int);
    assert(arena2[t * e + idx] == arena1[t * e + idx]);
    let d = arena1[t * e + idx];
    if d & 3 == 3 && level + 1 < nlev {
        assert(pointer_ok(arena1, base, granule_bits, input_bits, tables_used, levels, reps, t, idx as int));
        let c = (d - 3 - base) / granule_of(granule_bits);
        assert(c * e + 0 < arena1.len()) by (nonlinear_arith)
            requires
                c < tables_used,
                tables_used * e <= arena1.len(),
                e > 0,
        ;
        lemma_read_entry(arena1, base, granule_bits, c, 0);
        let ca = table_address(base, granule_bits, c);
        assert((ca as u64) % (1u64 << granule_bits) == 0);
        assert((ca as u64 | 3) == ca + 3);
        assert(d & output_address_mask(granule_bits) == ca);
        assert(reps[c] < (1u64 << input_bits));
        lemma_prefix_step(granule_bits, input_bits, va, reps[c], level);
        lemma_walk_frame(arena1, arena2, base, granule_bits, input_bits, tables_used, levels, reps, va, (level + 1) as u32, c);
    }
}

proof fn lemma_index_bound(p: u64, b: u32, granule_bits: u32)
    requires
        supported_granule(granule_bits),
        b <= granule_bits - 3,
    ensures
        p & (((1u64 << b) - 1) as u64) < entries_of(granule_bits),
{
    lemma_granule_facts(granule_bits);
    lemma_constants();
    let s = (granule_bits - 3) as u32;
    lemma_shift_facts(p, b);
    lemma_shift_monotone(b, s);
}

/// The index a walk reads at `level` lies inside a table.
pub proof fn lemma_index_in_table(granule_bits: u32, input_bits: u32, va: u64, level: u32)
    requires
        supported_granule(granule_bits),
        16 <= input_bits <= 48,
        level < levels_of(granule_bits, input_bits),
    ensures
        0 <= index_at(config_for(granule_bits, input_bits), va, level) < entries_of(granule_bits),
{
    let config = config_for(granule_bits, input_bits);
    lemma_config_shape(granule_bits, input_bits);
    lemma_index_bound(va >> shift_at(config, level), bits_at(config, level), granule_bits);
}

/// A chain of table descriptors from `path[from]` to `path[to]` along `va`'s
/// indices carries the walk from one to the other.
pub proof fn lemma_walk_chain(
    arena: Seq<u64>,
    base: u64,
    granule_bits: u32,
    input_bits: u32,
    va: u64,
    path: Seq<int>,
    from: u32,
    to: u32,
)
    requires
        supported_granule(granule_bits),
        16 <= input_bits <= 48,
        base % (1u64 << granule_bits) == 0,
        base + arena.len() * 8 <= OUTPUT_ADDRESS_LIMIT,
        from <= to < levels_of(granule_bits, input_bits),
        path.len() > to,
        forall|k: int|
            from <= k <= to ==> 0 <= #[trigger] path[k] && (path[k] + 1) * entries_of(granule_bits)
                <= arena.len(),
        forall|k: int|
            from <= k < to ==> #[trigger] arena[path[k] * entries_of(granule_bits) + index_at(
                config_for(granule_bits, input_bits),
                va,
                k as u32,
            )] == table_address(base, granule_bits, path[k + 1]) + 3,
    ensures
        walk_from(
            config_for(granule_bits, input_bits),
            va,
            arena_memory(arena, base),
            from,
            table_address(base, granule_bits, path[from as int]) as u64,
        ) == walk_from(
            config_for(granule_bits, input_bits),
            va,
            arena_memory(arena, base),
            to,
            table_address(base, granule_bits, path[to as int]) as u64,
        ),
    decreases to - from,
{
    if from < to {
        let config = config_for(granule_bits, input_bits);
        let e = entries_of(granule_bits);
        lemma_granule_facts(granule_bits);
        lemma_config_shape(granule_bits, input_bits);
        lemma_index_in_table(granule_bits, input_bits, va, from);
        let idx = index_at(config, va, from);
        let t = path[from as int];
        let c = path[from + 1];
        assert(from <= from < to);
        assert(t * e + idx < arena.len()) by (nonlinear_arith)
            requires
                (t + 1) * e <= arena.len(),
                0 <= idx < e,
        ;
        lemma_read_entry(arena, base, granule_bits, t, idx as int);
        assert(c * e + 0 < arena.len()) by (nonlinear_arith)
            requires
                (c + 1) * e <= arena.len(),
                e > 0,
                c >= 0,
        ;
        lemma_read_entry(arena, base, granule_bits, c, 0);
        let ca = table_address(base, granule_bits, c);
        assert((ca as u64) % (1u64 << granule_bits) == 0);
        assert(arena[t * e + idx] == ca + 3);
        lemma_walk_chain(arena, base, granule_bits, input_bits, va, path, (from + 1) as u32, to);
    }
}

/// Past the end of `va`'s chain through freshly zeroed tables, any other
/// address reaches an empty descriptor no lower than `top`.
pub proof fn lemma_walk_zeros(
    arena: Seq<u64>,
    base: u64,
    granule_bits: u32,
    input_bits: u32,
    va: u64,
    other: u64,
    path: Seq<int>,
    k: u32,
    top: u32,
)
    requires
        supported_granule(granule_bits),
        16 <= input_bits <= 48,
        base % (1u64 << granule_bits) == 0,
        base + arena.len() * 8 <= OUTPUT_ADDRESS_LIMIT,
        k <= top < levels_of(granule_bits, input_bits),
        va < (1u64 << input_bits),
        other < (1u64 << input_bits),
        prefix_eq(config_for(granule_bits, input_bits), other, va, k as nat),
        path.len() > top,
        forall|j: int|
            k <= j <= top ==> 0 <= #[trigger] path[j] && (path[j] + 1) * entries_of(granule_bits)
                <= arena.len(),
        forall|j: int|
            k <= j < top ==> #[trigger] arena[path[j] * entries_of(granule_bits) + index_at(
                config_for(granule_bits, input_bits),
                va,
                j as u32,
            )] == table_address(base, granule_bits, path[j + 1]) + 3,
        forall|j: int, y: int|
            k <= j <= top && 0 <= y < entries_of(granule_bits) && y != index_at(
                config_for(granule_bits, input_bits),
                va,
                j as u32,
            ) ==> #[trigger] arena[path[j] * entries_of(granule_bits) + y] == 0,
        arena[path[top as int] * entries_of(granule_bits) + index_at(
            config_for(granule_bits, input_bits),
            va,
            top,
        )] == 0 || !prefix_eq(config_for(granule_bits, input_bits), other, va, (top + 1) as nat),
    ensures
        free_at(
            walk_from(
                config_for(granule_bits, input_bits),
                other,
                arena_memory(arena, base),
                k,
                table_address(base, granule_bits, path[k as int]) as u64,
            ),
            top,
        ),
    decreases top - k,
{
    let config = config_for(granule_bits, input_bits);
    let e = entries_of(granule_bits);
    lemma_granule_facts(granule_bits);
    lemma_config_shape(granule_bits, input_bits);
    lemma_index_in_table(granule_bits, input_bits, va, k);
    lemma_index_in_table(granule_bits, input_bits, other, k);
    let idx = index_at(config, va, k);
    let idx2 = index_at(config, other, k);
    let t = path[k as int];
    assert(k <= k <= top);
    assert(t * e + idx2 < arena.len()) by (nonlinear_arith)
        requires
            (t + 1) * e <= arena.len(),
            0 <= idx2 < e,
    ;
    lemma_read_entry(arena, base, granule_bits, t, idx2 as int);
    lemma_prefix_step(granule_bits, input_bits, other, va, k);
    if idx2 != idx {
        assert(arena[t * e + idx2] == 0);
        lemma_constants();
    } else if k < top {
        let c = path[k + 1];
        assert(c * e + 0 < arena.len()) by (nonlinear_arith)
            requires
                (c + 1) * e <= arena.len(),
                e > 0,
                c >= 0,
        ;
        lemma_read_entry(arena, base, granule_bits, c, 0);
        let ca = table_address(base, granule_bits, c);
        assert((ca as u64) % (1u64 << granule_bits) == 0);
        assert(arena[t * e + idx] == ca + 3);
        lemma_walk_zeros(arena, base, granule_bits, input_bits, va, other, path, (k + 1) as u32, top);
    } else {
        assert(arena[t * e + idx2] == 0);
        lemma_constants();
    }
}

/// Distinct (table, index) pairs are distinct arena slots.
pub proof fn lemma_slot_injective(e: int, u: int, y: int, u2: int, y2: int)
    requires
        e > 0,
        0 <= y < e,
        0 <= y2 < e,
        0 <= u,
        0 <= u2,
        u * e + y == u2 * e + y2,
    ensures
        u == u2,
        y == y2,
{
    vstd::arithmetic::div_mod::lemma_fundamental_div_mod_converse(u * e + y, e, u, y);
    vstd::arithmetic::div_mod::lemma_fundamental_div_mod_converse(u2 * e + y2, e, u2, y2);
}

/// A slot of an allocated table lies inside the allocated part of the arena.
pub proof fn lemma_slot_in_tables(e: int, tables: int, u: int, y: int)
    requires
        e > 0,
        0 <= u < tables,
        0 <= y < e,
    ensures
        0 <= u * e + y < tables * e,
        (u + 1) * e <= tables * e,
{
    assert(0 <= u * e + y < tables * e && (u + 1) * e <= tables * e) by (nonlinear_arith)
        requires
            e > 0,
            0 <= u < tables,
            0 <= y < e,
    ;
}

/// Writing one slot keeps the shape, when the slot's new content is well
/// formed.
pub proof fn lemma_structure_update(
    arena: Seq<u64>,
    base: u64,
    granule_bits: u32,
    input_bits: u32,
    tables_used: int,
    levels: Seq<u32>,
    reps: Seq<u64>,
    t: int,
    x: int,
    value: u64,
)
    requires
        tables_ok(arena, base, granule_bits, input_bits, tables_used, levels, reps),
        0 <= t < tables_used,
        0 <= x < entries_of(granule_bits),
        pointer_ok(
            arena.update(t * entries_of(granule_bits) + x, value),
            base,
            granule_bits,
            input_bits,
            tables_used,
            levels,
            reps,
            t,
            x,
        ),
    ensures
        tables_ok(
            arena.update(t * entries_of(granule_bits) + x, value),
            base,
            granule_bits,
            input_bits,
            tables_used,
            levels,
            reps,
        ),
{
    let e = entries_of(granule_bits);
    lemma_granule_facts(granule_bits);
    let a2 = arena.update(t * e + x, value);
    lemma_slot_in_tables(e, tables_used, t, x);
    assert forall|t2: int, x2: int|
        0 <= t2 < tables_used && 0 <= x2 < e implies #[trigger] pointer_ok(
        a2,
        base,
        granule_bits,
        input_bits,
        tables_used,
        levels,
        reps,
        t2,
        x2,
    ) by {
        if t2 != t || x2 != x {
            lemma_slot_in_tables(e, tables_used, t2, x2);
            if t2 * e + x2 == t * e + x {
                lemma_slot_injective(e, t2, x2, t, x);
            }
            assert(a2[t2 * e + x2] == arena[t2 * e + x2]);
            assert(pointer_ok(arena, base, granule_bits, input_bits, tables_used, levels, reps, t2, x2));
        }
    }
}

/// Allocating a zeroed table keeps the shape.
pub proof fn lemma_structure_push(
    arena: Seq<u64>,
    arena2: Seq<u64>,
    base: u64,
    granule_bits: u32,
    input_bits: u32,
    tables_used: int,
    levels: Seq<u32>,
    reps: Seq<u64>,
    level: u32,
    rep: u64,
)
    requires
        tables_ok(arena, base, granule_bits, input_bits, tables_used, levels, reps),
        arena2.len() == arena.len(),
        (tables_used + 1) * entries_of(granule_bits) <= arena.len(),
        forall|i: int|
            0 <= i < arena.len() && !(tables_used * entries_of(granule_bits) <= i < (tables_used
                + 1) * entries_of(granule_bits)) ==> #[trigger] arena2[i] == arena[i],
        forall|i: int|
            tables_used * entries_of(granule_bits) <= i < (tables_used + 1) * entries_of(
                granule_bits,
            ) ==> #[trigger] arena2[i] == 0,
        level < levels_of(granule_bits, input_bits),
        rep < (1u64 << input_bits),
    ensures
        tables_ok(
            arena2,
            base,
            granule_bits,
            input_bits,
            tables_used + 1,
            levels.push(level),
            reps.push(rep),
        ),
{
    let e = entries_of(granule_bits);
    lemma_granule_facts(granule_bits);
    let lv2 = levels.push(level);
    let rp2 = reps.push(rep);
    assert forall|t: int| 0 <= t < tables_used + 1 implies #[trigger] lv2[t] < levels_of(
        granule_bits,
        input_bits,
    ) && rp2[t] < (1u64 << input_bits) by {
        if t < tables_used {
            assert(levels[t] < levels_of(granule_bits, input_bits) && reps[t] < (1u64 << input_bits));
        }
    }
    assert forall|t: int, x: int|
        0 <= t < tables_used + 1 && 0 <= x < e implies #[trigger] pointer_ok(
        arena2,
        base,
        granule_bits,
        input_bits,
        tables_used + 1,
        lv2,
        rp2,
        t,
        x,
    ) by {
        if t < tables_used {
            lemma_slot_in_tables(e, tables_used, t, x);
            assert(arena2[t * e + x] == arena[t * e + x]);
            assert(pointer_ok(arena, base, granule_bits, input_bits, tables_used, levels, reps, t, x));
        } else {
            assert(t * e + x < (tables_used + 1) * e && t * e + x >= tables_used * e) by (nonlinear_arith)
                requires
                    t == tables_used,
                    0 <= x < e,
            ;
            assert(arena2[t * e + x] == 0);
            lemma_constants();
        }
    }
}

/// A walk that ends on an invalid descriptor ends there at the step it
/// started from or below it.
pub proof fn lemma_walk_levels(
    config: WalkConfig,
    va: u64,
    mem: spec_fn(u64) -> u64,
    step: u32,
    table: u64,
)
    ensures
        walk_from(config, va, mem, step, table) matches Err(WalkError::InvalidDescriptor { level, .. })
            ==> level >= step,
    decreases config.levels_spec() - step,
{
    let levels = config.levels_spec();
    if step < levels {
        let mask = output_address_mask(config.granule_bits);
        let entry_address = table.saturating_add((index_at(config, va, step) * 8) as u64);
        let descriptor = mem(entry_address);
        if descriptor & 0b11 == 0b11 && step != levels - 1 {
            lemma_walk_levels(config, va, mem, (step + 1) as u32, descriptor & mask);
        }
    }
}

/// Two addresses that read the same indices from `step` down to `stop`
/// walk alike when one of them ends on an empty descriptor at or above
/// `stop`: they read the same descriptors all the way.
pub proof fn lemma_free_walk_shared(
    config: WalkConfig,
    a: u64,
    b: u64,
    mem: spec_fn(u64) -> u64,
    step: u32,
    table: u64,
    stop: u32,
)
    requires
        forall|k: u32|
            step <= k <= stop ==> #[trigger] index_at(config, a, k) == index_at(config, b, k),
        free_at(walk_from(config, a, mem, step, table), stop),
    ensures
        walk_from(config, b, mem, step, table) == walk_from(config, a, mem, step, table),
    decreases config.levels_spec() - step,
{
    let levels = config.levels_spec();
    lemma_walk_levels(config, a, mem, step, table);
    if step < levels {
        assert(index_at(config, a, step) == index_at(config, b, step));
        let mask = output_address_mask(config.granule_bits);
        let entry_address = table.saturating_add((index_at(config, a, step) * 8) as u64);
        let descriptor = mem(entry_address);
        if descriptor & 0b11 == 0b11 && step != levels - 1 {
            lemma_walk_levels(config, a, mem, (step + 1) as u32, descriptor & mask);
            lemma_free_walk_shared(config, a, b, mem, (step + 1) as u32, descriptor & mask, stop);
        }
    }
}

/// Whether a walk result ended at level `k` or below it.
pub open spec fn ends_at_or_below(result: Result<Translation, WalkError>, k: u32) -> bool {
    match result {
        Ok(translation) => translation.level >= k,
        Err(WalkError::InvalidDescriptor { level, .. }) => level >= k,
        Err(WalkError::BlockAtIllegalLevel { level }) => level >= k,
        _ => false,
    }
}

/// An address that reads the same indices as `a` above level `k` follows
/// `a`'s tables down to `k` when `a`'s walk got that far: if it stops at an
/// invalid descriptor, it stops at `k` or below.
pub proof fn lemma_walk_reaches(
    config: WalkConfig,
    a: u64,
    b: u64,
    mem: spec_fn(u64) -> u64,
    step: u32,
    table: u64,
    k: u32,
)
    requires
        step <= k,
        forall|j: u32| step <= j < k ==> #[trigger] index_at(config, a, j) == index_at(config, b, j),
        ends_at_or_below(walk_from(config, a, mem, step, table), k),
    ensures
        walk_from(config, b, mem, step, table) matches Err(WalkError::InvalidDescriptor { level, .. })
            ==> level >= k,
    decreases config.levels_spec() - step,
{
    lemma_walk_levels(config, b, mem, step, table);
    let levels = config.levels_spec();
    if step < k && step < levels {
        assert(index_at(config, a, step) == index_at(config, b, step));
        let mask = output_address_mask(config.granule_bits);
        let entry_address = table.saturating_add((index_at(config, a, step) * 8) as u64);
        let descriptor = mem(entry_address);
        if descriptor & 0b11 == 0b11 && step != levels - 1 {
            lemma_walk_reaches(config, a, b, mem, (step + 1) as u32, descriptor & mask, k);
        }
    }
}

/// What a walk makes of `descriptor` when it is read as a leaf at `step`:
/// a page at the last level, a block above it.
pub open spec fn leaf_result(config: WalkConfig, va: u64, descriptor: u64, step: u32) -> Result<
    Translation,
    WalkError,
> {
    let mask = output_address_mask(config.granule_bits);
    if descriptor & 0b11 == 0b11 {
        Ok(
            Translation {
                physical_address: (descriptor & mask) | (va & (((1u64 << config.granule_bits) - 1)
                    as u64)),
                descriptor,
                level: step,
                is_block: false,
            },
        )
    } else if step == config.levels_spec() - 1 {
        Err(WalkError::BlockAtIllegalLevel { level: step })
    } else {
        let block_size = 1u64 << shift_at(config, step);
        Ok(
            Translation {
                physical_address: (descriptor & mask & !((block_size - 1) as u64)) | (va & ((
                block_size - 1) as u64)),
                descriptor,
                level: step,
                is_block: true,
            },
        )
    }
}

/// A mapping call leaves a translation as it was, or leaves an address that
/// was free at `stop` free at `stop`.
pub open spec fn kept(
    before: Result<Translation, WalkError>,
    after: Result<Translation, WalkError>,
    stop: u32,
) -> bool {
    before == after || (free_at(before, stop) && free_at(after, stop))
}

/// Following `va`'s chain of table descriptors from the root down to
/// `path[to]`: any address agreeing with `va` on the indices above `to`
/// walks to that table.
pub proof fn lemma_walk_to(
    arena: Seq<u64>,
    base: u64,
    granule_bits: u32,
    input_bits: u32,
    va: u64,
    other: u64,
    path: Seq<int>,
    to: u32,
)
    requires
        supported_granule(granule_bits),
        16 <= input_bits <= 48,
        base % (1u64 << granule_bits) == 0,
        base + arena.len() * 8 <= OUTPUT_ADDRESS_LIMIT,
        to < levels_of(granule_bits, input_bits),
        path.len() > to,
        path[0] == 0,
        forall|k: int|
            0 <= k <= to ==> 0 <= #[trigger] path[k] && (path[k] + 1) * entries_of(granule_bits)
                <= arena.len(),
        forall|k: int|
            0 <= k < to ==> #[trigger] arena[path[k] * entries_of(granule_bits) + index_at(
                config_for(granule_bits, input_bits),
                va,
                k as u32,
            )] == table_address(base, granule_bits, path[k + 1]) + 3,
        va < (1u64 << input_bits),
        other < (1u64 << input_bits),
        prefix_eq(config_for(granule_bits, input_bits), other, va, to as nat),
    ensures
        walk_spec(base, other, config_for(granule_bits, input_bits), arena_memory(arena, base))
            == walk_from(
            config_for(granule_bits, input_bits),
            other,
            arena_memory(arena, base),
            to,
            table_address(base, granule_bits, path[to as int]) as u64,
        ),
{
    let config = config_for(granule_bits, input_bits);
    let e = entries_of(granule_bits);
    lemma_config_shape(granule_bits, input_bits);
    lemma_granule_facts(granule_bits);
    assert forall|k: int| 0 <= k < to implies #[trigger] arena[path[k] * e + index_at(
        config,
        other,
        k as u32,
    )] == table_address(base, granule_bits, path[k + 1]) + 3 by {
        lemma_prefix_mono(granule_bits, input_bits, other, va, to, k as u32);
        assert(arena[path[k] * e + index_at(config, va, k as u32)] == table_address(
            base,
            granule_bits,
            path[k + 1],
        ) + 3);
    }
    lemma_walk_chain(arena, base, granule_bits, input_bits, other, path, 0, to);
    assert(0 <= 0 <= to);
    assert(e > 0);
    assert(base < OUTPUT_ADDRESS_LIMIT);
    assert(base & output_address_mask(granule_bits) == base);
}

/// Changing one descriptor of a well-formed arena, the one `va` reads at
/// `level`, leaves the walk of every address that does not read it as it
/// was.
pub proof fn lemma_walk_outside(
    old_arena: Seq<u64>,
    new_arena: Seq<u64>,
    base: u64,
    granule_bits: u32,
    input_bits: u32,
    tables_used: int,
    levels: Seq<u32>,
    reps: Seq<u64>,
    va: u64,
    t: int,
    level: u32,
    other: u64,
)
    requires
        structure_ok(old_arena, base, granule_bits, input_bits, tables_used, levels, reps),
        new_arena.len() == old_arena.len(),
        0 <= t < tables_used,
        levels[t] == level,
        va < (1u64 << input_bits),
        prefix_eq(config_for(granule_bits, input_bits), va, reps[t], level as nat),
        forall|u: int, y: int|
            0 <= u < tables_used && 0 <= y < entries_of(granule_bits) && !(u == t && y
                == index_at(config_for(granule_bits, input_bits), va, level)) ==> #[trigger] new_arena[u
                * entries_of(granule_bits) + y] == old_arena[u * entries_of(granule_bits) + y],
        !prefix_eq(config_for(granule_bits, input_bits), other, va, (level + 1) as nat),
    ensures
        walk_spec(base, other, config_for(granule_bits, input_bits), arena_memory(new_arena, base))
            == walk_spec(
            base,
            other,
            config_for(granule_bits, input_bits),
            arena_memory(old_arena, base),
        ),
{
    let config = config_for(granule_bits, input_bits);
    let e = entries_of(granule_bits);
    lemma_config_shape(granule_bits, input_bits);
    lemma_granule_facts(granule_bits);
    if other < (1u64 << input_bits) {
        assert forall|u: int, y: int|
            0 <= u < tables_used && 0 <= y < e && prefix_eq(
                config,
                other,
                reps[u],
                levels[u] as nat,
            ) && index_at(config, other, levels[u]) == y implies #[trigger] new_arena[u * e + y]
            == old_arena[u * e + y] by {
            if u == t && y == index_at(config, va, level) {
                assert(prefix_eq(config, other, va, level as nat));
                lemma_prefix_step(granule_bits, input_bits, other, va, level);
            }
        }
        assert(levels[0] < levels_of(granule_bits, input_bits) && reps[0] < (1u64 << input_bits));
        lemma_walk_frame(
            old_arena,
            new_arena,
            base,
            granule_bits,
            input_bits,
            tables_used,
            levels,
            reps,
            other,
            0,
            0,
        );
        assert(e > 0);
        assert(e <= old_arena.len()) by (nonlinear_arith)
            requires
                1 <= tables_used,
                tables_used * e <= old_arena.len(),
                e > 0,
        ;
        assert(base < OUTPUT_ADDRESS_LIMIT);
        assert(base & output_address_mask(granule_bits) == base);
    }
}

/// The arena after `va`'s walk was extended from level `f` down to `top`:
/// the old tables as they were, except the descriptor `va` reads at `f`; a
/// chain of table descriptors along `va`; and fresh tables, one per level
/// below `f`, holding nothing else.
pub open spec fn chain_state(
    new_arena: Seq<u64>,
    old_arena: Seq<u64>,
    base: u64,
    granule_bits: u32,
    input_bits: u32,
    old_tables: int,
    va: u64,
    path: Seq<int>,
    f: int,
    top: int,
) -> bool {
    let config = config_for(granule_bits, input_bits);
    let e = entries_of(granule_bits);
    &&& new_arena.len() == old_arena.len()
    &&& 0 <= f <= top < levels_of(granule_bits, input_bits)
    &&& path.len() == top + 1
    &&& path[0] == 0
    &&& old_tables * e <= new_arena.len()
    &&& forall|k: int| 0 <= k <= f ==> 0 <= #[trigger] path[k] < old_tables
    &&& forall|j: int| f < j <= top ==> #[trigger] path[j] == old_tables + j - f - 1
    &&& forall|k: int|
        0 <= k <= top ==> 0 <= #[trigger] path[k] && (path[k] + 1) * e <= new_arena.len()
    &&& forall|k: int|
        0 <= k < top ==> #[trigger] new_arena[path[k] * e + index_at(config, va, k as u32)]
            == table_address(base, granule_bits, path[k + 1]) + 3
    &&& forall|j: int, y: int|
        f < j <= top && 0 <= y < e && y != index_at(config, va, j as u32) ==> #[trigger] new_arena[path[j]
            * e + y] == 0
    &&& forall|u: int, y: int|
        0 <= u < old_tables && 0 <= y < e && !(u == path[f] && y == index_at(
            config,
            va,
            f as u32,
        )) ==> #[trigger] new_arena[u * e + y] == old_arena[u * e + y]
}

/// What extending `va`'s walk does to every other address: one that still
/// reads an empty descriptor at `top` was free before and is free after,
/// and every other walk is unchanged.
pub proof fn lemma_chain_effect(
    new_arena: Seq<u64>,
    old_arena: Seq<u64>,
    base: u64,
    granule_bits: u32,
    input_bits: u32,
    old_tables: int,
    levels: Seq<u32>,
    reps: Seq<u64>,
    va: u64,
    path: Seq<int>,
    f: int,
    top: int,
    other: u64,
)
    requires
        structure_ok(old_arena, base, granule_bits, input_bits, old_tables, levels, reps),
        chain_state(
            new_arena,
            old_arena,
            base,
            granule_bits,
            input_bits,
            old_tables,
            va,
            path,
            f,
            top,
        ),
        forall|k: int| 0 <= k <= f ==> levels[#[trigger] path[k]] == k,
        prefix_eq(config_for(granule_bits, input_bits), va, reps[path[f]], f as nat),
        old_arena[path[f] * entries_of(granule_bits) + index_at(
            config_for(granule_bits, input_bits),
            va,
            f as u32,
        )] == 0,
        va < (1u64 << input_bits),
        new_arena[path[top] * entries_of(granule_bits) + index_at(
            config_for(granule_bits, input_bits),
            va,
            top as u32,
        )] == 0 || !prefix_eq(config_for(granule_bits, input_bits), other, va, (top + 1) as nat),
    ensures
        kept(
            walk_spec(
                base,
                other,
                config_for(granule_bits, input_bits),
                arena_memory(old_arena, base),
            ),
            walk_spec(
                base,
                other,
                config_for(granule_bits, input_bits),
                arena_memory(new_arena, base),
            ),
            top as u32,
        ),
{
    let config = config_for(granule_bits, input_bits);
    let e = entries_of(granule_bits);
    lemma_config_shape(granule_bits, input_bits);
    lemma_granule_facts(granule_bits);
    let fl = f as u32;
    if other >= (1u64 << input_bits) {
    } else if !prefix_eq(config, other, va, (f + 1) as nat) {
        assert(0 <= f <= f);
        lemma_walk_outside(
            old_arena,
            new_arena,
            base,
            granule_bits,
            input_bits,
            old_tables,
            levels,
            reps,
            va,
            path[f],
            fl,
            other,
        );
    } else {
        lemma_prefix_mono(granule_bits, input_bits, other, va, (fl + 1) as u32, fl);
        assert(0 <= f <= top);
        assert(0 <= f <= f);
        // The old walk reaches `path[f]` and reads an empty descriptor.
        assert forall|k: int| 0 <= k < f implies #[trigger] old_arena[path[k] * e + index_at(
            config,
            va,
            k as u32,
        )] == table_address(base, granule_bits, path[k + 1]) + 3 by {
            assert(0 <= k <= f);
            assert(0 <= k < top);
            lemma_index_in_table(granule_bits, input_bits, va, k as u32);
            assert(levels[path[k]] == k);
            assert(new_arena[path[k] * e + index_at(config, va, k as u32)] == old_arena[path[k] * e
                + index_at(config, va, k as u32)]);
        }
        assert forall|k: int| 0 <= k <= f implies 0 <= #[trigger] path[k] && (path[k] + 1) * e
            <= old_arena.len() by {
            assert(0 <= k <= top);
        }
        lemma_walk_to(old_arena, base, granule_bits, input_bits, va, other, path, fl);
        lemma_index_in_table(granule_bits, input_bits, va, fl);
        assert(path[f] * e + index_at(config, va, fl) < old_arena.len()) by (nonlinear_arith)
            requires
                (path[f] + 1) * e <= old_arena.len(),
                0 <= index_at(config, va, fl) < e,
        ;
        lemma_read_entry(old_arena, base, granule_bits, path[f], index_at(config, va, fl) as int);
        lemma_constants();
        if top == f {
            lemma_walk_to(new_arena, base, granule_bits, input_bits, va, other, path, fl);
            lemma_read_entry(new_arena, base, granule_bits, path[f], index_at(config, va, fl) as int);
        } else {
            assert forall|k: int| 0 <= k <= f + 1 implies 0 <= #[trigger] path[k] && (path[k] + 1)
                * e <= new_arena.len() by {
                assert(0 <= k <= top);
            }
            lemma_walk_to(new_arena, base, granule_bits, input_bits, va, other, path, (fl + 1) as u32);
            assert forall|j: int| (f + 1) as u32 <= j <= top implies 0 <= #[trigger] path[j] && (
            path[j] + 1) * e <= new_arena.len() by {
                assert(0 <= j <= top);
            }
            lemma_walk_zeros(
                new_arena,
                base,
                granule_bits,
                input_bits,
                va,
                other,
                path,
                (fl + 1) as u32,
                top as u32,
            );
        }
    }
}

/// What extending `va`'s walk does to an address that leaves `va`'s path
/// at or above level `d`: if it was free at `d`, it still is. Above the
/// level the chain starts at its walk is untouched; below it the address
/// turns off into a fresh table, which holds nothing but `va`'s entry.
pub proof fn lemma_chain_divergence(
    new_arena: Seq<u64>,
    old_arena: Seq<u64>,
    base: u64,
    granule_bits: u32,
    input_bits: u32,
    old_tables: int,
    levels: Seq<u32>,
    reps: Seq<u64>,
    va: u64,
    path: Seq<int>,
    f: int,
    top: int,
    other: u64,
    d: u32,
)
    requires
        structure_ok(old_arena, base, granule_bits, input_bits, old_tables, levels, reps),
        chain_state(
            new_arena,
            old_arena,
            base,
            granule_bits,
            input_bits,
            old_tables,
            va,
            path,
            f,
            top,
        ),
        forall|k: int| 0 <= k <= f ==> levels[#[trigger] path[k]] == k,
        prefix_eq(config_for(granule_bits, input_bits), va, reps[path[f]], f as nat),
        old_arena[path[f] * entries_of(granule_bits) + index_at(
            config_for(granule_bits, input_bits),
            va,
            f as u32,
        )] == 0,
        va < (1u64 << input_bits),
        d <= top,
        !prefix_eq(config_for(granule_bits, input_bits), other, va, (d + 1) as nat),
        free_at(
            walk_spec(base, other, config_for(granule_bits, input_bits), arena_memory(old_arena, base)),
            d,
        ),
    ensures
        free_at(
            walk_spec(base, other, config_for(granule_bits, input_bits), arena_memory(new_arena, base)),
            d,
        ),
{
    let config = config_for(granule_bits, input_bits);
    let e = entries_of(granule_bits);
    lemma_config_shape(granule_bits, input_bits);
    lemma_granule_facts(granule_bits);
    let fl = f as u32;
    if other >= (1u64 << input_bits) {
    } else if !prefix_eq(config, other, va, (f + 1) as nat) {
        assert(0 <= f <= f);
        lemma_walk_outside(
            old_arena,
            new_arena,
            base,
            granule_bits,
            input_bits,
            old_tables,
            levels,
            reps,
            va,
            path[f],
            fl,
            other,
        );
    } else {
        if d <= f {
            lemma_prefix_mono(granule_bits, input_bits, other, va, (fl + 1) as u32, (d + 1) as u32);
            assert(false);
        }
        assert(f < d);
        assert forall|k: int| 0 <= k <= f + 1 implies 0 <= #[trigger] path[k] && (path[k] + 1) * e
            <= new_arena.len() by {
            assert(0 <= k <= top);
        }
        lemma_walk_to(new_arena, base, granule_bits, input_bits, va, other, path, (fl + 1) as u32);
        assert forall|j: int| (f + 1) as u32 <= j <= d implies 0 <= #[trigger] path[j] && (path[j]
            + 1) * e <= new_arena.len() by {
            assert(0 <= j <= top);
        }
        lemma_walk_zeros(
            new_arena,
            base,
            granule_bits,
            input_bits,
            va,
            other,
            path,
            (fl + 1) as u32,
            d,
        );
    }
}

/// Table addresses lie at or above the arena's base.
pub proof fn lemma_table_address_above(base: u64, granule_bits: u32, t: int)
    requires
        t >= 0,
    ensures
        table_address(base, granule_bits, t) >= base,
{
    let g = granule_bits_size(granule_bits);
    assert(t * g >= 0) by (nonlinear_arith)
        requires
            t >= 0,
            g >= 0,
    ;
}

/// Allocating a fresh table `c` and pointing `va`'s descriptor at `level` to
/// it extends the chain by one level.
pub proof fn lemma_chain_step(
    a0: Seq<u64>,
    a2: Seq<u64>,
    old_arena: Seq<u64>,
    base: u64,
    granule_bits: u32,
    input_bits: u32,
    old_tables: int,
    va: u64,
    path: Seq<int>,
    f: int,
    level: int,
    c: int,
)
    requires
        supported_granule(granule_bits),
        16 <= input_bits <= 48,
        chain_state(a0, old_arena, base, granule_bits, input_bits, old_tables, va, path, f, level),
        a0[path[level] * entries_of(granule_bits) + index_at(
            config_for(granule_bits, input_bits),
            va,
            level as u32,
        )] == 0,
        level + 1 < levels_of(granule_bits, input_bits),
        c == old_tables + level - f,
        (c + 1) * entries_of(granule_bits) <= a0.len(),
        a2.len() == a0.len(),
        forall|i: int|
            0 <= i < a0.len() && !(c * entries_of(granule_bits) <= i < (c + 1) * entries_of(
                granule_bits,
            )) && i != path[level] * entries_of(granule_bits) + index_at(
                config_for(granule_bits, input_bits),
                va,
                level as u32,
            ) ==> #[trigger] a2[i] == a0[i],
        forall|i: int|
            c * entries_of(granule_bits) <= i < (c + 1) * entries_of(granule_bits) ==> #[trigger] a2[i]
                == 0,
        a2[path[level] * entries_of(granule_bits) + index_at(
            config_for(granule_bits, input_bits),
            va,
            level as u32,
        )] == table_address(base, granule_bits, c) + 3,
    ensures
        chain_state(
            a2,
            old_arena,
            base,
            granule_bits,
            input_bits,
            old_tables,
            va,
            path.push(c),
            f,
            level + 1,
        ),
        a2[c * entries_of(granule_bits) + index_at(
            config_for(granule_bits, input_bits),
            va,
            (level + 1) as u32,
        )] == 0,
{
    let config = config_for(granule_bits, input_bits);
    let e = entries_of(granule_bits);
    lemma_granule_facts(granule_bits);
    lemma_config_shape(granule_bits, input_bits);
    let p2 = path.push(c);
    let top_index = index_at(config, va, level as u32);
    let slot = path[level] * e + top_index;
    lemma_index_in_table(granule_bits, input_bits, va, level as u32);
    lemma_index_in_table(granule_bits, input_bits, va, (level + 1) as u32);
    assert(0 <= f <= level);
    assert(0 <= level <= level);
    assert(c * e + e == (c + 1) * e) by (nonlinear_arith);
    assert(c * e >= 0) by (nonlinear_arith)
        requires
            c >= 0,
            e > 0,
    ;
    assert forall|k: int| 0 <= k <= level + 1 implies 0 <= #[trigger] p2[k] && (p2[k] + 1) * e
        <= a2.len() by {
        if k <= level {
            assert(0 <= k <= level);
        }
    }
    assert forall|k: int| 0 <= k <= f implies 0 <= #[trigger] p2[k] < old_tables by {
        assert(0 <= k <= f);
    }
    assert forall|j: int| f < j <= level + 1 implies #[trigger] p2[j] == old_tables + j - f - 1 by {
        if j <= level {
            assert(f < j <= level);
        }
    }
    assert forall|k: int| 0 <= k < level + 1 implies #[trigger] a2[p2[k] * e + index_at(
        config,
        va,
        k as u32,
    )] == table_address(base, granule_bits, p2[k + 1]) + 3 by {
        if k < level {
            assert(0 <= k < level);
            assert(0 <= k <= level);
            lemma_index_in_table(granule_bits, input_bits, va, k as u32);
            let i = path[k] * e + index_at(config, va, k as u32);
            if k <= f {
                assert(0 <= k <= f);
            } else {
                assert(f < k <= level);
            }
            lemma_slot_in_tables(e, c, path[k], index_at(config, va, k as u32) as int);
            assert(0 <= k + 1 <= level);
            lemma_table_address_above(base, granule_bits, path[k + 1]);
            assert(a0[i] == table_address(base, granule_bits, path[k + 1]) + 3);
            assert(i != slot);
            assert(a2[i] == a0[i]);
        }
    }
    assert forall|j: int, y: int|
        f < j <= level + 1 && 0 <= y < e && y != index_at(config, va, j as u32) implies #[trigger] a2[p2[j]
        * e + y] == 0 by {
        if j <= level {
            assert(f < j <= level);
            let i = path[j] * e + y;
            lemma_slot_in_tables(e, c, path[j], y);
            if i == slot {
                lemma_slot_injective(e, path[j], y, path[level], top_index as int);
            }
            assert(a2[i] == a0[i]);
        } else {
            lemma_slot_in_tables(e, c + 1, c, y);
            assert(c * e <= c * e + y) by (nonlinear_arith)
                requires
                    y >= 0,
            ;
        }
    }
    assert forall|u: int, y: int|
        0 <= u < old_tables && 0 <= y < e && !(u == p2[f] && y == index_at(
            config,
            va,
            f as u32,
        )) implies #[trigger] a2[u * e + y] == old_arena[u * e + y] by {
        let i = u * e + y;
        lemma_slot_in_tables(e, c, u, y);
        if i == slot {
            lemma_slot_injective(e, u, y, path[level], top_index as int);
            if level > f {
                assert(f < level <= level);
            }
        }
        assert(a2[i] == a0[i]);
    }
    lemma_slot_in_tables(e, c + 1, c, index_at(config, va, (level + 1) as u32) as int);
    assert(c * e <= c * e + index_at(config, va, (level + 1) as u32)) by (nonlinear_arith)
        requires
            index_at(config, va, (level + 1) as u32) >= 0,
    ;
}

/// Writing the descriptor `va` reads at the bottom of its chain keeps the
/// chain.
pub proof fn lemma_chain_write_top(
    a0: Seq<u64>,
    old_arena: Seq<u64>,
    base: u64,
    granule_bits: u32,
    input_bits: u32,
    old_tables: int,
    va: u64,
    path: Seq<int>,
    f: int,
    top: int,
    value: u64,
)
    requires
        supported_granule(granule_bits),
        16 <= input_bits <= 48,
        chain_state(a0, old_arena, base, granule_bits, input_bits, old_tables, va, path, f, top),
        a0[path[top] * entries_of(granule_bits) + index_at(
            config_for(granule_bits, input_bits),
            va,
            top as u32,
        )] == 0,
    ensures
        chain_state(
            a0.update(
                path[top] * entries_of(granule_bits) + index_at(
                    config_for(granule_bits, input_bits),
                    va,
                    top as u32,
                ),
                value,
            ),
            old_arena,
            base,
            granule_bits,
            input_bits,
            old_tables,
            va,
            path,
            f,
            top,
        ),
{
    let config = config_for(granule_bits, input_bits);
    let e = entries_of(granule_bits);
    lemma_granule_facts(granule_bits);
    lemma_config_shape(granule_bits, input_bits);
    let top_index = index_at(config, va, top as u32);
    let slot = path[top] * e + top_index;
    let a2 = a0.update(slot, value);
    lemma_index_in_table(granule_bits, input_bits, va, top as u32);
    assert(0 <= f <= top);
    assert(0 <= top <= top);
    assert(0 <= slot < a0.len()) by (nonlinear_arith)
        requires
            slot == path[top] * e + top_index,
            0 <= path[top],
            (path[top] + 1) * e <= a0.len(),
            0 <= top_index < e,
    ;
    assert forall|k: int| 0 <= k < top implies #[trigger] a2[path[k] * e + index_at(
        config,
        va,
        k as u32,
    )] == table_address(base, granule_bits, path[k + 1]) + 3 by {
        assert(0 <= k < top);
        assert(0 <= k <= top);
        assert(0 <= k + 1 <= top);
        lemma_index_in_table(granule_bits, input_bits, va, k as u32);
        let i = path[k] * e + index_at(config, va, k as u32);
        lemma_slot_in_tables(e, path[k] + 1, path[k], index_at(config, va, k as u32) as int);
        assert(a0[i] == table_address(base, granule_bits, path[k + 1]) + 3);
    }
    assert forall|j: int, y: int|
        f < j <= top && 0 <= y < e && y != index_at(config, va, j as u32) implies #[trigger] a2[path[j]
        * e + y] == 0 by {
        assert(f < j <= top);
        assert(0 <= j <= top);
        let i = path[j] * e + y;
        lemma_slot_in_tables(e, path[j] + 1, path[j], y);
        if i == slot {
            lemma_slot_injective(e, path[j], y, path[top], top_index as int);
        }
    }
    assert forall|u: int, y: int|
        0 <= u < old_tables && 0 <= y < e && !(u == path[f] && y == index_at(
            config,
            va,
            f as u32,
        )) implies #[trigger] a2[u * e + y] == old_arena[u * e + y] by {
        let i = u * e + y;
        lemma_slot_in_tables(e, old_tables, u, y);
        if i == slot {
            lemma_slot_injective(e, u, y, path[top], top_index as int);
            if top > f {
                assert(f < top <= top);
            }
        }
        assert(a0[i] == old_arena[i]);
    }
}

/// An address agrees with `w` above bit `s` exactly when it lies in the
/// `2^s`-aligned unit that starts at `w`.
pub proof fn lemma_same_unit(w: u64, other: u64, s: u32)
    requires
        s < 64,
        w % (1u64 << s) == 0,
    ensures
        ((other >> s) == (w >> s)) == (w <= other && other < w + (1u64 << s)),
{
    lemma_shift_facts(other, s);
    lemma_shift_facts(w, s);
    vstd::bits::lemma_u64_shr_is_div(other, s as u64);
    vstd::bits::lemma_u64_shr_is_div(w, s as u64);
    vstd::bits::lemma_u64_pow2_no_overflow(s as nat);
    vstd::bits::lemma_u64_shl_is_mul(1, s as u64);
    let p = vstd::arithmetic::power2::pow2(s as nat) as int;
    assert(p > 0);
    let q = (w as int) / p;
    vstd::arithmetic::div_mod::lemma_fundamental_div_mod(w as int, p);
    vstd::arithmetic::div_mod::lemma_fundamental_div_mod(other as int, p);
    assert((1u64 << s) as int == p);
    assert((w as int) % p == 0);
    assert(w as int == q * p) by (nonlinear_arith)
        requires
            w as int == p * q + (w as int) % p,
            (w as int) % p == 0,
    ;
    if w <= other && other < w + p {
        vstd::arithmetic::div_mod::lemma_fundamental_div_mod_converse(
            other as int,
            p,
            q,
            other - w,
        );
    }
}

/// Where the unit of `unit` bytes that holds `other` starts, in a range at
/// `va`.
pub open spec fn unit_start(va: u64, other: u64, unit: u64) -> u64 {
    (va + (other - va) / (unit as int) * unit) as u64
}

/// Addresses of the range `[va, va + length)` that a descriptor written at
/// level `stop` for their unit covers.
pub open spec fn covered(
    config: WalkConfig,
    va: u64,
    length: u64,
    unit: u64,
    stop: u32,
    other: u64,
) -> bool {
    &&& va <= other < va + length
    &&& prefix_eq(config, other, unit_start(va, other, unit), (stop + 1) as nat)
}

/// The translation mapping `[va, va + length)` to `pa` in units of `unit`,
/// with descriptors of `kind` at level `stop`, gives a covered address.
pub open spec fn mapped_translation(
    config: WalkConfig,
    va: u64,
    pa: u64,
    unit: u64,
    attributes: u64,
    kind: u64,
    stop: u32,
    other: u64,
) -> Result<Translation, WalkError> {
    leaf_result(
        config,
        other,
        leaf_descriptor(
            config.granule_bits,
            saturating_offset(pa, ((other - va) / (unit as int) * unit) as u64),
            attributes,
            kind,
        ),
        stop,
    )
}

/// What mapping `[va, va + length)` to `pa` in units of `unit`, with
/// descriptors of `kind` at level `stop`, does to a builder.
///
/// A misaligned range and one past the input width are refused with nothing
/// written. Otherwise the units are mapped in order: every covered address
/// translates to its unit's descriptor on success; a refusal
/// ([`BuildError::AlreadyMapped`] or [`BuildError::OutOfTables`]) keeps the
/// units mapped before it. No address outside the covered ones changes,
/// except from free to free. A covered address that is already mapped is
/// never overwritten: the call fails and the address keeps its translation.
/// Mapping a single unit fails with [`BuildError::AlreadyMapped`] exactly
/// when its address is not free, and otherwise succeeds exactly when the
/// arena holds the tables the walk still lacks, which it then uses; an
/// address that leaves the unit's path at or above a level it was free at
/// stays free there.
pub open spec fn range_outcome(
    before: TableBuilder,
    after: TableBuilder,
    result: Result<(), BuildError>,
    va: u64,
    pa: u64,
    length: u64,
    attributes: u64,
    unit: u64,
    stop: u32,
    kind: u64,
) -> bool {
    let config = before.walk_config();
    let misaligned = va % unit != 0 || pa % unit != 0 || length % unit != 0;
    let out_of_range = va + length > (1u64 << before.input_bits_spec());
    &&& after.wf()
    &&& after.base_spec() == before.base_spec()
    &&& after.granule_bits_spec() == before.granule_bits_spec()
    &&& after.input_bits_spec() == before.input_bits_spec()
    &&& after.arena_view().len() == before.arena_view().len()
    &&& misaligned ==> result == Err::<(), BuildError>(BuildError::MisalignedRange) && after
        == before
    &&& !misaligned && out_of_range ==> result == Err::<(), BuildError>(
        BuildError::AddressOutOfRange,
    ) && after == before
    &&& !misaligned && !out_of_range ==> (result is Ok || result == Err::<(), BuildError>(
        BuildError::AlreadyMapped,
    ) || result == Err::<(), BuildError>(BuildError::OutOfTables))
    &&& result == Err::<(), BuildError>(BuildError::AlreadyMapped) ==> exists|other: u64|
        va <= other < va + length && !free_at(#[trigger] before.translation(other), stop)
    &&& (!misaligned && !out_of_range && forall|other: u64|
        va <= other < va + length ==> free_at(#[trigger] before.translation(other), stop)) ==> (
    result != Err::<(), BuildError>(BuildError::AlreadyMapped) && (before.tables_used_spec() + (
    length / unit) * stop <= before.capacity() ==> result is Ok))
    &&& result == Err::<(), BuildError>(BuildError::OutOfTables) ==> after.tables_used_spec()
        == after.capacity()
    &&& forall|other: u64|
        covered(config, va, length, unit, stop, other) ==> (#[trigger] after.translation(other)
            == mapped_translation(config, va, pa, unit, attributes, kind, stop, other) || (
        result is Err && kept(before.translation(other), after.translation(other), stop)))
    &&& result is Ok ==> forall|other: u64|
        covered(config, va, length, unit, stop, other) ==> #[trigger] after.translation(other)
            == mapped_translation(config, va, pa, unit, attributes, kind, stop, other)
    &&& forall|other: u64|
        !covered(config, va, length, unit, stop, other) ==> kept(
            before.translation(other),
            #[trigger] after.translation(other),
            stop,
        )
    &&& forall|other: u64|
        covered(config, va, length, unit, stop, other) && !free_at(before.translation(other), stop)
            ==> result is Err && #[trigger] after.translation(other) == before.translation(other)
    &&& !misaligned && !out_of_range && length == unit ==> {
        &&& (result == Err::<(), BuildError>(BuildError::AlreadyMapped)) == !free_at(
            before.translation(va),
            stop,
        )
        &&& free_at(before.translation(va), stop) ==> (result is Ok <==> before.tables_used_spec()
            + tables_needed(before.translation(va), stop) <= before.capacity())
        &&& result is Ok ==> after.tables_used_spec() == before.tables_used_spec() + tables_needed(
            before.translation(va),
            stop,
        )
        &&& result == Err::<(), BuildError>(BuildError::AlreadyMapped) ==> after == before
        &&& forall|other: u64, d: u32|
            #![trigger after.translation(other), free_at(before.translation(other), d)]
            d <= stop && !prefix_eq(config, other, va, (d + 1) as nat) && free_at(
                before.translation(other),
                d,
            ) ==> free_at(after.translation(other), d)
    }
    &&& result is Ok ==> before.tables_used_spec() <= after.tables_used_spec()
        <= before.tables_used_spec() + (length / unit) * stop
}

/// Addresses of one unit at `stop` share a free walk: when one of them is
/// free at `stop`, the other walks exactly as it does.
pub proof fn lemma_free_translation_shared(builder: TableBuilder, a: u64, b: u64, stop: u32)
    requires
        builder.wf(),
        stop < builder.levels_spec(),
        a < (1u64 << builder.input_bits_spec()),
        b < (1u64 << builder.input_bits_spec()),
        prefix_eq(builder.walk_config(), a, b, (stop + 1) as nat),
        free_at(builder.translation(a), stop),
    ensures
        builder.translation(b) == builder.translation(a),
{
    builder.lemma_wf_facts();
    let g = builder.granule_bits_spec();
    let ib = builder.input_bits_spec();
    let config = builder.walk_config();
    lemma_config_shape(g, ib);
    assert forall|k: u32| 0 <= k <= stop implies #[trigger] index_at(config, a, k) == index_at(
        config,
        b,
        k,
    ) by {
        lemma_prefix_mono(g, ib, a, b, (stop + 1) as u32, k);
    }
    lemma_free_walk_shared(
        config,
        a,
        b,
        arena_memory(builder.arena_view(), builder.base_spec()),
        0,
        builder.base_spec() & output_address_mask(g),
        stop,
    );
}

/// Addresses that read the same indices above level `k`, of which the
/// first has a translation at `k` or below: an invalid descriptor stops the
/// second at `k` or below too.
pub proof fn lemma_translation_reaches(builder: TableBuilder, a: u64, b: u64, k: u32)
    requires
        builder.wf(),
        k < builder.levels_spec(),
        a < (1u64 << builder.input_bits_spec()),
        b < (1u64 << builder.input_bits_spec()),
        prefix_eq(builder.walk_config(), a, b, k as nat),
        ends_at_or_below(builder.translation(a), k),
    ensures
        builder.translation(b) matches Err(WalkError::InvalidDescriptor { level, .. }) ==> level >= k,
{
    builder.lemma_wf_facts();
    let g = builder.granule_bits_spec();
    let ib = builder.input_bits_spec();
    let config = builder.walk_config();
    lemma_config_shape(g, ib);
    assert forall|j: u32| 0 <= j < k implies #[trigger] index_at(config, a, j) == index_at(
        config,
        b,
        j,
    ) by {
        lemma_prefix_mono(g, ib, a, b, k, j);
    }
    lemma_walk_reaches(
        config,
        a,
        b,
        arena_memory(builder.arena_view(), builder.base_spec()),
        0,
        builder.base_spec() & output_address_mask(g),
        k,
    );
}

/// A multiple of `2^big` is a multiple of `2^small`.
pub proof fn lemma_aligned_to_smaller(w: u64, big: u32, small: u32)
    requires
        small <= big < 64,
        w % (1u64 << big) == 0,
    ensures
        w % (1u64 << small) == 0,
{
    lemma_shift_facts(w, big);
    lemma_shift_facts(w, small);
    vstd::bits::lemma_u64_pow2_no_overflow(big as nat);
    vstd::bits::lemma_u64_pow2_no_overflow(small as nat);
    vstd::bits::lemma_u64_shl_is_mul(1, big as u64);
    vstd::bits::lemma_u64_shl_is_mul(1, small as u64);
    let pb = vstd::arithmetic::power2::pow2(big as nat) as int;
    let ps = vstd::arithmetic::power2::pow2(small as nat) as int;
    let pd = vstd::arithmetic::power2::pow2((big - small) as nat) as int;
    vstd::arithmetic::power2::lemma_pow2_adds(small as nat, (big - small) as nat);
    vstd::arithmetic::div_mod::lemma_fundamental_div_mod(w as int, pb);
    let q = (w as int) / pb;
    assert(w == ps * (pd * q)) by (nonlinear_arith)
        requires
            w == pb * q + 0,
            pb == ps * pd,
    ;
    vstd::arithmetic::div_mod::lemma_mod_multiples_basic(pd * q, ps);
    vstd::arithmetic::mul::lemma_mul_is_commutative(ps, pd * q);
}

/// Block size for a granule: the reach of one descriptor at the level
/// above the last.
pub open spec fn block_size_of(granule_bits: u32) -> u64 {
    1u64 << ((2 * granule_bits - 3) as u32)
}

/// The level blocks are written at: the one above the last, or the only
/// level when there is one.
pub open spec fn block_level_of(levels: u32) -> u32 {
    if levels >= 2 {
        (levels - 2) as u32
    } else {
        0u32
    }
}

/// Why [`TableBuilder::new`] refuses an arena of `arena_len` descriptors at
/// `base`, if it does.
pub open spec fn new_refusal(arena_len: nat, base: u64, granule_bits: u32, input_bits: u32) -> Option<
    BuildError,
> {
    if !supported_granule(granule_bits) || !(16 <= input_bits <= 48) {
        Some(BuildError::UnsupportedConfiguration)
    } else if base % (1u64 << granule_bits) != 0 {
        Some(BuildError::MisalignedArena)
    } else if arena_len < entries_of(granule_bits) {
        Some(BuildError::OutOfTables)
    } else {
        None
    }
}

/// The translation of every address through an empty root table.
pub open spec fn empty_translation(input_bits: u32, va: u64) -> Result<Translation, WalkError> {
    if va >= (1u64 << input_bits) {
        Err(WalkError::AddressOutOfRange)
    } else {
        Err(WalkError::InvalidDescriptor { level: 0, descriptor: 0 })
    }
}

/// Tables a mapping at `stop` has to create below where the walk ended.
pub open spec fn tables_needed(result: Result<Translation, WalkError>, stop: u32) -> nat {
    match result {
        Err(WalkError::InvalidDescriptor { level, .. }) => if level <= stop {
            (stop - level) as nat
        } else {
            0
        },
        _ => 0,
    }
}

/// A builder over a table arena, writing descriptors for block and page
/// mappings.
pub struct TableBuilder {
    arena: Vec<u64>,
    /// Physical address that `arena[0]` lives at.
    base: u64,
    granule_bits: u32,
    input_bits: u32,
    levels: u32,
    tables_used: usize,
    /// Level of the walk each allocated table is used at.
    table_levels: Ghost<Seq<u32>>,
    /// For each allocated table, an address whose walk passes through it.
    table_reps: Ghost<Seq<u64>>,
}

impl TableBuilder {
    /// The arena's descriptors.
    pub closed spec fn arena_view(self) -> Seq<u64> {
        self.arena@
    }

    /// Physical address of the arena (and of the root table).
    pub closed spec fn base_spec(self) -> u64 {
        self.base
    }

    /// Granule, in bits.
    pub closed spec fn granule_bits_spec(self) -> u32 {
        self.granule_bits
    }

    /// Input address width, in bits.
    pub closed spec fn input_bits_spec(self) -> u32 {
        self.input_bits
    }

    /// Tables allocated so far.
    pub closed spec fn tables_used_spec(self) -> nat {
        self.tables_used as nat
    }

    /// The walk configuration these tables are built for.
    pub open spec fn walk_config(self) -> WalkConfig {
        config_for(self.granule_bits_spec(), self.input_bits_spec())
    }

    /// Levels the walk traverses.
    pub open spec fn levels_spec(self) -> u32 {
        levels_of(self.granule_bits_spec(), self.input_bits_spec())
    }

    /// How many tables the arena holds.
    pub open spec fn capacity(self) -> nat {
        (self.arena_view().len() as int / entries_of(self.granule_bits_spec())) as nat
    }

    /// Output-address mask of the descriptors.
    pub open spec fn mask_spec(self) -> u64 {
        output_address_mask(self.granule_bits_spec())
    }

    /// What the walker makes of `va` over the tables built so far, rooted at
    /// the arena's base.
    pub open spec fn translation(self, va: u64) -> Result<Translation, WalkError> {
        walk_spec(
            self.base_spec(),
            va,
            self.walk_config(),
            arena_memory(self.arena_view(), self.base_spec()),
        )
    }

    /// The builder's invariant.
    pub closed spec fn wf(self) -> bool {
        &&& structure_ok(
            self.arena@,
            self.base,
            self.granule_bits,
            self.input_bits,
            self.tables_used as int,
            self.table_levels@,
            self.table_reps@,
        )
        &&& self.levels == levels_of(self.granule_bits, self.input_bits)
    }

    /// Facts every well-formed builder gives its callers.
    pub proof fn lemma_wf_facts(self)
        requires
            self.wf(),
        ensures
            supported_granule(self.granule_bits_spec()),
            16 <= self.input_bits_spec() <= 48,
            self.base_spec() % (1u64 << self.granule_bits_spec()) == 0,
            self.base_spec() + self.arena_view().len() * 8 <= OUTPUT_ADDRESS_LIMIT,
            1 <= self.tables_used_spec() <= self.capacity(),
            self.walk_config().computable(),
    {
        lemma_config_shape(self.granule_bits, self.input_bits);
        lemma_granule_facts(self.granule_bits);
        let e = entries_of(self.granule_bits);
        vstd::arithmetic::div_mod::lemma_div_is_ordered(
            self.tables_used as int * e,
            self.arena@.len() as int,
            e,
        );
        vstd::arithmetic::div_mod::lemma_fundamental_div_mod_converse(
            self.tables_used as int * e,
            e,
            self.tables_used as int,
            0,
        );
    }
}


impl TableBuilder {
    /// Create a builder over `arena`, which lives at physical address `base`.
    ///
    /// Table zero, the root, is allocated and zeroed here, so that
    /// [`TableBuilder::root`] names a table before any mapping.
    pub fn new(arena: Vec<u64>, base: u64, granule_bits: u32, input_bits: u32) -> (result: Result<
        Self,
        BuildError,
    >)
        requires
            base + arena@.len() * 8 <= OUTPUT_ADDRESS_LIMIT,
        ensures
            new_refusal(arena@.len(), base, granule_bits, input_bits) matches Some(error) ==> result
                == Err::<Self, BuildError>(error),
            new_refusal(arena@.len(), base, granule_bits, input_bits) is None ==> result is Ok,
            result matches Ok(builder) ==> {
                &&& builder.wf()
                &&& builder.base_spec() == base
                &&& builder.granule_bits_spec() == granule_bits
                &&& builder.input_bits_spec() == input_bits
                &&& builder.tables_used_spec() == 1
                &&& builder.arena_view().len() == arena@.len()
                &&& forall|i: int| 0 <= i < entries_of(granule_bits) ==> builder.arena_view()[i] == 0
                &&& forall|i: int|
                    entries_of(granule_bits) <= i < arena@.len() ==> builder.arena_view()[i]
                        == arena@[i]
                &&& forall|va: u64| #[trigger]
                    builder.translation(va) == empty_translation(input_bits, va)
            },
    {
        if !(granule_bits == 12 || granule_bits == 14 || granule_bits == 16) {
            return Err(BuildError::UnsupportedConfiguration);
        }
        if input_bits < 16 || input_bits > 48 {
            return Err(BuildError::UnsupportedConfiguration);
        }
        proof {
            lemma_granule_facts(granule_bits);
            lemma_config_shape(granule_bits, input_bits);
        }
        let granule = 1u64 << granule_bits;
        if base % granule != 0 {
            return Err(BuildError::MisalignedArena);
        }
        let stride = granule_bits - 3;
        let index_bits = input_bits - granule_bits;
        let quotient = index_bits / stride + if index_bits % stride == 0 {
            0
        } else {
            1
        };
        let levels = if quotient == 0 {
            1
        } else {
            quotient
        };
        assert(levels == levels_of(granule_bits, input_bits));
        proof {
            lemma_shift_facts(0, input_bits);
        }
        let ghost arena_in = arena@;
        let mut builder = TableBuilder {
            arena,
            base,
            granule_bits,
            input_bits,
            levels,
            tables_used: 0,
            table_levels: Ghost(Seq::empty()),
            table_reps: Ghost(Seq::empty()),
        };
        assert(builder.arena@ == arena_in);
        assert(builder.tables_used == 0);
        match builder.allocate_table(Ghost(0u32), Ghost(0u64)) {
            Ok(_) => {},
            Err(error) => {
                assert(builder.tables_used == 0);
                assert(!((builder.tables_used + 1) * entries_of(granule_bits) <= arena_in.len()));
                assert(arena_in.len() < entries_of(granule_bits));
                return Err(error);
            },
        }
        proof {
            let e = entries_of(granule_bits);
            let config = config_for(granule_bits, input_bits);
            assert(base < OUTPUT_ADDRESS_LIMIT);
            assert(base & output_address_mask(granule_bits) == base);
            assert forall|va: u64| #[trigger]
                builder.translation(va) == empty_translation(input_bits, va) by {
                if va < (1u64 << input_bits) {
                    lemma_index_in_table(granule_bits, input_bits, va, 0);
                    let idx = index_at(config, va, 0);
                    lemma_read_entry(builder.arena@, base, granule_bits, 0, idx as int);
                    assert(builder.arena@[idx as int] == 0);
                    lemma_constants();
                }
            }
            assert forall|i: int| entries_of(granule_bits) <= i < arena_in.len() implies builder.arena_view()[i] == arena_in[i] by {
                assert(!(0 <= i < 1 * e));
            }
        }
        Ok(builder)
    }

    /// Physical address of the root table, for `TTBR`.
    pub fn root(&self) -> (root: u64)
        ensures
            root == self.base_spec(),
    {
        self.base
    }

    /// Tables consumed so far.
    pub fn tables_used(&self) -> (used: usize)
        ensures
            used == self.tables_used_spec(),
    {
        self.tables_used
    }

    /// Levels the walk will traverse.
    pub fn levels(&self) -> (levels: u32)
        requires
            self.wf(),
        ensures
            levels == self.levels_spec(),
    {
        self.levels
    }

    /// Walk the tables built so far from the root, as the hardware would
    /// once the arena sits at its physical address: descriptors are read from
    /// the arena, and addresses outside it read as zero.
    pub fn translate(&self, virtual_address: u64) -> (result: Result<Translation, WalkError>)
        requires
            self.wf(),
        ensures
            result == self.translation(virtual_address),
    {
        proof {
            self.lemma_wf_facts();
            lemma_config_shape(self.granule_bits, self.input_bits);
        }
        let config = WalkConfig { granule_bits: self.granule_bits, t0sz: 64 - self.input_bits };
        let arena = self.arena.as_slice();
        let base = self.base;
        let read = |pa: u64| -> (descriptor: u64)
            ensures
                descriptor == arena_memory(arena@, base)(pa),
            {
                if pa >= base && (pa - base) / 8 < arena.len() as u64 {
                    arena[((pa - base) / 8) as usize]
                } else {
                    0
                }
            };
        walk(base, virtual_address, config, read)
    }

    /// The descriptors written so far, to be placed at the arena's physical
    /// address.
    pub fn arena(&self) -> (arena: &[u64])
        ensures
            arena@ == self.arena_view(),
    {
        self.arena.as_slice()
    }

    /// Bits resolved per level.
    fn stride(&self) -> (stride: u32)
        requires
            self.wf(),
        ensures
            stride == self.granule_bits_spec() - 3,
            9 <= stride <= 13,
    {
        self.granule_bits - 3
    }

    /// Descriptors per table.
    fn entries_per_table(&self) -> (entries: usize)
        requires
            self.wf(),
        ensures
            entries == entries_of(self.granule_bits_spec()),
            512 <= entries <= 8192,
    {
        proof {
            lemma_granule_facts(self.granule_bits);
        }
        1usize << self.stride()
    }

    /// Size of a block at the level above the last.
    ///
    /// The architecture permits block descriptors at exactly one level for
    /// each granule: 2 MiB at 4 KiB, 32 MiB at 16 KiB, 512 MiB at 64 KiB.
    pub fn block_size(&self) -> (size: u64)
        requires
            self.wf(),
        ensures
            size == 1u64 << ((2 * self.granule_bits_spec() - 3) as u32),
            self.granule_bits_spec() == 12 ==> size == 0x20_0000,
            self.granule_bits_spec() == 14 ==> size == 0x200_0000,
            self.granule_bits_spec() == 16 ==> size == 0x2000_0000,
    {
        proof {
            lemma_constants();
        }
        1u64 << (self.granule_bits + self.stride())
    }

    /// Index of the level blocks are written at.
    fn block_level(&self) -> (level: u32)
        requires
            self.wf(),
        ensures
            level == if self.levels_spec() >= 2 { (self.levels_spec() - 2) as u32 } else { 0u32 },
    {
        self.levels.saturating_sub(2)
    }

    /// Output-address mask: granule-aligned, 48 bits wide.
    fn address_mask(&self) -> (mask: u64)
        requires
            self.wf(),
        ensures
            mask == self.mask_spec(),
    {
        proof {
            lemma_granule_facts(self.granule_bits);
        }
        proof {
            lemma_constants();
        }
        ((1u64 << 48) - 1) & !((1u64 << self.granule_bits) - 1)
    }

    /// Table index for `virtual_address` at `level`.
    fn index_at(&self, virtual_address: u64, level: u32) -> (index: u64)
        requires
            self.wf(),
            level < self.levels_spec(),
        ensures
            index == index_at(self.walk_config(), virtual_address, level),
            index < entries_of(self.granule_bits_spec()),
    {
        proof {
            self.lemma_wf_facts();
            lemma_config_shape(self.granule_bits, self.input_bits);
            lemma_index_in_table(self.granule_bits, self.input_bits, virtual_address, level);
        }
        let stride = self.stride();
        assert(stride * (self.levels - level - 1) <= stride * (self.levels - 1)) by (nonlinear_arith)
            requires
                level < self.levels,
        ;
        let shift = self.granule_bits + stride * (self.levels - level - 1);
        let bits = if level == 0 {
            let available = self.input_bits.saturating_sub(shift);
            if available < stride {
                available
            } else {
                stride
            }
        } else {
            stride
        };
        assert(shift == shift_at(self.walk_config(), level));
        assert(bits == bits_at(self.walk_config(), level));
        proof {
            lemma_shift_facts(virtual_address, bits);
        }
        (virtual_address >> shift) & ((1u64 << bits) - 1)
    }

    /// Arena slot of descriptor `index` of the table at physical address `table`.
    fn slot_of(&self, table: u64, index: u64, Ghost(t): Ghost<int>) -> (slot: usize)
        requires
            self.wf(),
            0 <= t,
            (t + 1) * entries_of(self.granule_bits_spec()) <= self.arena_view().len(),
            table == table_address(self.base_spec(), self.granule_bits_spec(), t),
            index < entries_of(self.granule_bits_spec()),
        ensures
            slot == t * entries_of(self.granule_bits_spec()) + index,
    {
        proof {
            self.lemma_wf_facts();
            lemma_granule_facts(self.granule_bits);
            let e = entries_of(self.granule_bits);
            let gsz = granule_of(self.granule_bits);
            assert(t * gsz == 8 * (t * e)) by (nonlinear_arith)
                requires
                    gsz == 8 * e,
            ;
            assert(t * e + index < self.arena@.len()) by (nonlinear_arith)
                requires
                    (t + 1) * e <= self.arena@.len(),
                    index < e,
            ;
            assert(t * e >= 0) by (nonlinear_arith)
                requires
                    t >= 0,
                    e > 0,
            ;
            assert((8 * (t * e)) / 8 == t * e);
        }
        let length = self.arena.len();
        assert(table - self.base == 8 * (t * entries_of(self.granule_bits)));
        ((table - self.base) / 8 + index) as usize
    }

    /// Take the next unused table, zero it, and return its physical address.
    fn allocate_table(&mut self, Ghost(level): Ghost<u32>, Ghost(rep): Ghost<u64>) -> (result:
        Result<u64, BuildError>)
        requires
            tables_ok(
                old(self).arena@,
                old(self).base,
                old(self).granule_bits,
                old(self).input_bits,
                old(self).tables_used as int,
                old(self).table_levels@,
                old(self).table_reps@,
            ),
            old(self).levels == levels_of(old(self).granule_bits, old(self).input_bits),
            level < levels_of(old(self).granule_bits, old(self).input_bits),
            rep < (1u64 << old(self).input_bits),
        ensures
            final(self).base == old(self).base,
            final(self).granule_bits == old(self).granule_bits,
            final(self).input_bits == old(self).input_bits,
            final(self).levels == old(self).levels,
            final(self).arena@.len() == old(self).arena@.len(),
            result is Ok <==> (old(self).tables_used + 1) * entries_of(old(self).granule_bits)
                <= old(self).arena@.len(),
            result is Err ==> result == Err::<u64, BuildError>(BuildError::OutOfTables) && *final(self) == *old(self),
            result matches Ok(address) ==> {
                &&& address == table_address(
                    old(self).base,
                    old(self).granule_bits,
                    old(self).tables_used as int,
                )
                &&& final(self).tables_used == old(self).tables_used + 1
                &&& final(self).table_levels@ == old(self).table_levels@.push(level)
                &&& final(self).table_reps@ == old(self).table_reps@.push(rep)
                &&& forall|i: int|
                    0 <= i < old(self).arena@.len() && !(old(self).tables_used * entries_of(
                        old(self).granule_bits,
                    ) <= i < (old(self).tables_used + 1) * entries_of(old(self).granule_bits))
                        ==> #[trigger] final(self).arena@[i] == old(self).arena@[i]
                &&& forall|i: int|
                    old(self).tables_used * entries_of(old(self).granule_bits) <= i < (old(self).tables_used + 1) * entries_of(old(self).granule_bits) ==> #[trigger] final(self).arena@[i] == 0
                &&& tables_ok(
                    final(self).arena@,
                    final(self).base,
                    final(self).granule_bits,
                    final(self).input_bits,
                    final(self).tables_used as int,
                    final(self).table_levels@,
                    final(self).table_reps@,
                )
            },
    {
        proof {
            lemma_granule_facts(self.granule_bits);
        }
        let ghost prior = *self;
        let ghost e = entries_of(self.granule_bits);
        let entries: usize = 1usize << (self.granule_bits - 3);
        let length = self.arena.len();
        assert(entries == e);
        assert(self.tables_used * entries <= length);
        let start = self.tables_used * entries;
        assert((self.tables_used + 1) * e == self.tables_used * e + e) by (nonlinear_arith);
        if length - start < entries {
            return Err(BuildError::OutOfTables);
        }
        let end = start + entries;
        assert(end == (self.tables_used + 1) * e) by (nonlinear_arith)
            requires
                end == start + entries,
                start == self.tables_used * entries,
                entries == e,
        ;
        let mut i = start;
        // Zeroed, not assumed zero: a stale low bit pair is a descriptor the
        // MMU would follow into nothing.
        while i < end
            invariant
                start <= i <= end,
                end <= self.arena@.len(),
                self.arena@.len() == prior.arena@.len(),
                self.base == prior.base,
                self.granule_bits == prior.granule_bits,
                self.input_bits == prior.input_bits,
                self.levels == prior.levels,
                self.tables_used == prior.tables_used,
                self.table_levels == prior.table_levels,
                self.table_reps == prior.table_reps,
                forall|j: int|
                    0 <= j < self.arena@.len() && !(start <= j < i) ==> #[trigger] self.arena@[j]
                        == prior.arena@[j],
                forall|j: int| start <= j < i ==> #[trigger] self.arena@[j] == 0,
            decreases end - i,
        {
            self.arena[i] = 0;
            i = i + 1;
        }
        let ghost used = self.tables_used as int;
        assert(start * 8 == used * granule_of(self.granule_bits)) by (nonlinear_arith)
            requires
                start == used * e,
                granule_of(self.granule_bits) == 8 * e,
        ;
        assert(used + 1 <= self.arena@.len()) by (nonlinear_arith)
            requires
                (used + 1) * e <= self.arena@.len(),
                e >= 1,
                used >= 0,
        ;
        let address = self.base + (start as u64) * 8;
        self.tables_used = self.tables_used + 1;
        self.table_levels = Ghost(self.table_levels@.push(level));
        self.table_reps = Ghost(self.table_reps@.push(rep));
        proof {
            lemma_structure_push(
                prior.arena@,
                self.arena@,
                self.base,
                self.granule_bits,
                self.input_bits,
                used,
                prior.table_levels@,
                prior.table_reps@,
                level,
                rep,
            );
        }
        Ok(address)
    }
}



impl TableBuilder {
    /// The state while `va`'s walk is being extended: `origin` is the
    /// builder before the mapping call, `va`'s walk ended at level `f` on
    /// `path[f]`, and fresh tables now carry it down to `path[level]`, whose
    /// descriptor for `va` is still empty.
    spec fn growing(
        self,
        origin: TableBuilder,
        va: u64,
        path: Seq<int>,
        f: int,
        level: int,
    ) -> bool {
        let config = self.walk_config();
        let e = entries_of(self.granule_bits);
        &&& origin.wf()
        &&& self.base == origin.base
        &&& self.granule_bits == origin.granule_bits
        &&& self.input_bits == origin.input_bits
        &&& self.levels == origin.levels
        &&& self.levels == levels_of(self.granule_bits, self.input_bits)
        &&& va < (1u64 << self.input_bits)
        &&& 0 <= f <= level
        &&& tables_ok(
            self.arena@,
            self.base,
            self.granule_bits,
            self.input_bits,
            self.tables_used as int,
            self.table_levels@,
            self.table_reps@,
        )
        &&& self.tables_used == origin.tables_used + (level - f)
        &&& forall|u: int|
            0 <= u < origin.tables_used ==> #[trigger] self.table_levels@[u]
                == origin.table_levels@[u] && self.table_reps@[u] == origin.table_reps@[u]
        &&& forall|j: int|
            f < j <= level ==> #[trigger] self.table_levels@[path[j]] == j
                && self.table_reps@[path[j]] == va
        &&& forall|k: int| 0 <= k <= f ==> origin.table_levels@[#[trigger] path[k]] == k
        &&& prefix_eq(config, va, origin.table_reps@[path[f]], f as nat)
        &&& origin.arena@[path[f] * e + index_at(config, va, f as u32)] == 0
        &&& chain_state(
            self.arena@,
            origin.arena@,
            self.base,
            self.granule_bits,
            self.input_bits,
            origin.tables_used as int,
            va,
            path,
            f,
            level,
        )
        &&& self.arena@[path[level] * e + index_at(config, va, level as u32)] == 0
    }

    proof fn lemma_growing_wf(self, origin: TableBuilder, va: u64, path: Seq<int>, f: int, level: int)
        requires
            self.growing(origin, va, path, f, level),
        ensures
            self.wf(),
    {
        assert(self.table_levels@[0] == origin.table_levels@[0]);
    }

    /// Where `va`'s walk through the existing tables stops on the way to
    /// level `stop`: the level and table it reaches, and the tables it
    /// passes.
    fn walk_end(&self, va: u64, stop: u32) -> (end: (u32, u64, Ghost<Seq<int>>))
        requires
            self.wf(),
            va < (1u64 << self.input_bits_spec()),
            stop < self.levels_spec(),
        ensures
            end.0 <= stop,
            end.2@.len() == end.0 + 1,
            end.2@[0] == 0,
            forall|k: int|
                0 <= k <= end.0 ==> 0 <= #[trigger] end.2@[k] < self.tables_used
                    && self.table_levels@[end.2@[k]] == k,
            forall|k: int|
                0 <= k < end.0 ==> #[trigger] self.arena@[end.2@[k] * entries_of(self.granule_bits)
                    + index_at(self.walk_config(), va, k as u32)] == table_address(
                    self.base,
                    self.granule_bits,
                    end.2@[k + 1],
                ) + 3,
            end.1 == table_address(self.base, self.granule_bits, end.2@[end.0 as int]),
            prefix_eq(
                self.walk_config(),
                va,
                self.table_reps@[end.2@[end.0 as int]],
                end.0 as nat,
            ),
            end.0 < stop ==> self.arena@[end.2@[end.0 as int] * entries_of(self.granule_bits)
                + index_at(self.walk_config(), va, end.0)] & 3 != 3,
    {
        let ghost config = self.walk_config();
        let ghost e = entries_of(self.granule_bits);
        proof {
            self.lemma_wf_facts();
            lemma_granule_facts(self.granule_bits);
        }
        let mask = self.address_mask();
        let mut table = self.base;
        let mut level: u32 = 0;
        let ghost mut t: int = 0;
        let ghost mut path: Seq<int> = seq![0int];
        let mut descending = true;
        while descending && level < stop
            invariant
                self.wf(),
                config == self.walk_config(),
                e == entries_of(self.granule_bits),
                mask == output_address_mask(self.granule_bits),
                va < (1u64 << self.input_bits),
                stop < self.levels,
                self.levels == levels_of(self.granule_bits, self.input_bits),
                level <= stop,
                path.len() == level + 1,
                path[0] == 0,
                path[level as int] == t,
                0 <= t < self.tables_used,
                table == table_address(self.base, self.granule_bits, t),
                prefix_eq(config, va, self.table_reps@[t], level as nat),
                forall|k: int|
                    0 <= k <= level ==> 0 <= #[trigger] path[k] < self.tables_used
                        && self.table_levels@[path[k]] == k,
                forall|k: int|
                    0 <= k < level ==> #[trigger] self.arena@[path[k] * e + index_at(
                        config,
                        va,
                        k as u32,
                    )] == table_address(self.base, self.granule_bits, path[k + 1]) + 3,
                !descending ==> level < stop && self.arena@[t * e + index_at(config, va, level)]
                    & 3 != 3,
            decreases (stop - level) * 2 + if descending {
                1int
            } else {
                0int
            },
        {
            proof {
                self.lemma_wf_facts();
                lemma_config_shape(self.granule_bits, self.input_bits);
                lemma_granule_facts(self.granule_bits);
                assert(0 <= level <= level);
                lemma_index_in_table(self.granule_bits, self.input_bits, va, level);
            }
            let index = self.index_at(va, level);
            proof {
                lemma_slot_in_tables(e, self.tables_used as int, t, index as int);
            }
            let slot = self.slot_of(table, index, Ghost(t));
            let existing = self.arena[slot];
            if existing & 0b11 == 0b11 {
                let ghost c = (existing - 3 - self.base) / granule_of(self.granule_bits);
                proof {
                    assert(pointer_ok(
                        self.arena@,
                        self.base,
                        self.granule_bits,
                        self.input_bits,
                        self.tables_used as int,
                        self.table_levels@,
                        self.table_reps@,
                        t,
                        index as int,
                    ));
                    lemma_slot_in_tables(e, self.tables_used as int, c, 0);
                    lemma_read_entry(self.arena@, self.base, self.granule_bits, c, 0);
                    let ca = table_address(self.base, self.granule_bits, c);
                    assert((ca as u64) % (1u64 << self.granule_bits) == 0);
                    assert((ca as u64 | 3) == ca + 3);
                    assert(self.table_levels@[t] == level);
                    assert(self.table_reps@[c] < (1u64 << self.input_bits));
                    assert(self.table_reps@[t] < (1u64 << self.input_bits));
                    lemma_prefix_step(
                        self.granule_bits,
                        self.input_bits,
                        self.table_reps@[c],
                        self.table_reps@[t],
                        level,
                    );
                    lemma_prefix_step(self.granule_bits, self.input_bits, va, self.table_reps@[c], level);
                    t = c;
                    path = path.push(c);
                }
                table = existing & mask;
                level = level + 1;
            } else {
                descending = false;
            }
        }
        (level, table, Ghost(path))
    }

    /// Allocate the table `va`'s walk needs below `level` and point the
    /// descriptor at `slot` to it; return the slot `va` reads in it.
    fn extend_one(
        &mut self,
        va: u64,
        level: u32,
        slot: usize,
        Ghost(origin): Ghost<TableBuilder>,
        Ghost(path): Ghost<Seq<int>>,
        Ghost(f): Ghost<int>,
    ) -> (result: Result<usize, BuildError>)
        requires
            old(self).growing(origin, va, path, f, level as int),
            level + 1 < old(self).levels,
            slot == path[level as int] * entries_of(old(self).granule_bits) + index_at(
                old(self).walk_config(),
                va,
                level,
            ),
        ensures
            result matches Ok(next) ==> {
                &&& final(self).growing(
                    origin,
                    va,
                    path.push(old(self).tables_used as int),
                    f,
                    level + 1,
                )
                &&& next == old(self).tables_used * entries_of(old(self).granule_bits) + index_at(
                    old(self).walk_config(),
                    va,
                    (level + 1) as u32,
                )
            },
            result is Err ==> {
                &&& result == Err::<usize, BuildError>(BuildError::OutOfTables)
                &&& *final(self) == *old(self)
                &&& (old(self).tables_used + 1) * entries_of(old(self).granule_bits) > old(
                    self,
                ).arena@.len()
            },
    {
        let ghost config = self.walk_config();
        let ghost e = entries_of(self.granule_bits);
        let ghost a0 = self.arena@;
        let ghost lv0 = self.table_levels@;
        let ghost rp0 = self.table_reps@;
        let ghost c = self.tables_used as int;
        proof {
            assert forall|u: int| 0 <= u < origin.tables_used implies #[trigger] lv0[u]
                == origin.table_levels@[u] && rp0[u] == origin.table_reps@[u] by {
                assert(self.table_levels@[u] == origin.table_levels@[u]);
            }
            assert forall|j: int| f < j <= level implies #[trigger] lv0[path[j]] == j && rp0[path[j]]
                == va by {
                assert(self.table_levels@[path[j]] == j);
            }
            self.lemma_growing_wf(origin, va, path, f, level as int);
            self.lemma_wf_facts();
            lemma_config_shape(self.granule_bits, self.input_bits);
            lemma_granule_facts(self.granule_bits);
            lemma_index_in_table(self.granule_bits, self.input_bits, va, level);
            lemma_index_in_table(self.granule_bits, self.input_bits, va, (level + 1) as u32);
            assert(0 <= level <= level);
        }
        let fresh = match self.allocate_table(Ghost((level + 1) as u32), Ghost(va)) {
            Ok(address) => address,
            Err(error) => {
                return Err(error);
            },
        };
        let ghost a1 = self.arena@;
        proof {
            lemma_slot_in_tables(e, c + 1, c, 0);
            lemma_read_entry(self.arena@, self.base, self.granule_bits, c, 0);
            lemma_slot_in_tables(e, c, path[level as int], index_at(config, va, level) as int);
            assert((fresh as u64) % (1u64 << self.granule_bits) == 0);
            assert(fresh | 3 == fresh + 3);
        }
        self.arena[slot] = fresh | 0b11;
        proof {
            let t = path[level as int];
            assert(pointer_ok(
                self.arena@,
                self.base,
                self.granule_bits,
                self.input_bits,
                self.tables_used as int,
                self.table_levels@,
                self.table_reps@,
                t,
                index_at(config, va, level) as int,
            )) by {
                assert(self.table_levels@[c] == level + 1);
                assert(self.table_reps@[c] == va);
                if level as int == f {
                    assert(0 <= f <= f);
                    assert(0 <= t < origin.tables_used);
                    assert(self.table_levels@[t] == origin.table_levels@[t]);
                } else {
                    assert(f < level <= level);
                }
                assert(fresh + 3 - 3 - self.base == c * granule_of(self.granule_bits));
                vstd::arithmetic::div_mod::lemma_fundamental_div_mod_converse(
                    c * granule_of(self.granule_bits),
                    granule_of(self.granule_bits),
                    c,
                    0,
                );
            }
            lemma_structure_update(
                a1,
                self.base,
                self.granule_bits,
                self.input_bits,
                self.tables_used as int,
                self.table_levels@,
                self.table_reps@,
                t,
                index_at(config, va, level) as int,
                fresh | 3,
            );
            lemma_chain_step(
                a0,
                self.arena@,
                origin.arena@,
                self.base,
                self.granule_bits,
                self.input_bits,
                origin.tables_used as int,
                va,
                path,
                f,
                level as int,
                c,
            );
            let p2 = path.push(c);
            assert(self.table_levels@ == lv0.push((level + 1) as u32));
            assert(self.table_reps@ == rp0.push(va));
            assert forall|j: int| f < j <= level + 1 implies #[trigger] self.table_levels@[p2[j]]
                == j && self.table_reps@[p2[j]] == va by {
                if j <= level {
                    assert(f < j <= level);
                    assert(0 <= j <= level);
                    assert(p2[j] == path[j]);
                    assert(lv0[path[j]] == j && rp0[path[j]] == va);
                } else {
                    assert(p2[j] == c);
                }
            }
            assert forall|k: int| 0 <= k <= f implies origin.table_levels@[#[trigger] p2[k]] == k by {
                assert(0 <= k <= f);
                assert(p2[k] == path[k]);
            }
            assert(p2[f] == path[f]);
            assert(p2[level + 1] == c);
            assert(self.arena@[p2[level + 1] * e + index_at(config, va, (level + 1) as u32)] == 0);
            assert(self.tables_used == origin.tables_used + (level + 1 - f));
            assert(chain_state(
                self.arena@,
                origin.arena@,
                self.base,
                self.granule_bits,
                self.input_bits,
                origin.tables_used as int,
                va,
                p2,
                f,
                level + 1,
            ));
            assert(tables_ok(
                self.arena@,
                self.base,
                self.granule_bits,
                self.input_bits,
                self.tables_used as int,
                self.table_levels@,
                self.table_reps@,
            ));
            assert forall|u: int| 0 <= u < origin.tables_used implies #[trigger] self.table_levels@[u]
                == origin.table_levels@[u] && self.table_reps@[u] == origin.table_reps@[u] by {
                assert(u < c);
                assert(0 <= u < origin.tables_used);
                assert(lv0[u] == origin.table_levels@[u]);
                assert(rp0[u] == origin.table_reps@[u]);
                assert(self.table_levels@[u] == lv0[u]);
                assert(self.table_reps@[u] == rp0[u]);
            }
            assert(origin.arena@[p2[f] * e + index_at(config, va, f as u32)] == 0);
            assert(prefix_eq(config, va, origin.table_reps@[p2[f]], f as nat));
            assert(self.growing(origin, va, p2, f, level + 1));
            self.lemma_growing_wf(origin, va, p2, f, level + 1);
            lemma_slot_in_tables(e, c + 1, c, index_at(config, va, (level + 1) as u32) as int);
        }
        let next_level = level + 1;
        let index = self.index_at(va, next_level);
        let next = self.slot_of(fresh, index, Ghost(c));
        Ok(next)
    }
}


impl TableBuilder {
    /// Write `descriptor` into the empty slot at the bottom of `va`'s chain.
    fn write_leaf(
        &mut self,
        va: u64,
        level: u32,
        slot: usize,
        descriptor: u64,
        Ghost(origin): Ghost<TableBuilder>,
        Ghost(path): Ghost<Seq<int>>,
        Ghost(f): Ghost<int>,
    )
        requires
            old(self).growing(origin, va, path, f, level as int),
            level < old(self).levels,
            slot == path[level as int] * entries_of(old(self).granule_bits) + index_at(
                old(self).walk_config(),
                va,
                level,
            ),
            descriptor & 3 == 1 || (descriptor & 3 == 3 && level + 1 == old(self).levels),
        ensures
            final(self).wf(),
            final(self).base == old(self).base,
            final(self).granule_bits == old(self).granule_bits,
            final(self).input_bits == old(self).input_bits,
            final(self).levels == old(self).levels,
            final(self).arena@.len() == old(self).arena@.len(),
            final(self).tables_used == old(self).tables_used,
            forall|other: u64|
                other < (1u64 << old(self).input_bits) && prefix_eq(
                    old(self).walk_config(),
                    other,
                    va,
                    (level + 1) as nat,
                ) ==> #[trigger] final(self).translation(other) == leaf_result(
                    old(self).walk_config(),
                    other,
                    descriptor,
                    level,
                ),
            forall|other: u64|
                !prefix_eq(old(self).walk_config(), other, va, (level + 1) as nat) ==> kept(
                    origin.translation(other),
                    #[trigger] final(self).translation(other),
                    level,
                ),
            forall|other: u64, d: u32|
                #![trigger final(self).translation(other), free_at(origin.translation(other), d)]
                d <= level && !prefix_eq(old(self).walk_config(), other, va, (d + 1) as nat)
                    && free_at(origin.translation(other), d) ==> free_at(
                    final(self).translation(other),
                    d,
                ),
    {
        let ghost config = self.walk_config();
        let ghost e = entries_of(self.granule_bits);
        let ghost a0 = self.arena@;
        proof {
            self.lemma_growing_wf(origin, va, path, f, level as int);
            self.lemma_wf_facts();
            lemma_config_shape(self.granule_bits, self.input_bits);
            lemma_granule_facts(self.granule_bits);
            lemma_index_in_table(self.granule_bits, self.input_bits, va, level);
            let top = level as int;
            assert(0 <= top <= top);
            lemma_slot_in_tables(e, self.tables_used as int, path[top], index_at(config, va, level) as int);
        }
        self.arena[slot] = descriptor;
        proof {
            let top = level as int;
            let t = path[top];
            let idx = index_at(config, va, level);
            if top == f {
                assert(0 <= f <= f);
                assert(0 <= t < origin.tables_used);
                assert(self.table_levels@[t] == origin.table_levels@[t]);
            } else {
                assert(f < top <= top);
            }
            assert(self.table_levels@[t] == level);
            assert(pointer_ok(
                self.arena@,
                self.base,
                self.granule_bits,
                self.input_bits,
                self.tables_used as int,
                self.table_levels@,
                self.table_reps@,
                t,
                idx as int,
            ));
            lemma_structure_update(
                a0,
                self.base,
                self.granule_bits,
                self.input_bits,
                self.tables_used as int,
                self.table_levels@,
                self.table_reps@,
                t,
                idx as int,
                descriptor,
            );
            assert(self.table_levels@[0] == origin.table_levels@[0]);
            assert(self.wf());
            lemma_chain_write_top(
                a0,
                origin.arena@,
                self.base,
                self.granule_bits,
                self.input_bits,
                origin.tables_used as int,
                va,
                path,
                f,
                top,
                descriptor,
            );
            assert forall|other: u64|
                other < (1u64 << self.input_bits) && prefix_eq(
                    config,
                    other,
                    va,
                    (level + 1) as nat,
                ) implies #[trigger] self.translation(other) == leaf_result(
                config,
                other,
                descriptor,
                level,
            ) by {
                lemma_prefix_mono(
                    self.granule_bits,
                    self.input_bits,
                    other,
                    va,
                    (level + 1) as u32,
                    level,
                );
                lemma_walk_to(
                    self.arena@,
                    self.base,
                    self.granule_bits,
                    self.input_bits,
                    va,
                    other,
                    path,
                    level,
                );
                lemma_read_entry(self.arena@, self.base, self.granule_bits, t, idx as int);
            }
            assert forall|other: u64, d: u32|
                #![trigger self.translation(other), free_at(origin.translation(other), d)]
                d <= level && !prefix_eq(config, other, va, (d + 1) as nat) && free_at(
                    origin.translation(other),
                    d,
                ) implies free_at(self.translation(other), d) by {
                lemma_chain_divergence(
                    self.arena@,
                    origin.arena@,
                    self.base,
                    self.granule_bits,
                    self.input_bits,
                    origin.tables_used as int,
                    origin.table_levels@,
                    origin.table_reps@,
                    va,
                    path,
                    f,
                    top,
                    other,
                    d,
                );
            }
            assert forall|other: u64| !prefix_eq(config, other, va, (level + 1) as nat) implies kept(
                origin.translation(other),
                #[trigger] self.translation(other),
                level,
            ) by {
                lemma_chain_effect(
                    self.arena@,
                    origin.arena@,
                    self.base,
                    self.granule_bits,
                    self.input_bits,
                    origin.tables_used as int,
                    origin.table_levels@,
                    origin.table_reps@,
                    va,
                    path,
                    f,
                    top,
                    other,
                );
            }
        }
    }

    /// Write one leaf descriptor of `kind` (`0b01` block, `0b11` page) for
    /// `virtual_address` at level `stop`, creating the tables above it.
    ///
    /// Denies with [`BuildError::AlreadyMapped`] rather than replacing: a
    /// descriptor already present, or a block above `stop`, stays as it is.
    fn map_one_descriptor(
        &mut self,
        virtual_address: u64,
        physical_address: u64,
        attributes: u64,
        stop: u32,
        kind: u64,
    ) -> (result: Result<(), BuildError>)
        requires
            old(self).wf(),
            virtual_address < (1u64 << old(self).input_bits_spec()),
            stop < old(self).levels_spec(),
            kind == 1 || kind == 3,
            kind == 3 ==> stop == old(self).levels_spec() - 1,
            kind == 1 ==> attributes & 3 == 0,
        ensures
            final(self).wf(),
            final(self).base_spec() == old(self).base_spec(),
            final(self).granule_bits_spec() == old(self).granule_bits_spec(),
            final(self).input_bits_spec() == old(self).input_bits_spec(),
            final(self).arena_view().len() == old(self).arena_view().len(),
            final(self).tables_used_spec() >= old(self).tables_used_spec(),
            result is Ok || result == Err::<(), BuildError>(BuildError::AlreadyMapped) || result
                == Err::<(), BuildError>(BuildError::OutOfTables),
            (result == Err::<(), BuildError>(BuildError::AlreadyMapped)) == !free_at(
                old(self).translation(virtual_address),
                stop,
            ),
            result == Err::<(), BuildError>(BuildError::AlreadyMapped) ==> *final(self) == *old(self),
            free_at(old(self).translation(virtual_address), stop) ==> (result is Ok <==> old(
                self,
            ).tables_used_spec() + tables_needed(old(self).translation(virtual_address), stop)
                <= old(self).capacity()),
            result is Ok ==> final(self).tables_used_spec() == old(self).tables_used_spec()
                + tables_needed(old(self).translation(virtual_address), stop),
            result == Err::<(), BuildError>(BuildError::OutOfTables) ==> final(self).tables_used_spec()
                == final(self).capacity(),
            result is Ok ==> forall|va: u64|
                va < (1u64 << old(self).input_bits_spec()) && prefix_eq(
                    old(self).walk_config(),
                    va,
                    virtual_address,
                    (stop + 1) as nat,
                ) ==> #[trigger] final(self).translation(va) == leaf_result(
                    old(self).walk_config(),
                    va,
                    leaf_descriptor(old(self).granule_bits_spec(), physical_address, attributes, kind),
                    stop,
                ),
            forall|va: u64|
                !(result is Ok && prefix_eq(
                    old(self).walk_config(),
                    va,
                    virtual_address,
                    (stop + 1) as nat,
                )) ==> kept(old(self).translation(va), #[trigger] final(self).translation(va), stop),
            forall|other: u64, d: u32|
                #![trigger final(self).translation(other), free_at(old(self).translation(other), d)]
                d <= stop && !prefix_eq(old(self).walk_config(), other, virtual_address, (d + 1) as nat)
                    && free_at(old(self).translation(other), d) ==> free_at(
                    final(self).translation(other),
                    d,
                ),
    {
        let ghost config = self.walk_config();
        let ghost e = entries_of(self.granule_bits);
        proof {
            self.lemma_wf_facts();
            lemma_config_shape(self.granule_bits, self.input_bits);
            lemma_granule_facts(self.granule_bits);
        }
        let va = virtual_address;
        let mask = self.address_mask();
        let (end_level, table, Ghost(path0)) = self.walk_end(va, stop);
        let mut level = end_level;
        let ghost mut path = path0;
        let ghost t = path[level as int];
        proof {
            assert(0 <= level <= level);
            lemma_index_in_table(self.granule_bits, self.input_bits, va, level);
            assert forall|k: int| 0 <= k <= level implies 0 <= #[trigger] path[k] && (path[k] + 1)
                * e <= self.arena@.len() by {
                assert(0 <= k <= level);
                lemma_slot_in_tables(e, self.tables_used as int, path[k], 0);
            }
            lemma_walk_to(
                self.arena@,
                self.base,
                self.granule_bits,
                self.input_bits,
                va,
                va,
                path,
                level,
            );
        }
        let index = self.index_at(va, level);
        proof {
            lemma_slot_in_tables(e, self.tables_used as int, t, index as int);
        }
        let mut slot = self.slot_of(table, index, Ghost(t));
        let existing = self.arena[slot];
        proof {
            lemma_read_entry(self.arena@, self.base, self.granule_bits, t, index as int);
            lemma_walk_levels(
                config,
                va,
                arena_memory(self.arena@, self.base),
                (level + 1) as u32,
                existing & mask,
            );
        }
        if existing != 0 {
            return Err(BuildError::AlreadyMapped);
        }
        let ghost f = level as int;
        let ghost origin = *self;
        proof {
            lemma_constants();
            assert(origin.translation(va) == Err::<Translation, WalkError>(
                WalkError::InvalidDescriptor { level, descriptor: 0 },
            ));
            assert(self.growing(origin, va, path, f, f));
        }
        while level < stop
            invariant
                self.growing(origin, va, path, f, level as int),
                origin == *old(self),
                va == virtual_address,
                level <= stop,
                stop < self.levels,
                config == origin.walk_config(),
                e == entries_of(self.granule_bits),
                slot == path[level as int] * e + index_at(config, va, level),
                origin.translation(va) == Err::<Translation, WalkError>(
                    WalkError::InvalidDescriptor { level: f as u32, descriptor: 0 },
                ),
            decreases stop - level,
        {
            let ghost c = self.tables_used as int;
            match self.extend_one(va, level, slot, Ghost(origin), Ghost(path), Ghost(f)) {
                Ok(next) => {
                    proof {
                        path = path.push(c);
                    }
                    level = level + 1;
                    slot = next;
                },
                Err(error) => {
                    proof {
                        self.lemma_growing_wf(origin, va, path, f, level as int);
                        lemma_granule_facts(self.granule_bits);
                        assert forall|other: u64, d: u32|
                            #![trigger self.translation(other), free_at(origin.translation(other), d)]
                            d <= stop && !prefix_eq(config, other, va, (d + 1) as nat) && free_at(
                                origin.translation(other),
                                d,
                            ) implies free_at(self.translation(other), d) by {
                            if d <= level {
                                lemma_chain_divergence(
                                    self.arena@,
                                    origin.arena@,
                                    self.base,
                                    self.granule_bits,
                                    self.input_bits,
                                    origin.tables_used as int,
                                    origin.table_levels@,
                                    origin.table_reps@,
                                    va,
                                    path,
                                    f,
                                    level as int,
                                    other,
                                    d,
                                );
                            } else {
                                lemma_chain_effect(
                                    self.arena@,
                                    origin.arena@,
                                    self.base,
                                    self.granule_bits,
                                    self.input_bits,
                                    origin.tables_used as int,
                                    origin.table_levels@,
                                    origin.table_reps@,
                                    va,
                                    path,
                                    f,
                                    level as int,
                                    other,
                                );
                            }
                        }
                        assert forall|other: u64|
                            kept(
                                origin.translation(other),
                                #[trigger] self.translation(other),
                                stop,
                            ) by {
                            lemma_chain_effect(
                                self.arena@,
                                origin.arena@,
                                self.base,
                                self.granule_bits,
                                self.input_bits,
                                origin.tables_used as int,
                                origin.table_levels@,
                                origin.table_reps@,
                                va,
                                path,
                                f,
                                level as int,
                                other,
                            );
                        }
                        assert((c + 1) * e == c * e + e) by (nonlinear_arith);
                        vstd::arithmetic::div_mod::lemma_fundamental_div_mod_converse(
                            self.arena@.len() as int,
                            e,
                            c,
                            self.arena@.len() - c * e,
                        );
                        assert(error == BuildError::OutOfTables);
                        assert(free_at(origin.translation(va), stop));
                        assert(tables_needed(origin.translation(va), stop) == stop - f);
                        assert(origin.arena_view().len() == self.arena@.len());
                        assert(origin.capacity() == c);
                        assert(origin.tables_used_spec() + tables_needed(origin.translation(va), stop) > origin.capacity());
                    }
                    return Err(error);
                },
            }
        }
        let descriptor = (physical_address & mask) | attributes | kind;
        proof {
            assert(3u64 & mask == 0);
            lemma_leaf_kind(physical_address, mask, attributes);
        }
        self.write_leaf(va, level, slot, descriptor, Ghost(origin), Ghost(path), Ghost(f));
        proof {
            self.lemma_wf_facts();
        }
        Ok(())
    }

}


impl TableBuilder {
    /// Map `[virtual_address, virtual_address + length)` to
    /// `physical_address` in units of `unit` bytes, one descriptor of `kind`
    /// per unit at level `stop`.
    fn map_range(
        &mut self,
        virtual_address: u64,
        physical_address: u64,
        length: u64,
        attributes: u64,
        unit: u64,
        Ghost(unit_bits): Ghost<u32>,
        stop: u32,
        kind: u64,
    ) -> (result: Result<(), BuildError>)
        requires
            old(self).wf(),
            stop < old(self).levels_spec(),
            kind == 1 || kind == 3,
            kind == 3 ==> stop == old(self).levels_spec() - 1,
            kind == 1 ==> attributes & 3 == 0,
            unit_bits < 64,
            unit == 1u64 << unit_bits,
            shift_at(old(self).walk_config(), stop) <= unit_bits,
        ensures
            range_outcome(
                *old(self),
                *final(self),
                result,
                virtual_address,
                physical_address,
                length,
                attributes,
                unit,
                stop,
                kind,
            ),
    {
        let ghost prior = *self;
        let ghost config = self.walk_config();
        let va = virtual_address;
        let pa = physical_address;
        proof {
            self.lemma_wf_facts();
            lemma_config_shape(self.granule_bits, self.input_bits);
            lemma_shift_facts(0, unit_bits);
        }
        if va % unit != 0 || pa % unit != 0 || length % unit != 0 {
            return Err(BuildError::MisalignedRange);
        }
        proof {
            lemma_shift_monotone(self.input_bits, 48);
            lemma_constants();
        }
        let limit = 1u64 << self.input_bits;
        let end = match va.checked_add(length) {
            Some(end) => end,
            None => {
                return Err(BuildError::AddressOutOfRange);
            },
        };
        if end > limit {
            return Err(BuildError::AddressOutOfRange);
        }
        let mut offset = 0u64;
        let ghost mut units: int = 0;
        while offset < length
            invariant
                prior == *old(self),
                prior.wf(),
                self.wf(),
                self.base_spec() == prior.base_spec(),
                self.granule_bits_spec() == prior.granule_bits_spec(),
                self.input_bits_spec() == prior.input_bits_spec(),
                self.arena_view().len() == prior.arena_view().len(),
                config == prior.walk_config(),
                va == virtual_address,
                pa == physical_address,
                stop < prior.levels_spec(),
                kind == 1 || kind == 3,
                kind == 3 ==> stop == prior.levels_spec() - 1,
                kind == 1 ==> attributes & 3 == 0,
                unit_bits < 64,
                unit == 1u64 << unit_bits,
                unit > 0,
                shift_at(config, stop) <= unit_bits,
                va % unit == 0,
                pa % unit == 0,
                length % unit == 0,
                va + length <= (1u64 << prior.input_bits_spec()),
                offset <= length,
                units >= 0,
                offset == units * unit,
                self.tables_used_spec() <= prior.tables_used_spec() + units * stop,
                prior.tables_used_spec() <= self.tables_used_spec(),
                units == 0 ==> *self == prior,
                length == unit && units == 1 ==> free_at(prior.translation(va), stop)
                    && self.tables_used_spec() == prior.tables_used_spec() + tables_needed(
                    prior.translation(va),
                    stop,
                ),
                length == unit && units == 1 ==> forall|other: u64, d: u32|
                    #![trigger self.translation(other), free_at(prior.translation(other), d)]
                    d <= stop && !prefix_eq(config, other, va, (d + 1) as nat) && free_at(
                        prior.translation(other),
                        d,
                    ) ==> free_at(self.translation(other), d),
                forall|other: u64|
                    #[trigger] covered(config, va, offset, unit, stop, other) ==> free_at(
                        prior.translation(other),
                        stop,
                    ),
                forall|other: u64|
                    covered(config, va, offset, unit, stop, other) ==> #[trigger] self.translation(
                        other,
                    ) == mapped_translation(config, va, pa, unit, attributes, kind, stop, other),
                forall|other: u64|
                    !covered(config, va, offset, unit, stop, other) ==> kept(
                        prior.translation(other),
                        #[trigger] self.translation(other),
                        stop,
                    ),
            decreases length - offset,
        {
            let w = va + offset;
            let target = pa.saturating_add(offset);
            let ghost before = *self;
            let ghost s = shift_at(config, stop);
            proof {
                lemma_config_shape(self.granule_bits, self.input_bits);
                vstd::arithmetic::div_mod::lemma_mod_multiples_vanish(units, va as int, unit as int);
                assert(w as int == unit * units + va) by (nonlinear_arith)
                    requires
                        w == va + offset,
                        offset == units * unit,
                ;
                lemma_aligned_to_smaller(w, unit_bits, s);
                assert(s < 64);
                lemma_shift_monotone(s, unit_bits);
                assert(offset + unit <= length) by {
                    vstd::arithmetic::div_mod::lemma_fundamental_div_mod(length as int, unit as int);
                    let n = length as int / unit as int;
                    assert(units < n) by (nonlinear_arith)
                        requires
                            offset == units * unit,
                            offset < length,
                            length == unit * n + 0,
                            unit > 0,
                    ;
                    assert(offset + unit <= length) by (nonlinear_arith)
                        requires
                            offset == units * unit,
                            units + 1 <= n,
                            length == unit * n,
                            unit > 0,
                    ;
                }
            }
            match self.map_one_descriptor(w, target, attributes, stop, kind) {
                Ok(()) => {
                    proof {
                        assert forall|other: u64|
                            covered(config, va, (offset + unit) as u64, unit, stop, other)
                                implies #[trigger] self.translation(other) == mapped_translation(
                            config,
                            va,
                            pa,
                            unit,
                            attributes,
                            kind,
                            stop,
                            other,
                        ) by {
                            if covered(config, va, offset, unit, stop, other) {
                                let ws = unit_start(va, other, unit);
                                lemma_same_unit(w, other, s);
                                assert(!prefix_eq(config, other, w, (stop + 1) as nat));
                                assert(before.translation(other) == mapped_translation(
                                    config,
                                    va,
                                    pa,
                                    unit,
                                    attributes,
                                    kind,
                                    stop,
                                    other,
                                ));
                            } else {
                                vstd::arithmetic::div_mod::lemma_fundamental_div_mod_converse(
                                    other - va,
                                    unit as int,
                                    units,
                                    other - w,
                                );
                                assert(unit_start(va, other, unit) == w);
                                assert(((other - va) / (unit as int) * unit) as u64 == offset);
                            }
                        }
                        assert forall|other: u64|
                            !covered(config, va, (offset + unit) as u64, unit, stop, other)
                                implies kept(
                            prior.translation(other),
                            #[trigger] self.translation(other),
                            stop,
                        ) by {
                            lemma_same_unit(w, other, s);
                            if prefix_eq(config, other, w, (stop + 1) as nat) {
                                vstd::arithmetic::div_mod::lemma_fundamental_div_mod_converse(
                                    other - va,
                                    unit as int,
                                    units,
                                    other - w,
                                );
                                assert(unit_start(va, other, unit) == w);
                            }
                            assert(!covered(config, va, offset, unit, stop, other));
                            assert(kept(prior.translation(other), before.translation(other), stop));
                            assert(kept(before.translation(other), self.translation(other), stop));
                        }
                        assert(units * stop + stop == (units + 1) * stop) by (nonlinear_arith);
                        assert((units + 1) * unit == offset + unit) by (nonlinear_arith)
                            requires
                                offset == units * unit,
                        ;
                        assert(free_at(before.translation(w), stop));
                        assert forall|other: u64| #[trigger]
                            covered(config, va, (offset + unit) as u64, unit, stop, other) implies free_at(
                            prior.translation(other),
                            stop,
                        ) by {
                            if !covered(config, va, offset, unit, stop, other) {
                                lemma_same_unit(w, other, s);
                                vstd::arithmetic::div_mod::lemma_fundamental_div_mod_converse(
                                    other - va,
                                    unit as int,
                                    units,
                                    other - w,
                                );
                                assert(unit_start(va, other, unit) == w);
                                lemma_free_translation_shared(before, w, other, stop);
                                assert(kept(prior.translation(other), before.translation(other), stop));
                            }
                        }
                        if units == 0 {
                            assert(w == va);
                        }
                    }
                },
                Err(error) => {
                    proof {
                        lemma_same_unit(w, w, s);
                        assert(!covered(config, va, offset, unit, stop, w));
                        assert(kept(prior.translation(w), before.translation(w), stop));
                        assert forall|other: u64|
                            covered(config, va, length, unit, stop, other) implies (
                            #[trigger] self.translation(other) == mapped_translation(
                                config,
                                va,
                                pa,
                                unit,
                                attributes,
                                kind,
                                stop,
                                other,
                            ) || kept(prior.translation(other), self.translation(other), stop)) by {
                            assert(kept(before.translation(other), self.translation(other), stop));
                            if !covered(config, va, offset, unit, stop, other) {
                                assert(kept(prior.translation(other), before.translation(other), stop));
                            }
                        }
                        assert forall|other: u64|
                            !covered(config, va, length, unit, stop, other) implies kept(
                            prior.translation(other),
                            #[trigger] self.translation(other),
                            stop,
                        ) by {
                            assert(kept(before.translation(other), self.translation(other), stop));
                            assert(!covered(config, va, offset, unit, stop, other));
                            assert(kept(prior.translation(other), before.translation(other), stop));
                        }
                        if error == BuildError::AlreadyMapped {
                            assert(va <= w < va + length);
                            assert(!free_at(prior.translation(w), stop));
                        }
                        if forall|other: u64|
                            va <= other < va + length ==> free_at(
                                #[trigger] prior.translation(other),
                                stop,
                            ) {
                            assert(va <= w < va + length);
                            assert(free_at(prior.translation(w), stop));
                            assert(free_at(before.translation(w), stop));
                            vstd::arithmetic::div_mod::lemma_fundamental_div_mod(
                                length as int,
                                unit as int,
                            );
                            let n = length as int / unit as int;
                            assert(units + 1 <= n) by (nonlinear_arith)
                                requires
                                    offset == units * unit,
                                    offset < length,
                                    length == unit * n + 0,
                                    unit > 0,
                            ;
                            assert((units + 1) * stop <= n * stop) by (nonlinear_arith)
                                requires
                                    units + 1 <= n,
                            ;
                            assert(tables_needed(before.translation(w), stop) <= stop);
                            assert(units * stop + stop == (units + 1) * stop) by (nonlinear_arith);
                        }
                        assert forall|other: u64|
                            covered(config, va, length, unit, stop, other) && !free_at(
                                prior.translation(other),
                                stop,
                            ) implies #[trigger] self.translation(other) == prior.translation(other) by {
                            assert(!covered(config, va, offset, unit, stop, other));
                            assert(kept(prior.translation(other), before.translation(other), stop));
                            assert(kept(before.translation(other), self.translation(other), stop));
                        }
                        if length == unit {
                            assert(units == 0) by (nonlinear_arith)
                                requires
                                    offset == units * unit,
                                    offset < length,
                                    length == unit,
                                    unit > 0,
                                    units >= 0,
                            ;
                            assert(w == va);
                        }
                    }
                    return Err(error);
                },
            }
            offset = offset + unit;
            proof {
                units = units + 1;
            }
        }
        proof {
            assert(offset == length);
            vstd::arithmetic::div_mod::lemma_fundamental_div_mod_converse(
                length as int,
                unit as int,
                units,
                0,
            );
            self.lemma_wf_facts();
            if length == unit {
                assert(units == 1) by (nonlinear_arith)
                    requires
                        length == units * unit,
                        length == unit,
                        unit > 0,
                ;
            }
            assert forall|other: u64|
                covered(config, va, length, unit, stop, other) implies free_at(
                prior.translation(other),
                stop,
            ) by {
                assert(covered(config, va, offset, unit, stop, other));
            }
        }
        Ok(())
    }

    /// Map `length` bytes at `virtual_address` to `physical_address` with
    /// block descriptors, one per block at the block level.
    ///
    /// `attributes` supplies everything above bits [1:0] of a descriptor and
    /// outside its output address: access flag, permissions, shareability,
    /// memory type. Bits [1:0] are the builder's, and are clear.
    pub fn map_blocks(
        &mut self,
        virtual_address: u64,
        physical_address: u64,
        length: u64,
        attributes: u64,
    ) -> (result: Result<(), BuildError>)
        requires
            old(self).wf(),
            attributes & 3 == 0,
        ensures
            range_outcome(
                *old(self),
                *final(self),
                result,
                virtual_address,
                physical_address,
                length,
                attributes,
                block_size_of(old(self).granule_bits_spec()),
                block_level_of(old(self).levels_spec()),
                1,
            ),
    {
        proof {
            self.lemma_wf_facts();
            lemma_config_shape(self.granule_bits, self.input_bits);
        }
        let block = self.block_size();
        let stop = self.block_level();
        let ghost unit_bits = (2 * self.granule_bits - 3) as u32;
        proof {
            let config = self.walk_config();
            assert(shift_at(config, stop) <= unit_bits) by {
                if self.levels >= 2 {
                    assert(config.levels_spec() - stop - 1 == 1);
                } else {
                    assert(config.levels_spec() - stop - 1 == 0);
                }
            }
        }
        self.map_range(
            virtual_address,
            physical_address,
            length,
            attributes,
            block,
            Ghost(unit_bits),
            stop,
            0b01,
        )
    }

    /// Map `length` bytes at page granularity: one page descriptor per
    /// granule at the last level.
    ///
    /// A block already covering part of the range is not split: mapping
    /// returns [`BuildError::AlreadyMapped`] and leaves the block in place.
    pub fn map_pages(
        &mut self,
        virtual_address: u64,
        physical_address: u64,
        length: u64,
        attributes: u64,
    ) -> (result: Result<(), BuildError>)
        requires
            old(self).wf(),
        ensures
            range_outcome(
                *old(self),
                *final(self),
                result,
                virtual_address,
                physical_address,
                length,
                attributes,
                1u64 << old(self).granule_bits_spec(),
                (old(self).levels_spec() - 1) as u32,
                3,
            ),
    {
        proof {
            self.lemma_wf_facts();
            lemma_config_shape(self.granule_bits, self.input_bits);
        }
        let granule = 1u64 << self.granule_bits;
        let last = self.levels - 1;
        self.map_range(
            virtual_address,
            physical_address,
            length,
            attributes,
            granule,
            Ghost(self.granule_bits),
            last,
            0b11,
        )
    }
}


/// Where a covered address lands in its unit: the unit starts aligned, at
/// an offset that is a whole number of units into the range, and the
/// address lies within it.
proof fn lemma_unit_position(va: u64, length: u64, unit_bits: u32, other: u64)
    requires
        unit_bits < 64,
        va % (1u64 << unit_bits) == 0,
        length % (1u64 << unit_bits) == 0,
        va <= other < va + length,
    ensures
        ({
            let unit = 1u64 << unit_bits;
            let offset = (other - va) / (unit as int) * unit;
            let w = unit_start(va, other, unit);
            &&& 0 <= offset <= other - va
            &&& offset + unit <= length
            &&& offset % (unit as int) == 0
            &&& w == va + offset
            &&& w % unit == 0
            &&& w <= other < w + unit
        }),
{
    let unit = 1u64 << unit_bits;
    lemma_shift_facts(0, unit_bits);
    let u = unit as int;
    let d = other - va;
    let q = d / u;
    vstd::arithmetic::div_mod::lemma_fundamental_div_mod(d, u);
    vstd::arithmetic::div_mod::lemma_fundamental_div_mod(length as int, u);
    let n = length as int / u;
    assert(q >= 0) by {
        vstd::arithmetic::div_mod::lemma_div_pos_is_pos(d, u);
    }
    assert(q * u <= d && d < q * u + u) by (nonlinear_arith)
        requires
            d == u * q + d % u,
            0 <= d % u < u,
    ;
    assert(q < n) by (nonlinear_arith)
        requires
            q * u <= d,
            d < length,
            length == u * n + 0,
            u > 0,
    ;
    assert(q * u + u <= length) by (nonlinear_arith)
        requires
            q + 1 <= n,
            length == u * n,
            u > 0,
    ;
    vstd::arithmetic::div_mod::lemma_mod_multiples_basic(q, u);
    vstd::arithmetic::div_mod::lemma_mod_multiples_vanish(q, va as int, u);
    assert(q * u + va == u * q + va) by (nonlinear_arith);
}

/// One call of [`TableBuilder::map_pages`] or [`TableBuilder::map_blocks`],
/// with any arguments and either outcome, takes `before` to `after`.
pub open spec fn mapping_step(before: TableBuilder, after: TableBuilder) -> bool {
    exists|result: Result<(), BuildError>, va: u64, pa: u64, length: u64, attributes: u64|
        range_outcome(
            before,
            after,
            result,
            va,
            pa,
            length,
            attributes,
            1u64 << before.granule_bits_spec(),
            (before.levels_spec() - 1) as u32,
            3,
        ) || range_outcome(
            before,
            after,
            result,
            va,
            pa,
            length,
            attributes,
            block_size_of(before.granule_bits_spec()),
            block_level_of(before.levels_spec()),
            1,
        )
}

/// Law: along any sequence of mapping calls, each successful or not, the
/// builder stays well formed and its root stays the arena's base, the
/// physical address of `arena[0]`.
pub proof fn lemma_root_stays_base(history: Seq<TableBuilder>)
    requires
        history.len() > 0,
        history[0].wf(),
        forall|i: int|
            0 <= i < history.len() - 1 ==> mapping_step(#[trigger] history[i], history[i + 1]),
    ensures
        forall|i: int|
            0 <= i < history.len() ==> (#[trigger] history[i]).wf() && history[i].base_spec()
                == history[0].base_spec(),
    decreases history.len(),
{
    if history.len() > 1 {
        let earlier = history.drop_last();
        assert forall|i: int| 0 <= i < earlier.len() - 1 implies mapping_step(
            #[trigger] earlier[i],
            earlier[i + 1],
        ) by {
            assert(earlier[i] == history[i]);
            assert(earlier[i + 1] == history[i + 1]);
        }
        lemma_root_stays_base(earlier);
        let n = history.len() - 1;
        assert(earlier[n - 1] == history[n - 1]);
        assert(mapping_step(history[n - 1], history[n]));
        assert forall|i: int| 0 <= i < history.len() implies (#[trigger] history[i]).wf()
            && history[i].base_spec() == history[0].base_spec() by {
            if i < n {
                assert(earlier[i] == history[i]);
            }
        }
    }
}

/// Law: once [`TableBuilder::map_pages`] has mapped `[va, va + length)` to
/// `pa`, walking the builder's arena from its root (what
/// [`TableBuilder::translate`] returns) finds, for every address
/// of the range, a last-level page descriptor giving the physical address at
/// the same offset from `pa`: the walk returns the mapping that was asked
/// for.
pub proof fn lemma_walk_finds_mapped_pages(
    before: TableBuilder,
    after: TableBuilder,
    va: u64,
    pa: u64,
    length: u64,
    attributes: u64,
    other: u64,
)
    requires
        before.wf(),
        range_outcome(
            before,
            after,
            Ok(()),
            va,
            pa,
            length,
            attributes,
            1u64 << before.granule_bits_spec(),
            (before.levels_spec() - 1) as u32,
            3,
        ),
        pa + length <= OUTPUT_ADDRESS_LIMIT,
        attributes & output_address_mask(before.granule_bits_spec()) == 0,
        va <= other < va + length,
    ensures
        walk_spec(
            after.base_spec(),
            other,
            after.walk_config(),
            arena_memory(after.arena_view(), after.base_spec()),
        ) matches Ok(translation) && translation.physical_address == pa + (other - va)
            && translation.level == after.levels_spec() - 1 && !translation.is_block
            && translation.descriptor & 3 == 3,
{
    before.lemma_wf_facts();
    lemma_pages_translate_by_offset(
        before.granule_bits_spec(),
        before.input_bits_spec(),
        va,
        pa,
        length,
        attributes,
        other,
    );
    let unit = 1u64 << before.granule_bits_spec();
    let last = (before.levels_spec() - 1) as u32;
    assert(covered(before.walk_config(), va, length, unit, last, other));
    assert(after.translation(other) == mapped_translation(before.walk_config(), va, pa, unit, attributes, 3, last, other));
}

/// Law: a range mapped with [`TableBuilder::map_pages`] translates every
/// address in it, as a page at the last level, to the physical address at
/// the same offset into the range, when the attributes keep clear of the
/// output-address field and the target lies below the 48-bit output limit.
pub proof fn lemma_pages_translate_by_offset(
    granule_bits: u32,
    input_bits: u32,
    va: u64,
    pa: u64,
    length: u64,
    attributes: u64,
    other: u64,
)
    requires
        supported_granule(granule_bits),
        16 <= input_bits <= 48,
        va % (1u64 << granule_bits) == 0,
        pa % (1u64 << granule_bits) == 0,
        length % (1u64 << granule_bits) == 0,
        pa + length <= OUTPUT_ADDRESS_LIMIT,
        attributes & output_address_mask(granule_bits) == 0,
        va <= other < va + length,
    ensures
        covered(
            config_for(granule_bits, input_bits),
            va,
            length,
            1u64 << granule_bits,
            (levels_of(granule_bits, input_bits) - 1) as u32,
            other,
        ),
        mapped_translation(
            config_for(granule_bits, input_bits),
            va,
            pa,
            1u64 << granule_bits,
            attributes,
            3,
            (levels_of(granule_bits, input_bits) - 1) as u32,
            other,
        ) matches Ok(translation) && translation.physical_address == pa + (other - va)
            && translation.level == levels_of(granule_bits, input_bits) - 1
            && !translation.is_block,
{
    let config = config_for(granule_bits, input_bits);
    let g = granule_bits;
    let unit = 1u64 << g;
    let last = (levels_of(granule_bits, input_bits) - 1) as u32;
    lemma_config_shape(g, input_bits);
    lemma_granule_facts(g);
    lemma_constants();
    lemma_unit_position(va, length, g, other);
    let offset = (other - va) / (unit as int) * unit;
    let w = unit_start(va, other, unit);
    lemma_same_unit(w, other, g);
    let target = saturating_offset(pa, offset as u64);
    assert(target == pa + offset);
    vstd::arithmetic::div_mod::lemma_mod_multiples_vanish(offset / (unit as int), pa as int, unit as int);
    assert(target % unit == 0) by {
        vstd::arithmetic::div_mod::lemma_fundamental_div_mod(offset, unit as int);
    }
    let mask = output_address_mask(g);
    assert(target & mask == target);
    lemma_descriptor_address(target, attributes, 3, mask);
    lemma_leaf_kind(target, mask, attributes);
    lemma_mod_is_mask(target, g);
    lemma_mod_is_mask(other, g);
    vstd::arithmetic::div_mod::lemma_fundamental_div_mod(w as int, unit as int);
    let wq = (w as int) / (unit as int);
    assert(w as int == wq * unit) by (nonlinear_arith)
        requires
            w as int == unit * wq + (w as int) % (unit as int),
            (w as int) % (unit as int) == 0,
    ;
    vstd::arithmetic::div_mod::lemma_fundamental_div_mod_converse(
        other as int,
        unit as int,
        wq,
        other - w,
    );
    lemma_low_clear(target, (other - w) as u64, g);
}

/// Law: a range mapped with [`TableBuilder::map_blocks`], on tables of two
/// or more levels, translates every address in it, as a block, to the
/// physical address at the same offset into the range, when the attributes
/// keep clear of the output-address field and the target lies below the
/// 48-bit output limit.
pub proof fn lemma_blocks_translate_by_offset(
    granule_bits: u32,
    input_bits: u32,
    va: u64,
    pa: u64,
    length: u64,
    attributes: u64,
    other: u64,
)
    requires
        supported_granule(granule_bits),
        16 <= input_bits <= 48,
        levels_of(granule_bits, input_bits) >= 2,
        va % block_size_of(granule_bits) == 0,
        pa % block_size_of(granule_bits) == 0,
        length % block_size_of(granule_bits) == 0,
        pa + length <= OUTPUT_ADDRESS_LIMIT,
        attributes & 3 == 0,
        attributes & output_address_mask(granule_bits) == 0,
        va <= other < va + length,
    ensures
        covered(
            config_for(granule_bits, input_bits),
            va,
            length,
            block_size_of(granule_bits),
            block_level_of(levels_of(granule_bits, input_bits)),
            other,
        ),
        mapped_translation(
            config_for(granule_bits, input_bits),
            va,
            pa,
            block_size_of(granule_bits),
            attributes,
            1,
            block_level_of(levels_of(granule_bits, input_bits)),
            other,
        ) matches Ok(translation) && translation.physical_address == pa + (other - va)
            && translation.level == levels_of(granule_bits, input_bits) - 2
            && translation.is_block,
{
    let config = config_for(granule_bits, input_bits);
    let g = granule_bits;
    let bb = (2 * g - 3) as u32;
    let unit = block_size_of(g);
    let levels = levels_of(granule_bits, input_bits);
    let stop = block_level_of(levels);
    lemma_config_shape(g, input_bits);
    lemma_granule_facts(g);
    lemma_constants();
    assert(shift_at(config, stop) == bb) by {
        assert(0 < levels - 1 < levels);
        assert(shift_at(config, (levels - 1) as u32) == g);
    }
    lemma_unit_position(va, length, bb, other);
    let offset = (other - va) / (unit as int) * unit;
    let w = unit_start(va, other, unit);
    lemma_same_unit(w, other, bb);
    let target = saturating_offset(pa, offset as u64);
    assert(target == pa + offset);
    vstd::arithmetic::div_mod::lemma_mod_multiples_vanish(offset / (unit as int), pa as int, unit as int);
    assert(target % unit == 0) by {
        vstd::arithmetic::div_mod::lemma_fundamental_div_mod(offset, unit as int);
    }
    lemma_aligned_to_smaller(target, bb, g);
    let mask = output_address_mask(g);
    assert(target & mask == target);
    lemma_descriptor_address(target, attributes, 1, mask);
    lemma_leaf_kind(target, mask, attributes);
    lemma_mod_is_mask(target, bb);
    lemma_mod_is_mask(other, bb);
    vstd::arithmetic::div_mod::lemma_fundamental_div_mod(w as int, unit as int);
    let wq = (w as int) / (unit as int);
    assert(w as int == wq * unit) by (nonlinear_arith)
        requires
            w as int == unit * wq + (w as int) % (unit as int),
            (w as int) % (unit as int) == 0,
    ;
    vstd::arithmetic::div_mod::lemma_fundamental_div_mod_converse(
        other as int,
        unit as int,
        wq,
        other - w,
    );
    lemma_low_clear(target, (other - w) as u64, bb);
}

} // verus!

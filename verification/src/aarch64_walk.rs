//! Stage-1 page-table walking, as a function of the descriptors read.
//!
//! A walk is arithmetic over descriptors read from memory. The only part that
//! needs hardware is *reading* the memory, and that is a closure here, so every
//! branch below is reachable from a host test and is stated in [`walk_spec`].

use vstd::prelude::*;
use crate::bits::{lemma_shift_facts, lemma_constants, lemma_and_bound};

verus! {

/// Number of table levels needed to resolve `index_bits` bits, `stride` bits
/// at a time: the ceiling of the quotient, and never fewer than one.
pub open spec fn levels_for(index_bits: u32, stride: u32) -> u32 {
    let quotient = index_bits / stride + if index_bits % stride == 0 { 0u32 } else { 1u32 };
    if quotient == 0 { 1u32 } else { quotient as u32 }
}

/// Law: the number of levels is the fewest strides that cover the index
/// bits: one level fewer would leave some of them unresolved. With no
/// index bits there is still the one level.
pub proof fn lemma_levels_are_the_fewest_that_cover(index_bits: u32, stride: u32)
    requires
        stride > 0,
    ensures
        levels_for(index_bits, stride) >= 1,
        index_bits <= levels_for(index_bits, stride) * stride,
        index_bits > 0 ==> (levels_for(index_bits, stride) - 1) * stride < index_bits,
{
    let q = index_bits / stride;
    let r = index_bits % stride;
    vstd::arithmetic::div_mod::lemma_fundamental_div_mod(index_bits as int, stride as int);
    let levels = levels_for(index_bits, stride);
    if r == 0 {
        if q == 0 {
            assert(index_bits == 0) by (nonlinear_arith)
                requires
                    index_bits == stride * q + r,
                    q == 0,
                    r == 0,
            ;
        } else {
            assert(levels == q);
            assert(index_bits == levels * stride && (levels - 1) * stride < index_bits) by (nonlinear_arith)
                requires
                    index_bits == stride * q + r,
                    r == 0,
                    levels == q,
                    stride > 0,
            ;
        }
    } else {
        assert(q < index_bits) by (nonlinear_arith)
            requires
                index_bits == stride * q + r,
                0 < r,
                stride > 0,
                q >= 0,
        ;
        assert(levels == q + 1);
        assert(index_bits <= levels * stride && (levels - 1) * stride < index_bits) by (nonlinear_arith)
            requires
                index_bits == stride * q + r,
                0 < r < stride,
                levels == q + 1,
        ;
    }
}

/// Output-address field of a descriptor: granule-aligned, 48 bits wide.
pub open spec fn output_address_mask(granule_bits: u32) -> u64 {
    ((1u64 << 48u64) - 1) as u64 & !(((1u64 << granule_bits) - 1) as u64)
}

/// How translation is configured, decoded from `TCR_ELx`.
#[derive(Debug, Clone, Copy, PartialEq, Eq)]
pub struct WalkConfig {
    /// Bits of the granule: 12 for 4 KiB, 14 for 16 KiB, 16 for 64 KiB.
    pub granule_bits: u32,
    /// `T0SZ`: the input address is `64 - t0sz` bits wide.
    pub t0sz: u32,
}

impl WalkConfig {
    /// Width of the input address, in bits (`64 - t0sz`, floored at zero).
    pub open spec fn input_bits_spec(self) -> u32 {
        if self.t0sz <= 64 { (64 - self.t0sz) as u32 } else { 0u32 }
    }

    /// Bits resolved per table level (`granule_bits - 3`, floored at zero).
    pub open spec fn stride_spec(self) -> u32 {
        if self.granule_bits >= 3 { (self.granule_bits - 3) as u32 } else { 0u32 }
    }

    /// Bits of the input address above the page offset.
    pub open spec fn index_bits_spec(self) -> u32 {
        let input = self.input_bits_spec();
        if input >= self.granule_bits { (input - self.granule_bits) as u32 } else { 0u32 }
    }

    /// Number of table levels the walk traverses.
    pub open spec fn levels_spec(self) -> u32 {
        levels_for(self.index_bits_spec(), self.stride_spec())
    }

    /// A configuration every step of the walk can compute without a shift
    /// or a division leaving the range of its type: a stride of at least one
    /// bit, and a top-level shift below 64.
    pub open spec fn computable(self) -> bool {
        &&& self.granule_bits >= 4
        &&& self.granule_bits + self.stride_spec() * (self.levels_spec() - 1) < 64
    }

    /// Decode from a `TCR_ELx` value, for the `TTBR0` half.
    ///
    /// `TG0` is bits [15:14] and its encoding is not in size order: `0b00` is
    /// 4 KiB, `0b01` is 64 KiB, `0b10` is 16 KiB.
    pub fn from_tcr(tcr: u64) -> (config: Option<Self>)
        ensures
            config == tcr_config(tcr),
    {
        let field = (tcr >> 14) & 0b11;
        proof {
            lemma_and_bound(tcr >> 14u64, 0b11);
        }
        let granule_bits: u32 = if field == 0b00 {
            12
        } else if field == 0b01 {
            16
        } else if field == 0b10 {
            14
        } else {
            return None;
        };
        let t0sz = (tcr & 0x3F) as u32;
        if t0sz < 16 || t0sz > 39 {
            return None;
        }
        Some(Self { granule_bits, t0sz })
    }

    /// Number of table levels the walk will traverse.
    pub fn levels(&self) -> (levels: u32)
        requires
            self.stride_spec() > 0,
        ensures
            levels == self.levels_spec(),
            levels >= 1,
    {
        let index_bits = self.input_address_bits().saturating_sub(self.granule_bits);
        let stride = self.stride();
        let quotient = index_bits / stride + if index_bits % stride == 0 { 0 } else { 1 };
        if quotient == 0 { 1 } else { quotient }
    }

    /// Bits resolved per table level.
    pub fn stride(&self) -> (stride: u32)
        ensures
            stride == self.stride_spec(),
    {
        self.granule_bits.saturating_sub(3)
    }

    /// Width of the input address, in bits.
    pub fn input_address_bits(&self) -> (bits: u32)
        ensures
            bits == self.input_bits_spec(),
    {
        64u32.saturating_sub(self.t0sz)
    }
}

/// What `WalkConfig::from_tcr` decodes from `tcr`.
pub open spec fn tcr_config(tcr: u64) -> Option<WalkConfig> {
    let field = (tcr >> 14u64) & 0b11;
    let t0sz = (tcr & 0x3F) as u32;
    if field == 3 || t0sz < 16 || t0sz > 39 {
        None
    } else {
        Some(WalkConfig {
            granule_bits: if field == 0 { 12u32 } else if field == 1 { 16u32 } else { 14u32 },
            t0sz,
        })
    }
}

/// Why a walk did not produce an address.
#[derive(Debug, Clone, Copy, PartialEq, Eq)]
pub enum WalkError {
    /// A descriptor's low bits marked it invalid.
    InvalidDescriptor { level: u32, descriptor: u64 },
    /// The virtual address has bits set above the configured input width.
    AddressOutOfRange,
    /// A block descriptor appeared at a level where the architecture does not
    /// permit one.
    BlockAtIllegalLevel { level: u32 },
    /// `TCR` did not decode.
    UnsupportedConfiguration,
}

/// A resolved translation.
#[derive(Debug, Clone, Copy, PartialEq, Eq)]
pub struct Translation {
    /// The physical address the virtual address maps to.
    pub physical_address: u64,
    /// The descriptor that terminated the walk.
    pub descriptor: u64,
    /// Which level terminated it. Lower numbers are larger mappings.
    pub level: u32,
    /// Whether it terminated on a block rather than a page.
    pub is_block: bool,
}

/// Shift of the index resolved at `step`.
pub open spec fn shift_at(config: WalkConfig, step: u32) -> u32 {
    (config.granule_bits + config.stride_spec() * (config.levels_spec() - step - 1)) as u32
}

/// Index bits resolved at `step`: a full stride, except that the top level
/// may resolve fewer when the input width is not a whole number of strides.
pub open spec fn bits_at(config: WalkConfig, step: u32) -> u32 {
    let stride = config.stride_spec();
    if step == 0 {
        let input = config.input_bits_spec();
        let shift = shift_at(config, step);
        let available = if input >= shift { (input - shift) as u32 } else { 0u32 };
        if available < stride { available } else { stride }
    } else {
        stride
    }
}

/// Table index of `va` at `step`.
pub open spec fn index_at(config: WalkConfig, va: u64, step: u32) -> u64 {
    (va >> shift_at(config, step)) & (((1u64 << bits_at(config, step)) - 1) as u64)
}

/// The walk from `table` at `step` onwards, with `mem` giving the descriptor
/// stored at each physical address.
pub open spec fn walk_from(
    config: WalkConfig,
    va: u64,
    mem: spec_fn(u64) -> u64,
    step: u32,
    table: u64,
) -> Result<Translation, WalkError>
    decreases config.levels_spec() - step,
{
    let levels = config.levels_spec();
    if step >= levels {
        Err(WalkError::UnsupportedConfiguration)
    } else {
        let mask = output_address_mask(config.granule_bits);
        let shift = shift_at(config, step);
        let entry_address = table.saturating_add((index_at(config, va, step) * 8) as u64);
        let descriptor = mem(entry_address);
        let is_last = step == levels - 1;
        if descriptor & 0b11 == 0b11 {
            if is_last {
                Ok(
                    Translation {
                        physical_address: (descriptor & mask) | (va & (((1u64
                            << config.granule_bits) - 1) as u64)),
                        descriptor,
                        level: step,
                        is_block: false,
                    },
                )
            } else {
                walk_from(config, va, mem, (step + 1) as u32, descriptor & mask)
            }
        } else if descriptor & 0b11 == 0b01 {
            if is_last {
                Err(WalkError::BlockAtIllegalLevel { level: step })
            } else {
                let block_size = 1u64 << shift;
                Ok(
                    Translation {
                        physical_address: (descriptor & mask & !((block_size - 1) as u64)) | (va
                            & ((block_size - 1) as u64)),
                        descriptor,
                        level: step,
                        is_block: true,
                    },
                )
            }
        } else {
            Err(WalkError::InvalidDescriptor { level: step, descriptor })
        }
    }
}

/// The translation of `va` through the tables rooted at `root`.
pub open spec fn walk_spec(
    root: u64,
    va: u64,
    config: WalkConfig,
    mem: spec_fn(u64) -> u64,
) -> Result<Translation, WalkError> {
    let input_bits = config.input_bits_spec();
    if input_bits < 64 && va >= (1u64 << input_bits) {
        Err(WalkError::AddressOutOfRange)
    } else {
        walk_from(config, va, mem, 0, root & output_address_mask(config.granule_bits))
    }
}

proof fn lemma_low_mask_bound(x: u64, b: u32)
    requires
        b <= 60,
    ensures
        (1u64 << 60u32) == 0x1000_0000_0000_0000u64,
        (1u64 << b) >= 1,
        x & (((1u64 << b) - 1) as u64) < (1u64 << b),
        (1u64 << b) <= (1u64 << 60u32),
{
    lemma_constants();
    lemma_shift_facts(x, b);
    lemma_shift_facts(x, 60);
}

/// Walk stage-1 tables from `root` and translate `virtual_address`.
///
/// `read_descriptor` is handed a physical address and must return the 64-bit
/// descriptor there. The result is [`walk_spec`] for every memory content the
/// closure is known to return.
pub fn walk(
    root: u64,
    virtual_address: u64,
    config: WalkConfig,
    read_descriptor: impl Fn(u64) -> u64,
) -> (result: Result<Translation, WalkError>)
    requires
        config.computable(),
        forall|pa: u64| read_descriptor.requires((pa,)),
    ensures
        forall|mem: spec_fn(u64) -> u64|
            (forall|pa: u64, d: u64| #[trigger] read_descriptor.ensures((pa,), d) ==> d == mem(pa))
                ==> result == walk_spec(root, virtual_address, config, mem),
        result != Err::<Translation, WalkError>(WalkError::UnsupportedConfiguration),
{
    let input_bits = config.input_address_bits();
    if input_bits < 64 {
        let limit = 1u64 << input_bits;
        // Compare against the low half only: a TTBR0 address has its high
        // bits clear by definition.
        if virtual_address >= limit {
            return Err(WalkError::AddressOutOfRange);
        }
    }
    let levels = config.levels();
    let stride = config.stride();
    let granule_bits = config.granule_bits;
    let granule = 1u64 << granule_bits;
    proof {
        lemma_shift_facts(0, granule_bits);
        lemma_constants();
    }
    let address_mask = ((1u64 << 48) - 1) & !(granule - 1);
    let mut table = root & address_mask;
    let mut step: u32 = 0;
    while step < levels
        invariant
            config.computable(),
            forall|pa: u64| read_descriptor.requires((pa,)),
            levels == config.levels_spec(),
            stride == config.stride_spec(),
            input_bits == config.input_bits_spec(),
            granule == 1u64 << config.granule_bits,
            granule >= 1,
            address_mask == output_address_mask(config.granule_bits),
            step < levels,
            forall|mem: spec_fn(u64) -> u64|
                (forall|pa: u64, d: u64| #[trigger] read_descriptor.ensures((pa,), d) ==> d == mem(pa))
                    ==> walk_spec(root, virtual_address, config, mem) == walk_from(
                    config,
                    virtual_address,
                    mem,
                    step,
                    table,
                ),
        decreases levels - step,
    {
        assert(stride * (levels - step - 1) <= stride * (levels - 1)) by (nonlinear_arith)
            requires
                step < levels,
        ;
        let shift = config.granule_bits + stride * (levels - step - 1);
        let bits_here = if step == 0 {
            let available = input_bits.saturating_sub(shift);
            if available < stride {
                available
            } else {
                stride
            }
        } else {
            stride
        };
        assert(shift == shift_at(config, step));
        assert(bits_here == bits_at(config, step));
        proof {
            lemma_low_mask_bound(virtual_address >> shift, bits_here);
        }
        let index = (virtual_address >> shift) & ((1u64 << bits_here) - 1);
        assert(index == index_at(config, virtual_address, step));
        let entry_address = table.saturating_add(index * 8);
        let descriptor = read_descriptor(entry_address);
        let is_last = step == levels - 1;
        if descriptor & 0b11 == 0b11 {
            if is_last {
                let page_base = descriptor & address_mask;
                let offset = virtual_address & (granule - 1);
                return Ok(
                    Translation {
                        physical_address: page_base | offset,
                        descriptor,
                        level: step,
                        is_block: false,
                    },
                );
            }
            table = descriptor & address_mask;
        } else if descriptor & 0b11 == 0b01 {
            // Block. Only legal above the final level.
            if is_last {
                return Err(WalkError::BlockAtIllegalLevel { level: step });
            }
            let block_size = 1u64 << shift;
            proof {
                lemma_shift_facts(0, shift);
            }
            let block_base = descriptor & address_mask & !(block_size - 1);
            let offset = virtual_address & (block_size - 1);
            return Ok(
                Translation {
                    physical_address: block_base | offset,
                    descriptor,
                    level: step,
                    is_block: true,
                },
            );
        } else {
            return Err(WalkError::InvalidDescriptor { level: step, descriptor });
        }
        step = step + 1;
    }
    Err(WalkError::UnsupportedConfiguration)
}

} // verus!

//! The CPUs the device tree lists, and the bits that start one.

use vstd::prelude::*;

verus! {

/// `RVBAR` address field: where a secondary starts, 4 KiB aligned.
pub const RVBAR_ADDRESS: u64 = 0x0000_0FFF_FFFF_F000;

/// `RVBAR` lock bit: once set, the reset vector cannot be changed.
pub const RVBAR_LOCK: u64 = 1;

/// Offset of the CPU-start block from the PMGR base on T6020.
pub const CPU_START_OFFSET_T6020: u64 = 0x28000;

/// One CPU node of `/cpus`.
#[derive(Debug, Clone, Copy, PartialEq, Eq, Default)]
pub struct Cpu {
    /// `cpu-id`, or `reg` where there is none.
    pub cpu_id: u32,
    /// `reg`.
    pub reg: u64,
    /// `die-id`.
    pub die: u32,
    /// `cluster-id`.
    pub cluster: u32,
    /// `cluster-core-id`.
    pub core: u32,
    /// Physical address of the core's implementation registers (`RVBAR`).
    pub impl_reg: u64,
    /// Whether firmware left it running.
    pub running: bool,
}

/// The first CPU in `list` satisfying `running == wanted`.
pub open spec fn first_with(list: Seq<Cpu>, wanted: bool) -> Option<Cpu>
    decreases list.len(),
{
    if list.len() == 0 {
        None
    } else if list[0].running == wanted {
        Some(list[0])
    } else {
        first_with(list.drop_first(), wanted)
    }
}

fn find_cpu(list: &[Cpu], wanted: bool) -> (found: Option<Cpu>)
    ensures
        found == first_with(list@, wanted),
{
    let mut index: usize = 0;
    assert(list@.subrange(0, list@.len() as int) =~= list@);
    while index < list.len()
        invariant
            index <= list@.len(),
            first_with(list@, wanted) == first_with(list@.subrange(index as int, list@.len() as int), wanted),
        decreases list@.len() - index,
    {
        let cpu = list[index];
        let ghost rest = list@.subrange(index as int, list@.len() as int);
        assert(rest[0] == cpu);
        assert(rest.drop_first() =~= list@.subrange(index + 1, list@.len() as int));
        if cpu.running == wanted {
            return Some(cpu);
        }
        index = index + 1;
    }
    None
}

/// The first CPU firmware left running: the one executing this code.
pub fn running_cpu(list: &[Cpu]) -> (cpu: Option<Cpu>)
    ensures
        cpu == first_with(list@, true),
{
    find_cpu(list, true)
}

/// The first CPU still waiting to be started.
pub fn first_waiting_cpu(list: &[Cpu]) -> (cpu: Option<Cpu>)
    ensures
        cpu == first_with(list@, false),
{
    find_cpu(list, false)
}

/// `1 << shift` as a 32-bit word, or zero when the shift is out of range.
pub open spec fn bit32(shift: int) -> u32 {
    if 0 <= shift < 32 {
        (1u32 << (shift as u32)) as u32
    } else {
        0
    }
}

/// The bit that enables `cpu` in the cluster-wide start register: four per
/// cluster, one per core.
pub fn start_enable_bit(cpu: &Cpu) -> (bit: u32)
    ensures
        bit == bit32(if cpu.cluster * 4 + cpu.core > u32::MAX {
            u32::MAX as int
        } else {
            cpu.cluster * 4 + cpu.core
        }),
{
    // `cluster * 4 + core`, saturating as a `u32`; a shift past bit 31 names
    // no bit at all.
    let wide: u64 = cpu.cluster as u64 * 4 + cpu.core as u64;
    if wide < 32 {
        1u32 << (wide as u32)
    } else {
        0
    }
}

/// The bit that starts `cpu` in its cluster's start register.
pub fn start_core_bit(cpu: &Cpu) -> (bit: u32)
    ensures
        bit == bit32(cpu.core as int),
{
    if cpu.core < 32 {
        1u32 << cpu.core
    } else {
        0
    }
}

/// Law: the CPU found for `wanted` is the earliest in the list whose
/// running state is `wanted`: it is in the list, in that state, and every
/// CPU before it is in the other state. None is found only when no CPU of
/// the list is in that state.
pub proof fn lemma_first_with_is_the_earliest(list: Seq<Cpu>, wanted: bool)
    ensures
        first_with(list, wanted) matches Some(cpu) ==> exists|i: int|
            0 <= i < list.len() && #[trigger] list[i] == cpu && cpu.running == wanted && forall|j: int|
                0 <= j < i ==> (#[trigger] list[j]).running != wanted,
        first_with(list, wanted) is None ==> forall|i: int|
            0 <= i < list.len() ==> (#[trigger] list[i]).running != wanted,
    decreases list.len(),
{
    if list.len() > 0 {
        let rest = list.drop_first();
        lemma_first_with_is_the_earliest(rest, wanted);
        if list[0].running == wanted {
            assert(list[0] == list[0]);
        } else {
            assert forall|i: int| 0 < i < list.len() implies #[trigger] list[i] == rest[i - 1] by {}
            if let Some(cpu) = first_with(rest, wanted) {
                let k = choose|k: int|
                    0 <= k < rest.len() && #[trigger] rest[k] == cpu && cpu.running == wanted
                        && forall|j: int| 0 <= j < k ==> (#[trigger] rest[j]).running != wanted;
                assert(list[k + 1] == cpu);
                assert forall|j: int| 0 <= j < k + 1 implies (#[trigger] list[j]).running != wanted by {
                    if j > 0 {
                        assert(list[j] == rest[j - 1]);
                    }
                }
            }
        }
    }
}

/// Law: a start bit names exactly one bit, bit `shift`, when `shift` is
/// below 32, and no bit otherwise.
pub proof fn lemma_start_bit_names_one_bit(shift: int)
    ensures
        0 <= shift < 32 ==> forall|bit: u32|
            bit < 32 ==> (((#[trigger] (bit32(shift) >> bit)) & 1u32) == 1u32) == (bit == shift),
        !(0 <= shift < 32) ==> bit32(shift) == 0,
{
    if 0 <= shift < 32 {
        let s = shift as u32;
        assert forall|bit: u32| bit < 32 implies ((((1u32 << s) >> bit) & 1u32) == 1u32) == (bit
            == s) by {
            assert(bit < 32 && s < 32 ==> ((((1u32 << s) >> bit) & 1u32) == 1u32) == (bit == s))
                by (bit_vector);
        }
    }
}

} // verus!

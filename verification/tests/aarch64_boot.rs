use brainix_kernel::aarch64_cpus::{first_waiting_cpu, running_cpu, start_core_bit, start_enable_bit, Cpu};
use brainix_kernel::aarch64_el::{exception_level_of, without_tge};
use brainix_kernel::aarch64_entropy::{boot_seed_span, derive_pair, SeedQuality, SeedReport};
use brainix_kernel::aarch64_entropy;
use brainix_kernel::aarch64_features::{ControlFlowSupport, RandomSupport};
use brainix_kernel::aarch64_ident::{el1_mmu_enabled, MemoryModel};
use brainix_kernel::aarch64_pac::{enable_bits, key_source, tampered, TAMPER_BIT};
use brainix_kernel::aarch64_bti::{guarded_page_of, BtiReport, EC_BRANCH_TARGET, SCTLR_BT};
use brainix_kernel::aarch64_mmu::{lifted_attributes, GP};
use brainix_kernel::aarch64_tables::BuildError;
use brainix_kernel::aarch64_walk::{Translation, WalkError};
use brainix_kernel::aarch64_smp::{
    brainix_secondary_sum, dispatch_poll, doorbell_affinity, next_request, reported_in, start_writes,
    wait_expired, DispatchPoll, DoorbellAction, DoorbellRun, SecondaryReport, SECONDARY_MAGIC,
};
use brainix_kernel::aarch64_timer::{countdown_fired, BoundedPoll, Timer, CTL_ISTATUS};
use brainix_kernel::vectors::{
    ExceptionEntry, ExceptionRecorder, LastException, LOWER_EL_SYNCHRONOUS, NO_EXCEPTION,
};
use sha2::{Digest, Sha256};

fn cpu(cluster: u32, core: u32, running: bool) -> Cpu {
    Cpu { cpu_id: cluster * 4 + core, cluster, core, running, ..Cpu::default() }
}

#[test]
fn running_and_waiting_cpus_are_found_in_order() {
    let list = [cpu(0, 0, true), cpu(0, 1, false), cpu(1, 0, false)];
    assert_eq!(running_cpu(&list), Some(list[0]));
    assert_eq!(first_waiting_cpu(&list), Some(list[1]));
    assert_eq!(first_waiting_cpu(&list[..1]), None);
}

#[test]
fn start_bits_follow_cluster_and_core() {
    assert_eq!(start_enable_bit(&cpu(1, 2, false)), 1 << 6);
    assert_eq!(start_core_bit(&cpu(1, 2, false)), 1 << 2);
    assert_eq!(start_enable_bit(&cpu(8, 0, false)), 0);
}

#[test]
fn exception_level_and_tge() {
    assert_eq!(exception_level_of(0b1000), 2);
    assert_eq!(exception_level_of(0b0100), 1);
    assert_eq!(without_tge(u64::MAX), u64::MAX & !(1 << 27));
}

#[test]
fn seed_span_is_relative_to_the_tree() {
    assert_eq!(boot_seed_span(0x1000, 0x1040, 64), Some((0x40, 64)));
    assert_eq!(boot_seed_span(0x1000, 0x0FFF, 64), None);
}

#[test]
fn seed_quality_counts_bytes() {
    let seed: Vec<u8> = (0u8..64).collect();
    let quality = SeedQuality::of(&seed);
    assert_eq!(quality.len, 64);
    assert_eq!(quality.nonzero, 63);
    assert_eq!(quality.distinct, 64);
    assert!(quality.usable());
    let erased = SeedQuality::of(&[0u8; 64]);
    assert_eq!(erased.nonzero, 0);
    assert_eq!(erased.distinct, 1);
    assert!(!erased.usable());
}

#[test]
fn seed_report_of_a_seed_and_of_none() {
    let seed: Vec<u8> = (1u8..=40).collect();
    let report = SeedReport::of_seed(&seed);
    assert!(report.present && report.usable && !report.erased);
    assert_eq!(report.first_eight, 0x0102_0304_0506_0708);
    let absent = SeedReport::absent();
    assert!(!absent.present && !absent.usable);
}

#[test]
fn derive_hashes_the_framed_message() {
    let seed = [7u8; 32];
    let domain = b"pac-ia";
    let mut message = b"BraiNIX/entropy/v1".to_vec();
    message.extend_from_slice(&(domain.len() as u64).to_le_bytes());
    message.extend_from_slice(domain);
    message.extend_from_slice(&(seed.len() as u64).to_le_bytes());
    message.extend_from_slice(&seed);
    let expected: [u8; 32] = Sha256::digest(&message).into();
    assert_eq!(aarch64_entropy::derive(&seed, domain), expected);
    let (low, high) = derive_pair(&seed, domain);
    assert_eq!(low, u64::from_le_bytes(expected[0..8].try_into().unwrap()));
    assert_eq!(high, u64::from_le_bytes(expected[8..16].try_into().unwrap()));
    assert_ne!(aarch64_entropy::derive(&seed, b"pac-ib"), expected);
}

#[test]
fn feature_registers_decode() {
    assert!(RandomSupport::from_isar0(1 << 60).present);
    assert!(!RandomSupport::from_isar0(2 << 60).present);
    let support = ControlFlowSupport::from_id_registers(0x0000_0100, 0x1);
    assert!(support.address_auth_impdef && !support.address_auth_qarma);
    assert!(support.address_auth());
    assert!(support.branch_target_identification);
    let model = MemoryModel::from_id_register(0x0000_0000_0010_0005);
    assert_eq!(model.physical_address_bits, Some(48));
    assert!(model.granule_16k && model.granule_4k && model.granule_64k);
    assert!(el1_mmu_enabled(0x30D0_1805));
    assert!(!el1_mmu_enabled(0x30D0_1804));
}

#[test]
fn pointer_authentication_helpers() {
    assert_eq!(tampered(0x1234) ^ 0x1234, TAMPER_BIT);
    assert_eq!(enable_bits() & 0x8000_0000, 0x8000_0000);
    let looked = SeedReport::absent();
    assert_eq!(key_source(Some((1, 2)), None, looked), (Some((1, 2)), None));
    assert_eq!(key_source(None, None, looked), (None, Some(looked)));
    assert_eq!(guarded_page_of(0x1_2345_6789), 0x1_2345_4000);
}

#[test]
fn secondary_sum_matches_its_closed_form() {
    assert_eq!(brainix_secondary_sum(0, 0), 0);
    assert_eq!(brainix_secondary_sum(1, 100), 5050);
    assert_eq!(brainix_secondary_sum(10, 5), 60);
    assert_eq!(brainix_secondary_sum(u64::MAX, 2), u64::MAX.wrapping_add(u64::MAX).wrapping_add(1));
    assert_eq!(next_request(u64::MAX), 0);
    assert!(reported_in(SECONDARY_MAGIC));
    assert!(!reported_in(0));
    assert_eq!(doorbell_affinity(0x8000_0102), 0x1_0002);
}

#[test]
fn timer_converts_ticks_to_micros() {
    assert!(Timer::current(0).is_none());
    let timer = Timer::current(24_000_000).unwrap();
    assert_eq!(timer.frequency_hz(), 24_000_000);
    assert_eq!(timer.ticks_to_micros(24_000_000), 1_000_000);
    assert_eq!(timer.ticks_to_micros(24), 1);
    assert_eq!(timer.ticks_to_micros(23), 0);
    assert!(countdown_fired(CTL_ISTATUS | 1));
}

#[test]
fn bounded_poll_stops_at_its_budget() {
    let mut poll = BoundedPoll::new(3);
    while poll.should_poll() {
        poll.observe(false);
    }
    assert_eq!(poll.polls(), 3);
    assert!(!poll.met());
    let mut quick = BoundedPoll::new(10);
    quick.observe(true);
    assert!(quick.met());
    assert!(!quick.should_poll());
}

fn entry(index: u64, elr: u64) -> ExceptionEntry {
    ExceptionEntry {
        index,
        esr_el2: 0x5600_0000,
        elr_el2: elr,
        far_el2: 0,
        esr_gl1: 0,
        elr_gl1: 0,
        gxf_status: 0,
        spsr_el2: 0x3C9,
    }
}

#[test]
fn exception_recorder_redirects_one_lower_el_trap() {
    let mut recorder = ExceptionRecorder::new();
    assert_eq!(recorder.last_exception().index, NO_EXCEPTION);
    recorder.redirect_lower_el_trap(0x8000, 0x3C5);
    let outcome = recorder.handle_exception(entry(LOWER_EL_SYNCHRONOUS, 0x1000));
    assert_eq!(outcome.resume.elr, 0x8000);
    assert_eq!(outcome.resume.spsr, 0x3C5);
    assert_eq!(recorder.last_exception().count, 1);
    let again = recorder.handle_exception(entry(LOWER_EL_SYNCHRONOUS, 0x1000));
    assert_eq!(again.resume.elr, 0x1004);
    let irq = recorder.handle_exception(entry(1, 0x2000));
    assert_eq!(irq.resume.elr, 0x2000);
    assert!(irq.disable_timer);
    assert_eq!(recorder.last_exception().count, 3);
}

#[test]
fn last_exception_after_several_is_the_last_one_counted() {
    let mut recorder = ExceptionRecorder::new();
    assert_eq!(recorder.last_exception().count, 0);
    for (k, index) in [4u64, 9, 2, 13].iter().enumerate() {
        recorder.handle_exception(entry(*index, 0x4000 + k as u64));
        assert_eq!(recorder.last_exception().index, *index);
        assert_eq!(recorder.last_exception().count, k as u64 + 1);
        assert_eq!(recorder.last_exception(), recorder.last_exception());
    }
    assert_eq!(recorder.last_exception().elr, 0x4003);
}

#[test]
fn waits_expire_after_the_timeout_across_wraparound() {
    assert!(!wait_expired(100, 150, 50));
    assert!(wait_expired(100, 151, 50));
    assert!(!wait_expired(u64::MAX - 10, 20, 40));
    assert!(wait_expired(u64::MAX - 10, 40, 40));
    assert!(!wait_expired(7, 7, 0));
}

#[test]
fn a_core_is_started_only_when_its_reset_vector_was_taken() {
    let core = Cpu { impl_reg: 0x2_1005_0000, ..cpu(1, 2, false) };
    let entry = 0x10_0804_4000;
    let taken = SecondaryReport::before_start(&core, 0x1, 0x10_0804_4000, entry, 0x2_3B75_4000);
    assert!(taken.rvbar_accepted);
    let plan = taken.start_plan(&core).unwrap();
    assert_eq!(plan, start_writes(&core, 0x2_3B75_4000));
    assert_eq!(plan.enable_address, 0x2_3B75_4004);
    assert_eq!(plan.cluster_address, 0x2_3B75_400C);
    assert_eq!(plan.enable_value, 1 << 6);
    assert_eq!(plan.core_value, 1 << 2);
    let locked = SecondaryReport::before_start(&core, 0x1, 0x10_0804_4001, entry, 0x2_3B75_4000);
    assert!(!locked.rvbar_accepted);
    assert_eq!(locked.start_plan(&core), None);
    let elsewhere = SecondaryReport::before_start(&core, 0x1, 0x10_0000_0000, entry, 0x2_3B75_4000);
    assert_eq!(elsewhere.start_plan(&core), None);
}

#[test]
fn polling_for_a_secondary_stops_on_report_or_timeout() {
    let core = cpu(0, 1, false);
    let mut report = SecondaryReport::before_start(&core, 0, 0x4000, 0x4000, 0x1000);
    assert!(report.record_poll(0, 1000, 1010, 50));
    assert_eq!(report.waited_ticks, 10);
    assert!(!report.started);
    assert!(!report.record_poll(0, 1000, 1051, 50));
    assert_eq!(report.waited_ticks, 51);
    assert!(!report.started);
    let mut again = SecondaryReport::before_start(&core, 0, 0x4000, 0x4000, 0x1000);
    assert!(!again.record_poll(SECONDARY_MAGIC, 1000, 1020, 50));
    assert!(again.started);
    assert_eq!(again.waited_ticks, 0);
}

/// TCR for a 16 KiB granule and 42 input bits.
const TCR_16K_42: u64 = 22 | (0b10 << 14);

#[test]
fn bti_preparation_stops_at_the_first_missing_piece() {
    let live = Ok(Translation { physical_address: 0x100_0000_4000, descriptor: 0x0060_0100_0000_4403, level: 2, is_block: false });
    let (report, attributes) = BtiReport::prepare(0, 0x30C5_0830, 0x8000, 0x100_0000_5678, TCR_16K_42, live);
    assert!(!report.supported);
    assert_eq!(attributes, None);
    assert_eq!(report.guarded_page, 0x100_0000_4000);
    assert_eq!((report.sctlr_after, report.restored_root, report.error), (0x30C5_0830, 0x8000, 0));
    let (report, attributes) = BtiReport::prepare(1, 0, 0x8000, 0x4000, 0b11 << 14, live);
    assert_eq!((report.error, attributes), (5, None));
    let (report, attributes) =
        BtiReport::prepare(1, 0, 0x8000, 0x4000, TCR_16K_42, Err(WalkError::AddressOutOfRange));
    assert_eq!((report.error, attributes), (3, None));
    let (report, attributes) = BtiReport::prepare(1, 0, 0x8000, 0x4000, TCR_16K_42, live);
    assert!(report.supported);
    assert_eq!(report.error, 0);
    assert_eq!(attributes, Some(lifted_attributes(0x0060_0100_0000_4403, 14)));
    assert_eq!(attributes, Some(0x0060_0000_0000_0400));
}

#[test]
fn bti_enforcement_is_judged_from_both_branches() {
    let live = Ok(Translation { physical_address: 0x4000, descriptor: 0x4403, level: 2, is_block: false });
    let (mut report, _) = BtiReport::prepare(1, 0x30C5_0830, 0x8000, 0x4010, TCR_16K_42, live);
    let mut refused = report;
    assert!(!refused.record_build(Err(BuildError::OutOfTables)));
    assert_eq!(refused.error, 1);
    assert!(!refused.record_guard(Ok(Translation { physical_address: 0x4000, descriptor: GP | 0x4403, level: 2, is_block: false })));
    assert!(report.record_build(Ok((0x9_0000, 5))));
    assert_eq!((report.guarded_root, report.tables_used), (0x9_0000, 5));
    let mut unguarded = report;
    assert!(!unguarded.record_guard(Ok(Translation { physical_address: 0x4000, descriptor: 0x4403, level: 2, is_block: false })));
    assert!(!unguarded.record_guard(Err(WalkError::AddressOutOfRange)));
    assert_eq!(unguarded.descriptor, 0x4403);
    assert!(report.record_guard(Ok(Translation { physical_address: 0x4000, descriptor: GP | 0x4403, level: 2, is_block: false })));
    let after_bad = LastException {
        index: 0,
        esr: EC_BRANCH_TARGET << 26,
        elr: 0x4000,
        far: 0,
        count: 8,
        gxf_status: 0,
        spsr: 0x3C9,
        guarded: false,
    };
    let mut good_faulted = report;
    good_faulted.record_branches(0x30C5_0830 | SCTLR_BT, 7, after_bad, 9);
    assert!(good_faulted.good_branch_faulted);
    assert!(!good_faulted.enforcement_works());
    report.record_branches(0x30C5_0830 | SCTLR_BT, 7, after_bad, 8);
    assert!(report.bad_branch_faulted);
    assert!(!report.good_branch_faulted);
    assert_eq!(report.bad_branch_esr, EC_BRANCH_TARGET << 26);
    report.record_restore(0x30C5_0830, 0x8000);
    assert_eq!((report.sctlr_after, report.restored_root), (0x30C5_0830, 0x8000));
    assert!(report.enforcement_works());
}

#[test]
fn dispatch_waits_for_its_own_request() {
    assert_eq!(dispatch_poll(7, 7, 55, 1000, 1030, 100), DispatchPoll::Done { result: 55, ticks: 30 });
    assert_eq!(dispatch_poll(7, 6, 55, 1000, 1030, 100), DispatchPoll::Wait);
    assert_eq!(dispatch_poll(7, 6, 55, 1000, 1101, 100), DispatchPoll::TimedOut);
    assert_eq!(dispatch_poll(7, 7, 55, 1000, 1101, 100), DispatchPoll::Done { result: 55, ticks: 101 });
}

#[test]
fn doorbells_are_rung_one_observation_at_a_time() {
    let mut run = DoorbellRun::new(2, 100, 1000, 50);
    assert_eq!(run.next(100, 1000), DoorbellAction::Ring);
    assert_eq!(run.next(100, 1010), DoorbellAction::Poll);
    assert_eq!(run.next(101, 1020), DoorbellAction::Ring);
    assert_eq!(run.next(101, 1030), DoorbellAction::Poll);
    assert_eq!(run.next(102, 1040), DoorbellAction::Finish { observed: 2, ticks: 40 });
    let mut stalled = DoorbellRun::new(3, 5, 0, 10);
    assert_eq!(stalled.next(5, 0), DoorbellAction::Ring);
    assert_eq!(stalled.next(5, 10), DoorbellAction::Poll);
    assert_eq!(stalled.next(5, 11), DoorbellAction::Finish { observed: 0, ticks: 11 });
    let mut none = DoorbellRun::new(0, 7, 0, 10);
    assert_eq!(none.next(7, 3), DoorbellAction::Finish { observed: 0, ticks: 3 });
}

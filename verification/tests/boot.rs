use brainix_kernel::boot_phases::{log_boot_complete, log_boot_infrastructure_status, log_kernel_banner};
use brainix_kernel::hardware_security_init::{attestation_timed_out, compute_elapsed_ticks_since};
use brainix_kernel::logger::BootStepLogger;
use brainix_kernel::multiboot2_info::{
    align_address_up_to_page_boundary, available_pages_in_region, kernel_binary_pages,
    multiboot2_info_valid, MULTIBOOT2_BOOTLOADER_MAGIC,
};
use brainix_kernel::serial::{configuration_writes, transmit_buffer_empty, SerialOutputPort};
use brainix_kernel::server_measurement::{
    compute_module_sha256, extract_module_byte_slices_from_boot_information,
    pick_shell_module_byte_slice, ModuleSpan,
};
use sha2::{Digest, Sha256};

fn logger() -> BootStepLogger {
    BootStepLogger::new(SerialOutputPort::initialize())
}

#[test]
fn serial_port_programming_and_line_endings() {
    let writes = configuration_writes();
    assert_eq!(writes.len(), 7);
    assert_eq!(writes[0], (0x3FB, 0x80));
    assert_eq!(writes[1], (0x3F8, 0x01));
    assert!(transmit_buffer_empty(0x20));
    assert!(!transmit_buffer_empty(0x01));
    let mut port = SerialOutputPort::initialize();
    port.write_text(b"a\nb");
    port.write_byte(b'!');
    assert_eq!(port.take_output(), b"a\r\nb!".to_vec());
    assert!(port.take_output().is_empty());
}

#[test]
fn logger_writes_tagged_lines() {
    let mut log = logger();
    log.ok("ready");
    log.step("go");
    log.warn("careful");
    log.fail("broke", "why");
    log.halt("stop");
    assert_eq!(
        log.take_output(),
        b"[BOOT] [OK  ] ready\r\n[BOOT] [STEP] go\r\n[BOOT] [WARN] careful\r\n[BOOT] [FAIL] broke\r\n[BOOT] [FAIL] why\r\n[BOOT] [HALT] stop\r\n".to_vec()
    );
}

#[test]
fn banner_and_status_lines() {
    let mut log = logger();
    log_kernel_banner(&mut log);
    log_boot_infrastructure_status(&mut log);
    log_boot_complete(&mut log);
    let text = String::from_utf8(log.take_output()).unwrap();
    let separator = "=".repeat(80);
    let expected = format!(
        "{sep}\r\n BraiNIX MICROKERNEL  v0.1.0\r\n x86_64-unknown-none | Rust nightly-2025-12-01 | Phase 12\r\n{sep}\r\n\
         [BOOT] [OK  ] Serial console initialized (COM1 | 115200 8N1)\r\n\
         [BOOT] [OK  ] Kernel entry point reached\r\n\
         [BOOT] [INFO] Build: Phase 12 -- Attestation chain measurement wiring\r\n\
         [BOOT] [OK  ] BraiNIX: boot complete\r\n",
        sep = separator
    );
    assert_eq!(text, expected);
}

#[test]
fn multiboot2_handoff_is_checked() {
    assert!(multiboot2_info_valid(MULTIBOOT2_BOOTLOADER_MAGIC, 0x9000));
    assert!(!multiboot2_info_valid(MULTIBOOT2_BOOTLOADER_MAGIC, 0));
    assert!(!multiboot2_info_valid(0x2BADB002, 0x9000));
}

#[test]
fn page_alignment_rounds_up_and_wraps() {
    assert_eq!(align_address_up_to_page_boundary(0), 0);
    assert_eq!(align_address_up_to_page_boundary(1), 0x1000);
    assert_eq!(align_address_up_to_page_boundary(0x1000), 0x1000);
    assert_eq!(align_address_up_to_page_boundary(0x1FFF), 0x2000);
    assert_eq!(align_address_up_to_page_boundary(u64::MAX), 0);
}

#[test]
fn free_pages_skip_low_memory_and_the_kernel() {
    let pages = available_pages_in_region(0x0F_F800, 0x20_3000);
    assert_eq!(pages, vec![0x20_0000, 0x20_1000, 0x20_2000]);
    let partial = available_pages_in_region(0x30_0001, 0x30_3000);
    assert_eq!(partial, vec![0x30_1000, 0x30_2000]);
    assert!(available_pages_in_region(0, 0x1F_FFFF).is_empty());
    assert!(available_pages_in_region(0x40_0000, 0x40_0FFF).is_empty());
}

#[test]
fn kernel_image_pages() {
    let pages = kernel_binary_pages();
    assert_eq!(pages.len(), 256);
    assert_eq!(pages[0], 0x10_0000);
    assert_eq!(pages[255], 0x1F_F000);
    let free = available_pages_in_region(0, 0x40_0000);
    assert!(pages.iter().all(|page| !free.contains(page)));
}

#[test]
fn module_spans_fill_eight_slots() {
    let ranges = [(0x10_0000u32, 0x10_8000u32), (0x20_0000, 0x20_1000), (0x30_0000, 0x2F_0000)];
    let spans = extract_module_byte_slices_from_boot_information(&ranges);
    assert_eq!(spans.len(), 8);
    assert_eq!(spans[0], ModuleSpan { start_address: 0x10_0000, byte_count: 0x8000 });
    assert_eq!(spans[1], ModuleSpan { start_address: 0x20_0000, byte_count: 0x1000 });
    assert_eq!(spans[2], ModuleSpan { start_address: 0, byte_count: 0 });
    assert!(spans[3..].iter().all(|span| span.byte_count == 0));
    assert_eq!(pick_shell_module_byte_slice(&spans), spans[1]);
    let many: Vec<(u32, u32)> = (0..10).map(|i| (i * 0x1000, i * 0x1000 + 1)).collect();
    let capped = extract_module_byte_slices_from_boot_information(&many);
    assert_eq!(capped.len(), 8);
    assert_eq!(capped[7], ModuleSpan { start_address: 0x7000, byte_count: 1 });
}

#[test]
fn module_measurement_is_sha256() {
    let expected: [u8; 32] = Sha256::digest(b"shell image").into();
    assert_eq!(compute_module_sha256(b"shell image"), expected);
    let empty: [u8; 32] = Sha256::digest(b"").into();
    assert_eq!(compute_module_sha256(&[]), empty);
}

#[test]
fn attestation_timing() {
    assert_eq!(compute_elapsed_ticks_since(100, 250), 150);
    assert_eq!(compute_elapsed_ticks_since(250, 100), 0);
    assert!(!attestation_timed_out(60_000, 1000));
    assert!(attestation_timed_out(60_001, 1000));
    assert!(!attestation_timed_out(u64::MAX, u64::MAX));
}

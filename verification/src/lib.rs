//! Verified core of the BraiNIX kernel: page-table building and walking,
//! CPU identification decoding, credential checks and boot-time bookkeeping.

pub mod aarch64_features;
pub mod bits;
pub mod bytes;
pub mod digest;
pub mod aarch64_walk;
pub mod aarch64_tables;
pub mod auth;
pub mod device_table;
pub mod serial;
pub mod logger;
pub mod aarch64_entropy;
pub mod aarch64_cpus;
pub mod aarch64_ident;
pub mod vectors;
pub mod aarch64_timer;
pub mod aarch64_el;
pub mod aarch64_smp;
pub mod aarch64_mmu;
pub mod aarch64_pac;
pub mod aarch64_bti;
pub mod x86_paging;
pub mod x86_pci;
pub mod x86_e1000;
pub mod x86_virtio_blk;
pub mod x86_syscall;
pub mod hardware_security_init;
pub mod multiboot2_info;
pub mod server_measurement;
pub mod boot_phases;

//! The fixed lines the boot sequence prints around its steps: the kernel
//! banner, the status of the boot infrastructure, and the final line that
//! says boot is complete.

use vstd::prelude::*;
use crate::logger::{BootStepLogger, step_line, ok_tag, info_tag, separator_line};
use crate::serial::crlf;
use vstd::string::StringSliceAdditionalSpecFns;

verus! {

/// The banner: the kernel's name and version, then its target, between two
/// separator lines.
pub fn log_kernel_banner(boot_step_logger: &mut BootStepLogger)
    ensures
        final(boot_step_logger).output() == old(boot_step_logger).output() + crlf(
            separator_line(),
        ) + crlf(" BraiNIX MICROKERNEL  v0.1.0".spec_bytes().push(10u8)) + crlf(
            " x86_64-unknown-none | Rust nightly-2025-12-01 | Phase 12".spec_bytes().push(10u8),
        ) + crlf(separator_line()),
{
    boot_step_logger.separator();
    boot_step_logger.line(" BraiNIX MICROKERNEL  v0.1.0");
    boot_step_logger.line(" x86_64-unknown-none | Rust nightly-2025-12-01 | Phase 12");
    boot_step_logger.separator();
}

/// The steps done before the logger existed: the serial console and the
/// kernel entry point, and which build this is.
pub fn log_boot_infrastructure_status(boot_step_logger: &mut BootStepLogger)
    ensures
        final(boot_step_logger).output() == old(boot_step_logger).output() + crlf(
            step_line(ok_tag(), "Serial console initialized (COM1 | 115200 8N1)".spec_bytes()),
        ) + crlf(step_line(ok_tag(), "Kernel entry point reached".spec_bytes())) + crlf(
            step_line(
                info_tag(),
                "Build: Phase 12 -- Attestation chain measurement wiring".spec_bytes(),
            ),
        ),
{
    boot_step_logger.ok("Serial console initialized (COM1 | 115200 8N1)");
    boot_step_logger.ok("Kernel entry point reached");
    boot_step_logger.info("Build: Phase 12 -- Attestation chain measurement wiring");
}

/// The last line of a successful boot.
pub fn log_boot_complete(boot_step_logger: &mut BootStepLogger)
    ensures
        final(boot_step_logger).output() == old(boot_step_logger).output() + crlf(
            step_line(ok_tag(), "BraiNIX: boot complete".spec_bytes()),
        ),
{
    boot_step_logger.ok("BraiNIX: boot complete");
}

} // verus!

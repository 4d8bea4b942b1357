# brainix_kernel

The decision-making core of the BraiNIX kernel, proved with Verus.

- `src/` is the library. AArch64: translation-table building (`aarch64_tables`)
  and walking (`aarch64_walk`), the EL1 regime with one EL0 page and the
  built-root cross-check (`aarch64_mmu`), CPU, feature and ID-register
  decoding, exception recording, the timer, SMP start-up, PAC, BTI and
  boot-seed key derivation. x86: page-table flags and W^X, PCI configuration
  addresses and bus enumeration, e1000 and virtio-blk register logic, the
  canonical-address check on system-call arguments. Boot:
  the serial port and boot logger, credentials, device capabilities, the
  multiboot2 memory map, module measurement and attestation timing.
- `app/` is the hardware around it: port and system-register access, the
  multiboot2 hand-off, polling loops, the translation-root switch and the
  secondary-core entry stub.
- `tests/` exercises the library on concrete values.

SHA-256 comes from the `sha2` crate through one trusted function,
`digest::sha256_digest`, whose result is named `digest::sha256`.

//! Intel 82540EM (e1000) NIC: what the driver decides from register values.
//!
//! Register and DMA accesses are the caller's; what is here is the device
//! record, where its registers live, the MAC address they hold, and the
//! ring arithmetic and descriptor fields the driver writes.

use vstd::prelude::*;

verus! {

/// Intel's PCI vendor ID.
pub const INTEL_VENDOR_ID: u16 = 0x8086;
/// The 82540EM's device ID.
pub const E1000_82540EM_DEVICE_ID: u16 = 0x100E;
/// Pages of register space to map.
pub const E1000_REGISTER_SPACE_PAGES: usize = 32;

/// `CTRL.RST`, bit 26.
pub const CONTROL_RESET: u32 = 0x400_0000;
/// `CTRL.ASDE`, bit 5.
pub const CONTROL_AUTO_SPEED_DETECT: u32 = 0x20;
/// `CTRL.SLU`, bit 6.
pub const CONTROL_SET_LINK_UP: u32 = 0x40;

/// Descriptors per ring.
pub const RING_ENTRY_COUNT: usize = 8;
/// Bytes per receive buffer, and the largest frame sent.
pub const RECEIVE_BUFFER_SIZE: usize = 2048;
/// Bytes per descriptor.
pub const DESCRIPTOR_SIZE: usize = 16;

/// Transmit command bits: end of packet, insert FCS, report status.
pub const TX_COMMAND: u8 = 0b1011;
/// Descriptor-done status bit.
pub const STATUS_DESCRIPTOR_DONE: u8 = 1;

/// Status register offset, for diagnostics.
pub const DEBUG_REGISTER_STATUS: u64 = 0x0008;
/// Transmit head register offset.
pub const DEBUG_REGISTER_TX_HEAD: u64 = 0x3810;
/// Transmit tail register offset.
pub const DEBUG_REGISTER_TX_TAIL: u64 = 0x3818;
/// Transmit ring base (low) register offset.
pub const DEBUG_REGISTER_TX_BASE_LOW: u64 = 0x3800;
/// Transmit control register offset.
pub const DEBUG_REGISTER_TX_CONTROL: u64 = 0x0400;

/// An initialised NIC: where its registers are and its MAC address.
#[derive(Copy, Clone, Debug)]
pub struct E1000Device {
    mmio_base_address: u64,
    mac_address: [u8; 6],
}

impl E1000Device {
    /// The register base.
    pub closed spec fn mmio_spec(self) -> u64 {
        self.mmio_base_address
    }

    /// The MAC address.
    pub closed spec fn mac_spec(self) -> Seq<u8> {
        self.mac_address@
    }

    /// The device at `mmio_base_address` with this MAC address.
    pub fn new(mmio_base_address: u64, mac_address: [u8; 6]) -> (device: Self)
        ensures
            device.mmio_spec() == mmio_base_address,
            device.mac_spec() == mac_address@,
    {
        E1000Device { mmio_base_address, mac_address }
    }

    /// The MAC address read from the receive-address registers.
    pub fn mac_address(&self) -> (mac: [u8; 6])
        ensures
            mac@ == self.mac_spec(),
    {
        self.mac_address
    }

    /// Physical base of the register space.
    pub fn mmio_base_address(&self) -> (base: u64)
        ensures
            base == self.mmio_spec(),
    {
        self.mmio_base_address
    }

    /// Address of the register at `offset`, for a diagnostic read.
    pub fn debug_register(&self, offset: u64) -> (address: u64)
        ensures
            address == self.mmio_spec().wrapping_add(offset),
    {
        self.mmio_base_address.wrapping_add(offset)
    }
}

/// The register base BAR0 names, or `None` for an I/O-space BAR.
pub fn mmio_base_from_bar(bar0: u32) -> (base: Option<u64>)
    ensures
        base == (if bar0 & 1 != 0 {
            None::<u64>
        } else {
            Some((bar0 & 0xFFFF_FFF0) as u64)
        }),
{
    if bar0 & 0x1 != 0 {
        return None;
    }
    Some((bar0 & 0xFFFF_FFF0) as u64)
}

/// The MAC address held in `RAL0` (bytes 0..4) and `RAH0` (bytes 4..6),
/// least significant byte first.
pub fn mac_from_receive_address(low: u32, high: u32) -> (mac: [u8; 6])
    ensures
        mac@ == seq![
            (low & 0xFF) as u8,
            ((low >> 8u32) & 0xFF) as u8,
            ((low >> 16u32) & 0xFF) as u8,
            ((low >> 24u32) & 0xFF) as u8,
            (high & 0xFF) as u8,
            ((high >> 8u32) & 0xFF) as u8,
        ],
{
    let mac = [
        (low & 0xFF) as u8,
        ((low >> 8) & 0xFF) as u8,
        ((low >> 16) & 0xFF) as u8,
        ((low >> 24) & 0xFF) as u8,
        (high & 0xFF) as u8,
        ((high >> 8) & 0xFF) as u8,
    ];
    assert(mac@ =~= seq![
        (low & 0xFF) as u8,
        ((low >> 8u32) & 0xFF) as u8,
        ((low >> 16u32) & 0xFF) as u8,
        ((low >> 24u32) & 0xFF) as u8,
        (high & 0xFF) as u8,
        ((high >> 8u32) & 0xFF) as u8,
    ]);
    mac
}

/// The MAC address as one 48-bit word, first byte most significant.
pub fn mac_word(mac: [u8; 6]) -> (word: u64)
    ensures
        word == ((mac[0] as u64) << 40u64) | ((mac[1] as u64) << 32u64) | ((mac[2] as u64)
            << 24u64) | ((mac[3] as u64) << 16u64) | ((mac[4] as u64) << 8u64) | (mac[5] as u64),
{
    ((mac[0] as u64) << 40) | ((mac[1] as u64) << 32) | ((mac[2] as u64) << 24) | ((mac[3] as u64)
        << 16) | ((mac[4] as u64) << 8) | (mac[5] as u64)
}

/// Whether a frame can be sent: not empty and no longer than the buffer.
pub fn frame_fits(length: usize) -> (fits: bool)
    ensures
        fits == (length > 0 && length <= RECEIVE_BUFFER_SIZE),
{
    length != 0 && length <= RECEIVE_BUFFER_SIZE
}

/// The ring slot after `index`.
pub fn next_ring_index(index: usize) -> (next: usize)
    requires
        index < usize::MAX,
    ensures
        next == (index + 1) % (RING_ENTRY_COUNT as int),
        next < RING_ENTRY_COUNT,
{
    (index + 1) % RING_ENTRY_COUNT
}

/// Bytes copied out of a received frame: no more than the frame, the
/// caller's buffer, or a receive buffer.
pub fn receive_copy_length(frame_length: usize, output_length: usize) -> (copied: usize)
    ensures
        copied <= frame_length,
        copied <= output_length,
        copied <= RECEIVE_BUFFER_SIZE,
        copied == frame_length || copied == output_length || copied == RECEIVE_BUFFER_SIZE,
        copied == vstd::math::min(
            vstd::math::min(frame_length as int, output_length as int),
            RECEIVE_BUFFER_SIZE as int,
        ),
{
    let shorter = if frame_length < output_length {
        frame_length
    } else {
        output_length
    };
    if shorter < RECEIVE_BUFFER_SIZE {
        shorter
    } else {
        RECEIVE_BUFFER_SIZE
    }
}

/// `CTRL` with the reset bit set.
pub fn control_with_reset(control: u32) -> (updated: u32)
    ensures
        updated == control | CONTROL_RESET,
{
    control | CONTROL_RESET
}

/// `CTRL` with link-up and speed detection set.
pub fn control_with_link_up(control: u32) -> (updated: u32)
    ensures
        updated == control | CONTROL_SET_LINK_UP | CONTROL_AUTO_SPEED_DETECT,
{
    control | CONTROL_SET_LINK_UP | CONTROL_AUTO_SPEED_DETECT
}

/// The diagnostic word for a transmit descriptor: command byte, length and
/// status packed as `command << 16 | length << 4 | status`.
pub fn transmit_descriptor_summary(command: u32, length: u32, status: u32) -> (summary: u32)
    ensures
        summary == (command << 16u32) | (length << 4u32) | status,
{
    (command << 16) | (length << 4) | status
}

} // verus!

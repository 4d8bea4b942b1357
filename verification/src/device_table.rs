//! The QEMU virtio devices' MMIO windows and IRQ lines, and the capability
//! data each device service is granted: exactly its own window and line.

use vstd::prelude::*;

verus! {

/// The kinds of device a capability can name.
#[derive(Copy, Clone, PartialEq, Eq, Debug, Structural)]
pub enum DeviceType {
    /// A network interface.
    NetworkInterface,
    /// A block storage device.
    BlockStorage,
}

/// An IRQ slot that grants no interrupt line.
pub const IRQ_NONE: u8 = 0xFF;

/// What a device capability grants: one MMIO window and up to four IRQ lines.
#[derive(Copy, Clone, Debug)]
pub struct DeviceCapabilityData {
    /// Which kind of device this is.
    pub device_type: DeviceType,
    /// Physical base of the device's MMIO window.
    pub mmio_base_address: u64,
    /// Size in bytes of the MMIO window.
    pub mmio_size: u32,
    /// IRQ lines granted, [`IRQ_NONE`] in the unused slots.
    pub irq_set: [u8; 4],
}

/// Physical base address of the virtio-net-pci MMIO region in QEMU.
pub const VIRTIO_NET_MMIO_BASE_ADDRESS: u64 = 0xFEBE_0000;

/// Size in bytes of the virtio-net-pci MMIO region.
pub const VIRTIO_NET_MMIO_SIZE: u32 = 0x1000;

/// IRQ number assigned to the virtio-net-pci device in QEMU.
pub const VIRTIO_NET_IRQ_NUMBER: u8 = 11;

/// Physical base address of the virtio-blk-pci MMIO region in QEMU.
pub const VIRTIO_BLK_MMIO_BASE_ADDRESS: u64 = 0xFEBD_0000;

/// Size in bytes of the virtio-blk-pci MMIO region.
pub const VIRTIO_BLK_MMIO_SIZE: u32 = 0x1000;

/// IRQ number assigned to the virtio-blk-pci device in QEMU.
pub const VIRTIO_BLK_IRQ_NUMBER: u8 = 10;

/// The capability data scoped to exactly one MMIO window and one IRQ line.
pub open spec fn scoped_to(
    data: DeviceCapabilityData,
    device_type: DeviceType,
    base: u64,
    size: u32,
    irq: u8,
) -> bool {
    &&& data.device_type == device_type
    &&& data.mmio_base_address == base
    &&& data.mmio_size == size
    &&& data.irq_set@ == seq![irq, IRQ_NONE, IRQ_NONE, IRQ_NONE]
}

/// The capability data for the virtio-net-pci NIC: its MMIO window and its
/// IRQ, and nothing else.
pub fn build_nic_device_capability_data() -> (data: DeviceCapabilityData)
    ensures
        scoped_to(
            data,
            DeviceType::NetworkInterface,
            VIRTIO_NET_MMIO_BASE_ADDRESS,
            VIRTIO_NET_MMIO_SIZE,
            VIRTIO_NET_IRQ_NUMBER,
        ),
{
    let data = DeviceCapabilityData {
        device_type: DeviceType::NetworkInterface,
        mmio_base_address: VIRTIO_NET_MMIO_BASE_ADDRESS,
        mmio_size: VIRTIO_NET_MMIO_SIZE,
        irq_set: [VIRTIO_NET_IRQ_NUMBER, IRQ_NONE, IRQ_NONE, IRQ_NONE],
    };
    assert(data.irq_set@ =~= seq![VIRTIO_NET_IRQ_NUMBER, IRQ_NONE, IRQ_NONE, IRQ_NONE]);
    data
}

/// The capability data for the virtio-blk-pci disk: its MMIO window and its
/// IRQ, and nothing else.
pub fn build_disk_device_capability_data() -> (data: DeviceCapabilityData)
    ensures
        scoped_to(
            data,
            DeviceType::BlockStorage,
            VIRTIO_BLK_MMIO_BASE_ADDRESS,
            VIRTIO_BLK_MMIO_SIZE,
            VIRTIO_BLK_IRQ_NUMBER,
        ),
{
    let data = DeviceCapabilityData {
        device_type: DeviceType::BlockStorage,
        mmio_base_address: VIRTIO_BLK_MMIO_BASE_ADDRESS,
        mmio_size: VIRTIO_BLK_MMIO_SIZE,
        irq_set: [VIRTIO_BLK_IRQ_NUMBER, IRQ_NONE, IRQ_NONE, IRQ_NONE],
    };
    assert(data.irq_set@ =~= seq![VIRTIO_BLK_IRQ_NUMBER, IRQ_NONE, IRQ_NONE, IRQ_NONE]);
    data
}

/// Law: the two device services' capabilities are disjoint: their MMIO
/// windows do not overlap and they share no IRQ line.
pub proof fn lemma_device_capabilities_disjoint(nic: DeviceCapabilityData, disk: DeviceCapabilityData)
    requires
        scoped_to(
            nic,
            DeviceType::NetworkInterface,
            VIRTIO_NET_MMIO_BASE_ADDRESS,
            VIRTIO_NET_MMIO_SIZE,
            VIRTIO_NET_IRQ_NUMBER,
        ),
        scoped_to(
            disk,
            DeviceType::BlockStorage,
            VIRTIO_BLK_MMIO_BASE_ADDRESS,
            VIRTIO_BLK_MMIO_SIZE,
            VIRTIO_BLK_IRQ_NUMBER,
        ),
    ensures
        disk.mmio_base_address + disk.mmio_size <= nic.mmio_base_address,
        forall|i: int, j: int|
            0 <= i < 4 && 0 <= j < 4 && nic.irq_set@[i] != IRQ_NONE ==> nic.irq_set@[i]
                != disk.irq_set@[j],
{
}

} // verus!

use brainix_kernel::x86_syscall::is_canonical_virtual_address;
use brainix_kernel::x86_e1000::{
    control_with_link_up, control_with_reset, frame_fits, mac_from_receive_address, mac_word,
    mmio_base_from_bar, next_ring_index, receive_copy_length, transmit_descriptor_summary,
    E1000Device, RECEIVE_BUFFER_SIZE, RING_ENTRY_COUNT,
};
use brainix_kernel::x86_pci::{
    base_address_register_offset, compute_config_address, enable_memory_space_and_bus_master,
    find_device, for_each_device_on_bus_zero, PciDeviceLocation, VIRTIO_PCI_VENDOR_ID,
};
use brainix_kernel::x86_virtio_blk::{
    available_ring_slot, compute_used_ring_offset, data_descriptor_flags, VirtioBlockDevice,
};

/// A bus with an Intel e1000 at device 3 and a virtio block device at 4.1.
fn fake_config_space(bus: u8, device: u8, function: u8, offset: u8) -> u32 {
    if bus != 0 || offset != 0 {
        return 0;
    }
    match (device, function) {
        (3, 0) => 0x100E_8086,
        (4, 1) => 0x1001_1AF4,
        _ => 0xFFFF_FFFF,
    }
}

#[test]
fn config_address_packs_bus_device_function_and_offset() {
    assert_eq!(compute_config_address(0, 0, 0, 0), 0x8000_0000);
    assert_eq!(compute_config_address(1, 3, 2, 0x13), 0x8001_1A10);
    assert_eq!(base_address_register_offset(0), 0x10);
    assert_eq!(base_address_register_offset(5), 0x24);
    assert_eq!(enable_memory_space_and_bus_master(0x0010_0000), 0x0010_0006);
}

#[test]
fn devices_on_bus_zero_are_enumerated_in_order() {
    let devices = for_each_device_on_bus_zero(fake_config_space);
    assert_eq!(devices.len(), 2);
    assert_eq!(
        devices[0],
        PciDeviceLocation { bus: 0, device: 3, function: 0, vendor_id: 0x8086, device_id: 0x100E }
    );
    assert_eq!(devices[1].device, 4);
    assert_eq!(devices[1].function, 1);
    assert_eq!(devices[1].vendor_device_word(), 0x1AF4_1001);
    assert_eq!(devices[1].bus_device_function_word(), 0x0401);
    let found = find_device(VIRTIO_PCI_VENDOR_ID, 0x1001, fake_config_space).unwrap();
    assert_eq!((found.device, found.function), (4, 1));
    assert!(find_device(0x8086, 0x1234, fake_config_space).is_none());
}

#[test]
fn e1000_register_decoding() {
    assert_eq!(mmio_base_from_bar(0xFEB8_0000), Some(0xFEB8_0000));
    assert_eq!(mmio_base_from_bar(0xC001), None);
    let mac = mac_from_receive_address(0x1200_5452, 0x5634);
    assert_eq!(mac, [0x52, 0x54, 0x00, 0x12, 0x34, 0x56]);
    assert_eq!(mac_word(mac), 0x5254_0012_3456);
    let device = E1000Device::new(0xFEB8_0000, mac);
    assert_eq!(device.mac_address(), mac);
    assert_eq!(device.mmio_base_address(), 0xFEB8_0000);
    assert_eq!(device.debug_register(0x8), 0xFEB8_0008);
}

#[test]
fn e1000_ring_and_frame_rules() {
    assert!(!frame_fits(0));
    assert!(frame_fits(RECEIVE_BUFFER_SIZE));
    assert!(!frame_fits(RECEIVE_BUFFER_SIZE + 1));
    assert_eq!(next_ring_index(RING_ENTRY_COUNT - 1), 0);
    assert_eq!(next_ring_index(2), 3);
    assert_eq!(next_ring_index(13), 6);
    assert_eq!(receive_copy_length(60, 1500), 60);
    assert_eq!(receive_copy_length(4000, 5000), RECEIVE_BUFFER_SIZE);
    assert_eq!(receive_copy_length(100, 10), 10);
    assert_eq!(control_with_reset(0) & (1 << 26), 1 << 26);
    assert_eq!(control_with_link_up(0) & (1 << 6), 1 << 6);
    assert_eq!(transmit_descriptor_summary(0x0B, 42, 1), 0x000B_02A1);
}

#[test]
fn virtio_queue_layout() {
    assert_eq!(compute_used_ring_offset(256), 8192);
    assert_eq!(compute_used_ring_offset(8), 4096);
    assert_eq!(available_ring_slot(8, 9), 1);
    assert_eq!(data_descriptor_flags(true), 3);
    assert_eq!(data_descriptor_flags(false), 1);
    assert!(VirtioBlockDevice::configure(0xC001, 0, 0, 0).is_none());
    assert!(VirtioBlockDevice::configure(0xC001, 0, 0, 512).is_none());
    let device = VirtioBlockDevice::configure(0xC041, 0x10_0000, 1, 256).unwrap();
    assert_eq!(device.io_base_port(), 0xC040);
    assert_eq!(device.capacity_in_sectors(), 0x1_0010_0000);
}

#[test]
fn canonical_addresses_are_the_two_halves() {
    assert!(is_canonical_virtual_address(0));
    assert!(is_canonical_virtual_address(0x0000_7FFF_FFFF_FFFF));
    assert!(!is_canonical_virtual_address(0x0000_8000_0000_0000));
    assert!(!is_canonical_virtual_address(0xFFFF_7FFF_FFFF_FFFF));
    assert!(is_canonical_virtual_address(0xFFFF_8000_0000_0000));
    assert!(is_canonical_virtual_address(u64::MAX));
}

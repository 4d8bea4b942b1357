use brainix_kernel::device_table::{
    build_disk_device_capability_data, build_nic_device_capability_data, DeviceType, IRQ_NONE,
    VIRTIO_BLK_IRQ_NUMBER, VIRTIO_BLK_MMIO_BASE_ADDRESS, VIRTIO_BLK_MMIO_SIZE,
    VIRTIO_NET_IRQ_NUMBER, VIRTIO_NET_MMIO_BASE_ADDRESS, VIRTIO_NET_MMIO_SIZE,
};

#[test]
fn test_build_nic_device_capability_data_has_correct_fields() {
    let nic_data = build_nic_device_capability_data();
    assert_eq!(nic_data.device_type, DeviceType::NetworkInterface);
    assert_eq!(nic_data.mmio_base_address, VIRTIO_NET_MMIO_BASE_ADDRESS);
    assert_eq!(nic_data.mmio_size, VIRTIO_NET_MMIO_SIZE);
    assert_eq!(nic_data.irq_set[0], VIRTIO_NET_IRQ_NUMBER);
    assert_eq!(nic_data.irq_set[1], IRQ_NONE);
    assert_eq!(nic_data.irq_set[2], IRQ_NONE);
    assert_eq!(nic_data.irq_set[3], IRQ_NONE);
}

#[test]
fn test_build_disk_device_capability_data_has_correct_fields() {
    let disk_data = build_disk_device_capability_data();
    assert_eq!(disk_data.device_type, DeviceType::BlockStorage);
    assert_eq!(disk_data.mmio_base_address, VIRTIO_BLK_MMIO_BASE_ADDRESS);
    assert_eq!(disk_data.mmio_size, VIRTIO_BLK_MMIO_SIZE);
    assert_eq!(disk_data.irq_set[0], VIRTIO_BLK_IRQ_NUMBER);
    assert_eq!(disk_data.irq_set[1], IRQ_NONE);
    assert_eq!(disk_data.irq_set[2], IRQ_NONE);
    assert_eq!(disk_data.irq_set[3], IRQ_NONE);
}

#[test]
fn nic_and_disk_windows_do_not_overlap() {
    let nic = build_nic_device_capability_data();
    let disk = build_disk_device_capability_data();
    let nic_end = nic.mmio_base_address + nic.mmio_size as u64;
    let disk_end = disk.mmio_base_address + disk.mmio_size as u64;
    assert!(nic_end <= disk.mmio_base_address || disk_end <= nic.mmio_base_address);
    assert_ne!(nic.irq_set[0], disk.irq_set[0]);
}

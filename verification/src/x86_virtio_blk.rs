//! Legacy virtio-blk over PCI I/O ports: the device record, the queue
//! layout in the 16 KiB queue area, and the descriptor chain of a request.
//!
//! Port and queue-memory accesses are the caller's; what is here is what the
//! driver decides from the values it reads.

use vstd::prelude::*;

verus! {

/// The transitional virtio-blk PCI device ID.
pub const VIRTIO_BLK_TRANSITIONAL_DEVICE_ID: u16 = 0x1001;

/// Bytes per sector.
pub const SECTOR_SIZE_IN_BYTES: usize = 512;

/// Bytes of queue memory.
pub const QUEUE_AREA_SIZE_IN_BYTES: usize = 16384;

/// The largest queue the driver accepts.
pub const MAXIMUM_QUEUE_SIZE: u16 = 256;

/// Descriptor flag: the chain continues.
pub const VIRTQ_DESC_F_NEXT: u16 = 1;
/// Descriptor flag: the device writes this buffer.
pub const VIRTQ_DESC_F_WRITE: u16 = 2;

/// Request type: read.
pub const VIRTIO_BLK_TYPE_READ: u32 = 0;
/// Request type: write.
pub const VIRTIO_BLK_TYPE_WRITE: u32 = 1;

/// Device status bits, written in this order during initialisation.
pub const STATUS_ACKNOWLEDGE: u8 = 1;
/// The driver knows how to drive the device.
pub const STATUS_DRIVER: u8 = 2;
/// The driver is ready.
pub const STATUS_DRIVER_OK: u8 = 4;
/// Feature negotiation is done.
pub const STATUS_FEATURES_OK: u8 = 8;

/// Bytes of the available ring for `queue_size` entries.
pub open spec fn available_ring_length(queue_size: u16) -> int {
    6 + 2 * queue_size
}

/// Bytes of the used ring for `queue_size` entries.
pub open spec fn used_ring_length(queue_size: u16) -> int {
    6 + 8 * queue_size
}

/// Where the used ring starts: after the descriptor table and the available
/// ring, rounded up to a 4 KiB boundary.
pub open spec fn used_ring_offset(queue_size: u16) -> int {
    let unaligned = 16 * queue_size + available_ring_length(queue_size);
    (unaligned + 4095) / 4096 * 4096
}

/// Bytes of the available ring.
pub fn available_ring_byte_length(queue_size: u16) -> (length: usize)
    ensures
        length == available_ring_length(queue_size),
{
    6 + 2 * (queue_size as usize)
}

/// Bytes of the used ring.
pub fn used_ring_byte_length(queue_size: u16) -> (length: usize)
    ensures
        length == used_ring_length(queue_size),
{
    6 + 8 * (queue_size as usize)
}

/// Offset of the used ring in the queue area.
pub fn compute_used_ring_offset(queue_size: u16) -> (offset: usize)
    ensures
        offset == used_ring_offset(queue_size),
{
    let descriptor_table_length = 16 * (queue_size as usize);
    let unaligned = descriptor_table_length + available_ring_byte_length(queue_size);
    (unaligned + 4095) / 4096 * 4096
}

/// The available-ring slot for available index `index`.
pub fn available_ring_slot(queue_size: u16, index: u16) -> (slot: u16)
    requires
        queue_size > 0,
    ensures
        slot == index % queue_size,
        slot < queue_size,
{
    index % queue_size
}

/// Flags of the data descriptor: chained, and device-writable for a read.
pub fn data_descriptor_flags(device_writes_data: bool) -> (flags: u16)
    ensures
        flags == if device_writes_data {
            VIRTQ_DESC_F_NEXT | VIRTQ_DESC_F_WRITE
        } else {
            VIRTQ_DESC_F_NEXT
        },
{
    if device_writes_data {
        VIRTQ_DESC_F_NEXT | VIRTQ_DESC_F_WRITE
    } else {
        VIRTQ_DESC_F_NEXT
    }
}

/// An initialised virtio-blk device.
#[derive(Copy, Clone, Debug)]
pub struct VirtioBlockDevice {
    io_base_port: u16,
    capacity_in_sectors: u64,
    queue_size: u16,
    used_ring_offset: usize,
}

impl VirtioBlockDevice {
    /// The I/O port base.
    pub closed spec fn port_spec(self) -> u16 {
        self.io_base_port
    }

    /// The capacity, in sectors.
    pub closed spec fn capacity_spec(self) -> u64 {
        self.capacity_in_sectors
    }

    /// The queue size.
    pub closed spec fn queue_size_spec(self) -> u16 {
        self.queue_size
    }

    /// The used ring's offset.
    pub closed spec fn used_ring_spec(self) -> usize {
        self.used_ring_offset
    }

    /// The device described by what initialisation read: BAR0, the two
    /// halves of the capacity, and the queue size. `None` when the queue size
    /// is zero or larger than the driver handles.
    pub fn configure(bar0: u32, capacity_low: u32, capacity_high: u32, queue_size: u16) -> (device:
        Option<Self>)
        ensures
            device is Some <==> (queue_size != 0 && queue_size <= MAXIMUM_QUEUE_SIZE),
            device matches Some(d) ==> {
                &&& d.port_spec() == (bar0 & 0xFFFC) as u16
                &&& d.capacity_spec() == (capacity_low as u64) | ((capacity_high as u64) << 32u64)
                &&& d.queue_size_spec() == queue_size
                &&& d.used_ring_spec() == used_ring_offset(queue_size)
                &&& d.used_ring_spec() + used_ring_length(queue_size) <= QUEUE_AREA_SIZE_IN_BYTES
            },
    {
        let io_base_port = (bar0 & 0xFFFC) as u16;
        let capacity_in_sectors = (capacity_low as u64) | ((capacity_high as u64) << 32);
        if queue_size == 0 || queue_size > MAXIMUM_QUEUE_SIZE {
            return None;
        }
        let used_ring_offset = compute_used_ring_offset(queue_size);
        proof {
            let u = 16 * queue_size + available_ring_length(queue_size);
            assert((u + 4095) / 4096 * 4096 <= 8192) by (nonlinear_arith)
                requires
                    u <= 4614,
                    u >= 0,
            ;
        }
        if used_ring_offset + used_ring_byte_length(queue_size) > QUEUE_AREA_SIZE_IN_BYTES {
            return None;
        }
        Some(VirtioBlockDevice { io_base_port, capacity_in_sectors, queue_size, used_ring_offset })
    }

    /// Capacity, in 512-byte sectors.
    pub fn capacity_in_sectors(&self) -> (sectors: u64)
        ensures
            sectors == self.capacity_spec(),
    {
        self.capacity_in_sectors
    }

    /// The legacy I/O port base.
    pub fn io_base_port(&self) -> (port: u16)
        ensures
            port == self.port_spec(),
    {
        self.io_base_port
    }
}

/// Law: the legacy virtqueue layout for `queue_size` entries. The
/// descriptor table (16 bytes an entry) comes first, the available ring
/// right after it (two bytes of flags, two of index, two an entry, two of
/// used-event), and the used ring (flags, index, eight bytes an entry,
/// avail-event) on the first 4 KiB boundary after both, less than a page
/// further on; so the three never overlap.
pub proof fn lemma_virtqueue_layout(queue_size: u16)
    ensures
        available_ring_length(queue_size) == 2 + 2 + 2 * queue_size + 2,
        used_ring_length(queue_size) == 2 + 2 + 8 * queue_size + 2,
        used_ring_offset(queue_size) % 4096 == 0,
        16 * queue_size + available_ring_length(queue_size) <= used_ring_offset(queue_size),
        used_ring_offset(queue_size) < 16 * queue_size + available_ring_length(queue_size) + 4096,
{
    let unaligned = 16 * queue_size + available_ring_length(queue_size);
    vstd::arithmetic::div_mod::lemma_fundamental_div_mod(unaligned + 4095, 4096);
    let q = (unaligned + 4095) / 4096;
    let r = (unaligned + 4095) % 4096;
    assert(used_ring_offset(queue_size) == q * 4096);
    vstd::arithmetic::div_mod::lemma_mod_multiples_basic(q, 4096);
}

} // verus!

//! PCI configuration space on bus zero.
//!
//! Configuration reads are port I/O and are the caller's; the search here
//! is over what a reader returns, and its result is stated for every
//! configuration space the reader is known to return.

use vstd::prelude::*;

verus! {

/// I/O port that selects a configuration address.
pub const PCI_CONFIG_ADDRESS_PORT: u16 = 0x0CF8;

/// I/O port that reads or writes the selected dword.
pub const PCI_CONFIG_DATA_PORT: u16 = 0x0CFC;

/// Red Hat's virtio vendor ID.
pub const VIRTIO_PCI_VENDOR_ID: u16 = 0x1AF4;

/// Vendor ID read where no device answers.
pub const PCI_NO_DEVICE_VENDOR: u16 = 0xFFFF;

/// Command register bit 1: respond to memory-space accesses.
pub const PCI_COMMAND_MEMORY_SPACE: u32 = 0x2;

/// Command register bit 2: may master the bus (DMA).
pub const PCI_COMMAND_BUS_MASTER: u32 = 0x4;

/// Offset of the command register.
pub const PCI_COMMAND_REGISTER_OFFSET: u8 = 0x04;

/// Where a device was found, and what it is.
#[derive(Copy, Clone, PartialEq, Eq, Debug)]
pub struct PciDeviceLocation {
    /// Bus number.
    pub bus: u8,
    /// Device number, 0..32.
    pub device: u8,
    /// Function number, 0..8.
    pub function: u8,
    /// Vendor ID.
    pub vendor_id: u16,
    /// Device ID.
    pub device_id: u16,
}

impl PciDeviceLocation {
    /// Bus, device and function packed into one word for the boot log:
    /// `bus << 16 | device << 8 | function`.
    pub fn bus_device_function_word(&self) -> (word: u64)
        ensures
            word == self.bus * 0x10000 + self.device * 0x100 + self.function,
    {
        let bus = self.bus as u64;
        let device = self.device as u64;
        let function = self.function as u64;
        assert((bus << 16u64) | (device << 8u64) | function == bus * 0x10000 + device * 0x100
            + function) by (bit_vector)
            requires
                bus < 0x100,
                device < 0x100,
                function < 0x100,
        ;
        (bus << 16u64) | (device << 8u64) | function
    }

    /// Vendor and device ID packed into one word for the boot log:
    /// `vendor << 16 | device`.
    pub fn vendor_device_word(&self) -> (word: u64)
        ensures
            word == self.vendor_id * 0x10000 + self.device_id,
    {
        let vendor = self.vendor_id as u64;
        let device = self.device_id as u64;
        assert((vendor << 16u64) | device == vendor * 0x10000 + device) by (bit_vector)
            requires
                vendor < 0x10000,
                device < 0x10000,
        ;
        (vendor << 16u64) | device
    }
}

/// The configuration address of a register: enable bit, bus, device (five
/// bits), function (three bits), and the dword-aligned offset.
pub open spec fn config_address(bus: u8, device: u8, function: u8, offset: u8) -> u32 {
    0x8000_0000u32 | ((bus as u32) << 16u32) | (((device as u32) & 0x1F) << 11u32) | (((
    function as u32) & 0x07) << 8u32) | ((offset as u32) & 0xFC)
}

/// The value written to [`PCI_CONFIG_ADDRESS_PORT`] to select a register.
pub fn compute_config_address(bus: u8, device: u8, function: u8, offset: u8) -> (address: u32)
    ensures
        address == config_address(bus, device, function, offset),
{
    0x8000_0000u32 | ((bus as u32) << 16) | (((device as u32) & 0x1F) << 11) | (((function as u32)
        & 0x07) << 8) | ((offset as u32) & 0xFC)
}

/// The command register with memory space and bus mastering turned on,
/// every other bit kept.
pub fn enable_memory_space_and_bus_master(command_and_status: u32) -> (updated: u32)
    ensures
        updated == command_and_status | PCI_COMMAND_MEMORY_SPACE | PCI_COMMAND_BUS_MASTER,
{
    command_and_status | PCI_COMMAND_MEMORY_SPACE | PCI_COMMAND_BUS_MASTER
}

/// Configuration offset of base address register `bar_index`.
pub fn base_address_register_offset(bar_index: u8) -> (offset: u8)
    ensures
        offset == (0x10 + (bar_index * 4) % 256) % 256,
{
    0x10u8.wrapping_add(bar_index.wrapping_mul(4))
}

/// Vendor and device of a function on bus zero, from its first dword.
pub open spec fn identity_of(space: spec_fn(u8, u8, u8, u8) -> u32, device: u8, function: u8) -> (
    u16,
    u16,
) {
    let identifiers = space(0, device, function, 0);
    ((identifiers & 0xFFFF) as u16, (identifiers >> 16u32) as u16)
}

/// Vendor and device of the function at `slot = device * 8 + function`.
pub open spec fn identity_at(space: spec_fn(u8, u8, u8, u8) -> u32, slot: int) -> (u16, u16) {
    identity_of(space, (slot / 8) as u8, (slot % 8) as u8)
}

/// The device at `slot`, when one answers.
pub open spec fn location_at(space: spec_fn(u8, u8, u8, u8) -> u32, slot: int) -> PciDeviceLocation {
    PciDeviceLocation {
        bus: 0,
        device: (slot / 8) as u8,
        function: (slot % 8) as u8,
        vendor_id: identity_at(space, slot).0,
        device_id: identity_at(space, slot).1,
    }
}

/// Whether a device answers at `slot`.
pub open spec fn present_at(space: spec_fn(u8, u8, u8, u8) -> u32, slot: int) -> bool {
    identity_at(space, slot).0 != PCI_NO_DEVICE_VENDOR
}

/// The first device from `slot` on with this vendor and device ID.
pub open spec fn find_from(
    space: spec_fn(u8, u8, u8, u8) -> u32,
    vendor_id: u16,
    device_id: u16,
    slot: int,
) -> Option<PciDeviceLocation>
    decreases 256 - slot,
{
    if slot < 0 || slot >= 256 {
        None
    } else if present_at(space, slot) && identity_at(space, slot) == (vendor_id, device_id) {
        Some(location_at(space, slot))
    } else {
        find_from(space, vendor_id, device_id, slot + 1)
    }
}

/// The devices from `slot` on, in order.
pub open spec fn devices_from(space: spec_fn(u8, u8, u8, u8) -> u32, slot: int) -> Seq<
    PciDeviceLocation,
>
    decreases 256 - slot,
{
    if slot < 0 || slot >= 256 {
        Seq::empty()
    } else if present_at(space, slot) {
        seq![location_at(space, slot)] + devices_from(space, slot + 1)
    } else {
        devices_from(space, slot + 1)
    }
}

fn read_identity(read_config: &impl Fn(u8, u8, u8, u8) -> u32, device: u8, function: u8) -> (identity: (u16, u16))
    requires
        forall|b: u8, d: u8, f: u8, o: u8| read_config.requires((b, d, f, o)),
    ensures
        forall|space: spec_fn(u8, u8, u8, u8) -> u32|
            (forall|b: u8, d: u8, f: u8, o: u8, v: u32| #[trigger]
                read_config.ensures((b, d, f, o), v) ==> v == space(b, d, f, o)) ==> identity
                == #[trigger] identity_of(space, device, function),
{
    let identifiers = read_config(0, device, function, 0x00);
    ((identifiers & 0xFFFF) as u16, (identifiers >> 16) as u16)
}

/// The first function on bus zero, in device-then-function order, whose
/// vendor and device IDs are these. Absent functions (vendor `0xFFFF`) are
/// skipped.
pub fn find_device(
    vendor_id: u16,
    device_id: u16,
    read_config: impl Fn(u8, u8, u8, u8) -> u32,
) -> (location: Option<PciDeviceLocation>)
    requires
        forall|b: u8, d: u8, f: u8, o: u8| read_config.requires((b, d, f, o)),
    ensures
        forall|space: spec_fn(u8, u8, u8, u8) -> u32|
            (forall|b: u8, d: u8, f: u8, o: u8, v: u32| #[trigger]
                read_config.ensures((b, d, f, o), v) ==> v == space(b, d, f, o)) ==> location
                == find_from(space, vendor_id, device_id, 0),
{
    let mut slot: u16 = 0;
    while slot < 256
        invariant
            slot <= 256,
            forall|b: u8, d: u8, f: u8, o: u8| read_config.requires((b, d, f, o)),
            forall|space: spec_fn(u8, u8, u8, u8) -> u32|
                (forall|b: u8, d: u8, f: u8, o: u8, v: u32| #[trigger]
                    read_config.ensures((b, d, f, o), v) ==> v == space(b, d, f, o)) ==> find_from(
                    space,
                    vendor_id,
                    device_id,
                    0,
                ) == find_from(space, vendor_id, device_id, slot as int),
        decreases 256 - slot,
    {
        let device = (slot / 8) as u8;
        let function = (slot % 8) as u8;
        let (found_vendor, found_device) = read_identity(&read_config, device, function);
        if found_vendor != PCI_NO_DEVICE_VENDOR && found_vendor == vendor_id && found_device
            == device_id {
            return Some(
                PciDeviceLocation {
                    bus: 0,
                    device,
                    function,
                    vendor_id: found_vendor,
                    device_id: found_device,
                },
            );
        }
        slot = slot + 1;
    }
    None
}

/// Every function present on bus zero, in device-then-function order.
pub fn for_each_device_on_bus_zero(read_config: impl Fn(u8, u8, u8, u8) -> u32) -> (devices: Vec<PciDeviceLocation>)
    requires
        forall|b: u8, d: u8, f: u8, o: u8| read_config.requires((b, d, f, o)),
    ensures
        forall|space: spec_fn(u8, u8, u8, u8) -> u32|
            (forall|b: u8, d: u8, f: u8, o: u8, v: u32| #[trigger]
                read_config.ensures((b, d, f, o), v) ==> v == space(b, d, f, o)) ==> devices@
                == devices_from(space, 0),
{
    let mut devices: Vec<PciDeviceLocation> = Vec::new();
    let mut slot: u16 = 0;
    while slot < 256
        invariant
            slot <= 256,
            forall|b: u8, d: u8, f: u8, o: u8| read_config.requires((b, d, f, o)),
            forall|space: spec_fn(u8, u8, u8, u8) -> u32|
                (forall|b: u8, d: u8, f: u8, o: u8, v: u32| #[trigger]
                    read_config.ensures((b, d, f, o), v) ==> v == space(b, d, f, o))
                    ==> devices_from(space, 0) == devices@ + devices_from(space, slot as int),
        decreases 256 - slot,
    {
        let device = (slot / 8) as u8;
        let function = (slot % 8) as u8;
        let ghost before = devices@;
        let (vendor_id, device_id) = read_identity(&read_config, device, function);
        if vendor_id != PCI_NO_DEVICE_VENDOR {
            devices.push(PciDeviceLocation { bus: 0, device, function, vendor_id, device_id });
        }
        proof {
            assert forall|space: spec_fn(u8, u8, u8, u8) -> u32|
                (forall|b: u8, d: u8, f: u8, o: u8, v: u32| #[trigger]
                    read_config.ensures((b, d, f, o), v) ==> v == space(b, d, f, o))
                    implies devices_from(space, 0) == devices@ + devices_from(space, slot + 1) by {
                if present_at(space, slot as int) {
                    assert(devices@ =~= before.push(location_at(space, slot as int)));
                    assert(before + devices_from(space, slot as int) =~= devices@ + devices_from(
                        space,
                        slot + 1,
                    ));
                } else {
                    assert(devices@ =~= before);
                }
            }
        }
        slot = slot + 1;
    }
    devices
}

/// Where a function sits in the order bus zero is scanned: `device * 8 +
/// function`.
pub open spec fn scan_position(location: PciDeviceLocation) -> int {
    location.device * 8 + location.function
}

/// Whether the function `function` of device `device` answers in `space`:
/// its vendor ID, the low half of configuration dword 0, is not `0xFFFF`.
pub open spec fn answers(space: spec_fn(u8, u8, u8, u8) -> u32, device: u8, function: u8) -> bool {
    (space(0, device, function, 0) & 0xFFFF) as u16 != 0xFFFF
}

/// Every element of the scan from `slot` is an answering function at or
/// past `slot`, with the identifiers it reports; every answering function
/// at or past `slot` is in it; and it is in scan order.
proof fn lemma_scan_from(space: spec_fn(u8, u8, u8, u8) -> u32, slot: int)
    requires
        0 <= slot <= 256,
    ensures
        ({
            let found = devices_from(space, slot);
            &&& forall|i: int|
                0 <= i < found.len() ==> {
                    let location = #[trigger] found[i];
                    &&& location.bus == 0
                    &&& location.device < 32
                    &&& location.function < 8
                    &&& slot <= scan_position(location) < 256
                    &&& answers(space, location.device, location.function)
                    &&& location.vendor_id == (space(0, location.device, location.function, 0)
                        & 0xFFFF) as u16
                    &&& location.device_id == (space(0, location.device, location.function, 0)
                        >> 16u32) as u16
                }
            &&& forall|device: u8, function: u8|
                device < 32 && function < 8 && slot <= device * 8 + function && answers(
                    space,
                    device,
                    function,
                ) ==> exists|i: int|
                    0 <= i < found.len() && (#[trigger] found[i]).device == device
                        && found[i].function == function
            &&& forall|i: int, j: int|
                0 <= i < j < found.len() ==> scan_position(#[trigger] found[i]) < scan_position(
                    #[trigger] found[j],
                )
        }),
    decreases 256 - slot,
{
    if slot < 256 {
        lemma_scan_from(space, slot + 1);
        let rest = devices_from(space, slot + 1);
        let found = devices_from(space, slot);
        let here = location_at(space, slot);
        assert(here.device == slot / 8 && here.function == slot % 8);
        assert(scan_position(here) == slot);
        if present_at(space, slot) {
            assert(found =~= seq![here] + rest);
            assert forall|i: int| 0 < i < found.len() implies found[i] == rest[i - 1] by {}
            assert forall|device: u8, function: u8|
                device < 32 && function < 8 && slot <= device * 8 + function && answers(
                    space,
                    device,
                    function,
                ) implies exists|i: int|
                0 <= i < found.len() && (#[trigger] found[i]).device == device
                    && found[i].function == function by {
                if device * 8 + function == slot {
                    assert(found[0].device == device && found[0].function == function);
                } else {
                    let k = choose|k: int|
                        0 <= k < rest.len() && (#[trigger] rest[k]).device == device
                            && rest[k].function == function;
                    assert(found[k + 1] == rest[k]);
                }
            }
            assert forall|i: int, j: int|
                0 <= i < j < found.len() implies scan_position(#[trigger] found[i]) < scan_position(
                #[trigger] found[j],
            ) by {
                if i > 0 {
                    assert(found[i] == rest[i - 1]);
                }
                assert(found[j] == rest[j - 1]);
            }
        } else {
            assert(found == rest);
            assert forall|device: u8, function: u8|
                device < 32 && function < 8 && slot <= device * 8 + function && answers(
                    space,
                    device,
                    function,
                ) implies exists|i: int|
                0 <= i < found.len() && (#[trigger] found[i]).device == device
                    && found[i].function == function by {
                if device * 8 + function == slot {
                    assert(identity_at(space, slot) == identity_of(space, device, function));
                }
            }
        }
    }
}

/// Law: scanning bus zero finds every function that answers, and nothing
/// else. A function of device `device` (below 32) and number `function`
/// (below 8) is in the result exactly when its vendor ID is not `0xFFFF`,
/// whatever its neighbours answer; each one found carries the vendor and
/// device IDs it reports; and they come in scan order, so no function is
/// listed twice.
pub proof fn lemma_bus_zero_scan_finds_every_answering_function(space: spec_fn(u8, u8, u8, u8) -> u32)
    ensures
        ({
            let found = devices_from(space, 0);
            &&& forall|i: int|
                0 <= i < found.len() ==> {
                    let location = #[trigger] found[i];
                    &&& location.bus == 0
                    &&& location.device < 32
                    &&& location.function < 8
                    &&& answers(space, location.device, location.function)
                    &&& location.vendor_id == (space(0, location.device, location.function, 0)
                        & 0xFFFF) as u16
                    &&& location.device_id == (space(0, location.device, location.function, 0)
                        >> 16u32) as u16
                }
            &&& forall|device: u8, function: u8|
                device < 32 && function < 8 && answers(space, device, function) ==> exists|i: int|
                    0 <= i < found.len() && (#[trigger] found[i]).device == device
                        && found[i].function == function
            &&& forall|i: int, j: int|
                0 <= i < j < found.len() ==> scan_position(#[trigger] found[i]) < scan_position(
                    #[trigger] found[j],
                )
        }),
{
    lemma_scan_from(space, 0);
}

/// Whether function `function` of device `device` answers in `space` with
/// vendor `vendor_id` and device `device_id`.
pub open spec fn answers_as(
    space: spec_fn(u8, u8, u8, u8) -> u32,
    device: u8,
    function: u8,
    vendor_id: u16,
    device_id: u16,
) -> bool {
    &&& answers(space, device, function)
    &&& (space(0, device, function, 0) & 0xFFFF) as u16 == vendor_id
    &&& (space(0, device, function, 0) >> 16u32) as u16 == device_id
}

proof fn lemma_search_from(space: spec_fn(u8, u8, u8, u8) -> u32, vendor_id: u16, device_id: u16, slot: int)
    requires
        0 <= slot <= 256,
    ensures
        find_from(space, vendor_id, device_id, slot) matches Some(location) ==> {
            &&& location.bus == 0
            &&& location.device < 32
            &&& location.function < 8
            &&& slot <= scan_position(location)
            &&& answers_as(space, location.device, location.function, vendor_id, device_id)
            &&& location.vendor_id == vendor_id
            &&& location.device_id == device_id
            &&& forall|device: u8, function: u8|
                device < 32 && function < 8 && slot <= device * 8 + function < scan_position(location)
                    ==> !answers_as(space, device, function, vendor_id, device_id)
        },
        find_from(space, vendor_id, device_id, slot) is None ==> forall|device: u8, function: u8|
            device < 32 && function < 8 && slot <= device * 8 + function ==> !answers_as(
                space,
                device,
                function,
                vendor_id,
                device_id,
            ),
    decreases 256 - slot,
{
    if slot < 256 {
        lemma_search_from(space, vendor_id, device_id, slot + 1);
        let here = location_at(space, slot);
        assert(here.device == slot / 8 && here.function == slot % 8);
        assert(identity_at(space, slot) == identity_of(space, here.device, here.function));
        assert forall|device: u8, function: u8|
            device < 32 && function < 8 && #[trigger] (device * 8 + function) == slot implies device
            == here.device && function == here.function by {}
    }
}

/// Law: the search for a vendor and device ID on bus zero finds the first
/// function, in scan order, that answers with exactly those IDs; and finds
/// none only when no function on the bus answers with them.
pub proof fn lemma_search_finds_the_first_match(space: spec_fn(u8, u8, u8, u8) -> u32, vendor_id: u16, device_id: u16)
    ensures
        find_from(space, vendor_id, device_id, 0) matches Some(location) ==> {
            &&& location.bus == 0
            &&& location.device < 32
            &&& location.function < 8
            &&& answers_as(space, location.device, location.function, vendor_id, device_id)
            &&& location.vendor_id == vendor_id
            &&& location.device_id == device_id
            &&& forall|device: u8, function: u8|
                device < 32 && function < 8 && device * 8 + function < scan_position(location)
                    ==> !answers_as(space, device, function, vendor_id, device_id)
        },
        find_from(space, vendor_id, device_id, 0) is None ==> forall|device: u8, function: u8|
            device < 32 && function < 8 ==> !answers_as(space, device, function, vendor_id, device_id),
{
    lemma_search_from(space, vendor_id, device_id, 0);
}

/// Law: a configuration address carries the enable bit and each field in
/// its place, and nothing else: bus in bits 23:16, device (five bits) in
/// 15:11, function (three bits) in 10:8, the register offset's dword in 7:2,
/// and zeros in 30:24 and 1:0.
pub proof fn lemma_config_address_fields(bus: u8, device: u8, function: u8, offset: u8)
    ensures
        ({
            let address = config_address(bus, device, function, offset);
            &&& address >> 31u32 == 1
            &&& (address >> 24u32) & 0x7F == 0
            &&& (address >> 16u32) & 0xFF == bus as u32
            &&& (address >> 11u32) & 0x1F == (device as u32) & 0x1F
            &&& (address >> 8u32) & 0x7 == (function as u32) & 0x7
            &&& address & 0xFF == (offset as u32) & 0xFC
        }),
{
    let (b, d, f, o) = (bus as u32, device as u32, function as u32, offset as u32);
    let address = config_address(bus, device, function, offset);
    assert({
        &&& address >> 31u32 == 1
        &&& (address >> 24u32) & 0x7F == 0
        &&& (address >> 16u32) & 0xFF == b
        &&& (address >> 11u32) & 0x1F == d & 0x1F
        &&& (address >> 8u32) & 0x7 == f & 0x7
        &&& address & 0xFF == o & 0xFC
    }) by (bit_vector)
        requires
            address == 0x8000_0000u32 | (b << 16u32) | ((d & 0x1F) << 11u32) | ((f & 0x07) << 8u32)
                | (o & 0xFC),
            b < 256,
    ;
}

} // verus!

use crate::error::{Code, Error};
use vstd::prelude::*;

verus! {

/// The vendor ID that a configuration read gives for a slot with no device.
pub const NON_EXISTENT_DEVICE: u16 = 0xffff;

/// The most devices the kernel records.
pub const MAX_DEVICES: usize = 32;

/// A device's class: base class, subclass and programming interface.
#[derive(Copy, Clone, Debug, PartialEq, Eq, Structural)]
pub struct ClassCode {
    pub base: u8,
    pub sub: u8,
    pub interface: u8,
}

impl ClassCode {
    pub fn new(base: u8, sub: u8, interface: u8) -> (c: ClassCode)
        ensures
            c == (ClassCode { base, sub, interface }),
    {
        ClassCode { base, sub, interface }
    }

    pub fn is_match_base(&self, base: u8) -> (b: bool)
        ensures
            b == (self.base == base),
    {
        base == self.base
    }

    pub fn is_match_base_sub(&self, base: u8, sub: u8) -> (b: bool)
        ensures
            b == (self.base == base && self.sub == sub),
    {
        self.is_match_base(base) && sub == self.sub
    }

    pub fn is_match_all(&self, base: u8, sub: u8, interface: u8) -> (b: bool)
        ensures
            b == (self.base == base && self.sub == sub && self.interface == interface),
    {
        self.is_match_base_sub(base, sub) && interface == self.interface
    }

    /// The class code held in the top three bytes of the configuration
    /// register at 0x08.
    pub fn from_register(reg: u32) -> (c: ClassCode)
        ensures
            c.base == reg / 0x100_0000,
            c.sub == (reg / 0x1_0000) % 0x100,
            c.interface == (reg / 0x100) % 0x100,
    {
        let base: u8 = (reg >> 24) as u8;
        let sub: u8 = ((reg >> 16) & 0xff) as u8;
        let interface: u8 = ((reg >> 8) & 0xff) as u8;
        assert(reg >> 24 == reg / 0x100_0000 && (reg >> 16) & 0xff == (reg / 0x1_0000) % 0x100 && (reg >> 8) & 0xff == (reg
            / 0x100) % 0x100) by (bit_vector);
        ClassCode::new(base, sub, interface)
    }
}

/// A PCI function found by the bus scan.
#[derive(Copy, Clone, Debug, PartialEq, Eq, Structural)]
pub struct Device {
    pub bus: u8,
    pub device: u8,
    pub function: u8,
    pub header_type: u8,
    pub class_code: ClassCode,
}

impl Device {
    pub fn new(bus: u8, device: u8, function: u8, header_type: u8, class_code: ClassCode) -> (d: Device)
        ensures
            d == (Device { bus, device, function, header_type, class_code }),
    {
        Device { bus, device, function, header_type, class_code }
    }

    /// Whether the device is an xHC (USB 3 host controller).
    pub fn is_xhc(&self) -> (b: bool)
        ensures
            b == (self.class_code.base == 0x0c && self.class_code.sub == 0x03 && self.class_code.interface == 0x30),
    {
        self.class_code.is_match_all(0x0c, 0x03, 0x30)
    }

    /// Whether the device, whose vendor ID reads `vendor_id`, is Intel's.
    pub fn is_intel_device(&self, vendor_id: u16) -> (b: bool)
        ensures
            b == (vendor_id == 0x8086),
    {
        vendor_id == 0x8086
    }

    /// Whether the device is an Intel EHC (USB 2 host controller).
    pub fn is_intel_ehc(&self, vendor_id: u16) -> (b: bool)
        ensures
            b == (self.class_code.base == 0x0c && self.class_code.sub == 0x03 && self.class_code.interface == 0x20
                && vendor_id == 0x8086),
    {
        self.class_code.is_match_all(0x0c, 0x03, 0x20) && self.is_intel_device(vendor_id)
    }
}

/// The value written to CONFIG_ADDRESS to reach register `reg_addr` of a
/// function: the enable bit, bus, device, function and the register's
/// offset rounded down to four bytes.
pub open spec fn config_address(bus: u8, device: u8, function: u8, reg_addr: u8) -> u32 {
    (0x8000_0000u32 | ((bus as u32) << 16u32) | ((device as u32) << 11u32) | ((function as u32) << 8u32) | ((reg_addr
        & 0xfc) as u32)) as u32
}

pub fn make_address(bus: u8, device: u8, function: u8, reg_addr: u8) -> (a: u32)
    ensures
        a == config_address(bus, device, function, reg_addr),
{
    let enabled_bit: u32 = 1u32 << 31u32;
    assert(1u32 << 31u32 == 0x8000_0000u32) by (bit_vector);
    enabled_bit | ((bus as u32) << 16u32) | ((device as u32) << 11u32) | ((function as u32) << 8u32) | ((reg_addr & 0xfc) as u32)
}

/// Whether a header type marks a device with a single function.
pub fn is_single_function_device(header_type: u8) -> (b: bool)
    ensures
        b == (header_type < 0x80),
{
    assert((header_type & 0x80 == 0) == (header_type < 0x80)) by (bit_vector);
    header_type & 0x80 == 0
}

/// The configuration register of base address register `bar_index`.
pub fn calc_bar_address(bar_index: usize) -> (a: u8)
    requires
        bar_index < 6,
    ensures
        a == 0x10 + 4 * bar_index,
{
    (0x10 + 4 * bar_index) as u8
}

/// The address that base address register `bar_index` holds, given what
/// the register reads (`bar`) and, for a 64-bit address, what the next one
/// reads (`bar_upper`). An error `IndexOutOfRange` for an index past the
/// sixth register, or a 64-bit address in the last one.
pub fn read_bar(bar_index: usize, bar: u32, bar_upper: u32) -> (r: Result<u64, Error>)
    ensures
        bar_index >= 6 ==> (r matches Err(e) && e.code == Code::IndexOutOfRange),
        bar_index < 6 && bar & 4 == 0 ==> r == Ok::<u64, Error>(bar as u64),
        bar_index == 5 && bar & 4 != 0 ==> (r matches Err(e) && e.code == Code::IndexOutOfRange),
        bar_index < 5 && bar & 4 != 0 ==> (r matches Ok(v) && v == bar + bar_upper * 0x1_0000_0000),
{
    if bar_index >= 6 {
        return Err(Error::new(Code::IndexOutOfRange, "pci.rs", 0));
    }
    let lower: u64 = bar as u64;
    if lower & 4 == 0 {
        assert((bar as u64) & 4 == 0 <==> bar & 4 == 0) by (bit_vector);
        return Ok(lower);
    }
    assert((bar as u64) & 4 == 0 <==> bar & 4 == 0) by (bit_vector);
    if bar_index >= 5 {
        return Err(Error::new(Code::IndexOutOfRange, "pci.rs", 0));
    }
    let upper: u64 = bar_upper as u64;
    assert(lower | (upper << 32u64) == lower + upper * 0x1_0000_0000) by (bit_vector)
        requires
            lower < 0x1_0000_0000,
            upper < 0x1_0000_0000,
    ;
    Ok(lower | (upper << 32u64))
}

/// Records a device found by the scan; an error `Full` when `MAX_DEVICES`
/// are recorded.
pub fn add_device(devices: &mut Vec<Device>, device: Device) -> (r: Result<(), Error>)
    ensures
        old(devices)@.len() >= MAX_DEVICES ==> (r matches Err(e) && e.code == Code::Full) && final(devices)@ == old(devices)@,
        old(devices)@.len() < MAX_DEVICES ==> r is Ok && final(devices)@ == old(devices)@.push(device),
{
    if devices.len() >= MAX_DEVICES {
        return Err(Error::new(Code::Full, "pci.rs", 0));
    }
    devices.push(device);
    Ok(())
}

/// The index of the first device in `devices` satisfying `pred`.
pub open spec fn first_match(devices: Seq<Device>, vendor_ids: Seq<u16>, intel_only: bool, k: int) -> Option<int>
    decreases devices.len() - k,
{
    if k < 0 || k >= devices.len() {
        None
    } else if devices[k].class_code == (ClassCode { base: 0x0c, sub: 0x03, interface: 0x30 }) && (!intel_only
        || vendor_ids[k] == 0x8086) {
        Some(k)
    } else {
        first_match(devices, vendor_ids, intel_only, k + 1)
    }
}

/// The xHC to drive: the first Intel one, else the first one; `vendor_ids`
/// holds what each device's vendor ID reads.
pub fn find_xhc_device(devices: &[Device], vendor_ids: &[u16]) -> (r: Option<usize>)
    requires
        vendor_ids@.len() == devices@.len(),
    ensures
        r matches Some(i) ==> Some(i as int) == match first_match(devices@, vendor_ids@, true, 0) {
            Some(j) => Some(j),
            None => first_match(devices@, vendor_ids@, false, 0),
        },
        r is None ==> first_match(devices@, vendor_ids@, true, 0) is None && first_match(devices@, vendor_ids@, false, 0)
            is None,
{
    let mut i: usize = 0;
    while i < devices.len()
        invariant
            i <= devices@.len(),
            vendor_ids@.len() == devices@.len(),
            first_match(devices@, vendor_ids@, true, i as int) == first_match(devices@, vendor_ids@, true, 0),
        decreases devices.len() - i,
    {
        if devices[i].is_xhc() && devices[i].is_intel_device(vendor_ids[i]) {
            return Some(i);
        }
        i = i + 1;
    }
    let mut j: usize = 0;
    while j < devices.len()
        invariant
            j <= devices@.len(),
            vendor_ids@.len() == devices@.len(),
            first_match(devices@, vendor_ids@, true, 0) is None,
            first_match(devices@, vendor_ids@, false, j as int) == first_match(devices@, vendor_ids@, false, 0),
        decreases devices.len() - j,
    {
        if devices[j].is_xhc() {
            return Some(j);
        }
        j = j + 1;
    }
    None
}

} // verus!

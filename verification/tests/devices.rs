use rusty_mikanos::acpi::{sum_bytes, DescriptionHeader, Rsdp, RsdpError, Xsdt};
use rusty_mikanos::app_event::{AppEvent, AppEventType};
use rusty_mikanos::c_str::{CStr, CString};
use rusty_mikanos::elf::{get_first_load_address, segment_pages, Elf64Ehdr, Elf64Phdr, PT_LOAD};
use rusty_mikanos::error::Code;
use rusty_mikanos::keyboard::{is_control_key_inputted, is_shift_key_inputted, keycode_to_ascii, on_input};
use rusty_mikanos::memory_manager::{BitmapMemoryManager, FrameID};
use rusty_mikanos::message::{KeyPushMessage, MessageType};
use rusty_mikanos::pci::{
    add_device, calc_bar_address, find_xhc_device, is_single_function_device, make_address, read_bar, ClassCode,
    Device, MAX_DEVICES,
};
use rusty_mikanos::queue::ArrayQueue;
use rusty_mikanos::shared::{MemoryDescriptor, MemoryType};
use rusty_mikanos::task::TaskManager;

#[test]
fn keyboard_maps_keys_with_and_without_shift() {
    assert_eq!(keycode_to_ascii(4, false), 'a');
    assert_eq!(keycode_to_ascii(4, true), 'A');
    assert_eq!(keycode_to_ascii(30, false), '1');
    assert_eq!(keycode_to_ascii(30, true), '!');
    assert_eq!(keycode_to_ascii(40, false), '\n');
    assert_eq!(keycode_to_ascii(0, false), '\0');
    assert!(is_shift_key_inputted(0b0000_0010));
    assert!(is_shift_key_inputted(0b0010_0000));
    assert!(!is_shift_key_inputted(0b0000_0001));
    assert!(is_control_key_inputted(0b0000_0001));
    assert!(is_control_key_inputted(0b0001_0000));
    assert!(!is_control_key_inputted(0b0000_0010));
}

#[test]
fn keyboard_sends_key_to_main_task() {
    let mut tm = TaskManager::new();
    let main = tm.new_task().id();
    assert_eq!(tm.main_task_id(), main);
    on_input(0b0000_0010, 4, true, &mut tm);
    let m = tm.get_task_mut(main).receive_message().unwrap();
    assert_eq!(
        m.m_type,
        MessageType::KeyPush(KeyPushMessage { modifier: 0b0000_0010, keycode: 4, ascii: 'A', press: true })
    );
}

#[test]
fn queue_is_first_in_first_out_and_bounded() {
    let mut q: ArrayQueue<u32, 3> = ArrayQueue::new([0; 3]);
    assert_eq!(q.count(), 0);
    assert_eq!(q.pop().err().unwrap().code, Code::Empty);
    assert!(q.push(1).is_ok());
    assert!(q.push(2).is_ok());
    assert!(q.push(3).is_ok());
    assert_eq!(q.push(4).err().unwrap().code, Code::Full);
    assert_eq!(*q.front(), 1);
    assert_eq!(*q.pop().unwrap(), 1);
    assert!(q.push(4).is_ok());
    assert_eq!(*q.pop().unwrap(), 2);
    assert_eq!(*q.pop().unwrap(), 3);
    assert_eq!(*q.pop().unwrap(), 4);
    assert_eq!(q.count(), 0);
}

#[test]
fn queue_of_two_refuses_a_third_and_keeps_order() {
    let mut q: ArrayQueue<u32, 2> = ArrayQueue::new([0; 2]);
    assert!(q.push(1).is_ok());
    assert!(q.push(2).is_ok());
    assert_eq!(q.push(3).err().unwrap().code, Code::Full);
    assert_eq!(q.count(), 2);
    assert_eq!(*q.pop().unwrap(), 1);
    assert!(q.push(3).is_ok());
    assert_eq!(*q.pop().unwrap(), 2);
    assert_eq!(*q.pop().unwrap(), 3);
    assert_eq!(q.pop().err().unwrap().code, Code::Empty);
    assert_eq!(q.count(), 0);
}

#[test]
fn pci_config_address_and_class() {
    assert_eq!(make_address(1, 2, 3, 0x13), 0x8000_0000 | (1 << 16) | (2 << 11) | (3 << 8) | 0x10);
    let c = ClassCode::from_register(0x0c03_3012);
    assert_eq!(c, ClassCode::new(0x0c, 0x03, 0x30));
    assert!(c.is_match_all(0x0c, 0x03, 0x30));
    assert!(!c.is_match_all(0x0c, 0x03, 0x20));
    assert!(is_single_function_device(0x00));
    assert!(!is_single_function_device(0x80));
    assert_eq!(calc_bar_address(5), 0x24);
}

#[test]
fn pci_read_bar() {
    assert_eq!(read_bar(0, 0x1000_0000, 7).unwrap(), 0x1000_0000);
    assert_eq!(read_bar(0, 0x1000_0004, 7).unwrap(), 0x0000_0007_1000_0004);
    assert_eq!(read_bar(5, 0x1000_0004, 7).err().unwrap().code, Code::IndexOutOfRange);
    assert_eq!(read_bar(6, 0, 0).err().unwrap().code, Code::IndexOutOfRange);
}

#[test]
fn pci_prefers_intel_xhc() {
    let xhc = ClassCode::new(0x0c, 0x03, 0x30);
    let other = ClassCode::new(0x06, 0x04, 0x00);
    let mut devices: Vec<Device> = Vec::new();
    assert!(add_device(&mut devices, Device::new(0, 0, 0, 0, other)).is_ok());
    assert!(add_device(&mut devices, Device::new(0, 1, 0, 0, xhc)).is_ok());
    assert!(add_device(&mut devices, Device::new(0, 2, 0, 0, xhc)).is_ok());
    assert_eq!(find_xhc_device(&devices, &[0x8086, 0x1033, 0x8086]), Some(2));
    assert_eq!(find_xhc_device(&devices, &[0x8086, 0x1033, 0x1b21]), Some(1));
    assert_eq!(find_xhc_device(&devices[..1], &[0x8086]), None);
    assert!(devices[2].is_xhc());
    assert!(devices[2].is_intel_device(0x8086));
    while devices.len() < MAX_DEVICES {
        devices.push(Device::new(0, 0, 0, 0, other));
    }
    assert_eq!(add_device(&mut devices, Device::new(0, 0, 0, 0, other)).err().unwrap().code, Code::Full);
}

fn rsdp(signature: &[u8; 8], revision: u8) -> Rsdp {
    Rsdp {
        signature: *signature,
        checksum: 0,
        oem_id: [0; 6],
        revision,
        rsdt_address: 0,
        length: 36,
        xsdt_address: 0,
        extended_checksum: 0,
        reserved: [0; 3],
    }
}

#[test]
fn acpi_rsdp_checks() {
    let mut raw = [0u8; 36];
    assert_eq!(sum_bytes(&[200, 100, 1], 3), 45);
    assert_eq!(rsdp(b"RSD PTR ", 2).validate(&raw), Ok(()));
    assert_eq!(rsdp(b"RSD PTX ", 2).validate(&raw), Err(RsdpError::InvalidSignature));
    assert_eq!(rsdp(b"RSD PTR ", 1).validate(&raw), Err(RsdpError::InvalidRevision(1)));
    raw[3] = 5;
    assert_eq!(rsdp(b"RSD PTR ", 2).validate(&raw), Err(RsdpError::InvalidChecksum(5)));
    raw[3] = 0;
    raw[30] = 7;
    assert_eq!(rsdp(b"RSD PTR ", 2).validate(&raw), Err(RsdpError::InvalidExtendedChecksum(7)));
    let header = DescriptionHeader {
        signature: *b"XSDT",
        length: 52,
        revision: 1,
        checksum: 0,
        oem_id: [0; 6],
        oem_table_id: [0; 8],
        oem_revision: 0,
        creator_id: 0,
        pubcreator_revision: 0,
    };
    assert_eq!(Xsdt { header }.count(), 48);
}

#[test]
fn c_strings() {
    let c = CString::_new(b"foo".to_vec()).ok().unwrap();
    assert_eq!(c.into_bytes(), b"foo".to_vec());
    let e = CString::_new(b"f\0oo".to_vec()).err().unwrap();
    assert_eq!(e.nul_position(), 1);
    assert_eq!(e.into_vec(), b"f\0oo".to_vec());
    let s = CStr::from_bytes_with_nul_unchecked(b"foo\0");
    assert_eq!(s.to_bytes(), b"foo");
    assert_eq!(s.to_bytes_with_nul(), b"foo\0");
    assert_eq!(s.to_str(), Ok("foo"));
    assert!(CStr::from_bytes_with_nul_unchecked(b"\xff\0").to_str().is_err());
}

fn phdr(p_type: u32, p_vaddr: usize) -> Elf64Phdr {
    Elf64Phdr { p_type, p_flags: 0, p_offset: 0, p_vaddr, p_paddr: 0, p_filesz: 0, p_memsz: 0, p_align: 0 }
}

#[test]
fn elf_header_checks() {
    let mut h = Elf64Ehdr {
        e_ident: [0; 16],
        e_type: 2,
        e_machine: 0,
        e_version: 0,
        e_entry: 0,
        e_phoff: 0,
        e_shoff: 0,
        e_flags: 0,
        e_ehsize: 0,
        e_phentsize: 0,
        e_phnum: 0,
        e_shentsize: 0,
        e_shnum: 0,
        e_shstrndx: 0,
    };
    assert!(!h.is_elf());
    h.e_ident[..4].copy_from_slice(b"\x7fELF");
    assert!(h.is_elf());
    assert!(h.check_loadable(0xffff_8000_0000_0000).is_ok());
    assert_eq!(h.check_loadable(0x1000).err().unwrap().code, Code::InvalidFormat);
    h.e_type = 3;
    assert_eq!(h.check_loadable(0xffff_8000_0000_0000).err().unwrap().code, Code::InvalidFormat);
    assert_eq!(get_first_load_address(&[phdr(6, 1), phdr(PT_LOAD, 0x2000), phdr(PT_LOAD, 0x3000)]), 0x2000);
    assert_eq!(get_first_load_address(&[phdr(6, 1)]), 0);
    assert_eq!(segment_pages(0), 0);
    assert_eq!(segment_pages(1), 1);
    assert_eq!(segment_pages(4097), 2);
}

#[test]
fn app_event_type() {
    let mut e = AppEvent::default();
    assert_eq!(e.type_(), AppEventType::Empty);
    e.set_type(AppEventType::Quit);
    assert_eq!(e.type_(), AppEventType::Quit);
}

fn descriptor(type_: MemoryType, physical_start: usize, number_of_pages: u64) -> MemoryDescriptor {
    MemoryDescriptor { type_, physical_start, virtual_start: 0, number_of_pages, attribute: 0 }
}

#[test]
fn memory_map_marks_unusable_frames() {
    let mut mm = BitmapMemoryManager::new();
    mm.initialize(&[
        descriptor(MemoryType::KEfiConventionalMemory, 0x1000, 3),
        descriptor(MemoryType::KEfiRuntimeServicesCode, 0x4000, 1),
        descriptor(MemoryType::KEfiConventionalMemory, 0x8000, 4),
    ]);
    // Frame 0 (a gap before the first descriptor), frame 4 (not usable) and
    // frames 5..8 (a gap) are taken; allocation starts at frame 1 and ends
    // at frame 12.
    let f = mm.allocate(3).unwrap();
    assert_eq!(f.id(), 1);
    let g = mm.allocate(1).unwrap();
    assert_eq!(g.id(), 8);
    let h = mm.allocate(3).unwrap();
    assert_eq!(h.id(), 9);
    assert!(mm.allocate(1).is_err());
    assert!(mm.free(FrameID::new(4), 1).is_ok());
}

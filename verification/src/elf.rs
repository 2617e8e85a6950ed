use crate::error::{Code, Error};
use vstd::prelude::*;

verus! {

/// The type of an executable file.
pub const ET_EXEC: u16 = 2;

/// The type of a program header for a segment to load.
pub const PT_LOAD: u32 = 1;

/// The ELF file header of a 64-bit file.
#[derive(Clone, Copy)]
pub struct Elf64Ehdr {
    pub e_ident: [u8; 16],
    pub e_type: u16,
    pub e_machine: u16,
    pub e_version: u32,
    pub e_entry: usize,
    pub e_phoff: u64,
    pub e_shoff: u64,
    pub e_flags: u32,
    pub e_ehsize: u16,
    pub e_phentsize: u16,
    pub e_phnum: u16,
    pub e_shentsize: u16,
    pub e_shnum: u16,
    pub e_shstrndx: u16,
}

/// A program header of a 64-bit ELF file.
#[derive(Clone, Copy)]
pub struct Elf64Phdr {
    pub p_type: u32,
    pub p_flags: u32,
    pub p_offset: u64,
    pub p_vaddr: usize,
    pub p_paddr: usize,
    pub p_filesz: u64,
    pub p_memsz: u64,
    pub p_align: u64,
}

/// The magic bytes an ELF file starts with.
pub open spec fn elf_magic() -> Seq<u8> {
    seq![0x7fu8, 0x45u8, 0x4cu8, 0x46u8]
}

/// The virtual address of the first segment to load in `phdrs`, from `k`
/// on; 0 when there is none.
pub open spec fn first_load_from(phdrs: Seq<Elf64Phdr>, k: int) -> usize
    decreases phdrs.len() - k,
{
    if k < 0 || k >= phdrs.len() {
        0
    } else if phdrs[k].p_type == PT_LOAD {
        phdrs[k].p_vaddr
    } else {
        first_load_from(phdrs, k + 1)
    }
}

impl Elf64Ehdr {
    /// Whether the file starts with the ELF magic bytes.
    pub fn is_elf(&self) -> (b: bool)
        ensures
            b == (self.e_ident@.take(4) == elf_magic()),
    {
        let r: bool = self.e_ident[0] == 0x7f && self.e_ident[1] == 0x45 && self.e_ident[2] == 0x4c && self.e_ident[3]
            == 0x46;
        proof {
            if r {
                assert(self.e_ident@.take(4) =~= elf_magic());
            } else {
                assert(self.e_ident@.take(4)[0] != elf_magic()[0] || self.e_ident@.take(4)[1] != elf_magic()[1]
                    || self.e_ident@.take(4)[2] != elf_magic()[2] || self.e_ident@.take(4)[3] != elf_magic()[3]);
            }
        }
        r
    }

    /// Whether the file can be loaded, given the address of its first
    /// segment to load: it must be an executable placed in the upper half
    /// of the address space; an error `InvalidFormat` otherwise.
    pub fn check_loadable(&self, first_load_address: usize) -> (r: Result<(), Error>)
        ensures
            r is Ok <==> self.e_type == ET_EXEC && first_load_address as int >= 0xffff_8000_0000_0000int,
            r matches Err(e) ==> e.code == Code::InvalidFormat,
    {
        if self.e_type != ET_EXEC {
            return Err(Error::new(Code::InvalidFormat, "elf.rs", 0));
        }
        if (first_load_address as u64) < 0xffff_8000_0000_0000u64 {
            return Err(Error::new(Code::InvalidFormat, "elf.rs", 0));
        }
        Ok(())
    }
}

/// The virtual address of the first segment to load; 0 when there is none.
pub fn get_first_load_address(phdrs: &[Elf64Phdr]) -> (a: usize)
    ensures
        a == first_load_from(phdrs@, 0),
{
    let mut i: usize = 0;
    while i < phdrs.len()
        invariant
            i <= phdrs@.len(),
            first_load_from(phdrs@, i as int) == first_load_from(phdrs@, 0),
        decreases phdrs.len() - i,
    {
        if phdrs[i].p_type == PT_LOAD {
            return phdrs[i].p_vaddr;
        }
        i = i + 1;
    }
    0
}

/// The number of 4 KiB pages a segment of `memsz` bytes takes.
pub fn segment_pages(memsz: u64) -> (n: u64)
    requires
        memsz + 4095 <= u64::MAX,
    ensures
        n == (memsz + 4095) / 4096,
{
    (memsz + 4095) / 4096
}

} // verus!

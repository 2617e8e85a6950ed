use vstd::prelude::*;
use crate::bits::{field64, fits64, get_field64, set_field64, with_field64};
use crate::error::Error;
use crate::memory_manager::{set_range, BitmapMemoryManager, FrameID, BYTES_PER_FRAME, FRAME_COUNT};

verus! {

/// Bytes in the smallest page.
pub const PAGE_SIZE_4K: u64 = 4096;

/// Bytes covered by one page-directory entry of a huge mapping.
pub const PAGE_SIZE_2M: u64 = 2097152;

/// Bytes covered by one page-directory-pointer entry.
pub const PAGE_SIZE_1G: u64 = 1073741824;

/// One 64-bit entry of a 4-level x86-64 page table.
#[derive(Clone, Copy)]
pub struct PageMapEntry(u64);

impl View for PageMapEntry {
    type V = u64;

    closed spec fn view(&self) -> u64 {
        self.0
    }
}

/// A value below 2 fits into a 1-bit field.
pub proof fn lemma_fits_1(v: u64)
    requires
        v <= 1,
    ensures
        fits64(v, 1),
{
    assert(fits64(v, 1)) by (bit_vector)
        requires
            v <= 1,
    ;
}

/// A value below 512 fits into a 9-bit field.
pub proof fn lemma_fits_9(v: u64)
    requires
        v < 512,
    ensures
        fits64(v, 9),
{
    assert(fits64(v, 9)) by (bit_vector)
        requires
            v < 512u64,
    ;
}

/// A value below 4096 fits into a 12-bit field.
pub proof fn lemma_fits_12(v: u64)
    requires
        v < 4096,
    ensures
        fits64(v, 12),
{
    assert(fits64(v, 12)) by (bit_vector)
        requires
            v < 4096u64,
    ;
}

/// A value below 2^40 fits into a 40-bit field.
pub proof fn lemma_fits_40(v: u64)
    requires
        v < 0x100_0000_0000,
    ensures
        fits64(v, 40),
{
    assert(fits64(v, 40)) by (bit_vector)
        requires
            v < 0x100_0000_0000u64,
    ;
}

impl PageMapEntry {
    /// An entry holding the raw value `v`.
    pub fn from_value(v: u64) -> (e: Self)
        ensures
            e@ == v,
    {
        PageMapEntry(v)
    }

    /// The raw value of the entry.
    pub fn value(&self) -> (r: u64)
        ensures
            r == self@,
    {
        self.0
    }

    /// Bit 0: the entry maps something.
    pub fn present(&self) -> (r: u64)
        ensures
            r == field64(self@, 0, 1),
    {
        get_field64(self.0, 0, 1)
    }

    pub fn set_present(&mut self, v: u64)
        requires
            v <= 1,
        ensures
            final(self)@ == with_field64(old(self)@, 0, 1, v),
    {
        proof {
            lemma_fits_1(v);
        }
        set_field64(&mut self.0, 0, 1, v);
    }

    /// Bit 1: writes are allowed.
    pub fn writable(&self) -> (r: bool)
        ensures
            r == (field64(self@, 1, 2) == 1),
    {
        let v = get_field64(self.0, 1, 2);
        1 == v
    }

    pub fn set_writable(&mut self, writable: bool)
        ensures
            final(self)@ == with_field64(old(self)@, 1, 2, if writable { 1u64 } else { 0u64 }),
    {
        let value: u64 = if writable {
            1
        } else {
            0
        };
        proof {
            lemma_fits_1(value);
        }
        set_field64(&mut self.0, 1, 2, value);
    }

    /// Bit 2: user-mode accesses are allowed.
    pub fn user(&self) -> (r: u64)
        ensures
            r == field64(self@, 2, 3),
    {
        get_field64(self.0, 2, 3)
    }

    pub fn set_user(&mut self, v: u64)
        requires
            v <= 1,
        ensures
            final(self)@ == with_field64(old(self)@, 2, 3, v),
    {
        proof {
            lemma_fits_1(v);
        }
        set_field64(&mut self.0, 2, 3, v);
    }

    /// Bit 3: page-level write-through.
    pub fn write_through(&self) -> (r: u64)
        ensures
            r == field64(self@, 3, 4),
    {
        get_field64(self.0, 3, 4)
    }

    /// Bit 4: page-level cache disable.
    pub fn cache_disable(&self) -> (r: u64)
        ensures
            r == field64(self@, 4, 5),
    {
        get_field64(self.0, 4, 5)
    }

    /// Bit 5: the entry was used for a translation.
    pub fn accessed(&self) -> (r: u64)
        ensures
            r == field64(self@, 5, 6),
    {
        get_field64(self.0, 5, 6)
    }

    /// Bit 6: the page was written.
    pub fn dirty(&self) -> (r: u64)
        ensures
            r == field64(self@, 6, 7),
    {
        get_field64(self.0, 6, 7)
    }

    /// Bit 7: the entry maps a large page.
    pub fn huge_page(&self) -> (r: u64)
        ensures
            r == field64(self@, 7, 8),
    {
        get_field64(self.0, 7, 8)
    }

    /// Bit 8: the translation is global.
    pub fn global(&self) -> (r: u64)
        ensures
            r == field64(self@, 8, 9),
    {
        get_field64(self.0, 8, 9)
    }

    /// Bits 12..52: the physical frame number of what the entry points at.
    pub fn addr(&self) -> (r: u64)
        ensures
            r == field64(self@, 12, 52),
    {
        get_field64(self.0, 12, 52)
    }

    pub fn set_addr(&mut self, addr: u64)
        requires
            addr < 0x100_0000_0000,
        ensures
            final(self)@ == with_field64(old(self)@, 12, 52, addr),
    {
        proof {
            lemma_fits_40(addr);
        }
        set_field64(&mut self.0, 12, 52, addr);
    }

    /// The physical address of the table or page the entry points at.
    pub fn pointer(&self) -> (r: u64)
        ensures
            r == field64(self@, 12, 52) * 4096,
    {
        let a = self.addr();
        let x = self.0;
        proof {
            assert(field64(x, 12, 52) < 0x100_0000_0000u64) by (bit_vector);
        }
        a * 4096
    }

    /// Points the entry at the 4 KiB-aligned physical address `p`.
    pub fn set_pointer(&mut self, p: u64)
        requires
            p < 0x10_0000_0000_0000,
        ensures
            final(self)@ == with_field64(old(self)@, 12, 52, p / 4096),
    {
        let addr = p >> 12u64;
        proof {
            assert(p >> 12u64 == p / 4096) by (bit_vector);
        }
        self.set_addr(addr);
    }

    /// Clears every bit of the entry.
    pub fn reset(&mut self)
        ensures
            final(self)@ == 0,
    {
        self.0 = 0;
    }
}

/// A 48-bit linear address split into its 4-level paging indices.
#[derive(Clone, Copy)]
pub struct LinearAddress4Level(u64);

impl View for LinearAddress4Level {
    type V = u64;

    closed spec fn view(&self) -> u64 {
        self.0
    }
}

/// The bit range that the index of level `level` occupies: 0 is the
/// offset into the page, 1 the page table, 2 the page directory, 3 the
/// page-directory-pointer table and 4 the level-4 table.
pub open spec fn level_range(level: int) -> (u64, u64) {
    if level == 0 {
        (0, 12)
    } else if level == 1 {
        (12, 21)
    } else if level == 2 {
        (21, 30)
    } else if level == 3 {
        (30, 39)
    } else {
        (39, 48)
    }
}

/// The index of level `level` (0 to 4) within address `a`.
pub open spec fn level_part(a: u64, level: int) -> u64 {
    if 0 <= level <= 4 {
        field64(a, level_range(level).0, level_range(level).1)
    } else {
        0
    }
}

impl LinearAddress4Level {
    pub fn new(v: u64) -> (a: Self)
        ensures
            a@ == v,
    {
        Self(v)
    }

    pub fn value(&self) -> (r: u64)
        ensures
            r == self@,
    {
        self.0
    }

    pub fn offset(&self) -> (r: u64)
        ensures
            r == field64(self@, 0, 12),
    {
        get_field64(self.0, 0, 12)
    }

    pub fn set_offset(&mut self, v: u64)
        requires
            v < 4096,
        ensures
            final(self)@ == with_field64(old(self)@, 0, 12, v),
    {
        proof {
            lemma_fits_12(v);
        }
        set_field64(&mut self.0, 0, 12, v);
    }

    pub fn page(&self) -> (r: u64)
        ensures
            r == field64(self@, 12, 21),
    {
        get_field64(self.0, 12, 21)
    }

    pub fn set_page(&mut self, v: u64)
        requires
            v < 512,
        ensures
            final(self)@ == with_field64(old(self)@, 12, 21, v),
    {
        proof {
            lemma_fits_9(v);
        }
        set_field64(&mut self.0, 12, 21, v);
    }

    pub fn dir(&self) -> (r: u64)
        ensures
            r == field64(self@, 21, 30),
    {
        get_field64(self.0, 21, 30)
    }

    pub fn set_dir(&mut self, v: u64)
        requires
            v < 512,
        ensures
            final(self)@ == with_field64(old(self)@, 21, 30, v),
    {
        proof {
            lemma_fits_9(v);
        }
        set_field64(&mut self.0, 21, 30, v);
    }

    pub fn pdp(&self) -> (r: u64)
        ensures
            r == field64(self@, 30, 39),
    {
        get_field64(self.0, 30, 39)
    }

    pub fn set_pdp(&mut self, v: u64)
        requires
            v < 512,
        ensures
            final(self)@ == with_field64(old(self)@, 30, 39, v),
    {
        proof {
            lemma_fits_9(v);
        }
        set_field64(&mut self.0, 30, 39, v);
    }

    pub fn pml4(&self) -> (r: u64)
        ensures
            r == field64(self@, 39, 48),
    {
        get_field64(self.0, 39, 48)
    }

    pub fn set_pml4(&mut self, v: u64)
        requires
            v < 512,
        ensures
            final(self)@ == with_field64(old(self)@, 39, 48, v),
    {
        proof {
            lemma_fits_9(v);
        }
        set_field64(&mut self.0, 39, 48, v);
    }

    /// The index of paging level `page_map_level`; 0 for a level outside 0 to 4.
    pub fn part(&self, page_map_level: i32) -> (r: u64)
        ensures
            r == level_part(self@, page_map_level as int),
    {
        match page_map_level {
            0 => self.offset(),
            1 => self.page(),
            2 => self.dir(),
            3 => self.pdp(),
            4 => self.pml4(),
            _ => 0,
        }
    }

    /// Sets the index of paging level `page_map_level` (0 to 4) to `value`;
    /// any other level leaves the address unchanged.
    pub fn set_part(&mut self, page_map_level: i32, value: u64)
        requires
            page_map_level == 0 ==> value < 4096,
            1 <= page_map_level <= 4 ==> value < 512,
        ensures
            0 <= page_map_level <= 4 ==> final(self)@ == with_field64(
                old(self)@,
                level_range(page_map_level as int).0,
                level_range(page_map_level as int).1,
                value,
            ),
            !(0 <= page_map_level <= 4) ==> final(self)@ == old(self)@,
    {
        match page_map_level {
            0 => self.set_offset(value),
            1 => self.set_page(value),
            2 => self.set_dir(value),
            3 => self.set_pdp(value),
            4 => self.set_pml4(value),
            _ => {},
        }
    }
}

/// The index of each level, as `part` reads it, is below 512 (4096 for
/// the offset).
pub proof fn lemma_part_bounds(a: u64)
    ensures
        level_part(a, 0) < 4096,
        level_part(a, 1) < 512,
        level_part(a, 2) < 512,
        level_part(a, 3) < 512,
        level_part(a, 4) < 512,
{
    assert(field64(a, 0, 12) < 4096u64 && field64(a, 12, 21) < 512u64 && field64(a, 21, 30)
        < 512u64 && field64(a, 30, 39) < 512u64 && field64(a, 39, 48) < 512u64) by (bit_vector);
}

/// Setting the index of one level and reading it back gives the value
/// written, and leaves the indices of the other levels unchanged.
pub proof fn law_set_part_then_part(a: u64, level: int, value: u64)
    requires
        0 <= level <= 4,
        level == 0 ==> value < 4096,
        1 <= level <= 4 ==> value < 512,
    ensures
        forall|other: int|
            0 <= other <= 4 ==> #[trigger] level_part(
                with_field64(a, level_range(level).0, level_range(level).1, value),
                other,
            ) == if other == level {
                value
            } else {
                level_part(a, other)
            },
{
    if level == 0 {
        let w = with_field64(a, 0, 12, value);
        assert(field64(w, 0, 12) == value && field64(w, 12, 21) == field64(a, 12, 21) && field64(
            w,
            21,
            30,
        ) == field64(a, 21, 30) && field64(w, 30, 39) == field64(a, 30, 39) && field64(w, 39, 48)
            == field64(a, 39, 48)) by (bit_vector)
            requires
                value < 4096u64,
                w == with_field64(a, 0, 12, value),
        ;
    } else if level == 1 {
        let w = with_field64(a, 12, 21, value);
        assert(field64(w, 0, 12) == field64(a, 0, 12) && field64(w, 12, 21) == value && field64(
            w,
            21,
            30,
        ) == field64(a, 21, 30) && field64(w, 30, 39) == field64(a, 30, 39) && field64(w, 39, 48)
            == field64(a, 39, 48)) by (bit_vector)
            requires
                value < 512u64,
                w == with_field64(a, 12, 21, value),
        ;
    } else if level == 2 {
        let w = with_field64(a, 21, 30, value);
        assert(field64(w, 0, 12) == field64(a, 0, 12) && field64(w, 12, 21) == field64(a, 12, 21)
            && field64(w, 21, 30) == value && field64(w, 30, 39) == field64(a, 30, 39) && field64(
            w,
            39,
            48,
        ) == field64(a, 39, 48)) by (bit_vector)
            requires
                value < 512u64,
                w == with_field64(a, 21, 30, value),
        ;
    } else if level == 3 {
        let w = with_field64(a, 30, 39, value);
        assert(field64(w, 0, 12) == field64(a, 0, 12) && field64(w, 12, 21) == field64(a, 12, 21)
            && field64(w, 21, 30) == field64(a, 21, 30) && field64(w, 30, 39) == value && field64(
            w,
            39,
            48,
        ) == field64(a, 39, 48)) by (bit_vector)
            requires
                value < 512u64,
                w == with_field64(a, 30, 39, value),
        ;
    } else {
        let w = with_field64(a, 39, 48, value);
        assert(field64(w, 0, 12) == field64(a, 0, 12) && field64(w, 12, 21) == field64(a, 12, 21)
            && field64(w, 21, 30) == field64(a, 21, 30) && field64(w, 30, 39) == field64(a, 30, 39)
            && field64(w, 39, 48) == value) by (bit_vector)
            requires
                value < 512u64,
                w == with_field64(a, 39, 48, value),
        ;
    }
}

/// Gives back the frame that holds the page table at physical address
/// `table` to the frame allocator.
pub fn free_page_map(memory_manager: &mut BitmapMemoryManager, table: u64) -> (r: Result<(), Error>)
    requires
        old(memory_manager).wf(),
        table / 4096 < FRAME_COUNT,
    ensures
        r is Ok,
        final(memory_manager).wf(),
        final(memory_manager)@ == set_range(old(memory_manager)@, (table / 4096) as int, 1, false),
        final(memory_manager).begin() == old(memory_manager).begin(),
        final(memory_manager).end() == old(memory_manager).end(),
{
    let frame_id: FrameID = FrameID::new((table / (BYTES_PER_FRAME as u64)) as usize);
    memory_manager.free(frame_id, 1)
}

} // verus!

use vstd::prelude::*;
use crate::bits::{fits64, set_field64, with_field64};
use crate::x86_descriptor::{SegmentDescriptorType, SystemDescriptorType};

verus! {

/// Selector of the kernel's code segment.
pub const KERNEL_CS: u16 = 8;

/// Selector of the kernel's stack segment.
pub const KERNEL_SS: u16 = 16;

/// Selector loaded into the data segment registers.
pub const KERNEL_DS: u16 = 0;

/// Selector of the task-state segment.
pub const K_TSS: u16 = 40;

proof fn lemma_fits_small(v: u64)
    ensures
        v < 2 ==> fits64(v, 1),
        v < 4 ==> fits64(v, 2),
        v < 16 ==> fits64(v, 4),
        v < 256 ==> fits64(v, 8),
        v < 65536 ==> fits64(v, 16),
{
    assert((v < 2u64 ==> fits64(v, 1)) && (v < 4u64 ==> fits64(v, 2)) && (v < 16u64 ==> fits64(
        v,
        4,
    )) && (v < 256u64 ==> fits64(v, 8)) && (v < 65536u64 ==> fits64(v, 16))) by (bit_vector);
}

proof fn lemma_masked_parts(v: u64)
    ensures
        v & 0xffff < 65536,
        (v >> 16u64) & 0xff < 256,
        (v >> 24u64) & 0xff < 256,
        (v >> 16u64) & 0xf < 16,
{
    assert(v & 0xffff < 65536u64 && (v >> 16u64) & 0xff < 256u64 && (v >> 24u64) & 0xff < 256u64
        && (v >> 16u64) & 0xf < 16u64) by (bit_vector);
}

/// The descriptor a code segment with these parameters gets, starting from `x`.
pub open spec fn code_segment_value(x: u64, type_code: u64, dpl: u64, base: u64, limit: u64) -> u64 {
    let x1 = with_field64(x, 16, 32, base & 0xffff);
    let x2 = with_field64(x1, 32, 40, (base >> 16u64) & 0xff);
    let x3 = with_field64(x2, 56, 64, (base >> 24u64) & 0xff);
    let x4 = with_field64(x3, 0, 16, limit & 0xffff);
    let x5 = with_field64(x4, 48, 52, (limit >> 16u64) & 0xf);
    let x6 = with_field64(x5, 40, 44, type_code);
    let x7 = with_field64(x6, 44, 45, 1);
    let x8 = with_field64(x7, 45, 47, dpl);
    let x9 = with_field64(x8, 47, 48, 1);
    let x10 = with_field64(x9, 52, 53, 0);
    let x11 = with_field64(x10, 53, 54, 1);
    let x12 = with_field64(x11, 54, 55, 0);
    with_field64(x12, 55, 56, 1)
}

/// An entry of the global descriptor table.
#[derive(Copy, Clone)]
pub struct SegmentDescriptor(u64);

impl View for SegmentDescriptor {
    type V = u64;

    closed spec fn view(&self) -> u64 {
        self.0
    }
}

impl SegmentDescriptor {
    /// The null descriptor.
    pub fn new() -> (d: Self)
        ensures
            d@ == 0,
    {
        Self(0)
    }

    /// The raw value of the descriptor.
    pub fn value(&self) -> (r: u64)
        ensures
            r == self@,
    {
        self.0
    }

    fn set(&mut self, lo: usize, hi: usize, v: u64)
        requires
            lo < hi <= 64,
            fits64(v, (hi - lo) as u64),
        ensures
            final(self)@ == with_field64(old(self)@, lo as u64, hi as u64, v),
    {
        set_field64(&mut self.0, lo, hi, v);
    }

    fn set_code_segment_raw(&mut self, type_code: u64, descriptor_privilege_level: u32, base: u32, limit: u32)
        requires
            type_code < 16,
            descriptor_privilege_level < 4,
        ensures
            final(self)@ == code_segment_value(
                old(self)@,
                type_code,
                descriptor_privilege_level as u64,
                base as u64,
                limit as u64,
            ),
    {
        let base: u64 = base as u64;
        let limit: u64 = limit as u64;
        let dpl: u64 = descriptor_privilege_level as u64;
        proof {
            lemma_masked_parts(base);
            lemma_masked_parts(limit);
            lemma_fits_small(base & 0xffff);
            lemma_fits_small((base >> 16u64) & 0xff);
            lemma_fits_small((base >> 24u64) & 0xff);
            lemma_fits_small(limit & 0xffff);
            lemma_fits_small((limit >> 16u64) & 0xf);
            lemma_fits_small(type_code);
            lemma_fits_small(dpl);
            lemma_fits_small(1);
            lemma_fits_small(0);
        }
        self.set(16, 32, base & 0xffff);
        self.set(32, 40, (base >> 16u64) & 0xff);
        self.set(56, 64, (base >> 24u64) & 0xff);
        self.set(0, 16, limit & 0xffff);
        self.set(48, 52, (limit >> 16u64) & 0xf);
        self.set(40, 44, type_code);
        self.set(44, 45, 1);
        self.set(45, 47, dpl);
        self.set(47, 48, 1);
        self.set(52, 53, 0);
        self.set(53, 54, 1);
        self.set(54, 55, 0);
        self.set(55, 56, 1);
    }

    /// Makes a 64-bit code segment: present, 4 KiB granularity, long mode.
    pub fn set_code_segment(
        &mut self,
        type_: SegmentDescriptorType,
        descriptor_privilege_level: u32,
        base: u32,
        limit: u32,
    )
        requires
            descriptor_privilege_level < 4,
        ensures
            final(self)@ == code_segment_value(
                old(self)@,
                crate::x86_descriptor::segment_type_code(type_),
                descriptor_privilege_level as u64,
                base as u64,
                limit as u64,
            ),
    {
        let t = type_.code();
        self.set_code_segment_raw(t, descriptor_privilege_level, base, limit);
    }

    /// Makes a data segment: a code segment without long mode, with 32-bit
    /// default operation size.
    pub fn set_data_segment(
        &mut self,
        type_: SegmentDescriptorType,
        descriptor_privilege_level: u32,
        base: u32,
        limit: u32,
    )
        requires
            descriptor_privilege_level < 4,
        ensures
            final(self)@ == with_field64(
                with_field64(
                    code_segment_value(
                        old(self)@,
                        crate::x86_descriptor::segment_type_code(type_),
                        descriptor_privilege_level as u64,
                        base as u64,
                        limit as u64,
                    ),
                    53,
                    54,
                    0,
                ),
                54,
                55,
                1,
            ),
    {
        self.set_code_segment(type_, descriptor_privilege_level, base, limit);
        proof {
            lemma_fits_small(0);
            lemma_fits_small(1);
        }
        self.set(53, 54, 0);
        self.set(54, 55, 1);
    }

    /// Makes a system segment (such as a task-state segment): a code
    /// segment with the system flag and long mode cleared.
    pub fn set_system_segment(
        &mut self,
        type_: SystemDescriptorType,
        descriptor_privilege_level: u32,
        base: u32,
        limit: u32,
    )
        requires
            descriptor_privilege_level < 4,
        ensures
            final(self)@ == with_field64(
                with_field64(
                    code_segment_value(
                        old(self)@,
                        crate::x86_descriptor::system_type_code(type_),
                        descriptor_privilege_level as u64,
                        base as u64,
                        limit as u64,
                    ),
                    44,
                    45,
                    0,
                ),
                53,
                54,
                0,
            ),
    {
        let t = type_.code();
        self.set_code_segment_raw(t, descriptor_privilege_level, base, limit);
        proof {
            lemma_fits_small(0);
        }
        self.set(44, 45, 0);
        self.set(53, 54, 0);
    }
}

} // verus!

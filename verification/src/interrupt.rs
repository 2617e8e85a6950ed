use vstd::prelude::*;
use crate::bits::{field64, fits16, get_field64, set_bit16, set_field16, with_field16};
use crate::font::{text_covers, text_fits, write_chars};
use crate::graphics::{color_white, PixelColor, PixelWriter};
use crate::segment::KERNEL_CS;
use crate::x86_descriptor::{system_type_code, SystemDescriptorType};

verus! {

/// The registers the CPU pushes when it enters an interrupt handler.
#[derive(Clone, Copy, Debug)]
pub struct InterruptFrame {
    pub rip: u64,
    pub cs: u64,
    pub rflags: u64,
    pub rsp: u64,
    pub ss: u64,
}

/// The 16-bit attribute word of an interrupt descriptor.
#[derive(Copy, Clone)]
pub struct InterruptDescriptorAttribute(u16);

impl View for InterruptDescriptorAttribute {
    type V = u16;

    closed spec fn view(&self) -> u16 {
        self.0
    }
}

/// The attribute word built from its parts: interrupt-stack-table index in
/// bits 0..3, descriptor type in 8..12, privilege level in 13..15 and the
/// present flag in bit 15.
pub open spec fn attribute_value(type_code: u16, dpl: u16, present: bool, ist: u16) -> u16 {
    let f0: u16 = if present { 0u16 | (1u16 << 15u16) } else { 0u16 & !(1u16 << 15u16) };
    with_field16(with_field16(with_field16(f0, 13, 15, dpl), 8, 12, type_code), 0, 3, ist)
}

proof fn lemma_attribute_parts_fit(dpl: u16, t: u16, ist: u16)
    requires
        dpl < 4,
        t < 16,
        ist < 8,
    ensures
        fits16(dpl, 2),
        fits16(t, 4),
        fits16(ist, 3),
{
    assert(fits16(dpl, 2) && fits16(t, 4) && fits16(ist, 3)) by (bit_vector)
        requires
            dpl < 4u16,
            t < 16u16,
            ist < 8u16,
    ;
}

impl InterruptDescriptorAttribute {
    pub fn new(
        descriptor_type: SystemDescriptorType,
        descriptor_privilege_level: u8,
        present: bool,
        interrupt_stack_table: u8,
    ) -> (a: Self)
        requires
            descriptor_privilege_level < 4,
            interrupt_stack_table < 8,
        ensures
            a@ == attribute_value(
                system_type_code(descriptor_type) as u16,
                descriptor_privilege_level as u16,
                present,
                interrupt_stack_table as u16,
            ),
    {
        let mut field: u16 = 0;
        let t: u16 = descriptor_type.code() as u16;
        let dpl: u16 = descriptor_privilege_level as u16;
        let ist: u16 = interrupt_stack_table as u16;
        proof {
            lemma_attribute_parts_fit(dpl, t, ist);
        }
        set_bit16(&mut field, 15, present);
        set_field16(&mut field, 13, 15, dpl);
        set_field16(&mut field, 8, 12, t);
        set_field16(&mut field, 0, 3, ist);
        InterruptDescriptorAttribute(field)
    }

    /// The raw attribute word.
    pub fn value(&self) -> (r: u16)
        ensures
            r == self@,
    {
        self.0
    }
}

/// An entry of the interrupt descriptor table.
#[derive(Copy, Clone)]
pub struct InterruptDescriptor {
    pub offset_low: u16,
    pub segment_selector: u16,
    pub attr: InterruptDescriptorAttribute,
    pub offset_middle: u16,
    pub offset_high: u32,
    pub reserved: u32,
}

impl InterruptDescriptor {
    /// An all-zero descriptor.
    pub fn empty() -> (d: Self)
        ensures
            d.offset_low == 0,
            d.segment_selector == 0,
            d.attr@ == 0,
            d.offset_middle == 0,
            d.offset_high == 0,
            d.reserved == 0,
    {
        InterruptDescriptor {
            offset_low: 0,
            segment_selector: 0,
            attr: InterruptDescriptorAttribute(0),
            offset_middle: 0,
            offset_high: 0,
            reserved: 0,
        }
    }

    /// Points the descriptor at the handler at `offset`, as a present
    /// interrupt gate of privilege level 0 in the kernel code segment.
    pub fn set_idt_entry(&mut self, offset: usize)
        ensures
            final(self).attr@ == attribute_value(
                system_type_code(SystemDescriptorType::InterruptGate) as u16,
                0,
                true,
                0,
            ),
            final(self).offset_low == field64(offset as u64, 0, 16) as u16,
            final(self).offset_middle == field64(offset as u64, 16, 32) as u16,
            final(self).offset_high == field64(offset as u64, 32, 64) as u32,
            final(self).segment_selector == KERNEL_CS,
            final(self).reserved == old(self).reserved,
    {
        self._set_idt_entry(
            InterruptDescriptorAttribute::new(SystemDescriptorType::InterruptGate, 0, true, 0),
            offset as u64,
            KERNEL_CS,
        );
    }

    pub fn _set_idt_entry(
        &mut self,
        attr: InterruptDescriptorAttribute,
        offset: u64,
        segment_selector: u16,
    )
        ensures
            final(self).attr == attr,
            final(self).offset_low == field64(offset, 0, 16) as u16,
            final(self).offset_middle == field64(offset, 16, 32) as u16,
            final(self).offset_high == field64(offset, 32, 64) as u32,
            final(self).segment_selector == segment_selector,
            final(self).reserved == old(self).reserved,
    {
        self.attr = attr;
        self.offset_low = get_field64(offset, 0, 16) as u16;
        self.offset_middle = get_field64(offset, 16, 32) as u16;
        self.offset_high = get_field64(offset, 32, 64) as u32;
        self.segment_selector = segment_selector;
    }
}

/// Vector numbers of the interrupts the kernel handles itself.
#[derive(Clone, Copy, PartialEq, Eq, Structural, Debug)]
pub enum InterruptVectorNumber {
    XHCI,
    LAPICTimer,
}

impl InterruptVectorNumber {
    /// The vector number.
    pub fn number(&self) -> (r: usize)
        ensures
            *self == InterruptVectorNumber::XHCI ==> r == 0x40,
            *self == InterruptVectorNumber::LAPICTimer ==> r == 0x41,
    {
        match self {
            InterruptVectorNumber::XHCI => 0x40,
            InterruptVectorNumber::LAPICTimer => 0x41,
        }
    }
}

/// The character that shows hexadecimal digit `d` (below 16).
pub open spec fn hex_digit(d: u64) -> char {
    if d < 10 {
        ((d + 48) as u8) as char
    } else {
        ((d - 10 + 97) as u8) as char
    }
}

/// The `width` lowest hexadecimal digits of `value`, most significant first,
/// as the fault screen prints them.
pub fn hex_chars(value: u64, width: i32) -> (r: Vec<char>)
    requires
        0 <= width <= 16,
    ensures
        r@.len() == width,
        forall|i: int|
            0 <= i < width ==> r@[i] == hex_digit(((value >> ((4 * (width - i - 1)) as u64)) & 0xf) as u64),
{
    let mut r: Vec<char> = Vec::new();
    let mut i: i32 = 0;
    while i < width
        invariant
            0 <= i <= width <= 16,
            r@.len() == i,
            forall|j: int|
                0 <= j < i ==> r@[j] == hex_digit(((value >> ((4 * (width - j - 1)) as u64)) & 0xf) as u64),
        decreases width - i,
    {
        let shift: u64 = (4 * (width - i - 1)) as u64;
        let x: u64 = (value >> shift) & 0xf;
        proof {
            assert(x <= 15) by (bit_vector)
                requires
                    x == (value >> shift) & 0xf,
            ;
        }
        let c = if x >= 10 {
            ((x - 10 + 97) as u8) as char
        } else {
            ((x + 48) as u8) as char
        };
        r.push(c);
        i += 1;
    }
    r
}


/// The `width` lowest hexadecimal digits of `value`, most significant first.
pub open spec fn hex_text(value: u64, width: int) -> Seq<char> {
    Seq::new(width as nat, |i: int| hex_digit(((value >> ((4 * (width - i - 1)) as u64)) & 0xf) as u64))
}

/// Draws the `width` lowest hexadecimal digits of `value` with their top
/// left corner at (pos_x, pos_y), in `color_white()`, as the fault screen
/// does.
pub fn print_hex<W: PixelWriter>(writer: &mut W, font: &[u8], value: u64, width: i32, pos_x: i32, pos_y: i32)
    requires
        old(writer).inv(),
        0 <= width <= 16,
        text_fits(font@, hex_text(value, width as int), pos_x as int, pos_y as int, old(writer).area()),
    ensures
        final(writer).inv(),
        final(writer).frame() == old(writer).frame(),
        final(writer).area() == old(writer).area(),
        forall|a: int, b: int|
            #[trigger] final(writer).pixel_at(a, b) == if text_covers(
                font@,
                hex_text(value, width as int),
                pos_x as int,
                pos_y as int,
                a,
                b,
                width as int,
            ) {
                color_white()
            } else {
                old(writer).pixel_at(a, b)
            },
{
    let chars: Vec<char> = hex_chars(value, width);
    assert(chars@ =~= hex_text(value, width as int));
    let white: PixelColor = PixelColor::new(0, 0, 0);
    write_chars(writer, font, pos_x, pos_y, chars.as_slice(), &white);
}

} // verus!

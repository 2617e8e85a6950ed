use vstd::prelude::*;

verus! {

/// Types of system descriptors in the GDT and IDT.
#[derive(Clone, Copy, PartialEq, Eq, Structural, Debug)]
pub enum SystemDescriptorType {
    Upper8Bytes,
    LDT,
    TSSAvailable,
    TSSBusy,
    CallGate,
    InterruptGate,
    TrapGate,
}

/// The 4-bit encoding of a system descriptor type.
pub open spec fn system_type_code(t: SystemDescriptorType) -> u64 {
    match t {
        SystemDescriptorType::Upper8Bytes => 0,
        SystemDescriptorType::LDT => 2,
        SystemDescriptorType::TSSAvailable => 9,
        SystemDescriptorType::TSSBusy => 11,
        SystemDescriptorType::CallGate => 12,
        SystemDescriptorType::InterruptGate => 14,
        SystemDescriptorType::TrapGate => 15,
    }
}

impl SystemDescriptorType {
    /// The type's 4-bit encoding.
    pub fn code(&self) -> (r: u64)
        ensures
            r == system_type_code(*self),
            r < 16,
    {
        match self {
            SystemDescriptorType::Upper8Bytes => 0,
            SystemDescriptorType::LDT => 2,
            SystemDescriptorType::TSSAvailable => 9,
            SystemDescriptorType::TSSBusy => 11,
            SystemDescriptorType::CallGate => 12,
            SystemDescriptorType::InterruptGate => 14,
            SystemDescriptorType::TrapGate => 15,
        }
    }
}

/// Types of code and data segment descriptors.
#[derive(Clone, Copy, PartialEq, Eq, Structural, Debug)]
pub enum SegmentDescriptorType {
    ReadWrite,
    ExecuteRead,
}

/// The 4-bit encoding of a code or data segment type.
pub open spec fn segment_type_code(t: SegmentDescriptorType) -> u64 {
    match t {
        SegmentDescriptorType::ReadWrite => 2,
        SegmentDescriptorType::ExecuteRead => 10,
    }
}

impl SegmentDescriptorType {
    /// The type's 4-bit encoding.
    pub fn code(&self) -> (r: u64)
        ensures
            r == segment_type_code(*self),
            r < 16,
    {
        match self {
            SegmentDescriptorType::ReadWrite => 2,
            SegmentDescriptorType::ExecuteRead => 10,
        }
    }
}

} // verus!

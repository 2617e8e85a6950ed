use vstd::prelude::*;

verus! {

/// The kinds of failure the kernel reports.
#[derive(Debug, Clone, Copy, PartialEq, Eq, Structural)]
pub enum Code {
    Full,
    Empty,
    NoEnoughMemory,
    IndexOutOfRange,
    HostControllerNotHalted,
    InvalidSlotID,
    PortNotConnected,
    InvalidEndpointNumber,
    TransferRingNotSet,
    AlreadyAllocated,
    NotImplemented,
    InvalidDescriptor,
    BufferTooSmall,
    UnknownDevice,
    NoCorrespondingSetupStage,
    TransferFailed,
    InvalidPhase,
    UnknownXHCISpeedID,
    NoWaiter,
    NoPCIMSI,
    NoSuchTask,
    InvalidFormat,
    FrameTooSmall,
    InvalidFile,
    IsDirectory,
    NoSuchEntry,
    FreeTypeError,
    LastOfCode,
}

/// The name of error code `c`: the code's own name.
pub open spec fn code_name(c: Code) -> &'static str {
    match c {
        Code::Full => "Full",
        Code::Empty => "Empty",
        Code::NoEnoughMemory => "NoEnoughMemory",
        Code::IndexOutOfRange => "IndexOutOfRange",
        Code::HostControllerNotHalted => "HostControllerNotHalted",
        Code::InvalidSlotID => "InvalidSlotID",
        Code::PortNotConnected => "PortNotConnected",
        Code::InvalidEndpointNumber => "InvalidEndpointNumber",
        Code::TransferRingNotSet => "TransferRingNotSet",
        Code::AlreadyAllocated => "AlreadyAllocated",
        Code::NotImplemented => "NotImplemented",
        Code::InvalidDescriptor => "InvalidDescriptor",
        Code::BufferTooSmall => "BufferTooSmall",
        Code::UnknownDevice => "UnknownDevice",
        Code::NoCorrespondingSetupStage => "NoCorrespondingSetupStage",
        Code::TransferFailed => "TransferFailed",
        Code::InvalidPhase => "InvalidPhase",
        Code::UnknownXHCISpeedID => "UnknownXHCISpeedID",
        Code::NoWaiter => "NoWaiter",
        Code::NoPCIMSI => "NoPCIMSI",
        Code::NoSuchTask => "NoSuchTask",
        Code::InvalidFormat => "InvalidFormat",
        Code::FrameTooSmall => "FrameTooSmall",
        Code::InvalidFile => "InvalidFile",
        Code::IsDirectory => "IsDirectory",
        Code::NoSuchEntry => "NoSuchEntry",
        Code::FreeTypeError => "FreeTypeError",
        Code::LastOfCode => "LastOfCode",
    }
}

/// An error: its code and the place in the kernel that raised it.
#[derive(Debug)]
pub struct Error {
    pub code: Code,
    pub file: &'static str,
    pub line: u32,
}

impl Error {
    pub fn new(code: Code, file: &'static str, line: u32) -> (e: Error)
        ensures
            e.code == code,
            e.file == file,
            e.line == line,
    {
        Error { code, file, line }
    }

    /// The name of the error's code.
    pub fn name(&self) -> (r: &'static str)
        ensures
            r == code_name(self.code),
    {
        match self.code {
            Code::Full => "Full",
            Code::Empty => "Empty",
            Code::NoEnoughMemory => "NoEnoughMemory",
            Code::IndexOutOfRange => "IndexOutOfRange",
            Code::HostControllerNotHalted => "HostControllerNotHalted",
            Code::InvalidSlotID => "InvalidSlotID",
            Code::PortNotConnected => "PortNotConnected",
            Code::InvalidEndpointNumber => "InvalidEndpointNumber",
            Code::TransferRingNotSet => "TransferRingNotSet",
            Code::AlreadyAllocated => "AlreadyAllocated",
            Code::NotImplemented => "NotImplemented",
            Code::InvalidDescriptor => "InvalidDescriptor",
            Code::BufferTooSmall => "BufferTooSmall",
            Code::UnknownDevice => "UnknownDevice",
            Code::NoCorrespondingSetupStage => "NoCorrespondingSetupStage",
            Code::TransferFailed => "TransferFailed",
            Code::InvalidPhase => "InvalidPhase",
            Code::UnknownXHCISpeedID => "UnknownXHCISpeedID",
            Code::NoWaiter => "NoWaiter",
            Code::NoPCIMSI => "NoPCIMSI",
            Code::NoSuchTask => "NoSuchTask",
            Code::InvalidFormat => "InvalidFormat",
            Code::FrameTooSmall => "FrameTooSmall",
            Code::InvalidFile => "InvalidFile",
            Code::IsDirectory => "IsDirectory",
            Code::NoSuchEntry => "NoSuchEntry",
            Code::FreeTypeError => "FreeTypeError",
            Code::LastOfCode => "LastOfCode",
        }
    }
}

} // verus!

use vstd::prelude::*;

verus! {

/// How the boot loader's frame buffer stores a pixel.
#[derive(Eq, PartialEq, Clone, Copy, Debug, Structural)]
pub enum PixelFormat {
    KPixelRGBResv8BitPerColor,
    KPixelBGRResv8BitPerColor,
}

impl PixelFormat {
    pub fn bits_per_pixel(&self) -> (r: usize)
        ensures
            r == 32,
    {
        match self {
            PixelFormat::KPixelRGBResv8BitPerColor => 32,
            PixelFormat::KPixelBGRResv8BitPerColor => 32,
        }
    }

    pub fn bytes_per_pixel(&self) -> (r: usize)
        ensures
            r == 4,
    {
        let bits = self.bits_per_pixel();
        (bits + 7) / 8
    }
}

/// The geometry of a frame buffer; the memory itself is held elsewhere.
#[derive(Eq, PartialEq, Clone, Copy, Debug, Structural)]
pub struct FrameBufferConfig {
    pub pixels_per_scan_line: u32,
    pub horizontal_resolution: u32,
    pub vertical_resolution: u32,
    pub pixel_format: PixelFormat,
}

impl FrameBufferConfig {
    pub fn new(
        horizontal_resolution: u32,
        vertical_resolution: u32,
        pixels_per_scan_line: u32,
        pixel_format: PixelFormat,
    ) -> (c: FrameBufferConfig)
        ensures
            c == (FrameBufferConfig {
                pixels_per_scan_line,
                horizontal_resolution,
                vertical_resolution,
                pixel_format,
            }),
    {
        Self { pixels_per_scan_line, horizontal_resolution, vertical_resolution, pixel_format }
    }

    /// Bytes from one row of pixels to the next.
    pub fn bytes_per_scan_line(&self) -> (r: usize)
        requires
            4 * self.pixels_per_scan_line <= usize::MAX,
        ensures
            r == 4 * self.pixels_per_scan_line,
    {
        self.pixel_format.bytes_per_pixel() * self.pixels_per_scan_line as usize
    }

    /// The byte offset of pixel (x, y).
    pub fn pixel_position_at(&self, x: usize, y: usize) -> (r: usize)
        requires
            4 * (self.pixels_per_scan_line * y + x) <= usize::MAX,
        ensures
            r == 4 * (self.pixels_per_scan_line * y + x),
    {
        proof {
            assert(self.pixels_per_scan_line * y <= self.pixels_per_scan_line * y + x);
        }
        self.pixel_format.bytes_per_pixel() * (self.pixels_per_scan_line as usize * y + x)
    }
}

/// The UEFI memory types.
#[derive(Eq, PartialEq, Debug, Clone, Copy, Structural)]
pub enum MemoryType {
    KEfiReservedMemoryType,
    KEfiLoaderCode,
    KEfiLoaderData,
    KEfiBootServicesCode,
    KEfiBootServicesData,
    KEfiRuntimeServicesCode,
    KEfiRuntimeServicesData,
    KEfiConventionalMemory,
    KEfiUnusableMemory,
    KEfiACPIReclaimMemory,
    KEfiACPIMemoryNVS,
    KEfiMemoryMappedIO,
    KEfiMemoryMappedIOPortSpace,
    KEfiPalCode,
    KEfiPersistentMemory,
    KEfiMaxMemoryType,
}

/// Whether the kernel may use memory of type `t` once boot services are gone.
pub open spec fn memory_type_available(t: MemoryType) -> bool {
    t == MemoryType::KEfiBootServicesCode || t == MemoryType::KEfiBootServicesData || t
        == MemoryType::KEfiConventionalMemory
}

impl MemoryType {
    /// The type's number in the UEFI specification.
    pub fn to_i32(&self) -> (r: i32)
        ensures
            0 <= r <= 15,
            *self == MemoryType::KEfiReservedMemoryType ==> r == 0,
            *self == MemoryType::KEfiLoaderCode ==> r == 1,
            *self == MemoryType::KEfiLoaderData ==> r == 2,
            *self == MemoryType::KEfiBootServicesCode ==> r == 3,
            *self == MemoryType::KEfiBootServicesData ==> r == 4,
            *self == MemoryType::KEfiRuntimeServicesCode ==> r == 5,
            *self == MemoryType::KEfiRuntimeServicesData ==> r == 6,
            *self == MemoryType::KEfiConventionalMemory ==> r == 7,
            *self == MemoryType::KEfiUnusableMemory ==> r == 8,
            *self == MemoryType::KEfiACPIReclaimMemory ==> r == 9,
            *self == MemoryType::KEfiACPIMemoryNVS ==> r == 10,
            *self == MemoryType::KEfiMemoryMappedIO ==> r == 11,
            *self == MemoryType::KEfiMemoryMappedIOPortSpace ==> r == 12,
            *self == MemoryType::KEfiPalCode ==> r == 13,
            *self == MemoryType::KEfiPersistentMemory ==> r == 14,
            *self == MemoryType::KEfiMaxMemoryType ==> r == 15,
    {
        match self {
            MemoryType::KEfiReservedMemoryType => 0,
            MemoryType::KEfiLoaderCode => 1,
            MemoryType::KEfiLoaderData => 2,
            MemoryType::KEfiBootServicesCode => 3,
            MemoryType::KEfiBootServicesData => 4,
            MemoryType::KEfiRuntimeServicesCode => 5,
            MemoryType::KEfiRuntimeServicesData => 6,
            MemoryType::KEfiConventionalMemory => 7,
            MemoryType::KEfiUnusableMemory => 8,
            MemoryType::KEfiACPIReclaimMemory => 9,
            MemoryType::KEfiACPIMemoryNVS => 10,
            MemoryType::KEfiMemoryMappedIO => 11,
            MemoryType::KEfiMemoryMappedIOPortSpace => 12,
            MemoryType::KEfiPalCode => 13,
            MemoryType::KEfiPersistentMemory => 14,
            MemoryType::KEfiMaxMemoryType => 15,
        }
    }

    /// Whether the kernel may use memory of this type.
    pub fn is_available(&self) -> (r: bool)
        ensures
            r == memory_type_available(*self),
    {
        match self {
            MemoryType::KEfiBootServicesCode
            | MemoryType::KEfiBootServicesData
            | MemoryType::KEfiConventionalMemory => true,
            _ => false,
        }
    }
}

/// One entry of the UEFI memory map.
#[derive(Eq, PartialEq, Debug, Clone, Copy, Structural)]
pub struct MemoryDescriptor {
    pub type_: MemoryType,
    pub physical_start: usize,
    pub virtual_start: usize,
    pub number_of_pages: u64,
    pub attribute: u64,
}

} // verus!

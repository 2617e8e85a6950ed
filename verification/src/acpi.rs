use vstd::prelude::*;

verus! {

/// The Root System Description Pointer, as the firmware hands it over.
#[derive(Clone, Copy)]
pub struct Rsdp {
    pub signature: [u8; 8],
    pub checksum: u8,
    pub oem_id: [u8; 6],
    pub revision: u8,
    pub rsdt_address: u32,
    pub length: u32,
    pub xsdt_address: u64,
    pub extended_checksum: u8,
    pub reserved: [u8; 3],
}

/// Why an RSDP is refused.
#[derive(Clone, Copy, Debug, PartialEq, Eq, Structural)]
pub enum RsdpError {
    /// The signature is not `RSD PTR `.
    InvalidSignature,
    /// The ACPI revision is not 2.
    InvalidRevision(u8),
    /// The first 20 bytes do not sum to 0 (the sum is given).
    InvalidChecksum(u8),
    /// The first 36 bytes do not sum to 0 (the sum is given).
    InvalidExtendedChecksum(u8),
}

/// The sum of the first `n` bytes of `b`, modulo 256.
pub open spec fn byte_sum(b: Seq<u8>, n: int) -> u8
    decreases n,
{
    if n <= 0 {
        0
    } else {
        ((byte_sum(b, n - 1) + b[n - 1]) % 256) as u8
    }
}

/// The sum of the first `length` bytes of `bytes`, wrapping at 256.
pub fn sum_bytes(bytes: &[u8], length: usize) -> (s: u8)
    requires
        length <= bytes@.len(),
    ensures
        s == byte_sum(bytes@, length as int),
{
    let mut sum: u8 = 0;
    let mut i: usize = 0;
    while i < length
        invariant
            i <= length <= bytes@.len(),
            sum == byte_sum(bytes@, i as int),
        decreases length - i,
    {
        sum = sum.wrapping_add(bytes[i]);
        i = i + 1;
    }
    sum
}

/// The RSDP's signature.
pub open spec fn rsdp_signature() -> Seq<u8> {
    seq![0x52u8, 0x53u8, 0x44u8, 0x20u8, 0x50u8, 0x54u8, 0x52u8, 0x20u8]
}

impl Rsdp {
    /// Checks the RSDP whose bytes (at least 36) are `raw`: its signature,
    /// its revision, and that its first 20 and its first 36 bytes both sum
    /// to 0.
    pub fn validate(&self, raw: &[u8]) -> (r: Result<(), RsdpError>)
        requires
            raw@.len() >= 36,
        ensures
            self.signature@ != rsdp_signature() ==> r == Err::<(), RsdpError>(RsdpError::InvalidSignature),
            self.signature@ == rsdp_signature() && self.revision != 2 ==> r == Err::<(), RsdpError>(
                RsdpError::InvalidRevision(self.revision),
            ),
            self.signature@ == rsdp_signature() && self.revision == 2 && byte_sum(raw@, 20) != 0 ==> r == Err::<
                (),
                RsdpError,
            >(RsdpError::InvalidChecksum(byte_sum(raw@, 20))),
            self.signature@ == rsdp_signature() && self.revision == 2 && byte_sum(raw@, 20) == 0 && byte_sum(raw@, 36)
                != 0 ==> r == Err::<(), RsdpError>(RsdpError::InvalidExtendedChecksum(byte_sum(raw@, 36))),
            r is Ok <==> self.signature@ == rsdp_signature() && self.revision == 2 && byte_sum(raw@, 20) == 0
                && byte_sum(raw@, 36) == 0,
    {
        let expected: [u8; 8] = [0x52, 0x53, 0x44, 0x20, 0x50, 0x54, 0x52, 0x20];
        let mut k: usize = 0;
        while k < 8
            invariant
                k <= 8,
                expected@ == rsdp_signature(),
                forall|j: int| 0 <= j < k ==> self.signature@[j] == expected@[j],
            decreases 8 - k,
        {
            if self.signature[k] != expected[k] {
                return Err(RsdpError::InvalidSignature);
            }
            k = k + 1;
        }
        assert(self.signature@ =~= rsdp_signature());
        if self.revision != 2 {
            return Err(RsdpError::InvalidRevision(self.revision));
        }
        let sum: u8 = sum_bytes(raw, 20);
        if sum != 0 {
            return Err(RsdpError::InvalidChecksum(sum));
        }
        let sum: u8 = sum_bytes(raw, 36);
        if sum != 0 {
            return Err(RsdpError::InvalidExtendedChecksum(sum));
        }
        Ok(())
    }
}

/// The header that every ACPI description table starts with.
#[derive(Clone, Copy)]
pub struct DescriptionHeader {
    pub signature: [u8; 4],
    pub length: u32,
    pub revision: u8,
    pub checksum: u8,
    pub oem_id: [u8; 6],
    pub oem_table_id: [u8; 8],
    pub oem_revision: u32,
    pub creator_id: u32,
    pub pubcreator_revision: u32,
}

/// The Extended System Description Table: a header followed by the
/// addresses of the other tables, 8 bytes each.
#[derive(Clone, Copy)]
pub struct Xsdt {
    pub header: DescriptionHeader,
}

impl Xsdt {
    /// The number of table addresses, as the kernel counts them: the
    /// table's length less the header's size divided by 8 (that is, less
    /// 4).
    pub fn count(&self) -> (n: usize)
        requires
            self.header.length >= 4,
        ensures
            n == self.header.length - 4,
    {
        self.header.length as usize - 36 / 8
    }
}

} // verus!

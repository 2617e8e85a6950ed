use vstd::prelude::*;

verus! {

/// The cluster number that stands for "no further cluster".
pub const END_OF_CLUSTER_CHAIN: u64 = 0x0fffffff;

/// The size in bytes of the BIOS parameter block at the start of a volume.
pub const BPB_SIZE: usize = 90;

/// The size in bytes of a directory entry.
pub const DIRECTORY_ENTRY_SIZE: usize = 32;

/// The little-endian 16-bit value at `off`.
pub open spec fn le16(s: Seq<u8>, off: int) -> int {
    s[off] + s[off + 1] * 256
}

/// The little-endian 32-bit value at `off`.
pub open spec fn le32(s: Seq<u8>, off: int) -> int {
    le16(s, off) + le16(s, off + 2) * 65536
}

fn read_u16(s: &[u8], off: usize) -> (v: u16)
    requires
        off + 2 <= s@.len(),
    ensures
        v == le16(s@, off as int),
{
    s[off] as u16 + (s[off + 1] as u16) * 256
}

fn read_u32(s: &[u8], off: usize) -> (v: u32)
    requires
        off + 4 <= s@.len(),
    ensures
        v == le32(s@, off as int),
{
    let n: usize = s.len();
    let lo: u16 = read_u16(s, off);
    let hi: u16 = read_u16(s, off + 2);
    lo as u32 + (hi as u32) * 65536
}

/// A FAT32 volume: the image of the whole volume, whose first bytes are the
/// BIOS parameter block.
pub struct Bpb {
    image: Vec<u8>,
}

/// `BPB_BytsPerSec`.
pub open spec fn bytes_per_sector_of(img: Seq<u8>) -> int {
    le16(img, 11)
}

/// `BPB_SecPerClus`.
pub open spec fn sectors_per_cluster_of(img: Seq<u8>) -> int {
    img[13] as int
}

/// `BPB_RsvdSecCnt`.
pub open spec fn reserved_sector_count_of(img: Seq<u8>) -> int {
    le16(img, 14)
}

/// `BPB_NumFATs`.
pub open spec fn num_fats_of(img: Seq<u8>) -> int {
    img[16] as int
}

/// `BPB_FATSz32`.
pub open spec fn fat_size_32_of(img: Seq<u8>) -> int {
    le32(img, 36)
}

/// `BPB_RootClus`.
pub open spec fn root_cluster_of(img: Seq<u8>) -> int {
    le32(img, 44)
}

pub open spec fn bytes_per_cluster_of(img: Seq<u8>) -> int {
    bytes_per_sector_of(img) * sectors_per_cluster_of(img)
}

/// The byte offset of the first sector of `cluster` (cluster numbers start at 2).
pub open spec fn cluster_offset_of(img: Seq<u8>, cluster: int) -> int {
    (reserved_sector_count_of(img) + num_fats_of(img) * fat_size_32_of(img) + (cluster - 2)
        * sectors_per_cluster_of(img)) * bytes_per_sector_of(img)
}

/// The data region begins right after the reserved sectors and the
/// `BPB_NumFATs` copies of the FAT, each `BPB_FATSz32` sectors long: the
/// first data cluster (number 2) starts at the first FAT's start plus the
/// bytes of all the FAT copies, and each later cluster one cluster's bytes
/// after the one before.
pub proof fn lemma_data_region_follows_the_fats(img: Seq<u8>, cluster: int)
    ensures
        cluster_offset_of(img, 2) == fat_entry_offset_of(img, 0) + num_fats_of(img) * (fat_size_32_of(img)
            * bytes_per_sector_of(img)),
        cluster_offset_of(img, cluster + 1) == cluster_offset_of(img, cluster) + bytes_per_cluster_of(img),
{
    let rsc = reserved_sector_count_of(img);
    let nf = num_fats_of(img);
    let fsz = fat_size_32_of(img);
    let spc = sectors_per_cluster_of(img);
    let bps = bytes_per_sector_of(img);
    assert((rsc + nf * fsz + (2 - 2) * spc) * bps == rsc * bps + 4 * 0 + nf * (fsz * bps)) by (nonlinear_arith);
    assert((rsc + nf * fsz + (cluster + 1 - 2) * spc) * bps == (rsc + nf * fsz + (cluster - 2) * spc) * bps
        + bps * spc) by (nonlinear_arith);
}

/// Two volumes whose parameter blocks differ only in `BPB_NumFATs` place
/// every data cluster apart by the size of the extra FAT copies.
pub proof fn lemma_cluster_offset_counts_every_fat(a: Seq<u8>, b: Seq<u8>, cluster: int)
    requires
        bytes_per_sector_of(a) == bytes_per_sector_of(b),
        sectors_per_cluster_of(a) == sectors_per_cluster_of(b),
        reserved_sector_count_of(a) == reserved_sector_count_of(b),
        fat_size_32_of(a) == fat_size_32_of(b),
    ensures
        cluster_offset_of(b, cluster) - cluster_offset_of(a, cluster) == (num_fats_of(b) - num_fats_of(a)) * (
        fat_size_32_of(a) * bytes_per_sector_of(a)),
{
    let rsc = reserved_sector_count_of(a);
    let fsz = fat_size_32_of(a);
    let spc = sectors_per_cluster_of(a);
    let bps = bytes_per_sector_of(a);
    let na = num_fats_of(a);
    let nb = num_fats_of(b);
    assert((rsc + nb * fsz + (cluster - 2) * spc) * bps - (rsc + na * fsz + (cluster - 2) * spc) * bps == (nb - na)
        * (fsz * bps)) by (nonlinear_arith);
}

/// Whether the data of `cluster` lies inside the image.
pub open spec fn cluster_in_image(img: Seq<u8>, cluster: int) -> bool {
    &&& cluster >= 2
    &&& cluster_offset_of(img, cluster) + bytes_per_cluster_of(img) <= img.len()
}

/// The data of `cluster`.
pub open spec fn cluster_data(img: Seq<u8>, cluster: int) -> Seq<u8> {
    img.subrange(
        cluster_offset_of(img, cluster),
        cluster_offset_of(img, cluster) + bytes_per_cluster_of(img),
    )
}

/// The byte offset of the entry of `cluster` in the first FAT.
pub open spec fn fat_entry_offset_of(img: Seq<u8>, cluster: int) -> int {
    reserved_sector_count_of(img) * bytes_per_sector_of(img) + 4 * cluster
}

/// The cluster that follows `cluster` in its chain: the value of its FAT
/// entry, or `END_OF_CLUSTER_CHAIN` for an end-of-chain mark (0x0ffffff8 and
/// above) and for an entry that lies past the end of the image.
pub open spec fn next_cluster_of(img: Seq<u8>, cluster: int) -> u64 {
    let off = fat_entry_offset_of(img, cluster);
    if off + 4 > img.len() {
        END_OF_CLUSTER_CHAIN
    } else if le32(img, off) >= 0x0ffffff8 {
        END_OF_CLUSTER_CHAIN
    } else {
        le32(img, off) as u64
    }
}

proof fn lemma_le16_bound(s: Seq<u8>, off: int)
    requires
        0 <= off,
        off + 2 <= s.len(),
    ensures
        0 <= le16(s, off) < 65536,
{
}

proof fn lemma_le32_bound(s: Seq<u8>, off: int)
    requires
        0 <= off,
        off + 4 <= s.len(),
    ensures
        0 <= le32(s, off) < 0x1_0000_0000,
{
    lemma_le16_bound(s, off);
    lemma_le16_bound(s, off + 2);
}

impl Bpb {
    /// The bytes of the volume.
    pub closed spec fn bytes(&self) -> Seq<u8> {
        self.image@
    }

    pub open spec fn wf(&self) -> bool {
        self.bytes().len() >= BPB_SIZE
    }

    /// Reads a volume image; `None` when it is too short to hold a BIOS
    /// parameter block.
    pub fn new(image: Vec<u8>) -> (r: Option<Bpb>)
        ensures
            r is Some <==> image@.len() >= BPB_SIZE,
            r matches Some(b) ==> b.bytes() == image@ && b.wf(),
    {
        if image.len() >= BPB_SIZE {
            Some(Bpb { image })
        } else {
            None
        }
    }

    /// The bytes of the volume.
    pub fn image(&self) -> (s: &[u8])
        ensures
            s@ == self.bytes(),
    {
        self.image.as_slice()
    }

    pub fn bytes_per_sector(&self) -> (v: u16)
        requires
            self.wf(),
        ensures
            v == bytes_per_sector_of(self.bytes()),
    {
        read_u16(self.image.as_slice(), 11)
    }

    pub fn sectors_per_cluster(&self) -> (v: u8)
        requires
            self.wf(),
        ensures
            v == sectors_per_cluster_of(self.bytes()),
    {
        self.image[13]
    }

    pub fn reserved_sector_count(&self) -> (v: u16)
        requires
            self.wf(),
        ensures
            v == reserved_sector_count_of(self.bytes()),
    {
        read_u16(self.image.as_slice(), 14)
    }

    pub fn num_fats(&self) -> (v: u8)
        requires
            self.wf(),
        ensures
            v == num_fats_of(self.bytes()),
    {
        self.image[16]
    }

    pub fn fat_size_32(&self) -> (v: u32)
        requires
            self.wf(),
        ensures
            v == fat_size_32_of(self.bytes()),
    {
        read_u32(self.image.as_slice(), 36)
    }

    /// The first cluster of the root directory.
    pub fn get_root_cluster(&self) -> (v: u32)
        requires
            self.wf(),
        ensures
            v == root_cluster_of(self.bytes()),
    {
        read_u32(self.image.as_slice(), 44)
    }

    /// The size of a cluster in bytes.
    pub fn bytes_per_cluster(&self) -> (v: u64)
        requires
            self.wf(),
        ensures
            v == bytes_per_cluster_of(self.bytes()),
            v <= 65535 * 255,
    {
        let bps: u16 = self.bytes_per_sector();
        let spc: u8 = self.sectors_per_cluster();
        assert(bps as int * spc as int <= 65535 * 255) by (nonlinear_arith)
            requires
                bps <= 65535,
                spc <= 255,
        ;
        bps as u64 * spc as u64
    }

    /// How many directory entries a cluster holds.
    pub fn get_entries_per_cluster(&self) -> (v: usize)
        requires
            self.wf(),
        ensures
            v == bytes_per_sector_of(self.bytes()) / 32 * sectors_per_cluster_of(self.bytes()),
    {
        let bps: u16 = self.bytes_per_sector();
        let spc: u8 = self.sectors_per_cluster();
        let per_sector: usize = bps as usize / DIRECTORY_ENTRY_SIZE;
        assert(per_sector * spc <= 2048 * 255) by (nonlinear_arith)
            requires
                per_sector <= 2048,
                spc <= 255,
        ;
        per_sector * spc as usize
    }

    /// The byte offset of `cluster`'s data when that data lies inside the
    /// image, else `None`.
    pub fn get_cluster_addr(&self, cluster: u64) -> (r: Option<usize>)
        requires
            self.wf(),
        ensures
            r is Some <==> cluster_in_image(self.bytes(), cluster as int),
            r matches Some(off) ==> off == cluster_offset_of(self.bytes(), cluster as int),
    {
        if cluster < 2 {
            return None;
        }
        let ghost img = self.bytes();
        let bps: u16 = self.bytes_per_sector();
        let spc: u8 = self.sectors_per_cluster();
        let rsc: u16 = self.reserved_sector_count();
        let nf: u8 = self.num_fats();
        let fsz: u32 = self.fat_size_32();
        let c: u128 = cluster as u128 - 2;
        assert(nf as int * fsz as int <= 255 * 0xffff_ffff) by (nonlinear_arith)
            requires
                nf <= 255,
                fsz <= 0xffff_ffff,
        ;
        assert(c * spc as int <= 0xffff_ffff_ffff_ffff * 255) by (nonlinear_arith)
            requires
                c <= 0xffff_ffff_ffff_ffff,
                spc <= 255,
        ;
        let sectors: u128 = rsc as u128 + nf as u128 * fsz as u128 + c * spc as u128;
        assert(sectors * bps as int <= 0x1_0000_0000_0000_0000_0000 * 65535) by (nonlinear_arith)
            requires
                sectors <= 0x1_0000_0000_0000_0000_0000,
                bps <= 65535,
        ;
        let off: u128 = sectors * bps as u128;
        let bpc: u64 = self.bytes_per_cluster();
        if off + bpc as u128 <= self.image.len() as u128 {
            Some(off as usize)
        } else {
            None
        }
    }

    /// The cluster after `cluster` in its chain (see `next_cluster_of`).
    pub fn next_cluster(&self, cluster: u64) -> (next: u64)
        requires
            self.wf(),
        ensures
            next == next_cluster_of(self.bytes(), cluster as int),
    {
        let bps: u16 = self.bytes_per_sector();
        let rsc: u16 = self.reserved_sector_count();
        assert(rsc as int * bps as int <= 65535 * 65535) by (nonlinear_arith)
            requires
                rsc <= 65535,
                bps <= 65535,
        ;
        let off: u128 = rsc as u128 * bps as u128 + 4 * cluster as u128;
        if off + 4 > self.image.len() as u128 {
            return END_OF_CLUSTER_CHAIN;
        }
        let v: u32 = read_u32(self.image.as_slice(), off as usize);
        if v >= 0x0ffffff8 {
            END_OF_CLUSTER_CHAIN
        } else {
            v as u64
        }
    }

    /// The data of `cluster` when it lies inside the image, else `None`.
    pub fn get_sector_by_cluster(&self, cluster: u64) -> (r: Option<&[u8]>)
        requires
            self.wf(),
        ensures
            r is Some <==> cluster_in_image(self.bytes(), cluster as int),
            r matches Some(s) ==> s@ == cluster_data(self.bytes(), cluster as int),
    {
        match self.get_cluster_addr(cluster) {
            None => None,
            Some(off) => {
                let bpc: u64 = self.bytes_per_cluster();
                let data: &[u8] = self.image.as_slice();
                let n: usize = data.len();
                assert(off + bpc <= n);
                let end: usize = (off as u64 + bpc) as usize;
                let r: &[u8] = vstd::slice::slice_subrange(data, off, end);
                assert(r@ == cluster_data(self.bytes(), cluster as int));
                Some(r)
            },
        }
    }
}

} // verus!

verus! {

/// The attribute of a directory entry.
#[derive(Debug, Clone, Copy, PartialEq, Eq, Structural)]
pub enum Attribute {
    /// Writes to the file should fail.
    ReadOnly,
    /// Normal directory listings should not show this file.
    Hidden,
    /// An operating system file.
    System,
    /// The entry holds the volume's label.
    VolumeID,
    /// A container for other files.
    Directory,
    /// Set when the file is created, renamed or written to.
    Archive,
    /// Part of the long name of another entry.
    LongName,
}

/// A byte that names no attribute.
#[derive(Debug, Clone, Copy, PartialEq, Eq, Structural)]
pub struct TryFromAttributeError(pub u8);

/// The attribute that the byte `v` names.
pub open spec fn attribute_of(v: u8) -> Result<Attribute, TryFromAttributeError> {
    if v == 0x01 {
        Ok(Attribute::ReadOnly)
    } else if v == 0x02 {
        Ok(Attribute::Hidden)
    } else if v == 0x04 {
        Ok(Attribute::System)
    } else if v == 0x08 {
        Ok(Attribute::VolumeID)
    } else if v == 0x10 {
        Ok(Attribute::Directory)
    } else if v == 0x20 {
        Ok(Attribute::Archive)
    } else if v == 0x0f {
        Ok(Attribute::LongName)
    } else {
        Err(TryFromAttributeError(v))
    }
}

impl TryFrom<u8> for Attribute {
    type Error = TryFromAttributeError;

    fn try_from(value: u8) -> (r: Result<Self, Self::Error>) {
        match value {
            0x01 => Ok(Attribute::ReadOnly),
            0x02 => Ok(Attribute::Hidden),
            0x04 => Ok(Attribute::System),
            0x08 => Ok(Attribute::VolumeID),
            0x10 => Ok(Attribute::Directory),
            0x20 => Ok(Attribute::Archive),
            0x0f => Ok(Attribute::LongName),
            _ => Err(TryFromAttributeError(value)),
        }
    }
}

impl vstd::std_specs::convert::TryFromSpecImpl<u8> for Attribute {
    open spec fn obeys_try_from_spec() -> bool {
        true
    }

    open spec fn try_from_spec(v: u8) -> Result<Self, Self::Error> {
        attribute_of(v)
    }
}

/// The decimal digit `d` (0 to 9) as a character.
pub open spec fn digit_char(d: int) -> char {
    (d + 48) as char
}

/// The decimal digits of `v`, most significant first, without leading
/// zeros.
pub open spec fn decimal(v: nat) -> Seq<char>
    decreases v,
{
    if v < 10 {
        seq![digit_char(v as int)]
    } else {
        decimal(v / 10).push(digit_char((v % 10) as int))
    }
}

/// The message of a byte `v` that names no attribute.
pub open spec fn attribute_error_message(v: u8) -> Seq<char> {
    "unexpected attribute value "@ + decimal(v as nat)
}

impl TryFromAttributeError {
    /// The message that describes the error: the text
    /// "unexpected attribute value " and the byte in decimal.
    pub fn message(&self) -> (s: String)
        ensures
            s@ == attribute_error_message(self.0),
    {
        let v: u8 = self.0;
        let mut s: String = String::from_str("unexpected attribute value ");
        let ghost prefix = s@;
        if v >= 100 {
            crate::terminal::push_char(&mut s, ((v / 100) + 48) as char);
        }
        if v >= 10 {
            crate::terminal::push_char(&mut s, ((v / 10 % 10) + 48) as char);
        }
        crate::terminal::push_char(&mut s, ((v % 10) + 48) as char);
        proof {
            let n = v as nat;
            if v >= 100 {
                assert(decimal(n / 100) == seq![digit_char((n / 100) as int)]);
                assert(decimal(n / 10) =~= seq![digit_char((n / 100) as int), digit_char((n / 10 % 10) as int)]);
                assert(decimal(n) =~= seq![
                    digit_char((n / 100) as int),
                    digit_char((n / 10 % 10) as int),
                    digit_char((n % 10) as int),
                ]);
                assert(s@ =~= prefix + decimal(n));
            } else if v >= 10 {
                assert(decimal(n / 10) == seq![digit_char((n / 10) as int)]);
                assert(decimal(n) =~= seq![digit_char((n / 10 % 10) as int), digit_char((n % 10) as int)]);
                assert(s@ =~= prefix + decimal(n));
            } else {
                assert(s@ =~= prefix + decimal(n));
            }
        }
        s
    }
}

/// A directory entry as it is stored on the volume (32 bytes).
#[derive(Debug, Clone, Copy)]
pub struct DirectoryEntry {
    pub name: [u8; 11],
    pub attr: u8,
    pub ntres: u8,
    pub create_time_tenth: u8,
    pub create_time: u16,
    pub create_date: u16,
    pub last_access_date: u16,
    pub first_cluster_high: u16,
    pub write_time: u16,
    pub write_date: u16,
    pub first_cluster_low: u16,
    pub file_size: u32,
}

/// Whether `e` is the entry stored at byte `off` of `img`.
pub open spec fn is_entry_at(e: DirectoryEntry, img: Seq<u8>, off: int) -> bool {
    &&& e.name@ == img.subrange(off, off + 11)
    &&& e.attr == img[off + 11]
    &&& e.ntres == img[off + 12]
    &&& e.create_time_tenth == img[off + 13]
    &&& e.create_time == le16(img, off + 14)
    &&& e.create_date == le16(img, off + 16)
    &&& e.last_access_date == le16(img, off + 18)
    &&& e.first_cluster_high == le16(img, off + 20)
    &&& e.write_time == le16(img, off + 22)
    &&& e.write_date == le16(img, off + 24)
    &&& e.first_cluster_low == le16(img, off + 26)
    &&& e.file_size == le32(img, off + 28)
}

/// A byte with its ASCII lower-case letter turned upper-case.
pub open spec fn ascii_upper(b: u8) -> u8 {
    if 0x61 <= b <= 0x7a {
        (b - 32) as u8
    } else {
        b
    }
}

/// `s` with its trailing spaces turned into zero bytes.
pub open spec fn trim_spaces(s: Seq<u8>) -> Seq<u8>
    decreases s.len(),
{
    if s.len() == 0 {
        s
    } else if s.last() == 0x20 {
        trim_spaces(s.drop_last()).push(0)
    } else {
        s
    }
}

/// The first index at or after `i` whose byte is zero, or the length.
pub open spec fn first_zero_from(s: Seq<u8>, i: nat) -> nat
    decreases s.len() - i,
{
    if i >= s.len() {
        s.len()
    } else if s[i as int] == 0 {
        i
    } else {
        first_zero_from(s, i + 1)
    }
}

/// The 8.3 name `BASE.EXT` of an entry named `name`, padded with zeros to 12 bytes.
pub open spec fn formatted_name_of(name: Seq<u8>) -> Seq<u8> {
    let base = trim_spaces(name.take(8));
    let ext = trim_spaces(name.skip(8));
    let d = base + seq![0u8, 0u8, 0u8, 0u8];
    if ext[0] == 0 {
        d
    } else {
        let k = first_zero_from(d, 0) as int;
        d.take(k).push(0x2eu8) + ext + d.skip(k + 4)
    }
}

/// The 11-byte short name that `name_is_equal` compares with, filled from
/// `bytes[i..]` into `acc` at position `j`.
pub open spec fn short_name_fill(bytes: Seq<u8>, i: nat, j: nat, acc: Seq<u8>) -> Seq<u8>
    decreases bytes.len() - i,
{
    if i >= bytes.len() || j >= 11 {
        acc
    } else if bytes[i as int] == 0x2e {
        short_name_fill(bytes, i + 1, 8, acc)
    } else {
        short_name_fill(bytes, i + 1, j + 1, acc.update(j as int, ascii_upper(bytes[i as int])))
    }
}

/// The short name that a path element with these bytes stands for.
pub open spec fn short_name_of(bytes: Seq<u8>) -> Seq<u8> {
    short_name_fill(bytes, 0, 0, Seq::new(11, |k: int| 0x20u8))
}

proof fn lemma_trim_spaces(s: Seq<u8>, k: int)
    requires
        0 <= k <= s.len(),
        forall|i: int| k <= i < s.len() ==> s[i] == 0x20,
        k == 0 || s[k - 1] != 0x20,
    ensures
        trim_spaces(s) == s.take(k) + Seq::new((s.len() - k) as nat, |i: int| 0u8),
    decreases s.len(),
{
    if s.len() == k {
        assert(s.take(k) + Seq::new((s.len() - k) as nat, |i: int| 0u8) =~= s);
    } else {
        lemma_trim_spaces(s.drop_last(), k);
        assert(s.drop_last().take(k) =~= s.take(k));
        assert((s.take(k) + Seq::new((s.len() - 1 - k) as nat, |i: int| 0u8)).push(0) =~= s.take(k)
            + Seq::new((s.len() - k) as nat, |i: int| 0u8));
    }
}

pub proof fn lemma_first_zero_from(s: Seq<u8>, i: nat)
    requires
        i <= s.len(),
    ensures
        i <= first_zero_from(s, i) <= s.len(),
        forall|k: int| i <= k < first_zero_from(s, i) ==> s[k] != 0,
        first_zero_from(s, i) < s.len() ==> s[first_zero_from(s, i) as int] == 0,
    decreases s.len() - i,
{
    if i < s.len() && s[i as int] != 0 {
        lemma_first_zero_from(s, i + 1);
    }
}

/// `s` (of length `n`) with its trailing spaces turned into zero bytes.
fn trim_trailing_spaces(s: &mut [u8])
    ensures
        final(s)@ == trim_spaces(old(s)@),
{
    let n: usize = s.len();
    let ghost orig = s@;
    let mut i: usize = n;
    while i > 0
        invariant_except_break
            i <= n,
            n == orig.len(),
            s@ == orig.take(i as int) + Seq::new((n - i) as nat, |k: int| 0u8),
            forall|k: int| i <= k < n ==> orig[k] == 0x20,
        ensures
            i <= n,
            n == orig.len(),
            s@ == orig.take(i as int) + Seq::new((n - i) as nat, |k: int| 0u8),
            forall|k: int| i <= k < n ==> orig[k] == 0x20,
            i == 0 || orig[i - 1] != 0x20,
        decreases i,
    {
        if s[i - 1] != 0x20 {
            assert(s@[i - 1] == orig[i - 1]);
            break;
        }
        assert(s@[i - 1] == orig[i - 1]);
        s[i - 1] = 0;
        assert(s@ =~= orig.take(i - 1) + Seq::new((n - (i - 1)) as nat, |k: int| 0u8));
        i -= 1;
    }
    proof {
        lemma_trim_spaces(orig, i as int);
    }
}

impl DirectoryEntry {
    /// The entry stored in the first 32 bytes of `b`.
    pub fn from_bytes(b: &[u8]) -> (e: DirectoryEntry)
        requires
            b@.len() >= 32,
        ensures
            is_entry_at(e, b@, 0),
    {
        let e = DirectoryEntry {
            name: [b[0], b[1], b[2], b[3], b[4], b[5], b[6], b[7], b[8], b[9], b[10]],
            attr: b[11],
            ntres: b[12],
            create_time_tenth: b[13],
            create_time: read_u16(b, 14),
            create_date: read_u16(b, 16),
            last_access_date: read_u16(b, 18),
            first_cluster_high: read_u16(b, 20),
            write_time: read_u16(b, 22),
            write_date: read_u16(b, 24),
            first_cluster_low: read_u16(b, 26),
            file_size: read_u32(b, 28),
        };
        assert(e.name@ =~= b@.subrange(0, 11));
        e
    }

    pub fn file_size(&self) -> (v: u32)
        ensures
            v == self.file_size,
    {
        self.file_size
    }

    /// The first cluster of the file: the high and low halves put together.
    pub fn first_cluster(&self) -> (v: u32)
        ensures
            v == self.first_cluster_low + self.first_cluster_high * 65536,
    {
        self.first_cluster_low as u32 + (self.first_cluster_high as u32) * 65536
    }

    /// The entry's attribute, if its byte names one.
    pub fn attr(&self) -> (a: Option<Attribute>)
        ensures
            a == attribute_of(self.attr).ok(),
    {
        match Attribute::try_from(self.attr) {
            Ok(a) => Some(a),
            Err(_) => None,
        }
    }

    pub fn is_directory(&self) -> (b: bool)
        ensures
            b == (self.attr == 0x10),
    {
        self.attr == 0x10
    }

    /// The entry is free: it holds no file or directory.
    pub fn is_free(&self) -> (b: bool)
        ensures
            b == (self.name[0] == 0xe5),
    {
        self.name[0] == 0xe5
    }

    /// The entry is free and so are all the entries after it.
    pub fn is_free_and_no_more_allocated_after_this(&self) -> (b: bool)
        ensures
            b == (self.name[0] == 0x00),
    {
        self.name[0] == 0x00
    }

    /// The first 8 bytes of the name with the trailing spaces zeroed.
    pub fn basename(&self) -> (base: [u8; 8])
        ensures
            base@ == trim_spaces(self.name@.take(8)),
    {
        let mut base: [u8; 8] = [
            self.name[0],
            self.name[1],
            self.name[2],
            self.name[3],
            self.name[4],
            self.name[5],
            self.name[6],
            self.name[7],
        ];
        assert(base@ =~= self.name@.take(8));
        trim_trailing_spaces(&mut base);
        base
    }

    /// The last 3 bytes of the name with the trailing spaces zeroed.
    pub fn extension(&self) -> (ext: [u8; 3])
        ensures
            ext@ == trim_spaces(self.name@.skip(8)),
    {
        let mut ext: [u8; 3] = [self.name[8], self.name[9], self.name[10]];
        assert(ext@ =~= self.name@.skip(8));
        trim_trailing_spaces(&mut ext);
        ext
    }

    /// The name as `BASE.EXT` (or `BASE` without an extension), zero-padded.
    pub fn formatted_name(&self) -> (dest: [u8; 12])
        ensures
            dest@ == formatted_name_of(self.name@),
    {
        let base: [u8; 8] = self.basename();
        let ext: [u8; 3] = self.extension();
        let mut dest: [u8; 12] = [
            base[0],
            base[1],
            base[2],
            base[3],
            base[4],
            base[5],
            base[6],
            base[7],
            0,
            0,
            0,
            0,
        ];
        let ghost d = base@ + seq![0u8, 0u8, 0u8, 0u8];
        assert(dest@ =~= d);
        if ext[0] != 0 {
            let mut k: usize = 0;
            proof {
                lemma_first_zero_from(d, 0);
                assert(d[8] == 0);
            }
            while dest[k] != 0
                invariant
                    dest@ == d,
                    k <= first_zero_from(d, 0) <= 8,
                    first_zero_from(d, k as nat) == first_zero_from(d, 0),
                decreases 8 - k,
            {
                proof {
                    lemma_first_zero_from(d, k as nat);
                    assert(d[k as int] != 0);
                }
                k += 1;
            }
            proof {
                lemma_first_zero_from(d, k as nat);
            }
            dest[k] = 0x2e;
            dest[k + 1] = ext[0];
            dest[k + 2] = ext[1];
            dest[k + 3] = ext[2];
            assert(dest@ =~= d.take(k as int).push(0x2eu8) + ext@ + d.skip(k + 4));
        }
        dest
    }

    /// Whether the entry's short name is the one that the path element
    /// `name` stands for: letters upper-cased, the part after a dot moved to
    /// the extension, spaces filling the rest.
    pub fn name_is_equal(&self, name: &str) -> (b: bool)
        ensures
            b == (self.name@ == short_name_of(vstd::utf8::encode_utf8(name@))),
    {
        let mut name83: [u8; 11] = [0x20; 11];
        let bytes: &[u8] = name.as_bytes();
        let n: usize = bytes.len();
        let mut i: usize = 0;
        let mut i83: usize = 0;
        assert(name83@ =~= Seq::new(11, |k: int| 0x20u8));
        while i < n && i83 < 11
            invariant
                i <= n,
                i83 <= 11,
                n == bytes@.len(),
                bytes@ == vstd::utf8::encode_utf8(name@),
                name83@.len() == 11,
                short_name_fill(bytes@, i as nat, i83 as nat, name83@) == short_name_of(bytes@),
            decreases n - i,
        {
            if bytes[i] == 0x2e {
                i83 = 7;
            } else {
                let c: u8 = bytes[i];
                let up: u8 = if 0x61 <= c && c <= 0x7a {
                    c - 32
                } else {
                    c
                };
                name83[i83] = up;
            }
            i += 1;
            i83 += 1;
        }
        let mut k: usize = 0;
        while k < 11
            invariant
                k <= 11,
                name83@ == short_name_of(vstd::utf8::encode_utf8(name@)),
                forall|m: int| 0 <= m < k ==> self.name@[m] == name83@[m],
            decreases 11 - k,
        {
            if self.name[k] != name83[k] {
                return false;
            }
            k += 1;
        }
        assert(self.name@ =~= name83@);
        true
    }
}

} // verus!

verus! {

/// Whether `cluster` names a cluster holding data (neither 0 nor the end mark).
pub open spec fn is_valid_cluster(cluster: u64) -> bool {
    cluster != 0 && cluster != END_OF_CLUSTER_CHAIN
}

/// The data of the chain that starts at `cluster`, following at most `fuel`
/// links; the walk stops at the end mark, at cluster 0 and at a cluster
/// whose data lies outside the image.
///
/// A chain without a cycle has fewer links than the image has bytes, so
/// with the image's length as `fuel` this is the whole chain; on a chain
/// with a cycle the walk never ends on the volume.
pub open spec fn chain_data(img: Seq<u8>, cluster: u64, fuel: nat) -> Seq<u8>
    decreases fuel,
{
    if fuel == 0 || !is_valid_cluster(cluster) || !cluster_in_image(img, cluster as int) {
        Seq::empty()
    } else {
        cluster_data(img, cluster as int) + chain_data(
            img,
            next_cluster_of(img, cluster as int),
            (fuel - 1) as nat,
        )
    }
}

/// How many bytes of `data` a buffer of `len` bytes takes.
pub open spec fn copied_len(len: int, data: Seq<u8>) -> int {
    if data.len() < len {
        data.len() as int
    } else {
        len
    }
}

pub(crate) proof fn lemma_cluster_data_len(img: Seq<u8>, cluster: int)
    requires
        cluster_in_image(img, cluster),
        img.len() >= BPB_SIZE,
    ensures
        cluster_data(img, cluster).len() == bytes_per_cluster_of(img),
        0 <= cluster_offset_of(img, cluster),
        0 <= bytes_per_cluster_of(img) <= 65535 * 255,
{
    lemma_le16_bound(img, 11);
    lemma_le16_bound(img, 14);
    lemma_le32_bound(img, 36);
    let bps = bytes_per_sector_of(img);
    let spc = sectors_per_cluster_of(img);
    let a = reserved_sector_count_of(img) + num_fats_of(img) * fat_size_32_of(img) + (cluster - 2)
        * spc;
    assert(0 <= num_fats_of(img) * fat_size_32_of(img)) by (nonlinear_arith)
        requires
            0 <= num_fats_of(img),
            0 <= fat_size_32_of(img),
    ;
    assert(0 <= (cluster - 2) * spc) by (nonlinear_arith)
        requires
            cluster >= 2,
            0 <= spc,
    ;
    assert(0 <= a * bps) by (nonlinear_arith)
        requires
            0 <= a,
            0 <= bps,
    ;
    assert(0 <= bps * spc <= 65535 * 255) by (nonlinear_arith)
        requires
            0 <= bps <= 65535,
            0 <= spc <= 255,
    ;
}

impl DirectoryEntry {
    /// Copies the file's cluster chain into `buf`, as far as `buf` reaches,
    /// and returns how many bytes of `buf` were left over.
    pub fn load_file(&self, buf: &mut [u8], bpb: &Bpb) -> (rest: usize)
        requires
            bpb.wf(),
        ensures
            ({
                let data = chain_data(
                    bpb.bytes(),
                    (self.first_cluster_low + self.first_cluster_high * 65536) as u64,
                    bpb.bytes().len(),
                );
                let n = copied_len(old(buf)@.len() as int, data);
                &&& final(buf)@ == data.take(n) + old(buf)@.skip(n)
                &&& rest == old(buf)@.len() - n
            }),
    {
        let ghost img = bpb.bytes();
        let ghost c0 = (self.first_cluster_low + self.first_cluster_high * 65536) as u64;
        let ghost b0 = buf@;
        let mut cluster: u64 = self.first_cluster() as u64;
        let buffer_len: usize = buf.len();
        let mut copied: usize = 0;
        let bpc: u64 = bpb.bytes_per_cluster();
        let mut fuel: usize = bpb.image().len();
        let mut go: bool = true;
        let ghost mut vis: Seq<u8> = Seq::empty();
        assert(vis + chain_data(img, cluster, fuel as nat) =~= chain_data(img, c0, img.len()));
        while go && fuel > 0 && cluster != 0 && cluster != END_OF_CLUSTER_CHAIN
            invariant
                bpb.wf(),
                img == bpb.bytes(),
                buffer_len == b0.len(),
                buf@.len() == b0.len(),
                bpc == bytes_per_cluster_of(img),
                vis + chain_data(img, cluster, fuel as nat) == chain_data(img, c0, img.len()),
                copied == copied_len(buffer_len as int, vis),
                buf@ == vis.take(copied as int) + b0.skip(copied as int),
                !go ==> chain_data(img, cluster, fuel as nat) == Seq::<u8>::empty(),
            decreases fuel + if go {
                1int
            } else {
                0int
            },
        {
            match bpb.get_sector_by_cluster(cluster) {
                None => {
                    go = false;
                },
                Some(sector) => {
                    proof {
                        lemma_cluster_data_len(img, cluster as int);
                    }
                    let remain: usize = buffer_len - copied;
                    let copy_bytes: usize = if (bpc as usize) < remain {
                        bpc as usize
                    } else {
                        remain
                    };
                    let ghost start = buf@;
                    let mut j: usize = 0;
                    while j < copy_bytes
                        invariant
                            j <= copy_bytes,
                            copied + copy_bytes <= buffer_len,
                            copy_bytes <= sector@.len(),
                            buf@.len() == start.len(),
                            start.len() == buffer_len,
                            forall|m: int|
                                0 <= m < buffer_len ==> #[trigger] buf@[m] == if copied <= m
                                    < copied + j {
                                    sector@[m - copied]
                                } else {
                                    start[m]
                                },
                        decreases copy_bytes - j,
                    {
                        buf[copied + j] = sector[j];
                        j += 1;
                    }
                    let ghost new_vis = vis + sector@;
                    assert(chain_data(img, cluster, fuel as nat) == sector@ + chain_data(
                        img,
                        next_cluster_of(img, cluster as int),
                        (fuel - 1) as nat,
                    ));
                    assert(new_vis + chain_data(
                        img,
                        next_cluster_of(img, cluster as int),
                        (fuel - 1) as nat,
                    ) =~= vis + chain_data(img, cluster, fuel as nat));
                    assert(buf@ =~= new_vis.take((copied + copy_bytes) as int) + b0.skip(
                        (copied + copy_bytes) as int,
                    ));
                    proof {
                        vis = new_vis;
                    }
                    copied = copied + copy_bytes;
                    cluster = bpb.next_cluster(cluster);
                    fuel = fuel - 1;
                },
            }
        }
        assert(vis + chain_data(img, cluster, fuel as nat) =~= vis);
        buffer_len - copied
    }
}

} // verus!

verus! {

/// A path split at its first slash.
#[derive(Debug, PartialEq, Eq)]
pub struct PathElements<'a> {
    pub path_before_slash: &'a str,
    pub path_after_slash: &'a str,
}

impl<'a> PathElements<'a> {
    pub fn new(path_before_slash: &'a str, path_after_slash: &'a str) -> (p: Self)
        ensures
            p.path_before_slash == path_before_slash,
            p.path_after_slash == path_after_slash,
    {
        Self { path_before_slash, path_after_slash }
    }
}

/// The index of the first `/` at or after `i`, or the length.
pub open spec fn first_slash_from(p: Seq<char>, i: nat) -> nat
    decreases p.len() - i,
{
    if i >= p.len() {
        p.len()
    } else if p[i as int] == '/' {
        i
    } else {
        first_slash_from(p, i + 1)
    }
}

pub proof fn lemma_first_slash_from(p: Seq<char>, i: nat)
    requires
        i <= p.len(),
    ensures
        i <= first_slash_from(p, i) <= p.len(),
        forall|k: int| i <= k < first_slash_from(p, i) ==> p[k] != '/',
        first_slash_from(p, i) < p.len() ==> p[first_slash_from(p, i) as int] == '/',
    decreases p.len() - i,
{
    if i < p.len() && p[i as int] != '/' {
        lemma_first_slash_from(p, i + 1);
    }
}

/// Splits `path` at its first slash: the part before it and the part after
/// it; `None` when there is no slash.
pub fn next_path_element(path: &str) -> (r: Option<PathElements<'_>>)
    ensures
        ({
            let k = first_slash_from(path@, 0);
            match r {
                None => k == path@.len(),
                Some(p) => k < path@.len() && p.path_before_slash@ == path@.take(k as int)
                    && p.path_after_slash@ == path@.skip(k + 1int),
            }
        }),
{
    let n: usize = path.unicode_len();
    let mut i: usize = 0;
    proof {
        lemma_first_slash_from(path@, 0);
    }
    while i < n && path.get_char(i) != '/'
        invariant
            i <= n,
            n == path@.len(),
            first_slash_from(path@, i as nat) == first_slash_from(path@, 0),
        decreases n - i,
    {
        i += 1;
    }
    if i == n {
        None
    } else {
        let before: &str = path.substring_char(0, i);
        let after: &str = path.substring_char(i + 1, n);
        assert(before@ =~= path@.take(i as int));
        assert(after@ =~= path@.skip(i + 1));
        Some(PathElements::new(before, after))
    }
}

/// What scanning the entries of one directory cluster finds.
pub enum DirScan {
    /// An entry whose name starts with 0: no entry follows it.
    End,
    /// The entry at this byte offset has the name looked for.
    Found(int),
    /// Neither: the search goes on with the next cluster.
    NotHere,
}

/// Scans the entries `k..n` of the directory cluster at byte `base`.
pub open spec fn scan_dir_cluster(img: Seq<u8>, base: int, name83: Seq<u8>, k: nat, n: nat) -> DirScan
    decreases n - k,
{
    if k >= n {
        DirScan::NotHere
    } else if img[base + 32 * k] == 0 {
        DirScan::End
    } else if img.subrange(base + 32 * k, base + 32 * k + 11) == name83 {
        DirScan::Found(base + 32 * k)
    } else {
        scan_dir_cluster(img, base, name83, k + 1, n)
    }
}

/// The byte offset of the entry named `name83` in the directory whose chain
/// starts at `cluster`, following at most `fuel` links.
pub open spec fn search_dir(img: Seq<u8>, name83: Seq<u8>, cluster: u64, fuel: nat) -> Option<int>
    decreases fuel,
{
    if fuel == 0 || cluster == END_OF_CLUSTER_CHAIN || !cluster_in_image(img, cluster as int) {
        None
    } else {
        match scan_dir_cluster(
            img,
            cluster_offset_of(img, cluster as int),
            name83,
            0,
            (bytes_per_cluster_of(img) / 32) as nat,
        ) {
            DirScan::End => None,
            DirScan::Found(off) => Some(off),
            DirScan::NotHere => search_dir(
                img,
                name83,
                next_cluster_of(img, cluster as int),
                (fuel - 1) as nat,
            ),
        }
    }
}

/// What `find_file` finds for `path` from the directory at `cluster`: the
/// byte offset of the entry, if any, and whether the path had a slash after
/// its first element. A leading slash, or cluster 0, starts at the root.
pub open spec fn find_file_spec(img: Seq<u8>, path: Seq<char>, cluster: u64) -> (Option<int>, bool)
    decreases path.len(),
{
    let root = root_cluster_of(img) as u64;
    let p = if path.len() > 0 && path[0] == '/' {
        path.drop_first()
    } else {
        path
    };
    let dc = if path.len() > 0 && path[0] == '/' {
        root
    } else if cluster == 0 {
        root
    } else {
        cluster
    };
    let k = first_slash_from(p, 0);
    let post_slash = k < p.len();
    let elem = p.take(k as int);
    let next = if post_slash {
        p.skip(k + 1int)
    } else {
        Seq::empty()
    };
    match search_dir(img, short_name_of(vstd::utf8::encode_utf8(elem)), dc, img.len()) {
        None => (None, post_slash),
        Some(off) => {
            if img[off + 11] == 0x10 && next.len() > 0 {
                proof {
                    lemma_first_slash_from(p, 0);
                }
                find_file_spec(img, next, (le16(img, off + 26) + le16(img, off + 20) * 65536) as u64)
            } else {
                (Some(off), post_slash)
            }
        },
    }
}

pub(crate) proof fn lemma_entry_in_cluster(bpc: int, k: int)
    requires
        0 <= k < bpc / 32,
        0 <= bpc,
    ensures
        32 * k + 32 <= bpc,
{
    assert(32 * k + 32 <= 32 * (bpc / 32)) by (nonlinear_arith)
        requires
            0 <= k < bpc / 32,
    ;
    assert(32 * (bpc / 32) <= bpc) by (nonlinear_arith)
        requires
            0 <= bpc,
    ;
}

impl Bpb {
    /// The entry at byte `off`.
    pub(crate) fn entry_at(&self, off: usize) -> (e: DirectoryEntry)
        requires
            self.wf(),
            off + 32 <= self.bytes().len(),
        ensures
            is_entry_at(e, self.bytes(), off as int),
    {
        let total: usize = self.image.len();
        let s: &[u8] = vstd::slice::slice_subrange(self.image.as_slice(), off, off + 32);
        let e = DirectoryEntry::from_bytes(s);
        assert(e.name@ =~= self.bytes().subrange(off as int, off + 11));
        e
    }

    /// Scans the entries of the directory cluster at byte `base` for `name`.
    fn scan_cluster(&self, base: usize, name: &str) -> (r: (bool, Option<usize>))
        requires
            self.wf(),
            base + bytes_per_cluster_of(self.bytes()) <= self.bytes().len(),
            0 <= bytes_per_cluster_of(self.bytes()),
        ensures
            ({
                let s = scan_dir_cluster(
                    self.bytes(),
                    base as int,
                    short_name_of(vstd::utf8::encode_utf8(name@)),
                    0,
                    (bytes_per_cluster_of(self.bytes()) / 32) as nat,
                );
                &&& r.0 <==> s is End
                &&& (r.1 matches Some(x) ==> s == DirScan::Found(x as int) && x + 32 <= self.bytes().len())
                &&& (r.1 is None ==> !(s is Found))
            }),
    {
        let ghost img = self.bytes();
        let ghost name83 = short_name_of(vstd::utf8::encode_utf8(name@));
        let n: usize = (self.bytes_per_cluster() / 32) as usize;
        let total: usize = self.image.len();
        let mut k: usize = 0;
        while k < n
            invariant
                self.wf(),
                total == img.len(),
                name83 == short_name_of(vstd::utf8::encode_utf8(name@)),
                img == self.bytes(),
                k <= n,
                n == bytes_per_cluster_of(img) / 32,
                0 <= bytes_per_cluster_of(img),
                base + bytes_per_cluster_of(img) <= img.len(),
                scan_dir_cluster(img, base as int, name83, k as nat, n as nat) == scan_dir_cluster(
                    img,
                    base as int,
                    name83,
                    0,
                    n as nat,
                ),
            decreases n - k,
        {
            proof {
                lemma_entry_in_cluster(bytes_per_cluster_of(img), k as int);
            }
            let off: usize = base + 32 * k;
            let e: DirectoryEntry = self.entry_at(off);
            assert(e.name@[0] == img[off as int]);
            assert(img[base + 32 * k] == img[off as int]);
            if e.name[0] == 0 {
                assert(k < n);
                assert(img[base + 32 * (k as nat)] == 0);
                assert(scan_dir_cluster(img, base as int, name83, k as nat, n as nat) is End);
                return (true, None);
            }
            assert(img.subrange(base + 32 * k, base + 32 * k + 11) == e.name@);
            if e.name_is_equal(name) {
                return (false, Some(off));
            }
            k += 1;
        }
        (false, None)
    }

    /// The byte offset of the entry named `name` in the directory whose
    /// chain starts at `cluster`.
    fn search_directory(&self, name: &str, cluster: u64) -> (r: Option<usize>)
        requires
            self.wf(),
        ensures
            r matches Some(o) ==> search_dir(
                self.bytes(),
                short_name_of(vstd::utf8::encode_utf8(name@)),
                cluster,
                self.bytes().len(),
            ) == Some(o as int) && o + 32 <= self.bytes().len(),
            r is None ==> search_dir(
                self.bytes(),
                short_name_of(vstd::utf8::encode_utf8(name@)),
                cluster,
                self.bytes().len(),
            ) is None,
    {
        let ghost img = self.bytes();
        let ghost name83 = short_name_of(vstd::utf8::encode_utf8(name@));
        let mut c: u64 = cluster;
        let mut fuel: usize = self.image.len();
        while fuel > 0 && c != END_OF_CLUSTER_CHAIN
            invariant
                self.wf(),
                img == self.bytes(),
                name83 == short_name_of(vstd::utf8::encode_utf8(name@)),
                search_dir(img, name83, c, fuel as nat) == search_dir(img, name83, cluster, img.len()),
            decreases fuel,
        {
            match self.get_cluster_addr(c) {
                None => {
                    assert(search_dir(img, name83, c, fuel as nat) is None);
                    return None;
                },
                Some(base) => {
                    proof {
                        lemma_cluster_data_len(img, c as int);
                    }
                    let (end, found) = self.scan_cluster(base, name);
                    assert(search_dir(img, name83, c, fuel as nat) == match scan_dir_cluster(
                        img,
                        base as int,
                        name83,
                        0,
                        (bytes_per_cluster_of(img) / 32) as nat,
                    ) {
                        DirScan::End => None,
                        DirScan::Found(off) => Some(off),
                        DirScan::NotHere => search_dir(
                            img,
                            name83,
                            next_cluster_of(img, c as int),
                            (fuel - 1) as nat,
                        ),
                    });
                    if end {
                        return None;
                    }
                    if let Some(off) = found {
                        assert(search_dir(img, name83, c, fuel as nat) == Some(off as int));
                        return Some(off);
                    }
                    c = self.next_cluster(c);
                    fuel -= 1;
                },
            }
        }
        None
    }
}

/// Looks `path` up from the directory whose chain starts at
/// `directory_cluster` (0 or a leading slash: the root directory). Returns
/// the entry found, if any, and whether the path had a slash after its first
/// element.
pub fn find_file(bpb: &Bpb, path: &str, directory_cluster: u64) -> (r: (
    Option<DirectoryEntry>,
    bool,
))
    requires
        bpb.wf(),
    ensures
        ({
            let (o, post_slash) = find_file_spec(bpb.bytes(), path@, directory_cluster);
            &&& r.1 == post_slash
            &&& r.0 is Some <==> o is Some
            &&& r.0 matches Some(e) ==> is_entry_at(e, bpb.bytes(), o->0)
        }),
    decreases path@.len(),
{
    let ghost img = bpb.bytes();
    let n: usize = path.unicode_len();
    let mut p: &str = path;
    let mut dc: u64 = directory_cluster;
    if n > 0 && path.get_char(0) == '/' {
        dc = bpb.get_root_cluster() as u64;
        p = path.substring_char(1, n);
        assert(p@ =~= path@.drop_first());
    } else if directory_cluster == 0 {
        dc = bpb.get_root_cluster() as u64;
    }
    let (elem, next, post_slash) = match next_path_element(p) {
        None => {
            proof {
                reveal_strlit("");
            }
            (p, "", false)
        },
        Some(pe) => (pe.path_before_slash, pe.path_after_slash, true),
    };
    proof {
        lemma_first_slash_from(p@, 0);
        if !post_slash {
            assert(p@.take(p@.len() as int) =~= p@);
        }
    }
    let path_last: bool = next.is_empty();
    match bpb.search_directory(elem, dc) {
        None => (None, post_slash),
        Some(off) => {
            proof {
                lemma_le16_bound(img, off + 26);
            }
            let e: DirectoryEntry = bpb.entry_at(off);
            if e.is_directory() && !path_last {
                find_file(bpb, next, e.first_cluster() as u64)
            } else {
                (Some(e), post_slash)
            }
        },
    }
}


/// What reading `want` bytes of a file from offset `off` of `cluster` does
/// to `buf`, and where the reading stops: piece by piece up to the end of
/// each cluster, each piece copied to the start of `buf`, moving to the
/// next cluster of the chain at the end of one.
pub open spec fn read_chunks(img: Seq<u8>, cluster: u64, off: int, want: int, buf: Seq<u8>) -> (Seq<u8>, u64, int)
    decreases want,
{
    let bpc = bytes_per_cluster_of(img);
    if want <= 0 || off < 0 || off >= bpc {
        (buf, cluster, off)
    } else {
        let n = if want <= bpc - off { want } else { bpc - off };
        let piece = cluster_data(img, cluster as int).subrange(off, off + n);
        let buf1 = piece + buf.skip(n);
        if off + n == bpc {
            read_chunks(img, next_cluster_of(img, cluster as int), 0, want - n, buf1)
        } else {
            read_chunks(img, cluster, off + n, want - n, buf1)
        }
    }
}

/// Whether every cluster that reading `want` bytes from offset `off` of
/// `cluster` visits lies in the image.
pub open spec fn chunks_in_image(img: Seq<u8>, cluster: u64, off: int, want: int) -> bool
    decreases want,
{
    let bpc = bytes_per_cluster_of(img);
    if want <= 0 || off < 0 || off >= bpc {
        true
    } else {
        let n = if want <= bpc - off { want } else { bpc - off };
        &&& cluster_in_image(img, cluster as int)
        &&& if off + n == bpc {
            chunks_in_image(img, next_cluster_of(img, cluster as int), 0, want - n)
        } else {
            chunks_in_image(img, cluster, off + n, want - n)
        }
    }
}

/// A file opened for reading: its entry, how far it was read, and the
/// cluster and offset in it where reading goes on.
#[derive(Clone, Copy)]
pub struct FatFileDescriptor {
    fat_entry: DirectoryEntry,
    rd_off: usize,
    rd_cluster: u64,
    rd_cluster_off: usize,
}

impl FatFileDescriptor {
    pub closed spec fn entry(&self) -> DirectoryEntry {
        self.fat_entry
    }

    pub closed spec fn read_offset(&self) -> usize {
        self.rd_off
    }

    pub closed spec fn read_cluster(&self) -> u64 {
        self.rd_cluster
    }

    pub closed spec fn cluster_offset(&self) -> usize {
        self.rd_cluster_off
    }

    /// The file was read no further than its size.
    pub open spec fn wf(&self) -> bool {
        self.read_offset() <= self.entry().file_size
    }

    /// The cluster where reading goes on: the file's first one before
    /// anything was read.
    pub open spec fn start_cluster(&self) -> u64 {
        if self.read_cluster() == 0 {
            (self.entry().first_cluster_low + self.entry().first_cluster_high * 65536) as u64
        } else {
            self.read_cluster()
        }
    }

    /// How many bytes a read into a buffer of `len` bytes takes.
    pub open spec fn read_len(&self, len: int) -> int {
        let left = self.entry().file_size - self.read_offset();
        if len <= left { len } else { left }
    }

    /// The file of `fat_entry`, not read yet.
    pub fn new(fat_entry: DirectoryEntry) -> (d: FatFileDescriptor)
        ensures
            d.wf(),
            d.entry() == fat_entry,
            d.read_offset() == 0,
            d.read_cluster() == 0,
            d.cluster_offset() == 0,
    {
        FatFileDescriptor { fat_entry, rd_off: 0, rd_cluster: 0, rd_cluster_off: 0 }
    }

    /// Reads on: as many bytes as `buf` holds or the file has left, cluster
    /// piece by cluster piece, each piece copied to the start of `buf`;
    /// gives back the number of bytes read.
    pub fn read(&mut self, buf: &mut [u8], bpb: &Bpb) -> (total: usize)
        requires
            old(self).wf(),
            bpb.wf(),
            bytes_per_cluster_of(bpb.bytes()) > 0,
            old(self).cluster_offset() < bytes_per_cluster_of(bpb.bytes()),
            chunks_in_image(
                bpb.bytes(),
                old(self).start_cluster(),
                old(self).cluster_offset() as int,
                old(self).read_len(old(buf)@.len() as int),
            ),
        ensures
            final(self).wf(),
            final(self).entry() == old(self).entry(),
            total == old(self).read_len(old(buf)@.len() as int),
            final(self).read_offset() == old(self).read_offset() + total,
            ({
                let (b, c, o) = read_chunks(
                    bpb.bytes(),
                    old(self).start_cluster(),
                    old(self).cluster_offset() as int,
                    total as int,
                    old(buf)@,
                );
                &&& final(buf)@ == b
                &&& final(self).read_cluster() == c
                &&& final(self).cluster_offset() == o
            }),
    {
        let ghost img = bpb.bytes();
        if self.rd_cluster == 0 {
            self.rd_cluster = self.fat_entry.first_cluster() as u64;
        }
        let left: usize = self.fat_entry.file_size() as usize - self.rd_off;
        let len: usize = if buf.len() <= left { buf.len() } else { left };
        let ghost c0 = self.rd_cluster;
        let ghost o0 = self.rd_cluster_off as int;
        let ghost b0 = buf@;
        let mut total: usize = 0;
        let bytes_per_cluster: u64 = bpb.bytes_per_cluster();
        while total < len
            invariant
                img == bpb.bytes(),
                bpb.wf(),
                total <= len <= buf@.len(),
                buf@.len() == b0.len(),
                bytes_per_cluster == bytes_per_cluster_of(img),
                0 < bytes_per_cluster <= 65535 * 255,
                self.rd_cluster_off < bytes_per_cluster,
                self.fat_entry == old(self).fat_entry,
                self.rd_off == old(self).rd_off,
                chunks_in_image(img, self.rd_cluster, self.rd_cluster_off as int, len - total),
                read_chunks(img, self.rd_cluster, self.rd_cluster_off as int, len - total, buf@) == read_chunks(
                    img,
                    c0,
                    o0,
                    len as int,
                    b0,
                ),
            decreases len - total,
        {
            let ghost c = self.rd_cluster;
            let ghost o = self.rd_cluster_off as int;
            let ghost want = len - total;
            let ghost before = buf@;
            let sec: &[u8] = bpb.get_sector_by_cluster(self.rd_cluster).unwrap();
            let room: usize = (bytes_per_cluster as usize) - self.rd_cluster_off;
            let n: usize = if len - total <= room { len - total } else { room };
            let ghost piece = cluster_data(img, c as int).subrange(o, o + n);
            let ghost after = piece + before.skip(n as int);
            proof {
                assert(read_chunks(img, c, o, want, before) == if o + n == bytes_per_cluster {
                    read_chunks(img, next_cluster_of(img, c as int), 0, want - n, after)
                } else {
                    read_chunks(img, c, o + n, want - n, after)
                });
                assert(chunks_in_image(img, c, o, want) == (cluster_in_image(img, c as int) && if o
                    + n == bytes_per_cluster {
                    chunks_in_image(img, next_cluster_of(img, c as int), 0, want - n)
                } else {
                    chunks_in_image(img, c, o + n, want - n)
                }));
            }
            let mut k: usize = 0;
            while k < n
                invariant
                    k <= n,
                    n <= buf@.len(),
                    buf@.len() == before.len(),
                    self.rd_cluster_off + n <= bytes_per_cluster <= 65535 * 255,
                    sec@.len() == bytes_per_cluster,
                    forall|j: int| 0 <= j < k ==> buf@[j] == sec@[self.rd_cluster_off + j],
                    forall|j: int| k <= j < buf@.len() ==> buf@[j] == before[j],
                decreases n - k,
            {
                buf[k] = sec[self.rd_cluster_off + k];
                k = k + 1;
            }
            proof {
                assert(buf@ =~= after);
            }
            total = total + n;
            self.rd_cluster_off = self.rd_cluster_off + n;
            if self.rd_cluster_off as u64 == bytes_per_cluster {
                self.rd_cluster = bpb.next_cluster(self.rd_cluster);
                self.rd_cluster_off = 0;
            }
        }
        self.rd_off = self.rd_off + total;
        total
    }
}

} // verus!

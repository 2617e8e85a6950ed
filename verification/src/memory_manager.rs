use vstd::prelude::*;
use crate::error::{Code, Error};
use crate::shared::{memory_type_available, MemoryDescriptor};

verus! {

/// Bytes covered by one physical frame.
pub const BYTES_PER_FRAME: usize = 4096;

/// Frames needed to cover the largest supported physical memory (128 GiB).
pub const FRAME_COUNT: usize = 33554432;

/// Frames tracked by one word of the allocation bitmap.
pub const BITS_PER_MAP_LINE: usize = 64;

/// Words in the allocation bitmap.
pub const MAP_LINE_COUNT: usize = 524288;

/// Whether bit `bit` of `line` is set.
pub open spec fn bit_set(line: u64, bit: u64) -> bool {
    (line >> bit) & 1u64 == 1u64
}

/// Whether the bitmap `map` marks frame `frame` as allocated.
pub open spec fn frame_bit(map: Seq<u64>, frame: int) -> bool {
    bit_set(map[frame / 64], (frame % 64) as u64)
}

/// `s` with the positions `start .. start + n` set to `value`.
pub open spec fn set_range(s: Seq<bool>, start: int, n: int, value: bool) -> Seq<bool> {
    Seq::new(s.len(), |i: int| if start <= i < start + n { value } else { s[i] })
}

/// Whether frames `s .. s + n` lie in `[begin, end)` and are all free in `v`.
pub open spec fn run_fits(v: Seq<bool>, begin: int, end: int, s: int, n: int) -> bool {
    &&& begin <= s
    &&& s + n <= end
    &&& forall|k: int| s <= k < s + n ==> !#[trigger] v[k]
}

/// Number of allocated frames among `v[lo .. hi]`.
pub open spec fn count_allocated(v: Seq<bool>, lo: int, hi: int) -> nat
    decreases hi - lo,
{
    if hi <= lo {
        0
    } else {
        count_allocated(v, lo, hi - 1) + if v[hi - 1] { 1nat } else { 0nat }
    }
}

proof fn lemma_bit_of_or(v: u64, b: u64, c: u64)
    requires
        b < 64,
        c < 64,
    ensures
        bit_set(v | (1u64 << b), c) == (c == b || bit_set(v, c)),
{
    assert(((v | (1u64 << b)) >> c) & 1u64 == 1u64 <==> (c == b || (v >> c) & 1u64 == 1u64))
        by (bit_vector)
        requires
            b < 64,
            c < 64,
    ;
}

proof fn lemma_bit_of_and_not(v: u64, b: u64, c: u64)
    requires
        b < 64,
        c < 64,
    ensures
        bit_set(v & !(1u64 << b), c) == (c != b && bit_set(v, c)),
{
    assert(((v & !(1u64 << b)) >> c) & 1u64 == 1u64 <==> (c != b && (v >> c) & 1u64 == 1u64))
        by (bit_vector)
        requires
            b < 64,
            c < 64,
    ;
}

proof fn lemma_bit_of_mask(v: u64, b: u64)
    requires
        b < 64,
    ensures
        ((v & (1u64 << b)) != 0) == bit_set(v, b),
{
    assert(((v & (1u64 << b)) != 0) <==> ((v >> b) & 1u64 == 1u64)) by (bit_vector)
        requires
            b < 64,
    ;
}

proof fn lemma_zero_has_no_bits(c: u64)
    requires
        c < 64,
    ensures
        !bit_set(0u64, c),
{
    assert((0u64 >> c) & 1u64 == 0u64) by (bit_vector);
}

/// Identifies a physical frame by its index.
#[derive(Copy, Clone, Debug)]
pub struct FrameID(usize);

impl FrameID {
    pub closed spec fn spec_id(&self) -> usize {
        self.0
    }

    pub fn new(v: usize) -> (f: FrameID)
        ensures
            f.spec_id() == v,
    {
        FrameID(v)
    }

    #[verifier::when_used_as_spec(spec_id)]
    pub fn id(&self) -> (r: usize)
        ensures
            r == self.spec_id(),
    {
        self.0
    }
}

/// How many frames are allocated and how many the manager covers.
pub struct MemoryStat {
    pub allocated_frames: usize,
    pub total_frames: usize,
}

impl MemoryStat {
    pub fn new(allocated_frames: usize, total_frames: usize) -> (s: Self)
        ensures
            s.allocated_frames == allocated_frames,
            s.total_frames == total_frames,
    {
        Self { allocated_frames, total_frames }
    }

    /// Allocated memory in MiB, rounded down.
    pub fn calc_allocated_size_in_mb(&self) -> (r: usize)
        requires
            self.allocated_frames * BYTES_PER_FRAME <= usize::MAX,
        ensures
            r == self.allocated_frames * BYTES_PER_FRAME / 1024 / 1024,
    {
        self.allocated_frames * BYTES_PER_FRAME / 1024 / 1024
    }

    /// Covered memory in MiB, rounded down.
    pub fn calc_total_size_in_mb(&self) -> (r: usize)
        requires
            self.total_frames * BYTES_PER_FRAME <= usize::MAX,
        ensures
            r == self.total_frames * BYTES_PER_FRAME / 1024 / 1024,
    {
        self.total_frames * BYTES_PER_FRAME / 1024 / 1024
    }
}

/// A first-fit frame allocator over a bitmap with one bit per frame.
pub struct BitmapMemoryManager {
    alloc_map: Vec<u64>,
    range_begin: FrameID,
    range_end: FrameID,
}

impl View for BitmapMemoryManager {
    type V = Seq<bool>;

    /// Bit `i` tells whether frame `i` is allocated.
    closed spec fn view(&self) -> Seq<bool> {
        Seq::new(FRAME_COUNT as nat, |i: int| frame_bit(self.alloc_map@, i))
    }
}

impl BitmapMemoryManager {
    /// The bitmap covers every frame.
    pub closed spec fn wf(&self) -> bool {
        self.alloc_map@.len() == MAP_LINE_COUNT
    }

    /// First frame that `allocate` may hand out.
    pub closed spec fn begin(&self) -> int {
        self.range_begin.spec_id() as int
    }

    /// One past the last frame that `allocate` may hand out.
    pub closed spec fn end(&self) -> int {
        self.range_end.spec_id() as int
    }

    proof fn lemma_view_len(&self)
        ensures
            self@.len() == FRAME_COUNT,
    {
    }

    /// A manager with every frame free, covering all frames.
    pub fn new() -> (m: Self)
        ensures
            m.wf(),
            m@ == Seq::new(FRAME_COUNT as nat, |i: int| false),
            m.begin() == 0,
            m.end() == FRAME_COUNT,
    {
        let m = BitmapMemoryManager {
            alloc_map: vec![0u64; MAP_LINE_COUNT],
            range_begin: FrameID(0),
            range_end: FrameID(FRAME_COUNT),
        };
        proof {
            assert forall|i: int| 0 <= i < FRAME_COUNT implies !frame_bit(m.alloc_map@, i) by {
                lemma_zero_has_no_bits((i % 64) as u64);
            }
            assert(m@ =~= Seq::new(FRAME_COUNT as nat, |i: int| false));
        }
        m
    }

    fn get_bit(&self, frame: FrameID) -> (r: bool)
        requires
            self.wf(),
            frame.id() < FRAME_COUNT,
        ensures
            r == self@[frame.id() as int],
    {
        let line_index: usize = frame.id() / BITS_PER_MAP_LINE;
        let bit_index: u64 = (frame.id() % BITS_PER_MAP_LINE) as u64;
        let line: u64 = self.alloc_map[line_index];
        proof {
            lemma_bit_of_mask(line, bit_index);
        }
        (line & (1u64 << bit_index)) != 0
    }

    fn set_bit(&mut self, frame: FrameID, allocated: bool)
        requires
            old(self).wf(),
            frame.id() < FRAME_COUNT,
        ensures
            final(self).wf(),
            final(self)@ == old(self)@.update(frame.id() as int, allocated),
            final(self).begin() == old(self).begin(),
            final(self).end() == old(self).end(),
    {
        let line_index: usize = frame.id() / BITS_PER_MAP_LINE;
        let bit_index: u64 = (frame.id() % BITS_PER_MAP_LINE) as u64;
        let line: u64 = self.alloc_map[line_index];
        let new_line: u64 = if allocated {
            line | (1u64 << bit_index)
        } else {
            line & !(1u64 << bit_index)
        };
        self.alloc_map.set(line_index, new_line);
        proof {
            let f = frame.id() as int;
            assert forall|j: int| 0 <= j < FRAME_COUNT implies #[trigger] frame_bit(
                self.alloc_map@,
                j,
            ) == (if j == f { allocated } else { frame_bit(old(self).alloc_map@, j) }) by {
                if j / 64 == line_index as int {
                    let c = (j % 64) as u64;
                    if allocated {
                        lemma_bit_of_or(line, bit_index, c);
                    } else {
                        lemma_bit_of_and_not(line, bit_index, c);
                    }
                }
            }
            assert(self@ =~= old(self)@.update(f, allocated));
        }
    }

    /// Marks frames `start_frame .. start_frame + num_frames` as allocated.
    pub fn mark_allocated(&mut self, start_frame: FrameID, num_frames: usize)
        requires
            old(self).wf(),
            num_frames == 0 || start_frame.id() + num_frames <= FRAME_COUNT,
        ensures
            final(self).wf(),
            final(self)@ == set_range(old(self)@, start_frame.id() as int, num_frames as int, true),
            final(self).begin() == old(self).begin(),
            final(self).end() == old(self).end(),
    {
        for i in 0..num_frames
            invariant
                self.wf(),
                num_frames == 0 || start_frame.id() + num_frames <= FRAME_COUNT,
                self@ == set_range(old(self)@, start_frame.id() as int, i as int, true),
                self.begin() == old(self).begin(),
                self.end() == old(self).end(),
        {
            self.set_bit(FrameID(start_frame.0 + i), true);
            proof {
                assert(self@ =~= set_range(
                    old(self)@,
                    start_frame.id() as int,
                    i + 1,
                    true,
                ));
            }
        }
        proof {
            assert(self@ =~= set_range(
                old(self)@,
                start_frame.id() as int,
                num_frames as int,
                true,
            ));
        }
    }

    /// Marks frames `start_frame .. start_frame + num_frames` as free again.
    pub fn free(&mut self, start_frame: FrameID, num_frames: usize) -> (r: Result<(), Error>)
        requires
            old(self).wf(),
            num_frames == 0 || start_frame.id() + num_frames <= FRAME_COUNT,
        ensures
            r is Ok,
            final(self).wf(),
            final(self)@ == set_range(old(self)@, start_frame.id() as int, num_frames as int, false),
            final(self).begin() == old(self).begin(),
            final(self).end() == old(self).end(),
    {
        for i in 0..num_frames
            invariant
                self.wf(),
                num_frames == 0 || start_frame.id() + num_frames <= FRAME_COUNT,
                self@ == set_range(old(self)@, start_frame.id() as int, i as int, false),
                self.begin() == old(self).begin(),
                self.end() == old(self).end(),
        {
            self.set_bit(FrameID(start_frame.0 + i), false);
            proof {
                assert(self@ =~= set_range(
                    old(self)@,
                    start_frame.id() as int,
                    i + 1,
                    false,
                ));
            }
        }
        proof {
            assert(self@ =~= set_range(
                old(self)@,
                start_frame.id() as int,
                num_frames as int,
                false,
            ));
        }
        Ok(())
    }

    /// Sets the frames that `allocate` may hand out to `range_begin .. range_end`.
    pub fn set_memory_range(&mut self, range_begin: FrameID, range_end: FrameID)
        requires
            old(self).wf(),
        ensures
            final(self).wf(),
            final(self)@ == old(self)@,
            final(self).begin() == range_begin.id(),
            final(self).end() == range_end.id(),
    {
        self.range_begin = range_begin;
        self.range_end = range_end;
    }

    /// Allocates `num_frames` consecutive free frames: the run that starts
    /// lowest within the range. Zero frames are granted at the range's start.
    pub fn allocate(&mut self, num_frames: usize) -> (r: Result<FrameID, Error>)
        requires
            old(self).wf(),
            old(self).end() <= FRAME_COUNT,
        ensures
            final(self).wf(),
            final(self).begin() == old(self).begin(),
            final(self).end() == old(self).end(),
            match r {
                Ok(f) => {
                    &&& num_frames == 0 ==> f.id() == old(self).begin()
                    &&& num_frames > 0 ==> run_fits(
                        old(self)@,
                        old(self).begin(),
                        old(self).end(),
                        f.id() as int,
                        num_frames as int,
                    )
                    &&& num_frames > 0 ==> forall|s: int|
                        old(self).begin() <= s < f.id() ==> !#[trigger] run_fits(
                            old(self)@,
                            old(self).begin(),
                            old(self).end(),
                            s,
                            num_frames as int,
                        )
                    &&& final(self)@ == set_range(
                        old(self)@,
                        f.id() as int,
                        num_frames as int,
                        true,
                    )
                },
                Err(e) => {
                    &&& num_frames > 0
                    &&& e.code == Code::NoEnoughMemory
                    &&& forall|s: int|
                        !#[trigger] run_fits(
                            old(self)@,
                            old(self).begin(),
                            old(self).end(),
                            s,
                            num_frames as int,
                        )
                    &&& final(self)@ == old(self)@
                },
            },
    {
        let ghost v = self@;
        let ghost b = self.begin();
        let ghost e = self.end();
        let end: usize = self.range_end.id();
        let mut start_frame_id: usize = self.range_begin.id();
        loop
            invariant
                self.wf(),
                self@ == v,
                self.begin() == b,
                self.end() == e,
                b == old(self).begin(),
                e == old(self).end(),
                v == old(self)@,
                end == e,
                e <= FRAME_COUNT,
                b <= start_frame_id,
                start_frame_id == b || start_frame_id <= e,
                num_frames == 0 ==> start_frame_id == b,
                num_frames > 0 ==> forall|s: int|
                    b <= s < start_frame_id ==> !#[trigger] run_fits(v, b, e, s, num_frames as int),
            decreases (if start_frame_id <= e { e - start_frame_id } else { 0 }),
        {
            let mut i: usize = 0;
            while i < num_frames
                invariant
                    self.wf(),
                    self@ == v,
                    self.begin() == b,
                    self.end() == e,
                    b == old(self).begin(),
                    e == old(self).end(),
                    v == old(self)@,
                    end == e,
                    e <= FRAME_COUNT,
                    b <= start_frame_id,
                    start_frame_id == b || start_frame_id <= e,
                    num_frames == 0 ==> start_frame_id == b,
                num_frames == 0 ==> start_frame_id == b,
                    num_frames > 0 ==> forall|s: int|
                        b <= s < start_frame_id ==> !#[trigger] run_fits(v, b, e, s, num_frames as int),
                    i <= num_frames,
                    i == 0 || start_frame_id + i <= e,
                    forall|k: int| start_frame_id <= k < start_frame_id + i ==> !#[trigger] v[k],
                ensures
                    i == num_frames || (start_frame_id + i < e && v[start_frame_id + i]),
                decreases num_frames - i,
            {
                if start_frame_id + i >= end {
                    proof {
                        assert forall|s: int| !#[trigger] run_fits(v, b, e, s, num_frames as int) by {
                            if b <= s < start_frame_id {
                            } else if s >= start_frame_id {
                            }
                        }
                    }
                    return Err(Error::new(Code::NoEnoughMemory, "memory_manager.rs", 0));
                }
                if self.get_bit(FrameID(start_frame_id + i)) {
                    break;
                }
                i += 1;
            }
            if i == num_frames {
                self.mark_allocated(FrameID(start_frame_id), num_frames);
                return Ok(FrameID(start_frame_id));
            }
            proof {
                let hit = start_frame_id + i;
                assert(v[hit as int]);
                assert forall|s: int|
                    b <= s < start_frame_id + i + 1 implies !#[trigger] run_fits(
                    v,
                    b,
                    e,
                    s,
                    num_frames as int,
                ) by {
                    if s >= start_frame_id {
                        assert(s <= hit < s + num_frames);
                    }
                }
            }
            start_frame_id += i + 1;
        }
    }

    /// Counts allocated frames in the whole bitmap words that the range
    /// covers, and the range's length in frames.
    pub fn stat(&self) -> (s: MemoryStat)
        requires
            self.wf(),
            self.begin() <= self.end(),
            self.end() <= FRAME_COUNT,
        ensures
            s.allocated_frames == count_allocated(
                self@,
                64 * (self.begin() / 64),
                64 * (self.end() / 64),
            ),
            s.total_frames == self.end() - self.begin(),
    {
        let start: usize = self.range_begin.id() / BITS_PER_MAP_LINE;
        let end: usize = self.range_end.id() / BITS_PER_MAP_LINE;
        let mut sum: usize = 0;
        let mut line: usize = start;
        while line < end
            invariant
                self.wf(),
                start <= line <= end,
                end <= MAP_LINE_COUNT,
                sum == count_allocated(self@, 64 * start, 64 * line),
                sum <= 64 * (line - start),
            decreases end - line,
        {
            let word: u64 = self.alloc_map[line];
            let mut bit: u64 = 0;
            while bit < 64
                invariant
                    self.wf(),
                    start <= line < end,
                    end <= MAP_LINE_COUNT,
                    word == self.alloc_map@[line as int],
                    bit <= 64,
                    sum == count_allocated(self@, 64 * start, 64 * line + bit),
                    sum <= 64 * (line - start) + bit,
                decreases 64 - bit,
            {
                proof {
                    let f = 64 * line + bit;
                    assert(f / 64 == line);
                    assert(f % 64 == bit);
                    assert(self@[f as int] == bit_set(word, bit));
                }
                if (word >> bit) & 1u64 == 1u64 {
                    sum += 1;
                }
                bit += 1;
            }
            line += 1;
        }
        MemoryStat::new(sum, self.range_end.id() - self.range_begin.id())
    }
}

/// Freeing a run that allocation just marked gives back the bitmap as it was.
pub proof fn law_free_undoes_mark(v: Seq<bool>, start: int, n: int)
    requires
        forall|k: int| start <= k < start + n ==> !#[trigger] v[k],
    ensures
        set_range(set_range(v, start, n, true), start, n, false) == v,
{
    assert(set_range(set_range(v, start, n, true), start, n, false) =~= v);
}

/// A run handed out by allocation is no longer free: a second request can
/// not be granted any frame of it.
pub proof fn law_allocated_run_not_free(v: Seq<bool>, f: int, n: int, s: int, m: int, begin: int, end: int)
    requires
        0 <= f,
        f + n <= v.len(),
        n > 0,
        m > 0,
        s <= f < s + m || f <= s < f + n,
    ensures
        !run_fits(set_range(v, f, n, true), begin, end, s, m),
{
    let w = set_range(v, f, n, true);
    if s <= f < s + m {
        assert(w[f]);
    } else {
        assert(w[s]);
    }
}


/// The size of a page in the firmware's memory map.
pub const UEFI_PAGE_SIZE: u64 = 4096;

/// The bitmap and the end of the memory usable so far after the first `k`
/// descriptors of the memory map were read from `base`: a gap before a
/// descriptor's memory is marked allocated, and so is memory that is not
/// usable; usable memory moves the end of usable memory to its end.
pub open spec fn map_state(descs: Seq<MemoryDescriptor>, k: int, base: Seq<bool>) -> (Seq<bool>, int)
    decreases k,
{
    if k <= 0 {
        (base, 0)
    } else {
        let (bits, available_end) = map_state(descs, k - 1, base);
        let d = descs[k - 1];
        let bits1 = if available_end < d.physical_start {
            set_range(bits, available_end / 4096, (d.physical_start - available_end) / 4096, true)
        } else {
            bits
        };
        let byte_count = d.number_of_pages * 4096;
        if memory_type_available(d.type_) {
            (bits1, d.physical_start + byte_count)
        } else {
            (set_range(bits1, d.physical_start as int / 4096, byte_count / 4096, true), available_end)
        }
    }
}

/// Whether reading descriptor `d` with usable memory ending at
/// `available_end` keeps every frame it marks inside the bitmap and every
/// address inside a `usize`.
pub open spec fn descriptor_ok(d: MemoryDescriptor, available_end: int) -> bool {
    let byte_count = d.number_of_pages * 4096;
    &&& byte_count <= usize::MAX
    &&& d.physical_start + byte_count <= usize::MAX
    &&& (available_end < d.physical_start ==> (available_end / 4096 + (d.physical_start - available_end) / 4096
        <= FRAME_COUNT || (d.physical_start - available_end) / 4096 == 0))
    &&& (!memory_type_available(d.type_) ==> (d.physical_start as int / 4096 + byte_count / 4096 <= FRAME_COUNT || byte_count
        / 4096 == 0))
}

/// Whether every descriptor of the map can be read in turn.
pub open spec fn memory_map_ok(descs: Seq<MemoryDescriptor>, base: Seq<bool>) -> bool {
    forall|k: int| 0 <= k < descs.len() ==> descriptor_ok(#[trigger] descs[k], map_state(descs, k, base).1)
}

impl BitmapMemoryManager {
    /// Reads the firmware's memory map: marks allocated every frame that
    /// is not usable (gaps included), and lets `allocate` hand out frames
    /// from frame 1 to the end of the last usable memory.
    pub fn initialize(&mut self, descriptors: &[MemoryDescriptor])
        requires
            old(self).wf(),
            memory_map_ok(descriptors@, old(self)@),
        ensures
            final(self).wf(),
            final(self)@ == map_state(descriptors@, descriptors@.len() as int, old(self)@).0,
            final(self).begin() == 1,
            final(self).end() == map_state(descriptors@, descriptors@.len() as int, old(self)@).1 / 4096,
    {
        let ghost base = self@;
        let mut available_end: usize = 0;
        let mut i: usize = 0;
        while i < descriptors.len()
            invariant
                i <= descriptors@.len(),
                self.wf(),
                memory_map_ok(descriptors@, base),
                self@ == map_state(descriptors@, i as int, base).0,
                available_end == map_state(descriptors@, i as int, base).1,
            decreases descriptors.len() - i,
        {
            let d: &MemoryDescriptor = &descriptors[i];
            assert(descriptor_ok(descriptors@[i as int], map_state(descriptors@, i as int, base).1));
            let physical_start: usize = d.physical_start;
            if available_end < physical_start {
                self.mark_allocated(
                    FrameID::new(available_end / BYTES_PER_FRAME),
                    (physical_start - available_end) / BYTES_PER_FRAME,
                );
            }
            let byte_count: usize = (d.number_of_pages * UEFI_PAGE_SIZE) as usize;
            let physical_end: usize = physical_start + byte_count;
            if d.type_.is_available() {
                available_end = physical_end;
            } else {
                self.mark_allocated(FrameID::new(physical_start / BYTES_PER_FRAME), byte_count / BYTES_PER_FRAME);
            }
            i = i + 1;
        }
        self.set_memory_range(FrameID::new(1), FrameID::new(available_end / BYTES_PER_FRAME));
    }
}

} // verus!

//! Physical frames from the firmware's memory map, and address translation.

use vstd::prelude::*;
use crate::addr::{
    p1_index_of, p2_index_of, p3_index_of, p4_index_of, PhysAddr, PhysFrame, Page, VirtAddr,
    PHYS_ADDR_LIMIT,
};
use crate::paging::{
    settled, FrameAllocator, FrameError, MapToError, MapperFlush, OffsetPageTable,
    PageStatus, PageTableFlags, TranslateError,
};

verus! {

/// What a range of physical memory is used for.
#[derive(Clone, Copy, PartialEq, Eq, Structural, Debug)]
pub enum MemoryRegionType {
    Usable,
    InUse,
    Reserved,
    AcpiReclaimable,
    AcpiNvs,
    BadMemory,
    Kernel,
    KernelStack,
    PageTable,
    Bootloader,
    FrameZero,
    Empty,
    BootInfo,
    Package,
}

/// A range of frames, from `start_frame_number` up to but not including
/// `end_frame_number`.
#[derive(Clone, Copy, PartialEq, Eq, Structural, Debug)]
pub struct FrameRange {
    pub start_frame_number: u64,
    pub end_frame_number: u64,
}

/// One entry of the firmware's memory map.
#[derive(Clone, Copy, PartialEq, Eq, Structural, Debug)]
pub struct MemoryRegion {
    pub range: FrameRange,
    pub region_type: MemoryRegionType,
}

/// The largest frame number whose frame ends within physical memory (2^40).
pub const FRAME_NUMBER_LIMIT: u64 = 0x100_0000_0000;

/// Whether frames are drawn from the region.
pub open spec fn region_is_source(region: MemoryRegion) -> bool {
    region.region_type == MemoryRegionType::Usable && region.range.start_frame_number
        < region.range.end_frame_number
}

/// The start addresses of the frames that a region gives, in ascending
/// order: every frame of a usable region, none of any other.
pub open spec fn region_frames(region: MemoryRegion) -> Seq<u64> {
    if region_is_source(region) {
        Seq::new(
            (region.range.end_frame_number - region.range.start_frame_number) as nat,
            |k: int| ((region.range.start_frame_number + k) * 4096) as u64,
        )
    } else {
        Seq::empty()
    }
}

/// The start addresses of the frames that a memory map gives, region by
/// region in the order of the map.
pub open spec fn usable_frames(map: Seq<MemoryRegion>) -> Seq<u64>
    decreases map.len(),
{
    if map.len() == 0 {
        Seq::empty()
    } else {
        usable_frames(map.drop_last()) + region_frames(map.last())
    }
}

/// A memory map that frames can be drawn from: its usable regions lie within
/// physical memory, in ascending order, and none overlaps another.
pub open spec fn memory_map_wf(map: Seq<MemoryRegion>) -> bool {
    &&& forall|i: int|
        0 <= i < map.len() && region_is_source(#[trigger] map[i])
            ==> map[i].range.end_frame_number <= FRAME_NUMBER_LIMIT
    &&& forall|i: int, j: int|
        0 <= i < j < map.len() && region_is_source(#[trigger] map[i]) && region_is_source(
            #[trigger] map[j],
        ) ==> map[i].range.end_frame_number <= map[j].range.start_frame_number
}

/// The frames of the first `n` regions come first among the frames of the
/// whole map.
proof fn lemma_usable_frames_prefix(map: Seq<MemoryRegion>, n: int)
    requires
        0 <= n <= map.len(),
    ensures
        usable_frames(map.take(n)).is_prefix_of(usable_frames(map)),
    decreases map.len() - n,
{
    if n == map.len() {
        assert(map.take(n) =~= map);
    } else {
        lemma_usable_frames_prefix(map, n + 1);
        assert(map.take(n + 1).drop_last() =~= map.take(n));
        assert(map.take(n + 1).last() == map[n]);
    }
}

/// The frames of the first `n + 1` regions are those of the first `n`, then
/// those of region `n`.
proof fn lemma_usable_frames_step(map: Seq<MemoryRegion>, n: int)
    requires
        0 <= n < map.len(),
    ensures
        usable_frames(map.take(n + 1)) == usable_frames(map.take(n)) + region_frames(map[n]),
{
    assert(map.take(n + 1).drop_last() =~= map.take(n));
    assert(map.take(n + 1).last() == map[n]);
}

/// Every frame of a well-formed map is a frame of one of its usable regions.
proof fn lemma_frame_origin(map: Seq<MemoryRegion>, k: int) -> (i: int)
    requires
        0 <= k < usable_frames(map).len(),
    ensures
        0 <= i < map.len(),
        region_is_source(map[i]),
        usable_frames(map.take(i)).len() <= k < usable_frames(map.take(i)).len()
            + region_frames(map[i]).len(),
        usable_frames(map)[k] == region_frames(map[i])[k - usable_frames(map.take(i)).len()],
    decreases map.len(),
{
    let before = usable_frames(map.drop_last());
    assert(map.take(map.len() - 1) =~= map.drop_last());
    if k < before.len() {
        let i = lemma_frame_origin(map.drop_last(), k);
        assert(map.drop_last().take(i) =~= map.take(i));
        i
    } else {
        map.len() - 1
    }
}

/// The frames of a well-formed map ascend strictly, each the start of a frame
/// within physical memory.
#[verifier::rlimit(50)]
pub proof fn lemma_usable_frames_ascend(map: Seq<MemoryRegion>)
    requires
        memory_map_wf(map),
    ensures
        forall|a: int, b: int|
            0 <= a < b < usable_frames(map).len() ==> usable_frames(map)[a] < usable_frames(
                map,
            )[b],
        forall|a: int|
            0 <= a < usable_frames(map).len() ==> {
                &&& (#[trigger] usable_frames(map)[a]) % 4096 == 0
                &&& usable_frames(map)[a] < PHYS_ADDR_LIMIT
            },
{
    let frames = usable_frames(map);
    assert forall|a: int| 0 <= a < frames.len() implies {
        &&& (#[trigger] frames[a]) % 4096 == 0
        &&& frames[a] < PHYS_ADDR_LIMIT
    } by {
        let i = lemma_frame_origin(map, a);
    }
    assert forall|a: int, b: int| 0 <= a < b < frames.len() implies frames[a] < frames[b] by {
        let i = lemma_frame_origin(map, a);
        let j = lemma_frame_origin(map, b);
        if i < j {
        } else if i == j {
        } else {
            lemma_usable_frames_prefix(map.take(i), j + 1);
            assert(map.take(i).take(j + 1) =~= map.take(j + 1));
            lemma_usable_frames_step(map, j);
        }
    }
}

/// Whether frames can be drawn from the memory map.
#[verifier::rlimit(50)]
pub fn is_valid_memory_map(map: &Vec<MemoryRegion>) -> (r: bool)
    ensures
        r == memory_map_wf(map@),
{
    // The end of the last usable region seen so far.
    let mut bound: u64 = 0;
    let mut i: usize = 0;
    while i < map.len()
        invariant
            i <= map@.len(),
            memory_map_wf(map@.take(i as int)),
            forall|j: int|
                0 <= j < i && region_is_source(#[trigger] map@[j])
                    ==> map@[j].range.end_frame_number <= bound,
            bound > 0 ==> exists|j: int|
                0 <= j < i && region_is_source(#[trigger] map@[j])
                    && map@[j].range.end_frame_number == bound,
        decreases map@.len() - i,
    {
        let region: MemoryRegion = map[i];
        let ghost seen = map@.take(i as int);
        let ghost next = map@.take(i + 1);
        if region.region_type == MemoryRegionType::Usable && region.range.start_frame_number
            < region.range.end_frame_number {
            if region.range.end_frame_number > FRAME_NUMBER_LIMIT || region.range.start_frame_number
                < bound {
                proof {
                    if memory_map_wf(map@) {
                        assert(region_is_source(map@[i as int]));
                        if region.range.start_frame_number < bound {
                            let j = choose|j: int|
                                0 <= j < i && region_is_source(#[trigger] map@[j])
                                    && map@[j].range.end_frame_number == bound;
                            assert(map@[j].range.end_frame_number
                                <= map@[i as int].range.start_frame_number);
                        }
                    }
                }
                return false;
            }
            bound = region.range.end_frame_number;
        }
        proof {
            assert forall|a: int| 0 <= a < next.len() && region_is_source(
                #[trigger] next[a],
            ) implies next[a].range.end_frame_number <= FRAME_NUMBER_LIMIT by {
                if a < i {
                    assert(seen[a] == next[a]);
                }
            }
            assert forall|a: int, b: int|
                0 <= a < b < next.len() && region_is_source(#[trigger] next[a])
                    && region_is_source(#[trigger] next[b]) implies next[a].range.end_frame_number
                <= next[b].range.start_frame_number by {
                assert(next[a] == map@[a]);
                if b < i {
                    assert(seen[a] == next[a] && seen[b] == next[b]);
                }
            }
        }
        i += 1;
    }
    proof {
        assert(map@.take(i as int) =~= map@);
    }
    true
}

/// Hands out the usable frames of the firmware's memory map, each once, in
/// the order of the map.
pub struct BootInfoFrameAllocator {
    memory_map: Vec<MemoryRegion>,
    next: u64,
}

impl BootInfoFrameAllocator {
    /// The start addresses of all frames that this allocator draws from.
    pub closed spec fn frames(&self) -> Seq<u64> {
        usable_frames(self.memory_map@)
    }

    /// How many frames have been handed out.
    pub closed spec fn issued_count(&self) -> nat {
        self.next as nat
    }

    /// The start addresses of the frames handed out so far, in order.
    pub open spec fn issued(&self) -> Seq<u64> {
        self.frames().take(self.issued_count() as int)
    }

    /// The memory map that the allocator was made from.
    pub closed spec fn memory_map(&self) -> Seq<MemoryRegion> {
        self.memory_map@
    }

    /// An allocator that has handed out no frame of `memory_map` yet.
    pub fn init(memory_map: Vec<MemoryRegion>) -> (r: BootInfoFrameAllocator)
        requires
            memory_map_wf(memory_map@),
        ensures
            r.wf(),
            r.memory_map() == memory_map@,
            r.frames() == usable_frames(memory_map@),
            r.issued_count() == 0,
            r.remaining() == usable_frames(memory_map@),
    {
        let r = BootInfoFrameAllocator { memory_map, next: 0 };
        proof {
            assert(r.frames().skip(0) =~= r.frames());
        }
        r
    }

    /// The frame number `n` in the order of the map, counted from 0.
    #[verifier::rlimit(50)]
    fn usable_frame(&self, n: u64) -> (r: Option<PhysFrame>)
        requires
            memory_map_wf(self.memory_map@),
        ensures
            match r {
                Some(f) => n < self.frames().len() && f@ == self.frames()[n as int] && f.wf(),
                None => n >= self.frames().len(),
            },
    {
        let ghost map = self.memory_map@;
        let mut skip: u64 = n;
        let mut i: usize = 0;
        while i < self.memory_map.len()
            invariant
                map == self.memory_map@,
                memory_map_wf(map),
                i <= map.len(),
                usable_frames(map.take(i as int)).len() + skip == n,
            decreases map.len() - i,
        {
            let region: MemoryRegion = self.memory_map[i];
            proof {
                lemma_usable_frames_step(map, i as int);
            }
            if region.region_type == MemoryRegionType::Usable && region.range.start_frame_number
                < region.range.end_frame_number {
                let count: u64 = region.range.end_frame_number - region.range.start_frame_number;
                if skip < count {
                    proof {
                        assert(region_is_source(map[i as int]));
                        lemma_usable_frames_prefix(map, i + 1);
                        let upto = usable_frames(map.take(i + 1));
                        let base = usable_frames(map.take(i as int));
                        assert(upto == base + region_frames(map[i as int]));
                        assert(upto[n as int] == region_frames(map[i as int])[skip as int]);
                        assert(upto[n as int] == usable_frames(map)[n as int]);
                    }
                    let number: u64 = region.range.start_frame_number + skip;
                    let start: u64 = number * 4096;
                    let address: PhysAddr = PhysAddr::new(start);
                    return Some(PhysFrame::containing_address(address));
                }
                skip = skip - count;
            }
            i += 1;
        }
        proof {
            assert(map.take(i as int) =~= map);
        }
        None
    }
}

impl FrameAllocator for BootInfoFrameAllocator {
    open spec fn wf(&self) -> bool {
        &&& memory_map_wf(self.memory_map())
        &&& self.frames() == usable_frames(self.memory_map())
        &&& self.issued_count() <= self.frames().len()
    }

    open spec fn remaining(&self) -> Seq<u64> {
        self.frames().skip(self.issued_count() as int)
    }

    /// The next frame of the memory map that has not been handed out, or
    /// nothing once every usable frame has been. A frame that is handed out
    /// was never handed out before.
    fn allocate_frame(&mut self) -> (frame: Option<PhysFrame>)
        ensures
            final(self).memory_map() == old(self).memory_map(),
            final(self).frames() == old(self).frames(),
            match frame {
                Some(f) => {
                    &&& !old(self).issued().contains(f@)
                    &&& final(self).issued() == old(self).issued().push(f@)
                },
                None => final(self).issued() == old(self).issued(),
            },
    {
        let frame: Option<PhysFrame> = self.usable_frame(self.next);
        if frame.is_some() {
            proof {
                lemma_usable_frames_ascend(self.memory_map@);
                assert(self.frames().len() <= u64::MAX) by {
                    self.lemma_frame_count();
                }
                let frames = self.frames();
                let n = self.next as int;
                if self.issued().contains(frames[n]) {
                    let b = choose|b: int| 0 <= b < self.issued().len() && self.issued()[b] == frames[n];
                    assert(frames[b] < frames[n]);
                }
            }
            self.next = self.next + 1;
            proof {
                assert(old(self).frames().skip(old(self).next as int).skip(1) =~= self.frames().skip(
                    self.next as int,
                ));
                assert(self.issued() =~= old(self).issued().push(self.frames()[old(self).next as int]));
            }
        }
        frame
    }
}

impl BootInfoFrameAllocator {
    /// There are no more frames than physical memory holds.
    proof fn lemma_frame_count(&self)
        requires
            memory_map_wf(self.memory_map@),
        ensures
            self.frames().len() <= FRAME_NUMBER_LIMIT,
    {
        lemma_usable_frames_ascend(self.memory_map@);
        let frames = self.frames();
        if frames.len() > 0 {
            lemma_ascending_bound(frames, frames.len() as int - 1);
        }
    }

    /// A frame that is handed out was never handed out before, and once the
    /// allocator has answered with nothing it hands out no frame again.
    pub proof fn lemma_frames_are_distinct(&self)
        requires
            self.wf(),
        ensures
            forall|a: int, b: int|
                0 <= a < b < self.frames().len() ==> self.frames()[a] != self.frames()[b],
            forall|a: int|
                0 <= a < self.remaining().len() ==> !self.issued().contains(
                    #[trigger] self.remaining()[a],
                ),
            forall|a: int, b: int|
                0 <= a < b < self.remaining().len() ==> self.remaining()[a] != self.remaining()[b],
    {
        lemma_usable_frames_ascend(self.memory_map@);
        let frames = self.frames();
        let n = self.issued_count() as int;
        assert forall|a: int| 0 <= a < self.remaining().len() implies !self.issued().contains(
            #[trigger] self.remaining()[a],
        ) by {
            if self.issued().contains(self.remaining()[a]) {
                let b = choose|b: int|
                    0 <= b < self.issued().len() && self.issued()[b] == self.remaining()[a];
                assert(frames[b] < frames[a + n]);
            }
        }
        assert forall|a: int, b: int| 0 <= a < b < self.remaining().len() implies self.remaining()[a]
            != self.remaining()[b] by {
            assert(frames[a + n] < frames[b + n]);
        }
    }
}

/// In a strictly ascending sequence of multiples of 4096, the element at `k`
/// is at least `k` frames from 0.
proof fn lemma_ascending_bound(frames: Seq<u64>, k: int)
    requires
        0 <= k < frames.len(),
        forall|a: int, b: int| 0 <= a < b < frames.len() ==> frames[a] < frames[b],
        forall|a: int| 0 <= a < frames.len() ==> (#[trigger] frames[a]) % 4096 == 0,
        forall|a: int| 0 <= a < frames.len() ==> (#[trigger] frames[a]) < PHYS_ADDR_LIMIT,
    ensures
        frames[k] >= k * 4096,
        k < FRAME_NUMBER_LIMIT,
    decreases k,
{
    if k > 0 {
        lemma_ascending_bound(frames, k - 1);
        assert(frames[k - 1] < frames[k]);
    }
}

/// An allocator that has no frame to give.
pub struct EmptyFrameAllocator;

impl FrameAllocator for EmptyFrameAllocator {
    open spec fn wf(&self) -> bool {
        true
    }

    open spec fn remaining(&self) -> Seq<u64> {
        Seq::empty()
    }

    fn allocate_frame(&mut self) -> (frame: Option<PhysFrame>) {
        None
    }
}

/// The address space rooted in `level_4_frame`, with all physical memory
/// visible from `physical_memory_offset` on. No entry of its tables is in use
/// yet.
pub fn init(level_4_frame: PhysFrame, physical_memory_offset: VirtAddr) -> (r: OffsetPageTable)
    ensures
        r.wf(),
        r.root() == level_4_frame@,
        r.offset() == physical_memory_offset@,
        forall|addr: u64|
            #[trigger] r.translation(addr) == Err::<u64, TranslateError>(
                TranslateError::TranslationMiss,
            ),
        forall|addr: u64|
            #[trigger] r.page_status(addr) == (PageStatus::Mappable { missing: 3 }),
        forall|frame: u64| frame != level_4_frame@ ==> #[trigger] r.unused(frame),
{
    let r = OffsetPageTable::new(level_4_frame, physical_memory_offset);
    proof {
        assert(0u64 & 1 == 0) by (bit_vector);
    }
    r
}

/// Frames of which no two are the same can be handed to an address space in
/// which they are in no use.
pub proof fn lemma_frames_unused(mapper: OffsetPageTable, frames: Seq<u64>)
    requires
        forall|i: int| 0 <= i < frames.len() ==> mapper.unused(#[trigger] frames[i]),
        forall|i: int, j: int| 0 <= i < j < frames.len() ==> frames[i] != frames[j],
    ensures
        mapper.frames_unused(frames),
{
    reveal(OffsetPageTable::frames_unused);
}

/// The virtual address at which the contents of `frame` are visible, given
/// the offset at which physical memory starts: nothing where the sum is no
/// address.
pub fn active_level_4_table(level_4_frame: PhysFrame, physical_memory_offset: VirtAddr) -> (r:
    Option<VirtAddr>)
    ensures
        match r {
            Some(a) => physical_memory_offset@ + level_4_frame@ <= u64::MAX
                && crate::addr::canonical_form((physical_memory_offset@ + level_4_frame@) as u64)
                == Some(a@),
            None => physical_memory_offset@ + level_4_frame@ > u64::MAX
                || crate::addr::canonical_form((physical_memory_offset@ + level_4_frame@) as u64)
                is None,
        },
{
    physical_memory_offset.checked_add(level_4_frame.start_address().as_u64())
}

/// The frame of the VGA text buffer.
pub const TEXT_BUFFER_FRAME: u64 = 0xb8000;

/// Maps `page` to the frame of the VGA text buffer, writable, and returns
/// the page whose translation is to be flushed. What comes back, and what
/// becomes of the frames of the allocator, is as `map_to` has it.
pub fn create_example_mapping<A: FrameAllocator>(
    page: Page,
    mapper: &mut OffsetPageTable,
    frame_allocator: &mut A,
) -> (r: Result<MapperFlush, MapToError>)
    requires
        old(mapper).wf(),
        old(frame_allocator).wf(),
        old(mapper).frames_unused(old(frame_allocator).remaining()),
    ensures
        final(mapper).wf(),
        final(frame_allocator).wf(),
        old(mapper).extended_by(*final(mapper)),
        old(mapper).kept_off_walk(*final(mapper), page@),
        old(mapper).flags_added(*final(mapper), 3),
        match old(mapper).page_status(page@) {
            PageStatus::Mappable { missing } => if missing <= old(frame_allocator).remaining().len() {
                &&& r == Ok::<MapperFlush, MapToError>(MapperFlush { page })
                &&& final(frame_allocator).remaining() == old(frame_allocator).remaining().skip(
                    missing as int,
                )
                &&& forall|a: u64|
                    a / 4096 == page@ / 4096 ==> #[trigger] final(mapper).translation(a) == Ok::<
                        u64,
                        TranslateError,
                    >((TEXT_BUFFER_FRAME + a % 4096) as u64)
                &&& forall|a: u64|
                    a / 4096 == page@ / 4096 ==> #[trigger] final(mapper).is_writable(a)
                &&& forall|a: u64|
                    a / 4096 == page@ / 4096 ==> #[trigger] final(mapper).page_entry(a)
                        == TEXT_BUFFER_FRAME | 3
                &&& old(mapper).parents_set(
                    *final(mapper),
                    page@,
                    old(frame_allocator).remaining(),
                    3,
                    missing as int,
                )
                &&& forall|q: u64|
                    q / 4096 / 512 == page@ / 4096 / 512 && q / 4096 != page@ / 4096
                        ==> #[trigger] final(mapper).page_status(q) == settled(
                        old(mapper).page_status(q),
                    )
                &&& old(mapper).pages_joined(*final(mapper), page@, missing)
            } else {
                &&& r == Err::<MapperFlush, MapToError>(MapToError::FrameAllocationFailed)
                &&& final(frame_allocator).remaining().len() == 0
                &&& forall|q: u64|
                    q / 4096 / 512 == page@ / 4096 / 512 ==> #[trigger] final(mapper).page_status(q)
                        == (PageStatus::Mappable {
                        missing: (missing - old(frame_allocator).remaining().len()) as u8,
                    })
            },
            PageStatus::HugeParent => {
                &&& r == Err::<MapperFlush, MapToError>(MapToError::ParentEntryHugePage)
                &&& final(frame_allocator).remaining() == old(frame_allocator).remaining()
                &&& forall|q: u64|
                    #[trigger] final(mapper).page_status(q) == old(mapper).page_status(q)
            },
            PageStatus::AlreadyMapped => {
                &&& r == Err::<MapperFlush, MapToError>(
                    MapToError::PageAlreadyMapped(PhysFrame::at(TEXT_BUFFER_FRAME)),
                )
                &&& final(frame_allocator).remaining() == old(frame_allocator).remaining()
                &&& forall|q: u64|
                    #[trigger] final(mapper).page_status(q) == old(mapper).page_status(q)
            },
        },
        r is Err || !old(frame_allocator).remaining().contains(TEXT_BUFFER_FRAME) ==> final(mapper).frames_unused(final(frame_allocator).remaining()),
{
    let frame: PhysFrame = PhysFrame::containing_address(PhysAddr::new(TEXT_BUFFER_FRAME));
    let flags = PageTableFlags { writable: true, user_accessible: false };
    proof {
        frame.lemma_at();
    }
    mapper.map_to(page, frame, flags, frame_allocator)
}

/// The physical address that `addr` is mapped to, if it is mapped.
pub fn translate_addr(mapper: &OffsetPageTable, addr: VirtAddr) -> (r: Option<PhysAddr>)
    requires
        mapper.wf(),
        mapper.translation(addr@) != Err::<u64, TranslateError>(
            TranslateError::UnsupportedMapping,
        ),
    ensures
        match r {
            Some(p) => mapper.translation(addr@) == Ok::<u64, TranslateError>(p@),
            None => mapper.translation(addr@) == Err::<u64, TranslateError>(
                TranslateError::TranslationMiss,
            ),
        },
{
    translate_addr_inner(mapper, addr)
}

/// The translation of an address whose walk meets no huge entry: the
/// physical address of the byte, or `None` where an entry on the walk is not
/// present. `resolve` tells beforehand whether the walk meets a huge entry.
pub fn translate_addr_inner(mapper: &OffsetPageTable, addr: VirtAddr) -> (r: Option<PhysAddr>)
    requires
        mapper.wf(),
        mapper.translation(addr@) != Err::<u64, TranslateError>(
            TranslateError::UnsupportedMapping,
        ),
    ensures
        match r {
            Some(p) => mapper.translation(addr@) == Ok::<u64, TranslateError>(p@),
            None => mapper.translation(addr@) == Err::<u64, TranslateError>(
                TranslateError::TranslationMiss,
            ),
        },
{
    match resolve(mapper, addr) {
        Ok(p) => Some(p),
        Err(_) => None,
    }
}

/// A level of the hierarchy of tables, the root being of level four.
#[derive(Clone, Copy, PartialEq, Eq, Structural, Debug)]
pub enum Level {
    Four,
    Three,
    Two,
    One,
}

impl Level {
    /// The index of the entry for `addr` in a table of this level: the
    /// level's 9-bit slice of the address.
    pub open spec fn index_of(self, addr: u64) -> int {
        match self {
            Level::Four => p4_index_of(addr),
            Level::Three => p3_index_of(addr),
            Level::Two => p2_index_of(addr),
            Level::One => p1_index_of(addr),
        }
    }

    /// The level's number, 4 for the root.
    pub open spec fn rank(self) -> int {
        match self {
            Level::Four => 4,
            Level::Three => 3,
            Level::Two => 2,
            Level::One => 1,
        }
    }
}

/// What a walk does next: it reads one more entry, or it has ended.
#[derive(Clone, Copy, PartialEq, Eq, Structural, Debug)]
pub enum WalkStep {
    /// The entry at `index` of the table in `table`, a table of `level`, is
    /// to be read.
    Read { level: Level, table: PhysFrame, index: u16 },
    /// The address is mapped to this physical address.
    Mapped(PhysAddr),
    /// An entry on the way is not present.
    Unmapped,
    /// An entry on the way maps a huge frame.
    Unsupported,
}

/// What the walk for `addr` finds from the table in `table` on, a table of
/// `level`.
pub open spec fn walk_from(mapper: OffsetPageTable, level: Level, table: u64, addr: u64) -> Result<
    u64,
    TranslateError,
>
    decreases level.rank(),
{
    match crate::paging::walk_step(mapper.entry_at(table, level.index_of(addr))) {
        Err(e) => Err(e),
        Ok(next) => match level {
            Level::Four => walk_from(mapper, Level::Three, next, addr),
            Level::Three => walk_from(mapper, Level::Two, next, addr),
            Level::Two => walk_from(mapper, Level::One, next, addr),
            Level::One => Ok((next + addr % 4096) as u64),
        },
    }
}

/// The translation of an address is what the walk finds from the root on.
pub proof fn lemma_walk_from_root(mapper: OffsetPageTable, addr: u64)
    ensures
        walk_from(mapper, Level::Four, mapper.root(), addr) == mapper.translation(addr),
{
    reveal_with_fuel(walk_from, 5);
}

/// What an ended walk has found, in the terms of a translation.
pub open spec fn walk_result(step: WalkStep) -> Result<u64, TranslateError> {
    match step {
        WalkStep::Mapped(p) => Ok(p@),
        WalkStep::Unsupported => Err(TranslateError::UnsupportedMapping),
        _ => Err(TranslateError::TranslationMiss),
    }
}

/// The first step of the walk for `addr`: the root's entry for it is read.
pub fn walk_start(level_4_frame: PhysFrame, addr: VirtAddr) -> (r: WalkStep)
    ensures
        r == (WalkStep::Read {
            level: Level::Four,
            table: level_4_frame,
            index: p4_index_of(addr@) as u16,
        }),
{
    WalkStep::Read { level: Level::Four, table: level_4_frame, index: addr.p4_index() }
}

/// The step after an entry of a table of `level` was read and `found` is
/// what it leads to. The walk ends at an entry that is not present and at
/// one that maps a huge frame. Below level one lies the frame of the page:
/// the address is mapped to the byte at its offset in that frame.
pub fn walk_next(level: Level, found: Result<PhysFrame, FrameError>, addr: VirtAddr) -> (r:
    WalkStep)
    ensures
        match found {
            Err(FrameError::FrameNotPresent) => r == WalkStep::Unmapped,
            Err(FrameError::HugeFrame) => r == WalkStep::Unsupported,
            Ok(f) => match level {
                Level::Four => r == (WalkStep::Read {
                    level: Level::Three,
                    table: f,
                    index: p3_index_of(addr@) as u16,
                }),
                Level::Three => r == (WalkStep::Read {
                    level: Level::Two,
                    table: f,
                    index: p2_index_of(addr@) as u16,
                }),
                Level::Two => r == (WalkStep::Read {
                    level: Level::One,
                    table: f,
                    index: p1_index_of(addr@) as u16,
                }),
                Level::One => r matches WalkStep::Mapped(p) && p@ == f@ + addr@ % 4096,
            },
        },
{
    let f: PhysFrame = match found {
        Ok(f) => f,
        Err(FrameError::FrameNotPresent) => {
            return WalkStep::Unmapped;
        },
        Err(FrameError::HugeFrame) => {
            return WalkStep::Unsupported;
        },
    };
    match level {
        Level::Four => WalkStep::Read { level: Level::Three, table: f, index: addr.p3_index() },
        Level::Three => WalkStep::Read { level: Level::Two, table: f, index: addr.p2_index() },
        Level::Two => WalkStep::Read { level: Level::One, table: f, index: addr.p1_index() },
        Level::One => {
            let offset: u64 = addr.page_offset() as u64;
            match f.start_address().checked_add(offset) {
                Some(p) => WalkStep::Mapped(p),
                None => WalkStep::Unmapped,
            }
        },
    }
}

/// Walks the four levels for `addr`, each indexed by its slice of the
/// address: the physical address of the byte, `TranslationMiss` at the first
/// entry that is not present, `UnsupportedMapping` at the first that maps a
/// huge frame.
pub fn resolve(mapper: &OffsetPageTable, addr: VirtAddr) -> (r: Result<PhysAddr, TranslateError>)
    requires
        mapper.wf(),
    ensures
        match r {
            Ok(p) => mapper.translation(addr@) == Ok::<u64, TranslateError>(p@),
            Err(e) => mapper.translation(addr@) == Err::<u64, TranslateError>(e),
        },
{
    let mut step: WalkStep = walk_start(mapper.level_4_frame(), addr);
    proof {
        lemma_walk_from_root(*mapper, addr@);
    }
    loop
        invariant
            mapper.wf(),
            match step {
                WalkStep::Read { level, table, index } => index == level.index_of(addr@)
                    && walk_from(*mapper, level, table@, addr@) == mapper.translation(addr@),
                _ => walk_result(step) == mapper.translation(addr@),
            },
        decreases
            (match step {
                WalkStep::Read { level, table, index } => level.rank(),
                _ => 0,
            }),
    {
        match step {
            WalkStep::Read { level, table, index } => {
                let found = mapper.next_frame(table, index);
                step = walk_next(level, found, addr);
            },
            WalkStep::Mapped(p) => {
                return Ok(p);
            },
            WalkStep::Unmapped => {
                return Err(TranslateError::TranslationMiss);
            },
            WalkStep::Unsupported => {
                return Err(TranslateError::UnsupportedMapping);
            },
        }
    }
}

} // verus!

//! The kernel heap: the pages that back it, and the allocator that serves
//! requests from it.

use vstd::prelude::*;
use crate::addr::{Page, PhysFrame, VirtAddr};
use crate::free_list::{FreeList, FREE_LIST_CAPACITY};
use crate::paging::{
    settled, FrameAllocator, MapToError, OffsetPageTable, PageStatus, PageTableFlags,
    TranslateError,
};

verus! {

/// The virtual address at which the heap starts.
pub const HEAP_START: u64 = 0x4444_4444_0000;

/// The size of the heap in bytes.
pub const HEAP_SIZE: u64 = 100 * 1024;

/// The number of pages that hold the heap.
pub const HEAP_PAGES: u64 = 25;

/// The start address of the heap's page number `k`.
pub open spec fn heap_page(k: int) -> u64 {
    (HEAP_START + k * 4096) as u64
}

/// The status of the heap's page `k` when its turn comes: by then the tables
/// above it exist if the page is not the first.
pub open spec fn heap_page_status(mapper: OffsetPageTable, k: int) -> PageStatus {
    if k == 0 {
        mapper.page_status(heap_page(k))
    } else {
        settled(mapper.page_status(heap_page(k)))
    }
}

/// How the mapping of the heap's pages from page `k` on ends when the last
/// `left` of `frames` are available. The pages are taken in ascending
/// order. Each needs a frame of its own, and the tables that are missing
/// above it; the first page that cannot be had ends the work with its error.
/// A page that is mapped already is refused with the frame taken for it.
pub open spec fn heap_outcome(mapper: OffsetPageTable, frames: Seq<u64>, k: int, left: int) -> Result<
    (),
    MapToError,
>
    decreases 25 - k,
{
    if k >= 25 || k < 0 {
        Ok(())
    } else if left < 1 {
        Err(MapToError::FrameAllocationFailed)
    } else {
        match heap_page_status(mapper, k) {
            PageStatus::Mappable { missing } => if left - 1 < missing {
                Err(MapToError::FrameAllocationFailed)
            } else {
                heap_outcome(mapper, frames, k + 1, left - 1 - missing)
            },
            PageStatus::HugeParent => Err(MapToError::ParentEntryHugePage),
            PageStatus::AlreadyMapped => Err(
                MapToError::PageAlreadyMapped(PhysFrame::at(frames[frames.len() - left])),
            ),
        }
    }
}

/// The first of the heap's pages from page `k` on that cannot be had when
/// `left` frames are available, 25 if each can be had.
pub open spec fn heap_failing_page(mapper: OffsetPageTable, k: int, left: int) -> int
    decreases 25 - k,
{
    if k >= 25 || k < 0 {
        25
    } else if left < 1 {
        k
    } else {
        match heap_page_status(mapper, k) {
            PageStatus::Mappable { missing } => if left - 1 < missing {
                k
            } else {
                heap_failing_page(mapper, k + 1, left - 1 - missing)
            },
            _ => k,
        }
    }
}

/// The number of tables that are made for the heap: those missing above its
/// first page.
pub open spec fn heap_tables_missing(mapper: OffsetPageTable) -> int {
    match mapper.page_status(heap_page(0)) {
        PageStatus::Mappable { missing } => missing as int,
        _ => 0,
    }
}

/// The position, among the frames that the allocator hands out, of the frame
/// that backs the heap's page `k`: the first page's frame comes first, then
/// the tables, then the other pages' frames.
pub open spec fn heap_backing_index(mapper: OffsetPageTable, k: int) -> int {
    if k == 0 {
        0
    } else {
        heap_tables_missing(mapper) + k
    }
}

/// The number of frames that are gone from the allocator when the heap
/// cannot be had because of page `k`: all of them where frames ran out,
/// else those of the pages before page `k`, of the tables, and the one taken
/// for page `k`.
pub open spec fn heap_frames_taken(mapper: OffsetPageTable, left: int, k: int, e: MapToError) -> int {
    if e == MapToError::FrameAllocationFailed {
        left
    } else if k == 0 {
        1
    } else {
        k + 1 + heap_tables_missing(mapper)
    }
}

/// Where the heap's page `j` stands when the heap cannot be had because of
/// page `k <= j`: as it stood when the turn of page `k` came, but for the
/// tables that were made for the first page before the frames ran out.
pub open spec fn heap_status_at_failure(mapper: OffsetPageTable, left: int, k: int, j: int) -> PageStatus {
    if k > 0 {
        settled(mapper.page_status(heap_page(j)))
    } else {
        match mapper.page_status(heap_page(0)) {
            PageStatus::Mappable { missing } if left >= 1 && missing > left - 1 => PageStatus::Mappable {
                missing: (missing - (left - 1)) as u8,
            },
            _ => mapper.page_status(heap_page(j)),
        }
    }
}

/// Bits that are set stay set when they are set again.
proof fn lemma_twice_set(entry: u64)
    by (bit_vector)
    ensures
        (entry | 3) | 3 == entry | 3,
{
}

/// An extension keeps what the heap's pages before page `k` are mapped to.
proof fn lemma_heap_kept(
    before: OffsetPageTable,
    after: OffsetPageTable,
    backing: spec_fn(int) -> u64,
    k: int,
)
    requires
        before.extended_by(after),
        before.flags_added(after, 3),
        forall|j: int, a: u64|
            #![trigger before.translation(a), in_heap_page(a, j)]
            0 <= j < k && in_heap_page(a, j) ==> before.translation(a) == Ok::<u64, TranslateError>(
                (backing(j) + a % 4096) as u64,
            ) && before.is_writable(a) && before.page_entry(a) == backing(j) | 3,
    ensures
        forall|j: int, a: u64|
            #![trigger after.translation(a), in_heap_page(a, j)]
            0 <= j < k && in_heap_page(a, j) ==> after.translation(a) == Ok::<u64, TranslateError>(
                (backing(j) + a % 4096) as u64,
            ) && after.is_writable(a) && after.page_entry(a) == backing(j) | 3,
{
    assert forall|j: int, a: u64|
        #![trigger after.translation(a), in_heap_page(a, j)]
        0 <= j < k && in_heap_page(a, j) implies after.translation(a) == Ok::<u64, TranslateError>(
        (backing(j) + a % 4096) as u64,
    ) && after.is_writable(a) && after.page_entry(a) == backing(j) | 3 by {
        assert(before.translation(a) == Ok::<u64, TranslateError>((backing(j) + a % 4096) as u64)
            && before.is_writable(a) && before.page_entry(a) == backing(j) | 3);
        before.lemma_extension_keeps_translation(after, a);
        lemma_twice_set(backing(j));
        before.lemma_page_entry_kept(after, a, 3);
    }
}

/// Whether the walk for one of the heap's first `n` pages reads the entry at
/// `index` of the table in `table`.
pub open spec fn on_heap_walk(mapper: OffsetPageTable, n: int, table: u64, index: int) -> bool {
    exists|j: int| 0 <= j < n && #[trigger] mapper.on_walk(heap_page(j), table, index)
}

/// Every entry of `after` that the walks for the heap's first `n` pages do
/// not read is as it is in `before`.
#[verifier::opaque]
pub open spec fn kept_off_heap(before: OffsetPageTable, after: OffsetPageTable, n: int) -> bool {
    forall|t: u64, i: int|
        #![trigger after.entry_at(t, i)]
        !on_heap_walk(after, n, t, i) ==> after.entry_at(t, i) == before.entry_at(t, i)
}

/// Nothing is changed where nothing was done.
proof fn lemma_kept_off_heap_refl(mapper: OffsetPageTable, n: int)
    ensures
        kept_off_heap(mapper, mapper, n),
{
    reveal(kept_off_heap);
}

/// The entries off the walks of the heap's first `k` pages are off the walks
/// of its first `n >= k` pages.
proof fn lemma_kept_off_heap_more(before: OffsetPageTable, after: OffsetPageTable, k: int, n: int)
    requires
        kept_off_heap(before, after, k),
        k <= n,
    ensures
        kept_off_heap(before, after, n),
{
    reveal(kept_off_heap);
    assert forall|t: u64, i: int| #![trigger after.entry_at(t, i)] !on_heap_walk(after, n, t, i) implies after.entry_at(
        t,
        i,
    ) == before.entry_at(t, i) by {
        if on_heap_walk(after, k, t, i) {
            let j = choose|j: int| 0 <= j < k && #[trigger] after.on_walk(heap_page(j), t, i);
            assert(after.on_walk(heap_page(j), t, i));
        }
    }
}

/// A call for the heap's page `k` changes no entry off the walks of the
/// heap's pages up to that one.
proof fn lemma_kept_off_heap_step(
    first: OffsetPageTable,
    before: OffsetPageTable,
    after: OffsetPageTable,
    k: int,
)
    requires
        0 <= k < 25,
        kept_off_heap(first, before, k),
        before.extended_by(after),
        before.kept_off_walk(after, heap_page(k)),
        forall|j: int, a: u64|
            #![trigger before.translation(a), in_heap_page(a, j)]
            0 <= j < k && in_heap_page(a, j) ==> before.translation(a) is Ok,
    ensures
        kept_off_heap(first, after, k + 1),
{
    reveal(kept_off_heap);
    reveal(OffsetPageTable::kept_off_walk);
    assert forall|t: u64, i: int| #![trigger after.entry_at(t, i)] !on_heap_walk(after, k + 1, t, i) implies after.entry_at(
        t,
        i,
    ) == first.entry_at(t, i) by {
        assert(!after.on_walk(heap_page(k), t, i));
        assert(after.entry_at(t, i) == before.entry_at(t, i));
        if on_heap_walk(before, k, t, i) {
            let j = choose|j: int| 0 <= j < k && #[trigger] before.on_walk(heap_page(j), t, i);
            assert(in_heap_page(heap_page(j), j));
            assert(before.translation(heap_page(j)) is Ok);
            before.lemma_walk_kept(after, heap_page(j));
            assert(after.on_walk(heap_page(j), t, i));
        }
        assert(before.entry_at(t, i) == first.entry_at(t, i));
    }
}

/// What the setting up of the heap leaves alone, whether it went through all
/// its pages or stopped after the first `n`. A page that was mapped, or
/// stood below a huge entry, stands as it stood. A page that could be
/// mapped, and whose first unused entry none of the walks for the heap's
/// pages reads, can be mapped as before, and no address in it is mapped to
/// anything.
pub proof fn lemma_heap_leaves_pages(
    before: OffsetPageTable,
    after: OffsetPageTable,
    n: int,
    q: u64,
)
    requires
        before.extended_by(after),
        kept_off_heap(before, after, n),
        before.page_status(q) is Mappable ==> !on_heap_walk(
            after,
            n,
            before.first_unused(q).0,
            before.first_unused(q).1,
        ),
    ensures
        after.page_status(q) == before.page_status(q),
        before.page_status(q) is Mappable ==> after.translation(q) == Err::<u64, TranslateError>(
            TranslateError::TranslationMiss,
        ),
{
    reveal(kept_off_heap);
    if before.page_status(q) is Mappable {
        let (t, i) = before.first_unused(q);
        assert(after.entry_at(t, i) == before.entry_at(t, i));
    }
    before.lemma_status_kept(after, q);
}

/// The pages that hold the heap, in ascending order.
pub fn heap_pages() -> (pages: Vec<Page>)
    ensures
        pages@.len() == 25,
        forall|k: int| 0 <= k < 25 ==> (#[trigger] pages@[k])@ == heap_page(k),
{
    let heap_start: VirtAddr = VirtAddr::new(HEAP_START);
    let heap_end: VirtAddr = VirtAddr::new(HEAP_START + HEAP_SIZE - 1);
    let first: u64 = Page::containing_address(heap_start).start_address().as_u64();
    let last: u64 = Page::containing_address(heap_end).start_address().as_u64();
    let mut pages: Vec<Page> = Vec::new();
    let mut at: u64 = first;
    while at <= last
        invariant
            first == HEAP_START,
            last == HEAP_START + 24 * 4096,
            at == HEAP_START + pages@.len() * 4096,
            pages@.len() <= 25,
            forall|k: int| 0 <= k < pages@.len() ==> (#[trigger] pages@[k])@ == heap_page(k),
        decreases last + 4096 - at,
    {
        pages.push(Page::containing_address(VirtAddr::new(at)));
        at = at + 4096;
    }
    pages
}

/// When the mapping of the heap's pages from page `k` on succeeds: when each
/// of them can be mapped and there is a frame for each.
proof fn lemma_heap_outcome_from(mapper: OffsetPageTable, frames: Seq<u64>, k: int, left: int)
    requires
        1 <= k <= 25,
    ensures
        heap_outcome(mapper, frames, k, left) is Ok <==> (forall|j: int|
            k <= j < 25 ==> #[trigger] mapper.page_status(heap_page(j)) is Mappable) && (k < 25
            ==> left >= 25 - k),
    decreases 25 - k,
{
    if k < 25 {
        lemma_heap_outcome_from(mapper, frames, k + 1, left - 1);
        assert(heap_page_status(mapper, k) == settled(mapper.page_status(heap_page(k))));
        if heap_outcome(mapper, frames, k, left) is Ok {
            assert forall|j: int| k <= j < 25 implies #[trigger] mapper.page_status(
                heap_page(j),
            ) is Mappable by {
                if j > k {
                }
            }
        }
    }
}

/// The heap can be had exactly when each of its pages can be mapped and the
/// allocator holds a frame for each page and for each table that is missing
/// above the first.
pub proof fn lemma_heap_outcome(mapper: OffsetPageTable, frames: Seq<u64>, left: int)
    ensures
        heap_outcome(mapper, frames, 0, left) is Ok <==> (forall|j: int|
            0 <= j < 25 ==> #[trigger] mapper.page_status(heap_page(j)) is Mappable) && left >= 25
            + heap_tables_missing(mapper),
        (forall|j: int| 0 <= j < 25 ==> #[trigger] mapper.page_status(heap_page(j)) is Mappable)
            && left < 25 + heap_tables_missing(mapper) ==> heap_outcome(mapper, frames, 0, left) == Err::<
            (),
            MapToError,
        >(MapToError::FrameAllocationFailed),
{
    let missing = heap_tables_missing(mapper);
    lemma_heap_outcome_from(mapper, frames, 1, left - 1 - missing);
    if forall|j: int| 0 <= j < 25 ==> #[trigger] mapper.page_status(heap_page(j)) is Mappable {
        assert(mapper.page_status(heap_page(0)) is Mappable);
        if left < 25 + missing {
            lemma_heap_fails_from(mapper, frames, 1, left - 1 - missing);
        }
    }
    if heap_outcome(mapper, frames, 0, left) is Ok {
        assert forall|j: int| 0 <= j < 25 implies #[trigger] mapper.page_status(
            heap_page(j),
        ) is Mappable by {
            if j > 0 {
            }
        }
    }
}

/// Where each page from page `k` on can be mapped and frames run out, the
/// error is that of the frame allocator.
proof fn lemma_heap_fails_from(mapper: OffsetPageTable, frames: Seq<u64>, k: int, left: int)
    requires
        1 <= k < 25,
        forall|j: int| k <= j < 25 ==> #[trigger] mapper.page_status(heap_page(j)) is Mappable,
        left < 25 - k,
    ensures
        heap_outcome(mapper, frames, k, left) == Err::<(), MapToError>(MapToError::FrameAllocationFailed),
    decreases 25 - k,
{
    assert(mapper.page_status(heap_page(k)) is Mappable);
    assert(heap_page_status(mapper, k) == settled(mapper.page_status(heap_page(k))));
    if left >= 1 {
        lemma_heap_fails_from(mapper, frames, k + 1, left - 1);
    }
}

/// Where the heap's pages after page `k` stand once page `k` is mapped.
#[verifier::rlimit(50)]
proof fn lemma_heap_statuses(
    m0: OffsetPageTable,
    before: OffsetPageTable,
    after: OffsetPageTable,
    k: int,
)
    requires
        0 <= k < 25,
        forall|j: int|
            k <= j < 25 ==> #[trigger] before.page_status(heap_page(j)) == (if k == 0 {
                m0.page_status(heap_page(j))
            } else {
                settled(m0.page_status(heap_page(j)))
            }),
        forall|q: u64|
            q / 4096 / 512 == heap_page(k) / 4096 / 512 && q / 4096 != heap_page(k) / 4096
                ==> #[trigger] after.page_status(q) == settled(before.page_status(q)),
    ensures
        forall|j: int|
            k + 1 <= j < 25 ==> #[trigger] after.page_status(heap_page(j)) == settled(
                m0.page_status(heap_page(j)),
            ),
{
    assert forall|j: int| k + 1 <= j < 25 implies #[trigger] after.page_status(heap_page(j))
        == settled(m0.page_status(heap_page(j))) by {
        let q = heap_page(j);
        assert(q / 4096 / 512 == heap_page(k) / 4096 / 512);
        assert(q / 4096 != heap_page(k) / 4096);
        assert(after.page_status(q) == settled(before.page_status(q)));
        assert(before.page_status(q) == (if k == 0 {
            m0.page_status(q)
        } else {
            settled(m0.page_status(q))
        }));
    }
}

/// Whether an address lies in the heap's page `k`.
pub open spec fn in_heap_page(a: u64, k: int) -> bool {
    0 <= k < 25 && a / 4096 == heap_page(k) / 4096
}

/// What the heap's pages up to page `k` are mapped to once page `k` is
/// mapped.
#[verifier::rlimit(50)]
proof fn lemma_heap_translations(
    before: OffsetPageTable,
    after: OffsetPageTable,
    backing: spec_fn(int) -> u64,
    k: int,
)
    requires
        0 <= k < 25,
        before.extended_by(after),
        before.flags_added(after, 3),
        forall|j: int, a: u64|
            #![trigger before.translation(a), in_heap_page(a, j)]
            0 <= j < k && in_heap_page(a, j) ==> before.translation(a) == Ok::<u64, TranslateError>(
                (backing(j) + a % 4096) as u64,
            ) && before.is_writable(a) && before.page_entry(a) == backing(j) | 3,
        forall|a: u64|
            #![trigger after.translation(a)]
            in_heap_page(a, k) ==> after.translation(a) == Ok::<u64, TranslateError>(
                (backing(k) + a % 4096) as u64,
            ) && after.is_writable(a) && after.page_entry(a) == backing(k) | 3,
    ensures
        forall|j: int, a: u64|
            #![trigger after.translation(a), in_heap_page(a, j)]
            0 <= j < k + 1 && in_heap_page(a, j) ==> after.translation(a) == Ok::<u64, TranslateError>(
                (backing(j) + a % 4096) as u64,
            ) && after.is_writable(a) && after.page_entry(a) == backing(j) | 3,
{
    assert forall|j: int, a: u64|
        #![trigger after.translation(a), in_heap_page(a, j)]
        0 <= j < k + 1 && in_heap_page(a, j) implies after.translation(a) == Ok::<
        u64,
        TranslateError,
    >((backing(j) + a % 4096) as u64) && after.is_writable(a) && after.page_entry(a) == backing(j) | 3 by {
        if j < k {
            assert(before.translation(a) == Ok::<u64, TranslateError>(
                (backing(j) + a % 4096) as u64,
            ) && before.is_writable(a) && before.page_entry(a) == backing(j) | 3);
            before.lemma_extension_keeps_translation(after, a);
            lemma_twice_set(backing(j));
            before.lemma_page_entry_kept(after, a, 3);
        }
    }
}

/// Backs every page of the heap with a frame of its own, writable, and hands
/// back the allocator for the heap once all of them are.
///
/// On an error the heap is not to be used: some of its pages may be mapped,
/// and no allocator comes back. The caller flushes the heap's pages from the
/// translation cache before the first request to the allocator.
#[verifier::rlimit(100)]
pub fn init_heap<A: FrameAllocator>(mapper: &mut OffsetPageTable, frame_allocator: &mut A) -> (r:
    Result<HeapAllocator, MapToError>)
    requires
        old(mapper).wf(),
        old(frame_allocator).wf(),
        old(mapper).frames_unused(old(frame_allocator).remaining()),
    ensures
        final(mapper).wf(),
        final(frame_allocator).wf(),
        old(mapper).extended_by(*final(mapper)),
        old(mapper).flags_added(*final(mapper), 3),
        match r {
            Ok(heap) => {
                &&& heap_outcome(
                    *old(mapper),
                    old(frame_allocator).remaining(),
                    0,
                    old(frame_allocator).remaining().len() as int,
                )
                    is Ok
                &&& forall|k: int, a: u64|
                    #![trigger final(mapper).translation(a), in_heap_page(a, k)]
                    in_heap_page(a, k) ==> final(mapper).translation(a) == Ok::<
                        u64,
                        TranslateError,
                    >(
                        (old(frame_allocator).remaining()[heap_backing_index(*old(mapper), k)] + a
                            % 4096) as u64,
                    ) && final(mapper).is_writable(a) && final(mapper).page_entry(a)
                        == old(frame_allocator).remaining()[heap_backing_index(*old(mapper), k)]
                        | 3
                &&& forall|a: u64|
                    HEAP_START <= a < HEAP_START + HEAP_SIZE ==> #[trigger] final(mapper).is_writable(a)
                &&& forall|j: int, k: int|
                    0 <= j < k < 25 ==> old(frame_allocator).remaining()[heap_backing_index(
                        *old(mapper),
                        j,
                    )] != old(frame_allocator).remaining()[heap_backing_index(*old(mapper), k)]
                &&& heap.wf()
                &&& heap.bottom() == HEAP_START
                &&& heap.top() == HEAP_START + HEAP_SIZE
                &&& forall|a: int| heap.is_free(a) <==> HEAP_START <= a < HEAP_START + HEAP_SIZE
                &&& heap.free_count() == 1
                &&& final(frame_allocator).remaining() == old(frame_allocator).remaining().skip(
                    25 + heap_tables_missing(*old(mapper)),
                )
                &&& final(mapper).frames_unused(final(frame_allocator).remaining())
                &&& kept_off_heap(*old(mapper), *final(mapper), 25)
            },
            Err(e) => {
                let left = old(frame_allocator).remaining().len() as int;
                let k = heap_failing_page(*old(mapper), 0, left);
                &&& heap_outcome(*old(mapper), old(frame_allocator).remaining(), 0, left) == Err::<
                    (),
                    MapToError,
                >(e)
                &&& 0 <= k < 25
                &&& final(frame_allocator).remaining() == old(frame_allocator).remaining().skip(
                    heap_frames_taken(*old(mapper), left, k, e),
                )
                &&& forall|j: int, a: u64|
                    #![trigger final(mapper).translation(a), in_heap_page(a, j)]
                    0 <= j < k && in_heap_page(a, j) ==> final(mapper).translation(a) == Ok::<
                        u64,
                        TranslateError,
                    >(
                        (old(frame_allocator).remaining()[heap_backing_index(*old(mapper), j)] + a
                            % 4096) as u64,
                    ) && final(mapper).is_writable(a) && final(mapper).page_entry(a)
                        == old(frame_allocator).remaining()[heap_backing_index(*old(mapper), j)]
                        | 3
                &&& forall|j: int|
                    k <= j < 25 ==> #[trigger] final(mapper).page_status(heap_page(j))
                        == heap_status_at_failure(*old(mapper), left, k, j)
                &&& left == 0 ==> *final(mapper) == *old(mapper)
                &&& final(mapper).frames_unused(final(frame_allocator).remaining())
                &&& kept_off_heap(*old(mapper), *final(mapper), k + 1)
            },
        },
{
    let ghost m0 = *mapper;
    let ghost rest = frame_allocator.remaining();
    let ghost missing0 = heap_tables_missing(m0);
    let pages: Vec<Page> = heap_pages();
    let flags = PageTableFlags { writable: true, user_accessible: false };
    proof {
        m0.lemma_extended_refl();
        m0.lemma_flags_added_refl(3);
        lemma_kept_off_heap_refl(m0, 0);
        assert(rest.skip(0) =~= rest);
    }
    let mut k: usize = 0;
    while k < pages.len()
        invariant
            m0 == *old(mapper),
            rest == old(frame_allocator).remaining(),
            pages@.len() == 25,
            forall|j: int| 0 <= j < 25 ==> (#[trigger] pages@[j])@ == heap_page(j),
            k <= 25,
            flags == (PageTableFlags { writable: true, user_accessible: false }),
            mapper.wf(),
            frame_allocator.wf(),
            mapper.frames_unused(frame_allocator.remaining()),
            m0.extended_by(*mapper),
            m0.frames_unused(rest),
            missing0 == heap_tables_missing(m0),
            k > 0 ==> m0.page_status(heap_page(0)) is Mappable,
            k == 0 ==> *mapper == m0,
            kept_off_heap(m0, *mapper, k as int),
            m0.flags_added(*mapper, 3),
            ({
                let used = if k == 0 {
                    0
                } else {
                    k + missing0
                };
                &&& used <= rest.len()
                &&& frame_allocator.remaining() == rest.skip(used)
                &&& heap_outcome(m0, rest, 0, rest.len() as int) == heap_outcome(m0, rest,
                    k as int,
                    rest.len() - used,
                )
                &&& heap_failing_page(m0, 0, rest.len() as int) == heap_failing_page(
                    m0,
                    k as int,
                    rest.len() - used,
                )
            }),
            forall|j: int|
                k <= j < 25 ==> #[trigger] mapper.page_status(heap_page(j)) == (if k == 0 {
                    m0.page_status(heap_page(j))
                } else {
                    settled(m0.page_status(heap_page(j)))
                }),
            forall|j: int, a: u64|
                #![trigger mapper.translation(a), in_heap_page(a, j)]
                0 <= j < k && in_heap_page(a, j) ==> mapper.translation(a) == Ok::<
                    u64,
                    TranslateError,
                >((rest[heap_backing_index(m0, j)] + a % 4096) as u64) && mapper.is_writable(a)
                    && mapper.page_entry(a) == rest[heap_backing_index(m0, j)] | 3,
        decreases 25 - k,
    {
        let ghost before = *mapper;
        let ghost used: int = if k == 0 {
            0
        } else {
            k + missing0
        };
        let ghost left = frame_allocator.remaining();
        let page: Page = pages[k];
        let frame: PhysFrame = match frame_allocator.allocate_frame() {
            Some(frame) => frame,
            None => {
                proof {
                    assert(frame_allocator.remaining() =~= rest.skip(rest.len() as int));
                    lemma_kept_off_heap_more(m0, before, k as int, k + 1);
                }
                return Err(MapToError::FrameAllocationFailed);
            },
        };
        proof {
            assert(frame@ == rest[used]);
            before.lemma_unused_rest(left);
        }
        match mapper.map_to(page, frame, flags, frame_allocator) {
            Ok(_) => {},
            Err(e) => {
                proof {
                    let after = *mapper;
                    m0.lemma_extended_trans(before, after);
                    m0.lemma_flags_added_trans(before, after, 3);
                    lemma_kept_off_heap_step(m0, before, after, k as int);
                    lemma_heap_kept(
                        before,
                        after,
                        |j: int| rest[heap_backing_index(m0, j)],
                        k as int,
                    );
                    if e == MapToError::FrameAllocationFailed {
                        assert(k == 0);
                        assert(frame_allocator.remaining() =~= rest.skip(rest.len() as int));
                        assert forall|j: int| k <= j < 25 implies #[trigger] after.page_status(
                            heap_page(j),
                        ) == heap_status_at_failure(m0, rest.len() as int, k as int, j) by {
                            assert(heap_page(j) / 4096 / 512 == heap_page(0) / 4096 / 512);
                        }
                    } else {
                        assert(frame_allocator.remaining() == rest.skip(used + 1));
                        frame.lemma_at();
                    }
                }
                return Err(e);
            },
        }
        proof {
            let after = *mapper;
            m0.lemma_extended_trans(before, after);
            m0.lemma_flags_added_trans(before, after, 3);
            lemma_kept_off_heap_step(m0, before, after, k as int);
            assert(frame_allocator.remaining() =~= rest.skip(k + 1 + missing0));
            lemma_heap_statuses(m0, before, after, k as int);
            lemma_heap_translations(
                before,
                after,
                |j: int| rest[heap_backing_index(m0, j)],
                k as int,
            );
        }
        k += 1;
    }
    proof {
        m0.lemma_unused_distinct(rest);
        assert forall|a: u64| HEAP_START <= a < HEAP_START + HEAP_SIZE implies #[trigger] mapper.is_writable(
            a,
        ) by {
            let j = (a - HEAP_START) / 4096;
            assert(in_heap_page(a, j));
        }
    }
    Ok(HeapAllocator::init(HEAP_START, HEAP_SIZE))
}

/// A run of free bytes, from `start` up to but not including `end`.
#[derive(Clone, Copy, PartialEq, Eq, Structural, Debug)]
pub struct Block {
    pub start: u64,
    pub end: u64,
}

/// Whether one of the blocks holds the address.
pub open spec fn covers(blocks: Seq<Block>, addr: int) -> bool {
    exists|i: int| 0 <= i < blocks.len() && (#[trigger] blocks[i]).start <= addr < blocks[i].end
}

/// Blocks in ascending order that do not overlap, each with at least one
/// byte, all within `bottom..top`.
pub open spec fn blocks_sorted(blocks: Seq<Block>, bottom: int, top: int) -> bool {
    &&& forall|i: int|
        0 <= i < blocks.len() ==> bottom <= (#[trigger] blocks[i]).start < blocks[i].end <= top
    &&& forall|i: int, j: int|
        0 <= i < j < blocks.len() ==> (#[trigger] blocks[i]).end <= (#[trigger] blocks[j]).start
}

/// Sorted blocks of which no two touch: every run of free bytes is one
/// block.
pub open spec fn blocks_merged(blocks: Seq<Block>, bottom: int, top: int) -> bool {
    &&& blocks_sorted(blocks, bottom, top)
    &&& forall|i: int, j: int|
        0 <= i < j < blocks.len() ==> (#[trigger] blocks[i]).end < (#[trigger] blocks[j]).start
}

/// A run of bytes that merged blocks cover lies within one of them.
proof fn lemma_run_in_one_block(blocks: Seq<Block>, bottom: int, top: int, addr: int, size: int) -> (i:
    int)
    requires
        blocks_merged(blocks, bottom, top),
        size > 0,
        forall|a: int| addr <= a < addr + size ==> covers(blocks, a),
    ensures
        0 <= i < blocks.len(),
        blocks[i].start <= addr,
        addr + size <= blocks[i].end,
{
    assert(covers(blocks, addr));
    let i = choose|i: int| 0 <= i < blocks.len() && (#[trigger] blocks[i]).start <= addr < blocks[i].end;
    if addr + size > blocks[i].end {
        let e = blocks[i].end as int;
        assert(covers(blocks, e));
        let j = choose|j: int| 0 <= j < blocks.len() && (#[trigger] blocks[j]).start <= e < blocks[j].end;
        if j < i {
            assert(blocks[j].end <= blocks[i].start);
        } else if j > i {
            assert(blocks[i].end < blocks[j].start);
        }
    }
    i
}

/// What the blocks cover once one more is put in.
proof fn lemma_insert_covers(blocks: Seq<Block>, i: int, block: Block)
    requires
        0 <= i <= blocks.len(),
    ensures
        forall|a: int|
            #![trigger covers(blocks.insert(i, block), a)]
            covers(blocks.insert(i, block), a) <==> covers(blocks, a) || block.start <= a
                < block.end,
{
    let after = blocks.insert(i, block);
    assert forall|a: int| #![trigger covers(after, a)]
        covers(after, a) <==> covers(blocks, a) || block.start <= a < block.end by {
        if covers(after, a) {
            let k = choose|k: int| 0 <= k < after.len() && (#[trigger] after[k]).start <= a < after[k].end;
            if k < i {
                assert(blocks[k] == after[k]);
            } else if k > i {
                assert(blocks[k - 1] == after[k]);
            }
        }
        if covers(blocks, a) {
            let k = choose|k: int| 0 <= k < blocks.len() && (#[trigger] blocks[k]).start <= a < blocks[k].end;
            if k < i {
                assert(after[k] == blocks[k]);
            } else {
                assert(after[k + 1] == blocks[k]);
            }
        }
        if block.start <= a < block.end {
            assert(after[i] == block);
        }
    }
}

/// What sorted blocks cover once one is taken out.
proof fn lemma_remove_covers(blocks: Seq<Block>, bottom: int, top: int, i: int)
    requires
        blocks_sorted(blocks, bottom, top),
        0 <= i < blocks.len(),
    ensures
        forall|a: int|
            #![trigger covers(blocks.remove(i), a)]
            covers(blocks.remove(i), a) <==> covers(blocks, a) && !(blocks[i].start <= a
                < blocks[i].end),
{
    let after = blocks.remove(i);
    assert forall|a: int| #![trigger covers(after, a)]
        covers(after, a) <==> covers(blocks, a) && !(blocks[i].start <= a < blocks[i].end) by {
        if covers(after, a) {
            let k = choose|k: int| 0 <= k < after.len() && (#[trigger] after[k]).start <= a < after[k].end;
            if k < i {
                assert(blocks[k] == after[k]);
                assert(blocks[k].end <= blocks[i].start);
            } else {
                assert(blocks[k + 1] == after[k]);
                assert(blocks[i].end <= blocks[k + 1].start);
            }
        }
        if covers(blocks, a) && !(blocks[i].start <= a < blocks[i].end) {
            let k = choose|k: int| 0 <= k < blocks.len() && (#[trigger] blocks[k]).start <= a < blocks[k].end;
            if k < i {
                assert(after[k] == blocks[k]);
            } else {
                assert(after[k - 1] == blocks[k]);
            }
        }
    }
}

/// What sorted blocks cover once one is replaced.
proof fn lemma_update_covers(blocks: Seq<Block>, bottom: int, top: int, i: int, block: Block)
    requires
        blocks_sorted(blocks, bottom, top),
        0 <= i < blocks.len(),
    ensures
        forall|a: int|
            #![trigger covers(blocks.update(i, block), a)]
            covers(blocks.update(i, block), a) <==> (covers(blocks, a) && !(blocks[i].start <= a
                < blocks[i].end)) || block.start <= a < block.end,
{
    let after = blocks.update(i, block);
    assert forall|a: int|
        #![trigger covers(after, a)]
        covers(after, a) <==> (covers(blocks, a) && !(blocks[i].start <= a < blocks[i].end))
            || block.start <= a < block.end by {
        if covers(after, a) {
            let k = choose|k: int| 0 <= k < after.len() && (#[trigger] after[k]).start <= a < after[k].end;
            if k < i {
                assert(blocks[k] == after[k]);
                assert(blocks[k].end <= blocks[i].start);
            } else if k > i {
                assert(blocks[k] == after[k]);
                assert(blocks[i].end <= blocks[k].start);
            }
        }
        if covers(blocks, a) && !(blocks[i].start <= a < blocks[i].end) {
            let k = choose|k: int| 0 <= k < blocks.len() && (#[trigger] blocks[k]).start <= a < blocks[k].end;
            assert(after[k] == blocks[k]);
        }
        if block.start <= a < block.end {
            assert(after[i] == block);
        }
    }
}

/// Whether `addr` is a multiple of `align`.
pub open spec fn aligned(addr: int, align: int) -> bool {
    addr % align == 0
}

/// The first multiple of `align` that is not below `addr`.
pub open spec fn align_up(addr: int, align: int) -> int {
    if addr % align == 0 {
        addr
    } else {
        addr + align - addr % align
    }
}

/// `align_up` gives a multiple of `align`, and the first from `addr` on.
pub proof fn lemma_align_up(addr: int, align: int)
    requires
        addr >= 0,
        align > 0,
    ensures
        align_up(addr, align) % align == 0,
        addr <= align_up(addr, align) < addr + align,
        forall|q: int| addr <= q < align_up(addr, align) ==> !#[trigger] aligned(q, align),
{
    let r = addr % align;
    let d = addr / align;
    vstd::arithmetic::div_mod::lemma_fundamental_div_mod(addr, align);
    assert(0 <= r < align) by {
        vstd::arithmetic::div_mod::lemma_mod_pos_bound(addr, align);
    }
    if r != 0 {
        let up = addr + align - r;
        assert(up == (d + 1) * align + 0) by (nonlinear_arith)
            requires
                addr == align * d + r,
                up == addr + align - r,
        ;
        vstd::arithmetic::div_mod::lemma_fundamental_div_mod_converse(up, align, d + 1, 0);
        assert forall|q: int| addr <= q < up implies !#[trigger] aligned(q, align) by {
            let e = r + (q - addr);
            assert(q == d * align + e) by (nonlinear_arith)
                requires
                    addr == align * d + r,
                    e == r + (q - addr),
            ;
            vstd::arithmetic::div_mod::lemma_fundamental_div_mod_converse(q, align, d, e);
        }
    }
}

/// Serves requests for memory from a fixed range of addresses.
///
/// The allocator keeps the free bytes as a list of blocks in ascending order,
/// in a store of its own of `FREE_LIST_CAPACITY` blocks: it takes no memory
/// from the range it serves, nor from anywhere else. Blocks that touch are
/// merged, so that a request is refused only if no run of free bytes fits
/// it, or if the store has no room for the run it would leave behind.
pub struct HeapAllocator {
    bottom: u64,
    top: u64,
    free: FreeList,
}

impl HeapAllocator {
    /// The first address of the heap.
    pub closed spec fn bottom(&self) -> int {
        self.bottom as int
    }

    /// The address after the last of the heap.
    pub closed spec fn top(&self) -> int {
        self.top as int
    }

    /// Whether the byte at `addr` is free.
    pub closed spec fn is_free(&self, addr: int) -> bool {
        covers(self.free@, addr)
    }

    /// The number of runs of free bytes, of which the allocator can keep
    /// `FREE_LIST_CAPACITY`.
    pub closed spec fn free_count(&self) -> nat {
        self.free@.len()
    }

    /// Whether the `size` bytes at `addr` can leave the run of free bytes
    /// they lie in: they leave two runs where there was one if free bytes
    /// lie on both sides of them, and for that the allocator must have room.
    pub open spec fn can_carve(&self, addr: int, size: int) -> bool {
        self.free_count() < FREE_LIST_CAPACITY || !self.is_free(addr - 1) || !self.is_free(
            addr + size,
        )
    }

    pub closed spec fn wf(&self) -> bool {
        &&& self.bottom <= self.top
        &&& blocks_merged(self.free@, self.bottom as int, self.top as int)
    }

    /// Whether the `size` bytes from `addr` on are all free.
    pub open spec fn range_free(&self, addr: int, size: int) -> bool {
        forall|a: int| addr <= a < addr + size ==> self.is_free(a)
    }

    /// Whether a request for `size` bytes aligned to `align` can be served
    /// at `addr`.
    pub open spec fn fits(&self, addr: int, size: int, align: int) -> bool {
        aligned(addr, align) && self.range_free(addr, size)
    }

    /// Whether `addr` is the lowest address at which a request for `size`
    /// bytes aligned to `align` can be served.
    pub open spec fn lowest_fit(&self, addr: int, size: int, align: int) -> bool {
        self.fits(addr, size, align) && forall|q: int| 0 <= q < addr ==> !self.fits(q, size, align)
    }

    /// Whether a request for `size` bytes aligned to `align` is refused:
    /// nothing is asked for, no run of free bytes fits, or the lowest run
    /// that fits cannot be carved for want of room.
    pub open spec fn refuses(&self, size: int, align: int) -> bool {
        ||| size == 0
        ||| align == 0
        ||| forall|q: int| !self.fits(q, size, align)
        ||| exists|p: int| #[trigger] self.lowest_fit(p, size, align) && !self.can_carve(p, size)
    }

    /// The number of sides, none to two, at which the `size` bytes at `addr`
    /// touch a free byte.
    pub open spec fn free_sides(&self, addr: int, size: int) -> int {
        (if self.is_free(addr - 1) {
            1int
        } else {
            0int
        }) + (if self.is_free(addr + size) {
            1int
        } else {
            0int
        })
    }

    /// Free bytes lie within the heap.
    pub proof fn lemma_free_within(&self, addr: int)
        requires
            self.wf(),
            self.is_free(addr),
        ensures
            self.bottom() <= addr < self.top(),
    {
    }

    /// An allocator for the `size` bytes from `start` on, all of them free.
    pub fn init(start: u64, size: u64) -> (r: HeapAllocator)
        requires
            start + size <= u64::MAX,
        ensures
            r.wf(),
            r.bottom() == start,
            r.top() == start + size,
            forall|a: int| r.is_free(a) <==> start <= a < start + size,
            r.free_count() == (if size > 0 {
                1nat
            } else {
                0nat
            }),
    {
        let mut free: FreeList = FreeList::new();
        if size > 0 {
            free.insert(0, Block { start, end: start + size });
        }
        let r = HeapAllocator { bottom: start, top: start + size, free };
        proof {
            assert forall|a: int| r.is_free(a) <==> start <= a < start + size by {
                if start <= a < start + size {
                    assert(r.free@[0].start <= a < r.free@[0].end);
                }
            }
        }
        r
    }

    /// The free bytes as blocks in ascending order, of which no two touch.
    pub fn free_blocks(&self) -> (r: Vec<Block>)
        requires
            self.wf(),
        ensures
            blocks_merged(r@, self.bottom(), self.top()),
            forall|a: int| covers(r@, a) <==> self.is_free(a),
    {
        let mut r: Vec<Block> = Vec::new();
        let mut i: usize = 0;
        while i < self.free.len()
            invariant
                i <= self.free@.len(),
                r@ == self.free@.take(i as int),
            decreases self.free@.len() - i,
        {
            r.push(self.free.get(i));
            proof {
                assert(r@ =~= self.free@.take(i + 1));
            }
            i += 1;
        }
        proof {
            assert(r@ =~= self.free@);
        }
        r
    }

    /// Serves a request for `size` bytes at an address that is a multiple of
    /// `align`: the lowest address at which such a run of free bytes starts.
    /// The bytes are free no longer. Nothing is served if no run fits, if
    /// `size` or `align` is 0, or if the bytes would leave free bytes on both
    /// their sides and the allocator has no room for one more run.
    #[verifier::rlimit(50)]
    pub fn allocate(&mut self, size: u64, align: u64) -> (r: Option<u64>)
        requires
            old(self).wf(),
        ensures
            final(self).wf(),
            final(self).bottom() == old(self).bottom(),
            final(self).top() == old(self).top(),
            match r {
                Some(p) => {
                    &&& size > 0 && align > 0
                    &&& old(self).lowest_fit(p as int, size as int, align as int)
                    &&& old(self).can_carve(p as int, size as int)
                    &&& forall|a: int|
                        final(self).is_free(a) <==> old(self).is_free(a) && !(p <= a < p + size)
                    &&& final(self).free_count() == old(self).free_count() - 1
                        + old(self).free_sides(p as int, size as int)
                },
                None => {
                    &&& old(self).refuses(size as int, align as int)
                    &&& forall|a: int| final(self).is_free(a) <==> old(self).is_free(a)
                    &&& final(self).free_count() == old(self).free_count()
                },
            },
    {
        if size == 0 || align == 0 {
            return None;
        }
        let ghost blocks = self.free@;
        let ghost bottom = self.bottom as int;
        let ghost top = self.top as int;
        let mut i: usize = 0;
        while i < self.free.len()
            invariant
                i <= self.free@.len(),
                *self == *old(self),
                self.free@ == blocks,
                self.bottom == bottom,
                self.top == top,
                size > 0,
                align > 0,
                blocks_merged(blocks, bottom, top),
                forall|j: int, q: int|
                    0 <= j < i && (#[trigger] blocks[j]).start <= q && q + size <= blocks[j].end
                        ==> !#[trigger] aligned(q, align as int),
            decreases self.free@.len() - i,
        {
            let block: Block = self.free.get(i);
            let rem: u64 = block.start % align;
            let gap: u64 = if rem == 0 {
                0
            } else {
                align - rem
            };
            proof {
                lemma_align_up(block.start as int, align as int);
            }
            if gap <= block.end - block.start && size <= block.end - block.start - gap {
                let at: u64 = block.start + gap;
                let after: u64 = at + size;
                proof {
                    assert forall|q: int| 0 <= q < at implies !self.fits(
                        q,
                        size as int,
                        align as int,
                    ) by {
                        if self.fits(q, size as int, align as int) {
                            assert forall|a: int| q <= a < q + size implies covers(blocks, a) by {
                                assert(self.is_free(a));
                            }
                            let j = lemma_run_in_one_block(blocks, bottom, top, q, size as int);
                            if j < i {
                                assert(!aligned(q, align as int));
                            } else if j > i {
                                assert(blocks[i as int].end < blocks[j].start);
                            }
                        }
                    }
                    assert forall|a: int| at <= a < at + size implies self.is_free(a) by {
                        assert(blocks[i as int].start <= a < blocks[i as int].end);
                    }
                    assert(self.lowest_fit(at as int, size as int, align as int));
                    lemma_edges_not_covered(blocks, bottom, top, i as int);
                }
                proof {
                    if gap > 0 {
                        assert(blocks[i as int].start <= at - 1 < blocks[i as int].end);
                    }
                    if after != block.end {
                        assert(blocks[i as int].start <= at + size < blocks[i as int].end);
                    }
                    assert(self.is_free(at - 1) == (gap > 0));
                    assert(self.is_free(at + size) == (after != block.end));
                }
                if gap > 0 && after != block.end && self.free.is_full() {
                    proof {
                        assert(!self.can_carve(at as int, size as int));
                    }
                    return None;
                }
                proof {
                    assert(self.can_carve(at as int, size as int));
                }
                // The bytes from the block's start up to the end of what is
                // served leave the block; those before what is served come
                // back as a block of their own.
                if after == block.end {
                    self.free.remove(i);
                    proof {
                        lemma_remove_covers(blocks, bottom, top, i as int);
                        lemma_merged_remove(blocks, bottom, top, i as int);
                        if i > 0 {
                            assert(self.free@[i - 1] == blocks[i - 1]);
                            assert(blocks[i - 1].end < blocks[i as int].start);
                        }
                        if i < self.free@.len() {
                            assert(self.free@[i as int] == blocks[i + 1]);
                            assert(blocks[i as int].end < blocks[i + 1].start);
                        }
                    }
                } else {
                    self.free.set(i, Block { start: after, end: block.end });
                    proof {
                        lemma_update_covers(
                            blocks,
                            bottom,
                            top,
                            i as int,
                            Block { start: after, end: block.end },
                        );
                        assert(bottom <= blocks[i as int].start < blocks[i as int].end <= top);
                        if i > 0 {
                            assert(blocks[i - 1].end < blocks[i as int].start);
                        }
                        if i + 1 < blocks.len() {
                            assert(blocks[i as int].end < blocks[i + 1].start);
                        }
                        lemma_merged_update(
                            blocks,
                            bottom,
                            top,
                            i as int,
                            Block { start: after, end: block.end },
                        );
                    }
                }
                let ghost carved = self.free@;
                if gap > 0 {
                    self.free.insert(i, Block { start: block.start, end: at });
                    proof {
                        lemma_insert_covers(carved, i as int, Block { start: block.start, end: at });
                        assert(bottom <= blocks[i as int].start < blocks[i as int].end <= top);
                        lemma_merged_insert(
                            carved,
                            bottom,
                            top,
                            i as int,
                            Block { start: block.start, end: at },
                        );
                    }
                }
                return Some(at);
            }
            proof {
                assert forall|q: int|
                    blocks[i as int].start <= q && q + size <= blocks[i as int].end implies !#[trigger] aligned(
                    q,
                    align as int,
                ) by {}
            }
            i += 1;
        }
        proof {
            assert forall|q: int| !self.fits(q, size as int, align as int) by {
                if self.fits(q, size as int, align as int) {
                    assert forall|a: int| q <= a < q + size implies covers(blocks, a) by {
                        assert(self.is_free(a));
                    }
                    let j = lemma_run_in_one_block(blocks, bottom, top, q, size as int);
                    assert(!aligned(q, align as int));
                }
            }
        }
        None
    }
}

/// The byte before a block and the byte after it are in no block.
proof fn lemma_edges_not_covered(blocks: Seq<Block>, bottom: int, top: int, i: int)
    requires
        blocks_merged(blocks, bottom, top),
        0 <= i < blocks.len(),
    ensures
        !covers(blocks, blocks[i].start - 1),
        !covers(blocks, blocks[i].end as int),
{
    let before = blocks[i].start - 1;
    let after = blocks[i].end as int;
    if covers(blocks, before) {
        let j = choose|j: int|
            0 <= j < blocks.len() && (#[trigger] blocks[j]).start <= before < blocks[j].end;
        if j < i {
            assert(blocks[j].end < blocks[i].start);
        } else if j > i {
            assert(blocks[i].end < blocks[j].start);
        }
    }
    if covers(blocks, after) {
        let j = choose|j: int|
            0 <= j < blocks.len() && (#[trigger] blocks[j]).start <= after < blocks[j].end;
        if j < i {
            assert(blocks[j].end < blocks[i].start);
        } else if j > i {
            assert(blocks[i].end < blocks[j].start);
        }
    }
}

/// Merged blocks stay merged when one is taken out.
proof fn lemma_merged_remove(blocks: Seq<Block>, bottom: int, top: int, i: int)
    requires
        blocks_merged(blocks, bottom, top),
        0 <= i < blocks.len(),
    ensures
        blocks_merged(blocks.remove(i), bottom, top),
{
    let after = blocks.remove(i);
    assert forall|j: int| 0 <= j < after.len() implies bottom <= (#[trigger] after[j]).start
        < after[j].end <= top by {
        if j < i {
            assert(after[j] == blocks[j]);
        } else {
            assert(after[j] == blocks[j + 1]);
        }
    }
    assert forall|j: int, k: int| 0 <= j < k < after.len() implies (#[trigger] after[j]).end < (
    #[trigger] after[k]).start by {
        let a = if j < i {
            j
        } else {
            j + 1
        };
        let b = if k < i {
            k
        } else {
            k + 1
        };
        assert(after[j] == blocks[a] && after[k] == blocks[b]);
        assert(blocks[a].end < blocks[b].start);
    }
}

/// Merged blocks stay merged when one is replaced by a block that keeps
/// clear of its neighbours.
proof fn lemma_merged_update(blocks: Seq<Block>, bottom: int, top: int, i: int, block: Block)
    requires
        blocks_merged(blocks, bottom, top),
        0 <= i < blocks.len(),
        bottom <= block.start < block.end <= top,
        i > 0 ==> blocks[i - 1].end < block.start,
        i + 1 < blocks.len() ==> block.end < blocks[i + 1].start,
    ensures
        blocks_merged(blocks.update(i, block), bottom, top),
{
    let after = blocks.update(i, block);
    assert forall|j: int| 0 <= j < after.len() implies bottom <= (#[trigger] after[j]).start
        < after[j].end <= top by {
        if j != i {
            assert(after[j] == blocks[j]);
        }
    }
    assert forall|j: int, k: int| 0 <= j < k < after.len() implies (#[trigger] after[j]).end < (
    #[trigger] after[k]).start by {
        if k == i {
            assert(after[j] == blocks[j]);
            assert(bottom <= blocks[i - 1].start < blocks[i - 1].end);
            if j < i - 1 {
                assert(blocks[j].end < blocks[i - 1].start);
            }
        } else if j == i {
            assert(after[k] == blocks[k]);
            assert(bottom <= blocks[i + 1].start < blocks[i + 1].end);
            if k > i + 1 {
                assert(blocks[i + 1].end < blocks[k].start);
            }
        } else {
            assert(after[j] == blocks[j] && after[k] == blocks[k]);
            assert(blocks[j].end < blocks[k].start);
        }
    }
}

/// Merged blocks stay merged when a block is put between two of them that
/// it keeps clear of.
proof fn lemma_merged_insert(blocks: Seq<Block>, bottom: int, top: int, i: int, block: Block)
    requires
        blocks_merged(blocks, bottom, top),
        0 <= i <= blocks.len(),
        bottom <= block.start < block.end <= top,
        i > 0 ==> blocks[i - 1].end < block.start,
        i < blocks.len() ==> block.end < blocks[i].start,
    ensures
        blocks_merged(blocks.insert(i, block), bottom, top),
{
    let after = blocks.insert(i, block);
    assert forall|j: int| 0 <= j < after.len() implies bottom <= (#[trigger] after[j]).start
        < after[j].end <= top by {
        if j < i {
            assert(after[j] == blocks[j]);
        } else if j > i {
            assert(after[j] == blocks[j - 1]);
        }
    }
    assert forall|j: int, k: int| 0 <= j < k < after.len() implies (#[trigger] after[j]).end < (
    #[trigger] after[k]).start by {
        if k < i {
            assert(after[j] == blocks[j] && after[k] == blocks[k]);
            assert(blocks[j].end < blocks[k].start);
        } else if k == i {
            assert(after[j] == blocks[j]);
            assert(bottom <= blocks[i - 1].start < blocks[i - 1].end);
            if j < i - 1 {
                assert(blocks[j].end < blocks[i - 1].start);
            }
        } else if j < i {
            assert(after[j] == blocks[j] && after[k] == blocks[k - 1]);
            assert(blocks[j].end < blocks[k - 1].start);
        } else if j == i {
            assert(after[k] == blocks[k - 1]);
            assert(bottom <= blocks[i].start < blocks[i].end);
            if k - 1 > i {
                assert(blocks[i].end < blocks[k - 1].start);
            }
        } else {
            assert(after[j] == blocks[j - 1] && after[k] == blocks[k - 1]);
            assert(blocks[j - 1].end < blocks[k - 1].start);
        }
    }
}

impl HeapAllocator {
    /// Whether the `size` bytes at `ptr` can be given back: they are a
    /// block that `allocate` can have served, within the heap and with no
    /// byte free, and they join free bytes at one of their sides or the
    /// allocator has room for one more run.
    pub open spec fn can_free(&self, ptr: int, size: int, align: int) -> bool {
        &&& size > 0
        &&& align > 0
        &&& aligned(ptr, align)
        &&& self.bottom() <= ptr
        &&& ptr + size <= self.top()
        &&& forall|a: int| ptr <= a < ptr + size ==> !self.is_free(a)
        &&& self.free_count() < FREE_LIST_CAPACITY || self.is_free(ptr - 1) || self.is_free(
            ptr + size,
        )
    }

    /// Gives the `size` bytes at `ptr` back, and says whether it did. The
    /// bytes are free again, in one run with the free bytes that touch
    /// them. A block that cannot be given back changes nothing; one that
    /// touches no free bytes cannot be given back while the allocator has
    /// no room for one more run.
    #[verifier::rlimit(50)]
    pub fn deallocate(&mut self, ptr: u64, size: u64, align: u64) -> (r: bool)
        requires
            old(self).wf(),
        ensures
            final(self).wf(),
            final(self).bottom() == old(self).bottom(),
            final(self).top() == old(self).top(),
            r == old(self).can_free(ptr as int, size as int, align as int),
            forall|a: int|
                final(self).is_free(a) <==> old(self).is_free(a) || (r && ptr <= a < ptr + size),
            final(self).free_count() == (if r {
                old(self).free_count() + 1 - old(self).free_sides(ptr as int, size as int)
            } else {
                old(self).free_count() as int
            }),
    {
        if size == 0 || align == 0 || ptr % align != 0 || ptr < self.bottom || ptr > self.top
            || size > self.top - ptr {
            return false;
        }
        let end: u64 = ptr + size;
        let ghost blocks = self.free@;
        let ghost bottom = self.bottom as int;
        let ghost top = self.top as int;
        let len: usize = self.free.len();
        // The blocks before position `i` start below `ptr`.
        let mut i: usize = 0;
        while i < len && self.free.get(i).start < ptr
            invariant
                *self == *old(self),
                len == blocks.len(),
                self.free@ == blocks,
                i <= len,
                forall|j: int| 0 <= j < i ==> (#[trigger] blocks[j]).start < ptr,
            decreases len - i,
        {
            i += 1;
        }
        if i > 0 && self.free.get(i - 1).end > ptr {
            proof {
                assert(blocks[i - 1].start <= ptr < blocks[i - 1].end);
                assert(self.is_free(ptr as int));
            }
            return false;
        }
        if i < len && self.free.get(i).start < end {
            proof {
                let a = blocks[i as int].start as int;
                assert(blocks[i as int].start <= a < blocks[i as int].end);
                assert(self.is_free(a));
            }
            return false;
        }
        proof {
            assert forall|a: int| ptr <= a < ptr + size implies !self.is_free(a) by {
                if self.is_free(a) {
                    let j = choose|j: int|
                        0 <= j < blocks.len() && (#[trigger] blocks[j]).start <= a < blocks[j].end;
                    if j < i - 1 {
                        assert(blocks[j].end < blocks[i - 1].start);
                        assert(blocks[i - 1].start < ptr);
                    } else if j > i {
                        assert(blocks[i as int].end < blocks[j].start);
                    }
                }
            }
        }
        let merge_before: bool = i > 0 && self.free.get(i - 1).end == ptr;
        let merge_after: bool = i < len && self.free.get(i).start == end;
        proof {
            if merge_before {
                assert(blocks[i - 1].start <= ptr - 1 < blocks[i - 1].end);
            } else if self.is_free(ptr - 1) {
                let j = choose|j: int|
                    0 <= j < blocks.len() && (#[trigger] blocks[j]).start <= ptr - 1 < blocks[j].end;
                if j < i - 1 {
                    assert(blocks[j].end < blocks[i - 1].start);
                    assert(blocks[i - 1].start < ptr);
                } else if j > i {
                    assert(blocks[i as int].end < blocks[j].start);
                }
            }
            if merge_after {
                assert(blocks[i as int].start <= end < blocks[i as int].end);
            } else if self.is_free(ptr + size) {
                let j = choose|j: int|
                    0 <= j < blocks.len() && (#[trigger] blocks[j]).start <= ptr + size
                        < blocks[j].end;
                if j < i - 1 {
                    assert(blocks[j].end < blocks[i - 1].start);
                    assert(blocks[i - 1].start < ptr);
                } else if j > i {
                    assert(blocks[i as int].end < blocks[j].start);
                }
            }
            assert(self.is_free(ptr - 1) == merge_before);
            assert(self.is_free(ptr + size) == merge_after);
        }
        if !merge_before && !merge_after && self.free.is_full() {
            return false;
        }
        if merge_before && merge_after {
            let before: Block = self.free.get(i - 1);
            let after: Block = self.free.remove(i);
            let ghost removed = self.free@;
            let joined = Block { start: before.start, end: after.end };
            self.free.set(i - 1, joined);
            proof {
                lemma_remove_covers(blocks, bottom, top, i as int);
                lemma_merged_remove(blocks, bottom, top, i as int);
                assert(removed[i - 1] == blocks[i - 1]);
                if i < removed.len() {
                    assert(removed[i as int] == blocks[i + 1]);
                    assert(blocks[i as int].end < blocks[i + 1].start);
                }
                if i - 1 > 0 {
                    assert(removed[i - 2] == blocks[i - 2]);
                    assert(blocks[i - 2].end < blocks[i - 1].start);
                }
                assert(bottom <= blocks[i - 1].start < blocks[i - 1].end <= top);
                assert(bottom <= blocks[i as int].start < blocks[i as int].end <= top);
                lemma_update_covers(removed, bottom, top, i - 1, joined);
                lemma_merged_update(removed, bottom, top, i - 1, joined);
                assert forall|a: int| covers(self.free@, a) <==> covers(blocks, a) || (ptr <= a && a
                    < ptr + size) by {
                    assert(covers(removed, a) <==> covers(blocks, a) && !(blocks[i as int].start <= a
                        < blocks[i as int].end));
                    if blocks[i - 1].start <= a < blocks[i - 1].end {
                        assert(covers(blocks, a));
                    }
                    if blocks[i as int].start <= a < blocks[i as int].end {
                        assert(covers(blocks, a));
                    }
                }
            }
        } else if merge_before {
            let before: Block = self.free.get(i - 1);
            let joined = Block { start: before.start, end };
            self.free.set(i - 1, joined);
            proof {
                assert(bottom <= blocks[i - 1].start < blocks[i - 1].end <= top);
                if i - 1 > 0 {
                    assert(blocks[i - 2].end < blocks[i - 1].start);
                }
                lemma_update_covers(blocks, bottom, top, i - 1, joined);
                lemma_merged_update(blocks, bottom, top, i - 1, joined);
                assert forall|a: int| covers(self.free@, a) <==> covers(blocks, a) || (ptr <= a && a
                    < ptr + size) by {
                    if blocks[i - 1].start <= a < blocks[i - 1].end {
                        assert(covers(blocks, a));
                    }
                }
            }
        } else if merge_after {
            let after: Block = self.free.get(i);
            let joined = Block { start: ptr, end: after.end };
            self.free.set(i, joined);
            proof {
                assert(bottom <= blocks[i as int].start < blocks[i as int].end <= top);
                if i + 1 < blocks.len() {
                    assert(blocks[i as int].end < blocks[i + 1].start);
                }
                lemma_update_covers(blocks, bottom, top, i as int, joined);
                lemma_merged_update(blocks, bottom, top, i as int, joined);
                assert forall|a: int| covers(self.free@, a) <==> covers(blocks, a) || (ptr <= a && a
                    < ptr + size) by {
                    if blocks[i as int].start <= a < blocks[i as int].end {
                        assert(covers(blocks, a));
                    }
                }
            }
        } else {
            let block = Block { start: ptr, end };
            self.free.insert(i, block);
            proof {
                lemma_insert_covers(blocks, i as int, block);
                lemma_merged_insert(blocks, bottom, top, i as int, block);
                assert forall|a: int| covers(self.free@, a) <==> covers(blocks, a) || (ptr <= a && a
                    < ptr + size) by {}
            }
        }
        true
    }

    /// A block that has been given back can be served again: after
    /// `deallocate` has taken the block, a request of the block's size and
    /// alignment fits at the block's address, so `allocate` finds a run to
    /// serve it from.
    pub proof fn lemma_freed_block_fits(
        before: HeapAllocator,
        after: HeapAllocator,
        ptr: int,
        size: int,
        align: int,
    )
        requires
            before.can_free(ptr, size, align),
            forall|a: int| after.is_free(a) <==> before.is_free(a) || ptr <= a < ptr + size,
        ensures
            after.fits(ptr, size, align),
    {
    }

    /// An allocator with room for one more run refuses no request for which
    /// a run of free bytes fits; so it serves a request of the size and
    /// alignment of a block that has been given back.
    pub proof fn lemma_room_serves(heap: HeapAllocator, ptr: int, size: int, align: int)
        requires
            size > 0,
            align > 0,
            heap.fits(ptr, size, align),
            heap.free_count() < FREE_LIST_CAPACITY,
        ensures
            !heap.refuses(size, align),
    {
    }

    /// No byte is served twice: what `allocate` serves was free, and stays
    /// out of every later answer until it is given back.
    pub proof fn lemma_served_blocks_disjoint(
        heap: HeapAllocator,
        first: int,
        first_size: int,
        second: int,
        second_size: int,
    )
        requires
            first_size > 0,
            second_size > 0,
            forall|a: int| first <= a < first + first_size ==> !heap.is_free(a),
            heap.range_free(second, second_size),
        ensures
            first + first_size <= second || second + second_size <= first,
    {
        if !(first + first_size <= second || second + second_size <= first) {
            let a = if first <= second {
                second
            } else {
                first
            };
            assert(heap.is_free(a));
        }
    }
}

/// An allocator that serves nothing.
pub struct Dummy;

impl Dummy {
    /// Nothing, whatever is asked for.
    pub fn allocate(&self, size: u64, align: u64) -> (r: Option<u64>)
        ensures
            r is None,
    {
        None
    }
}

} // verus!

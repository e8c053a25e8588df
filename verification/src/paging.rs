//! The 4-level page-table hierarchy.
//!
//! The tables themselves are `x86_64::structures::paging::PageTable` values;
//! reading and writing their entries is left to that crate. What this module
//! adds is the hierarchy: which frames hold tables, how a walk from the root
//! proceeds, and how a new mapping is installed.

use vstd::prelude::*;
use x86_64::structures::paging::PageTable;
use crate::addr::{
    PhysFrame, Page, VirtAddr, PHYS_ADDR_LIMIT, p1_index_of, p2_index_of, p3_index_of,
    p4_index_of,
};

verus! {

/// The bits of an entry that hold the address of the next table or frame.
pub const ADDR_MASK: u64 = 0x000f_ffff_ffff_f000;

/// The bits of an entry that hold flags.
pub const FLAGS_MASK: u64 = 0xfff0_0000_0000_0fff;

/// The entry is in use by the hardware.
pub const PRESENT: u64 = 1;

/// Writes through this entry are allowed.
pub const WRITABLE: u64 = 2;

/// Ring 3 may use this entry.
pub const USER_ACCESSIBLE: u64 = 4;

/// The entry maps a huge frame instead of pointing to a table.
pub const HUGE_PAGE: u64 = 0x80;

pub open spec fn entry_present(entry: u64) -> bool {
    entry & 1 != 0
}

pub open spec fn entry_huge(entry: u64) -> bool {
    entry & 0x80 != 0
}

pub open spec fn entry_writable(entry: u64) -> bool {
    entry & 2 != 0
}

pub open spec fn entry_addr(entry: u64) -> u64 {
    entry & 0x000f_ffff_ffff_f000
}

/// Why an entry names no 4 KiB frame.
#[derive(Clone, Copy, PartialEq, Eq, Structural, Debug)]
pub enum FrameError {
    /// The entry is not present.
    FrameNotPresent,
    /// The entry maps a huge frame.
    HugeFrame,
}

/// The frame an entry points to: none for an entry that is not present, none
/// for a present entry that maps a huge frame.
pub open spec fn entry_frame(entry: u64) -> Result<u64, FrameError> {
    if !entry_present(entry) {
        Err(FrameError::FrameNotPresent)
    } else if entry_huge(entry) {
        Err(FrameError::HugeFrame)
    } else {
        Ok(entry_addr(entry))
    }
}

/// The 512 entries of a `PageTable`, each as the 64 bits that the hardware
/// reads.
pub uninterp spec fn table_entries(table: PageTable) -> Seq<u64>;

/// `x86_64::structures::paging::PageTable`, of which nothing is known here
/// but what the functions below say of its entries.
#[verifier::external_type_specification]
#[verifier::external_body]
pub struct ExPageTable(PageTable);

/// `PageTable::new`: a table of 512 unused entries.
#[verifier::external_body]
fn table_new() -> (table: PageTable)
    ensures
        table_entries(table) == Seq::new(512, |i: int| 0u64),
{
    PageTable::new()
}

/// `PageTable::zero`: every entry becomes unused.
#[verifier::external_body]
fn table_zero(table: &mut PageTable)
    ensures
        table_entries(*final(table)) == Seq::new(512, |i: int| 0u64),
{
    table.zero()
}

/// `PageTableEntry::is_unused` of one entry: whether the entry is zero.
#[verifier::external_body]
fn table_is_unused(table: &PageTable, index: usize) -> (r: bool)
    requires
        index < 512,
    ensures
        r == (table_entries(*table)[index as int] == 0),
{
    table[index].is_unused()
}

/// `PageTableEntry::frame` of one entry, the frame given by its start
/// address.
#[verifier::external_body]
fn table_frame(table: &PageTable, index: usize) -> (r: Result<u64, FrameError>)
    requires
        index < 512,
    ensures
        r == entry_frame(table_entries(*table)[index as int]),
{
    match table[index].frame() {
        Ok(frame) => Ok(frame.start_address().as_u64()),
        Err(x86_64::structures::paging::page_table::FrameError::FrameNotPresent) => Err(
            FrameError::FrameNotPresent,
        ),
        Err(x86_64::structures::paging::page_table::FrameError::HugeFrame) => Err(
            FrameError::HugeFrame,
        ),
    }
}

/// `PageTableEntry::flags` of one entry, as bits: the entry without its
/// address bits.
#[verifier::external_body]
fn table_flags(table: &PageTable, index: usize) -> (r: u64)
    requires
        index < 512,
    ensures
        r == table_entries(*table)[index as int] & FLAGS_MASK,
{
    table[index].flags().bits()
}

/// `PageTableEntry::addr` of one entry, as an integer: the entry's address
/// bits.
#[verifier::external_body]
fn table_addr(table: &PageTable, index: usize) -> (r: u64)
    requires
        index < 512,
    ensures
        r == table_entries(*table)[index as int] & ADDR_MASK,
{
    table[index].addr().as_u64()
}

/// `PageTableEntry::set_frame` on one entry: the entry becomes the frame's
/// start address combined with the flags. The crate refuses an address that
/// is not a frame's start and the huge-page flag.
#[verifier::external_body]
fn table_set_frame(table: &mut PageTable, index: usize, frame: u64, flags: u64)
    requires
        index < 512,
        frame < PHYS_ADDR_LIMIT,
        frame % 4096 == 0,
        flags & FLAGS_MASK == flags,
        flags & HUGE_PAGE == 0,
    ensures
        table_entries(*final(table)) == table_entries(*old(table)).update(
            index as int,
            frame | flags,
        ),
{
    table[index].set_frame(
        x86_64::structures::paging::PhysFrame::containing_address(x86_64::PhysAddr::new(frame)),
        x86_64::structures::paging::PageTableFlags::from_bits_truncate(flags),
    )
}

/// `PageTableEntry::set_flags` on one entry: the address bits stay, the flag
/// bits are replaced.
#[verifier::external_body]
fn table_set_flags(table: &mut PageTable, index: usize, flags: u64)
    requires
        index < 512,
        flags & FLAGS_MASK == flags,
    ensures
        table_entries(*final(table)) == table_entries(*old(table)).update(
            index as int,
            (table_entries(*old(table))[index as int] & ADDR_MASK) | flags,
        ),
{
    table[index].set_flags(x86_64::structures::paging::PageTableFlags::from_bits_truncate(flags))
}

/// What a mapping allows. A mapped page is always present; whether it can be
/// written and whether ring 3 can reach it is chosen per mapping.
#[derive(Clone, Copy, PartialEq, Eq, Structural, Debug)]
pub struct PageTableFlags {
    pub writable: bool,
    pub user_accessible: bool,
}

impl PageTableFlags {
    /// The flag bits as the hardware reads them, the present bit included.
    pub open spec fn bits_spec(self) -> u64 {
        (1 + (if self.writable {
            2int
        } else {
            0int
        }) + (if self.user_accessible {
            4int
        } else {
            0int
        })) as u64
    }

    #[verifier::when_used_as_spec(bits_spec)]
    pub fn bits(self) -> (r: u64)
        ensures
            r == self.bits_spec(),
    {
        let w: u64 = if self.writable {
            WRITABLE
        } else {
            0
        };
        let u: u64 = if self.user_accessible {
            USER_ACCESSIBLE
        } else {
            0
        };
        PRESENT + w + u
    }
}

/// Why a walk from the root yields no physical address.
#[derive(Clone, Copy, PartialEq, Eq, Structural, Debug)]
pub enum TranslateError {
    /// Some level's entry is not present: the address is not mapped.
    TranslationMiss,
    /// Some level's entry maps a huge frame.
    UnsupportedMapping,
}

/// Why a page could not be mapped.
#[derive(Clone, Copy, PartialEq, Eq, Structural, Debug)]
pub enum MapToError {
    /// A table was missing and no frame was left to hold it.
    FrameAllocationFailed,
    /// An entry above the page maps a huge frame.
    ParentEntryHugePage,
    /// The page's own entry is in use; the frame is the one that the page
    /// was to be mapped to.
    PageAlreadyMapped(PhysFrame),
}

/// Where a page stands before it is mapped.
#[derive(Clone, Copy, PartialEq, Eq, Structural, Debug)]
pub enum PageStatus {
    /// The page's entry is free; `missing` tables (0 to 3) lie between the
    /// root and that entry and have yet to be created.
    Mappable { missing: u8 },
    /// An entry on the way to the page maps a huge frame.
    HugeParent,
    /// The page's own entry is in use.
    AlreadyMapped,
}

/// A source of frames that are in no other use.
pub trait FrameAllocator {
    spec fn wf(&self) -> bool;

    /// The start addresses of the frames not yet handed out, in the order in
    /// which they will be.
    spec fn remaining(&self) -> Seq<u64>;

    /// Hands out the next frame, or nothing once none is left.
    fn allocate_frame(&mut self) -> (frame: Option<PhysFrame>)
        requires
            old(self).wf(),
        ensures
            final(self).wf(),
            match frame {
                Some(f) => {
                    &&& f.wf()
                    &&& old(self).remaining().len() > 0
                    &&& f@ == old(self).remaining()[0]
                    &&& final(self).remaining() == old(self).remaining().skip(1)
                },
                None => {
                    &&& old(self).remaining().len() == 0
                    &&& final(self).remaining() == old(self).remaining()
                },
            },
    ;
}

/// A frame that holds a page table.
struct TableFrame {
    frame: u64,
    table: PageTable,
}

/// An address space: the root of a 4-level hierarchy, the frames that hold
/// its tables, and the offset at which all physical memory is visible.
///
/// A frame that holds no table reads as 512 unused entries.
pub struct OffsetPageTable {
    level_4_frame: u64,
    phys_offset: VirtAddr,
    tables: Vec<TableFrame>,
}

/// One step of a walk for translation: the table that the entry leads to.
pub open spec fn walk_step(entry: u64) -> Result<u64, TranslateError> {
    match entry_frame(entry) {
        Ok(next) => Ok(next),
        Err(FrameError::FrameNotPresent) => Err(TranslateError::TranslationMiss),
        Err(FrameError::HugeFrame) => Err(TranslateError::UnsupportedMapping),
    }
}

impl OffsetPageTable {
    spec fn slot_of(self, frame: u64) -> int {
        choose|k: int| 0 <= k < self.tables@.len() && (#[trigger] self.tables@[k]).frame == frame
    }

    /// Whether the frame holds one of this address space's tables.
    #[verifier::opaque]
    pub closed spec fn holds_table(self, frame: u64) -> bool {
        exists|k: int| 0 <= k < self.tables@.len() && (#[trigger] self.tables@[k]).frame == frame
    }

    /// The raw entry at `index` of the table in `frame`.
    #[verifier::opaque]
    pub closed spec fn entry_at(self, frame: u64, index: int) -> u64 {
        if self.holds_table(frame) && 0 <= index < 512 {
            table_entries(self.tables@[self.slot_of(frame)].table)[index]
        } else {
            0
        }
    }

    /// Whether some entry of some table points at the frame.
    pub closed spec fn referenced(self, frame: u64) -> bool {
        exists|t: u64, i: int|
            (#[trigger] self.entry_at(t, i)) != 0 && entry_addr(self.entry_at(t, i)) == frame
    }

    /// The frame that holds the level 4 table.
    pub closed spec fn root(self) -> u64 {
        self.level_4_frame
    }

    /// The offset at which physical memory is visible.
    pub closed spec fn offset(self) -> u64 {
        self.phys_offset@
    }

    pub closed spec fn wf(self) -> bool {
        &&& self.level_4_frame < PHYS_ADDR_LIMIT
        &&& self.level_4_frame % 4096 == 0
        &&& self.holds_table(self.level_4_frame)
        &&& forall|k: int|
            0 <= k < self.tables@.len() ==> {
                &&& (#[trigger] self.tables@[k]).frame < PHYS_ADDR_LIMIT
                &&& self.tables@[k].frame % 4096 == 0
                &&& table_entries(self.tables@[k].table).len() == 512
            }
        &&& forall|j: int, k: int|
            0 <= j < k < self.tables@.len() ==> (#[trigger] self.tables@[j]).frame != (
            #[trigger] self.tables@[k]).frame
    }

    /// A frame is unused when it holds no table and no entry points at it.
    pub open spec fn unused(self, frame: u64) -> bool {
        !self.holds_table(frame) && !self.referenced(frame)
    }

    /// Frames that a frame allocator may hand to this address space: each
    /// unused, no two the same.
    #[verifier::opaque]
    pub open spec fn frames_unused(self, frames: Seq<u64>) -> bool {
        &&& forall|i: int| 0 <= i < frames.len() ==> self.unused(#[trigger] frames[i])
        &&& forall|i: int, j: int| 0 <= i < j < frames.len() ==> frames[i] != frames[j]
    }

    /// What a walk from the root finds for a virtual address: the physical
    /// address it is mapped to, or the reason the walk stopped. Each level is
    /// indexed by its 9-bit slice of the address.
    pub open spec fn translation(self, addr: u64) -> Result<u64, TranslateError> {
        match walk_step(self.entry_at(self.root(), p4_index_of(addr))) {
            Err(e) => Err(e),
            Ok(p3) => match walk_step(self.entry_at(p3, p3_index_of(addr))) {
                Err(e) => Err(e),
                Ok(p2) => match walk_step(self.entry_at(p2, p2_index_of(addr))) {
                    Err(e) => Err(e),
                    Ok(p1) => match walk_step(self.entry_at(p1, p1_index_of(addr))) {
                        Err(e) => Err(e),
                        Ok(frame) => Ok((frame + addr % 4096) as u64),
                    },
                },
            },
        }
    }

    /// The entry of the page at `addr` in the level 1 table that the entries
    /// above it lead to.
    pub open spec fn page_entry(self, addr: u64) -> u64 {
        let e4 = self.entry_at(self.root(), p4_index_of(addr));
        let e3 = self.entry_at(entry_addr(e4), p3_index_of(addr));
        let e2 = self.entry_at(entry_addr(e3), p2_index_of(addr));
        self.entry_at(entry_addr(e2), p1_index_of(addr))
    }

    /// Whether the page at `addr` is mapped and can be written.
    pub open spec fn is_writable(self, addr: u64) -> bool {
        self.translation(addr) is Ok && entry_writable(self.page_entry(addr))
    }

    /// Whether the entry at `index` of the table in `table` is one of the
    /// four that the walk for `addr` reads, each table taken from the
    /// address in the entry above it.
    pub open spec fn on_walk(self, addr: u64, table: u64, index: int) -> bool {
        let e4 = self.entry_at(self.root(), p4_index_of(addr));
        let e3 = self.entry_at(entry_addr(e4), p3_index_of(addr));
        let e2 = self.entry_at(entry_addr(e3), p2_index_of(addr));
        ||| table == self.root() && index == p4_index_of(addr)
        ||| table == entry_addr(e4) && index == p3_index_of(addr)
        ||| table == entry_addr(e3) && index == p2_index_of(addr)
        ||| table == entry_addr(e2) && index == p1_index_of(addr)
    }

    /// The first unused entry that a mapping of the page at `addr` would
    /// meet, as its table and index; the page's own entry where there is
    /// none.
    pub open spec fn first_unused(self, addr: u64) -> (u64, int) {
        let e4 = self.entry_at(self.root(), p4_index_of(addr));
        let e3 = self.entry_at(entry_addr(e4), p3_index_of(addr));
        let e2 = self.entry_at(entry_addr(e3), p2_index_of(addr));
        if e4 == 0 {
            (self.root(), p4_index_of(addr))
        } else if e3 == 0 {
            (entry_addr(e4), p3_index_of(addr))
        } else if e2 == 0 {
            (entry_addr(e3), p2_index_of(addr))
        } else {
            (entry_addr(e2), p1_index_of(addr))
        }
    }

    /// Where the page at `addr` stands: the walk that a mapping would make,
    /// which takes every entry that is in use for a table unless it maps a
    /// huge frame, and stops at the first unused entry.
    pub open spec fn page_status(self, addr: u64) -> PageStatus {
        let e4 = self.entry_at(self.root(), p4_index_of(addr));
        let e3 = self.entry_at(entry_addr(e4), p3_index_of(addr));
        let e2 = self.entry_at(entry_addr(e3), p2_index_of(addr));
        let e1 = self.entry_at(entry_addr(e2), p1_index_of(addr));
        if e4 == 0 {
            PageStatus::Mappable { missing: 3 }
        } else if entry_huge(e4) {
            PageStatus::HugeParent
        } else if e3 == 0 {
            PageStatus::Mappable { missing: 2 }
        } else if entry_huge(e3) {
            PageStatus::HugeParent
        } else if e2 == 0 {
            PageStatus::Mappable { missing: 1 }
        } else if entry_huge(e2) {
            PageStatus::HugeParent
        } else if e1 == 0 {
            PageStatus::Mappable { missing: 0 }
        } else {
            PageStatus::AlreadyMapped
        }
    }

    proof fn lemma_slot(self, k: int)
        requires
            self.wf(),
            0 <= k < self.tables@.len(),
        ensures
            self.holds_table(self.tables@[k].frame),
            self.slot_of(self.tables@[k].frame) == k,
    {
        reveal(OffsetPageTable::holds_table);
        reveal(OffsetPageTable::entry_at);
        let frame = self.tables@[k].frame;
        assert(self.holds_table(frame));
        let s = self.slot_of(frame);
        assert(0 <= s < self.tables@.len() && self.tables@[s].frame == frame);
        if s < k {
            assert(self.tables@[s].frame != self.tables@[k].frame);
        } else if k < s {
            assert(self.tables@[k].frame != self.tables@[s].frame);
        }
    }

    /// An address space whose level 4 table is in `level_4_frame` and holds
    /// no entry yet.
    pub fn new(level_4_frame: PhysFrame, phys_offset: VirtAddr) -> (r: OffsetPageTable)
        ensures
            r.wf(),
            r.root() == level_4_frame@,
            r.offset() == phys_offset@,
            forall|frame: u64, index: int| r.entry_at(frame, index) == 0,
            forall|frame: u64| r.holds_table(frame) <==> frame == level_4_frame@,
            forall|frame: u64| !r.referenced(frame),
    {
        let root: u64 = level_4_frame.start_address().as_u64();
        let mut tables: Vec<TableFrame> = Vec::new();
        tables.push(TableFrame { frame: root, table: table_new() });
        let r = OffsetPageTable { level_4_frame: root, phys_offset, tables };
        proof {
            reveal(OffsetPageTable::holds_table);
            reveal(OffsetPageTable::entry_at);
            assert(r.tables@[0].frame == root);
            assert(r.holds_table(root));
            assert forall|frame: u64, index: int| r.entry_at(frame, index) == 0 by {
                if r.holds_table(frame) && 0 <= index < 512 {
                    let s = r.slot_of(frame);
                    assert(s == 0);
                    assert(table_entries(r.tables@[0].table)[index] == 0);
                }
            }
        }
        r
    }

    /// The frame that holds the level 4 table.
    pub fn level_4_frame(&self) -> (r: PhysFrame)
        requires
            self.wf(),
        ensures
            r.wf(),
            r@ == self.root(),
    {
        match crate::addr::PhysAddr::try_new(self.level_4_frame) {
            Some(a) => PhysFrame::containing_address(a),
            None => PhysFrame::containing_address(crate::addr::PhysAddr::new(0)),
        }
    }

    /// The offset at which physical memory is visible.
    pub fn phys_offset(&self) -> (r: VirtAddr)
        ensures
            r@ == self.offset(),
    {
        self.phys_offset
    }
}

/// Facts about the bits of an entry once parent flags are set on it.
proof fn lemma_flagged_entry(entry: u64, flags: u64)
    by (bit_vector)
    requires
        flags == 1 || flags == 3 || flags == 5 || flags == 7,
    ensures
        entry | flags != 0,
        (entry | flags) & 1 != 0,
        ((entry | flags) & 0x80 != 0) == (entry & 0x80 != 0),
        (entry | flags) & 0x000f_ffff_ffff_f000 == entry & 0x000f_ffff_ffff_f000,
        (entry & 0x000f_ffff_ffff_f000) | ((entry & 0xfff0_0000_0000_0fff) | flags) == entry
            | flags,
        ((entry & 0xfff0_0000_0000_0fff) | flags) & 0xfff0_0000_0000_0fff == (entry
            & 0xfff0_0000_0000_0fff) | flags,
        (entry & 0xfff0_0000_0000_0fff) & flags == flags ==> entry | flags == entry,
        entry & 2 != 0 ==> (entry | flags) & 2 != 0,
        flags & 0xfff0_0000_0000_0fff == flags,
        flags & 0x80 == 0,
{
}

/// Facts about the bits of an entry that points at a frame.
proof fn lemma_frame_entry(frame: u64, flags: u64)
    by (bit_vector)
    requires
        frame < 0x10_0000_0000_0000,
        frame % 4096 == 0,
        flags == 1 || flags == 3 || flags == 5 || flags == 7,
    ensures
        frame | flags != 0,
        (frame | flags) & 1 != 0,
        (frame | flags) & 0x80 == 0,
        (frame | flags) & 0x000f_ffff_ffff_f000 == frame,
        ((frame | flags) & 2 != 0) == (flags == 3 || flags == 7),
{
}

/// The address bits of an entry are a frame's start address.
proof fn lemma_entry_addr(entry: u64)
    by (bit_vector)
    ensures
        entry & 0x000f_ffff_ffff_f000 < 0x10_0000_0000_0000,
        (entry & 0x000f_ffff_ffff_f000) % 4096 == 0,
        entry & 1 != 0 ==> entry != 0,
        entry & 0x80 != 0 ==> entry != 0,
{
}

impl PageTableFlags {
    proof fn lemma_bits(self)
        ensures
            self.bits_spec() == 1 || self.bits_spec() == 3 || self.bits_spec() == 5
                || self.bits_spec() == 7,
    {
    }
}

impl OffsetPageTable {
    /// `other` keeps what `self` has: every entry that is in use stays in use
    /// and keeps its address, its huge-page bit and, once set, its present
    /// bit.
    #[verifier::opaque]
    pub open spec fn extended_by(self, other: OffsetPageTable) -> bool {
        &&& other.root() == self.root()
        &&& other.offset() == self.offset()
        &&& forall|t: u64| self.holds_table(t) ==> other.holds_table(t)
        &&& forall|t: u64, i: int|
            #![trigger self.entry_at(t, i)]
            #![trigger other.entry_at(t, i)]
            self.entry_at(t, i) != 0 ==> {
                &&& other.entry_at(t, i) != 0
                &&& entry_addr(other.entry_at(t, i)) == entry_addr(self.entry_at(t, i))
                &&& entry_huge(other.entry_at(t, i)) == entry_huge(self.entry_at(t, i))
                &&& entry_present(self.entry_at(t, i)) ==> entry_present(other.entry_at(t, i))
                &&& entry_writable(self.entry_at(t, i)) ==> entry_writable(other.entry_at(t, i))
            }
    }

    /// Only the entry at `index` of the table in `table` differs between
    /// `self` and `other`.
    #[verifier::opaque]
    spec fn differs_at(self, other: OffsetPageTable, table: u64, index: int) -> bool {
        forall|t: u64, i: int|
            #![trigger self.entry_at(t, i)]
            #![trigger other.entry_at(t, i)]
            !(t == table && i == index) ==> other.entry_at(t, i) == self.entry_at(t, i)
    }

    /// Every entry of `other` that the walk for `addr` in `other` does not
    /// read is as it is in `self`.
    #[verifier::opaque]
    pub open spec fn kept_off_walk(self, other: OffsetPageTable, addr: u64) -> bool {
        forall|t: u64, i: int|
            #![trigger other.entry_at(t, i)]
            !other.on_walk(addr, t, i) ==> other.entry_at(t, i) == self.entry_at(t, i)
    }

    /// Every entry that was in use in `self` is in `other` as it was, or as
    /// it was with the bits of `flags` set.
    #[verifier::opaque]
    pub open spec fn flags_added(self, other: OffsetPageTable, flags: u64) -> bool {
        forall|t: u64, i: int|
            #![trigger other.entry_at(t, i)]
            self.entry_at(t, i) != 0 ==> other.entry_at(t, i) == self.entry_at(t, i)
                || other.entry_at(t, i) == self.entry_at(t, i) | flags
    }

    /// Where the pages stand in `other` that had their first unused entry
    /// in common with `page`, once `page` was mapped from `self` and
    /// `missing` tables were made for it.
    #[verifier::opaque]
    pub open spec fn pages_joined(self, other: OffsetPageTable, page: u64, missing: u8) -> bool {
        forall|q: u64|
            self.first_unused(q) == self.first_unused(page) && self.page_status(q)
                == self.page_status(page) ==> #[trigger] other.page_status(q) == joined_status(
                missing,
                page,
                q,
            )
    }

    /// The three entries that lead to `page` in `other`, where `page` was
    /// mapped from `self` with the bits of `flags` and `missing` tables were
    /// made in the first of `frames`: an entry that was in use has the bits
    /// set; one that was not holds the frame of the table made for it, and
    /// the bits.
    #[verifier::opaque]
    pub open spec fn parents_set(
        self,
        other: OffsetPageTable,
        page: u64,
        frames: Seq<u64>,
        flags: u64,
        missing: int,
    ) -> bool {
        let e4 = self.entry_at(self.root(), p4_index_of(page));
        let e3 = self.entry_at(entry_addr(e4), p3_index_of(page));
        let e2 = self.entry_at(entry_addr(e3), p2_index_of(page));
        let w4 = other.entry_at(other.root(), p4_index_of(page));
        let w3 = other.entry_at(entry_addr(w4), p3_index_of(page));
        let w2 = other.entry_at(entry_addr(w3), p2_index_of(page));
        &&& w4 == (if missing >= 3 {
            frames[0]
        } else {
            e4
        }) | flags
        &&& w3 == (if missing >= 2 {
            frames[missing - 2]
        } else {
            e3
        }) | flags
        &&& w2 == (if missing >= 1 {
            frames[missing - 1]
        } else {
            e2
        }) | flags
    }

    /// The position of the table that a frame holds.
    fn find_table(&self, frame: u64) -> (r: Option<usize>)
        requires
            self.wf(),
        ensures
            match r {
                Some(k) => k < self.tables@.len() && self.tables@[k as int].frame == frame
                    && self.holds_table(frame) && self.slot_of(frame) == k,
                None => !self.holds_table(frame),
            },
    {
        proof {
            reveal(OffsetPageTable::holds_table);
            reveal(OffsetPageTable::entry_at);
        }
        let mut k: usize = 0;
        while k < self.tables.len()
            invariant
                self.wf(),
                k <= self.tables@.len(),
                forall|j: int| 0 <= j < k ==> (#[trigger] self.tables@[j]).frame != frame,
            decreases self.tables@.len() - k,
        {
            if self.tables[k].frame == frame {
                proof {
                    self.lemma_slot(k as int);
                }
                return Some(k);
            }
            k += 1;
        }
        None
    }

    /// What changing the table in one slot does to the address space.
    proof fn lemma_slot_changed(self, other: OffsetPageTable, k: int)
        requires
            self.wf(),
            0 <= k < self.tables@.len(),
            other.level_4_frame == self.level_4_frame,
            other.phys_offset == self.phys_offset,
            other.tables@.len() == self.tables@.len(),
            forall|j: int|
                0 <= j < self.tables@.len() ==> (#[trigger] other.tables@[j]).frame
                    == self.tables@[j].frame,
            forall|j: int|
                0 <= j < self.tables@.len() && j != k ==> (#[trigger] other.tables@[j])
                    == self.tables@[j],
            table_entries(other.tables@[k].table).len() == 512,
        ensures
            other.wf(),
            forall|t: u64| other.holds_table(t) == self.holds_table(t),
            forall|t: u64, i: int|
                #![trigger self.entry_at(t, i)]
                #![trigger other.entry_at(t, i)]
                other.entry_at(t, i) == (if t == self.tables@[k].frame && 0 <= i < 512 {
                    table_entries(other.tables@[k].table)[i]
                } else {
                    self.entry_at(t, i)
                }),
    {
        reveal(OffsetPageTable::holds_table);
        reveal(OffsetPageTable::entry_at);
        assert forall|t: u64| other.holds_table(t) == self.holds_table(t) by {
            if self.holds_table(t) {
                let j = self.slot_of(t);
                assert(other.tables@[j].frame == t);
            }
            if other.holds_table(t) {
                let j = other.slot_of(t);
                assert(other.tables@[j].frame == t);
                assert(self.tables@[j].frame == t);
            }
        }
        assert(other.wf()) by {
            assert forall|j: int, l: int| 0 <= j < l < other.tables@.len() implies (
            #[trigger] other.tables@[j]).frame != (#[trigger] other.tables@[l]).frame by {
                assert(self.tables@[j].frame != self.tables@[l].frame);
            }
            assert forall|j: int| 0 <= j < other.tables@.len() implies {
                &&& (#[trigger] other.tables@[j]).frame < PHYS_ADDR_LIMIT
                &&& other.tables@[j].frame % 4096 == 0
                &&& table_entries(other.tables@[j].table).len() == 512
            } by {
                assert(self.tables@[j].frame < PHYS_ADDR_LIMIT);
                if j != k {
                    assert(other.tables@[j] == self.tables@[j]);
                }
            }
        }
        assert forall|t: u64, i: int|
            #![trigger self.entry_at(t, i)]
            #![trigger other.entry_at(t, i)]
            other.entry_at(t, i) == (if t == self.tables@[k].frame && 0 <= i < 512 {
                table_entries(other.tables@[k].table)[i]
            } else {
                self.entry_at(t, i)
            }) by {
            if self.holds_table(t) && 0 <= i < 512 {
                let j = self.slot_of(t);
                self.lemma_slot(j);
                other.lemma_slot(j);
                if j != k {
                    assert(other.tables@[j] == self.tables@[j]);
                }
            }
        }
    }

    /// The position of the table that a frame holds, which is a table of
    /// unused entries if the frame held none so far.
    #[verifier::rlimit(50)]
    fn slot_for(&mut self, frame: u64) -> (k: usize)
        requires
            old(self).wf(),
            frame < PHYS_ADDR_LIMIT,
            frame % 4096 == 0,
        ensures
            final(self).wf(),
            final(self).root() == old(self).root(),
            final(self).offset() == old(self).offset(),
            k < final(self).tables@.len(),
            final(self).tables@[k as int].frame == frame,
            forall|t: u64| final(self).holds_table(t) <==> old(self).holds_table(t) || t == frame,
            forall|t: u64, i: int|
                #![trigger final(self).entry_at(t, i)]
                final(self).entry_at(t, i) == old(self).entry_at(t, i),
    {
        match self.find_table(frame) {
            Some(k) => k,
            None => {
                let ghost before = *self;
                let k: usize = self.tables.len();
                self.tables.push(TableFrame { frame, table: table_new() });
                proof {
                    reveal(OffsetPageTable::holds_table);
                    reveal(OffsetPageTable::entry_at);
                    let after = *self;
                    assert(after.tables@[k as int].frame == frame);
                    assert forall|j: int| 0 <= j < before.tables@.len() implies (
                    #[trigger] after.tables@[j]) == before.tables@[j] by {}
                    assert forall|j: int, l: int| 0 <= j < l < after.tables@.len() implies (
                    #[trigger] after.tables@[j]).frame != (#[trigger] after.tables@[l]).frame by {
                        if l == k {
                            assert(before.tables@[j].frame != frame);
                        } else {
                            assert(before.tables@[j].frame != before.tables@[l].frame);
                        }
                    }
                    assert forall|t: u64| after.holds_table(t) <==> before.holds_table(t) || t
                        == frame by {
                        if before.holds_table(t) {
                            let j = before.slot_of(t);
                            assert(after.tables@[j].frame == t);
                        }
                        if after.holds_table(t) && t != frame {
                            let j = after.slot_of(t);
                            assert(before.tables@[j].frame == t);
                        }
                    }
                    assert(after.wf()) by {
                        assert forall|j: int| 0 <= j < after.tables@.len() implies {
                            &&& (#[trigger] after.tables@[j]).frame < PHYS_ADDR_LIMIT
                            &&& after.tables@[j].frame % 4096 == 0
                            &&& table_entries(after.tables@[j].table).len() == 512
                        } by {
                            if j < k {
                                assert(before.tables@[j].frame < PHYS_ADDR_LIMIT);
                            }
                        }
                    }
                    assert forall|t: u64, i: int| #![trigger after.entry_at(t, i)]
                        after.entry_at(t, i) == before.entry_at(t, i) by {
                        if after.holds_table(t) && 0 <= i < 512 {
                            let j = after.slot_of(t);
                            after.lemma_slot(j);
                            if j < k {
                                before.lemma_slot(j);
                            } else {
                                assert(table_entries(after.tables@[k as int].table)[i] == 0);
                            }
                        }
                    }
                }
                k
            },
        }
    }

    /// Points the entry in slot `k` at `index` to a frame.
    fn put_frame(&mut self, k: usize, index: usize, frame: u64, flags: u64)
        requires
            old(self).wf(),
            k < old(self).tables@.len(),
            index < 512,
            frame < PHYS_ADDR_LIMIT,
            frame % 4096 == 0,
            flags == 1 || flags == 3 || flags == 5 || flags == 7,
        ensures
            final(self).wf(),
            final(self).root() == old(self).root(),
            final(self).offset() == old(self).offset(),
            forall|t: u64| final(self).holds_table(t) == old(self).holds_table(t),
            final(self).tables@.len() == old(self).tables@.len(),
            final(self).tables@[k as int].frame == old(self).tables@[k as int].frame,
            old(self).differs_at(*final(self), old(self).tables@[k as int].frame, index as int),
            final(self).entry_at(old(self).tables@[k as int].frame, index as int) == frame | flags,
    {
        let ghost before = *self;
        proof {
            reveal(OffsetPageTable::differs_at);
            lemma_flagged_entry(0, flags);
            before.lemma_slot(k as int);
        }
        table_set_frame(&mut self.tables[k].table, index, frame, flags);
        proof {
            reveal(OffsetPageTable::differs_at);
            reveal(OffsetPageTable::entry_at);
            before.lemma_slot_changed(*self, k as int);
            assert(before.differs_at(*self, before.tables@[k as int].frame, index as int));
        }
    }

    /// Replaces the flags of the entry in slot `k` at `index`.
    fn put_flags(&mut self, k: usize, index: usize, flags: u64)
        requires
            old(self).wf(),
            k < old(self).tables@.len(),
            index < 512,
            flags & FLAGS_MASK == flags,
        ensures
            final(self).wf(),
            final(self).root() == old(self).root(),
            final(self).offset() == old(self).offset(),
            forall|t: u64| final(self).holds_table(t) == old(self).holds_table(t),
            final(self).tables@.len() == old(self).tables@.len(),
            final(self).tables@[k as int].frame == old(self).tables@[k as int].frame,
            old(self).differs_at(*final(self), old(self).tables@[k as int].frame, index as int),
            final(self).entry_at(old(self).tables@[k as int].frame, index as int) == (old(self).entry_at(old(self).tables@[k as int].frame, index as int) & ADDR_MASK) | flags,
    {
        let ghost before = *self;
        proof {
            reveal(OffsetPageTable::differs_at);
            reveal(OffsetPageTable::entry_at);
            before.lemma_slot(k as int);
        }
        table_set_flags(&mut self.tables[k].table, index, flags);
        proof {
            reveal(OffsetPageTable::differs_at);
            reveal(OffsetPageTable::entry_at);
            before.lemma_slot_changed(*self, k as int);
            assert(before.differs_at(*self, before.tables@[k as int].frame, index as int));
        }
    }

    /// Clears every entry of the table in slot `k`.
    fn clear_table(&mut self, k: usize)
        requires
            old(self).wf(),
            k < old(self).tables@.len(),
        ensures
            final(self).wf(),
            final(self).root() == old(self).root(),
            final(self).offset() == old(self).offset(),
            forall|t: u64| final(self).holds_table(t) == old(self).holds_table(t),
            forall|t: u64, i: int|
                #![trigger final(self).entry_at(t, i)]
                final(self).entry_at(t, i) == (if t == old(self).tables@[k as int].frame {
                    0
                } else {
                    old(self).entry_at(t, i)
                }),
    {
        let ghost before = *self;
        table_zero(&mut self.tables[k].table);
        proof {
            reveal(OffsetPageTable::entry_at);
            before.lemma_slot_changed(*self, k as int);
            before.lemma_slot(k as int);
            let after = *self;
            assert forall|t: u64, i: int| #![trigger after.entry_at(t, i)]
                after.entry_at(t, i) == (if t == before.tables@[k as int].frame {
                    0
                } else {
                    before.entry_at(t, i)
                }) by {}
        }
    }

    /// The table that the entry at `index` of the table in `table` leads to,
    /// made first if the entry is unused.
    ///
    /// An unused entry is pointed at the next frame of the allocator, and the
    /// table in that frame is cleared. An entry in use gets the flags added
    /// that it lacks, and leads to the table it points at unless it maps a
    /// huge frame.
    #[verifier::rlimit(50)]
    fn create_next_table<A: FrameAllocator>(
        &mut self,
        table: u64,
        index: usize,
        flags: u64,
        allocator: &mut A,
    ) -> (r: Result<u64, MapToError>)
        requires
            old(self).wf(),
            old(self).holds_table(table),
            index < 512,
            flags == 1 || flags == 3 || flags == 5 || flags == 7,
            old(allocator).wf(),
            old(self).frames_unused(old(allocator).remaining()),
        ensures
            final(self).wf(),
            final(allocator).wf(),
            final(self).root() == old(self).root(),
            final(self).offset() == old(self).offset(),
            old(self).extended_by(*final(self)),
            old(self).differs_at(*final(self), table, index as int),
            final(self).frames_unused(final(allocator).remaining()),
            forall|x: u64|
                final(self).referenced(x) ==> old(self).referenced(x) || (old(allocator).remaining().len() > 0 && x == old(allocator).remaining()[0]),
            ({
                let e = old(self).entry_at(table, index as int);
                let rest = old(allocator).remaining();
                if e == 0 {
                    if rest.len() == 0 {
                        &&& r == Err::<u64, MapToError>(MapToError::FrameAllocationFailed)
                        &&& final(self).entry_at(table, index as int) == 0
                        &&& final(allocator).remaining() == rest
                        &&& forall|t: u64| final(self).holds_table(t) == old(self).holds_table(t)
                    } else {
                        &&& r == Ok::<u64, MapToError>(rest[0])
                        &&& rest[0] < PHYS_ADDR_LIMIT && rest[0] % 4096 == 0
                        &&& final(self).entry_at(table, index as int) == rest[0] | flags
                        &&& final(allocator).remaining() == rest.skip(1)
                        &&& forall|t: u64|
                            final(self).holds_table(t) <==> old(self).holds_table(t) || t
                                == rest[0]
                        &&& !old(self).holds_table(rest[0])
                    }
                } else {
                    &&& final(self).entry_at(table, index as int) == e | flags
                    &&& final(allocator).remaining() == rest
                    &&& if entry_huge(e) {
                        &&& r == Err::<u64, MapToError>(MapToError::ParentEntryHugePage)
                        &&& forall|t: u64| final(self).holds_table(t) == old(self).holds_table(t)
                    } else {
                        &&& r == Ok::<u64, MapToError>(entry_addr(e))
                        &&& forall|t: u64|
                            final(self).holds_table(t) <==> old(self).holds_table(t) || t
                                == entry_addr(e)
                    }
                }
            }),
    {
        let ghost before = *self;
        let ghost rest = allocator.remaining();
        let ghost e = before.entry_at(table, index as int);
        let k: usize = match self.find_table(table) {
            Some(k) => k,
            None => 0,
        };
        proof {
            reveal(OffsetPageTable::differs_at);
            reveal(OffsetPageTable::extended_by);
            reveal(OffsetPageTable::frames_unused);
            reveal(OffsetPageTable::entry_at);
            before.lemma_slot(k as int);
            lemma_flagged_entry(e, flags);
            lemma_entry_addr(e);
        }
        let created: bool;
        if table_is_unused(&self.tables[k].table, index) {
            match allocator.allocate_frame() {
                Some(frame) => {
                    let start: u64 = frame.start_address().as_u64();
                    proof {
                        lemma_frame_entry(start, flags);
                    }
                    self.put_frame(k, index, start, flags);
                    created = true;
                },
                None => {
                    proof {
                        assert(before.extended_by(*self));
                    }
                    return Err(MapToError::FrameAllocationFailed);
                },
            }
        } else {
            let present: u64 = table_flags(&self.tables[k].table, index);
            if present & flags != flags {
                self.put_flags(k, index, present | flags);
            }
            created = false;
        }
        let ghost middle = *self;
        proof {
            middle.lemma_slot(k as int);
            assert(middle.entry_at(table, index as int) == (if e == 0 {
                rest[0] | flags
            } else {
                e | flags
            }));
            if e == 0 {
                lemma_frame_entry(rest[0], flags);
            }
            lemma_entry_addr(middle.entry_at(table, index as int));
        }
        match table_frame(&self.tables[k].table, index) {
            Ok(next) => {
                let slot: usize = self.slot_for(next);
                if created {
                    self.clear_table(slot);
                }
                proof {
                    let after = *self;
                    assert(before.differs_at(after, table, index as int));
                    assert(before.extended_by(after));
                    assert forall|x: u64| after.referenced(x) implies before.referenced(x) || (
                    rest.len() > 0 && x == rest[0]) by {
                        let (t, i) = choose|t: u64, i: int|
                            (#[trigger] after.entry_at(t, i)) != 0 && entry_addr(
                                after.entry_at(t, i),
                            ) == x;
                        if t == table && i == index {
                            if e != 0 {
                                assert(before.entry_at(table, index as int) != 0);
                            }
                        } else {
                            assert(before.entry_at(t, i) == after.entry_at(t, i));
                        }
                    }
                    if e != 0 {
                        assert(before.entry_at(table, index as int) != 0);
                        assert(before.referenced(entry_addr(e)));
                    }
                    assert(after.frames_unused(allocator.remaining())) by {
                        let now = allocator.remaining();
                        assert forall|i: int| 0 <= i < now.len() implies after.unused(
                            #[trigger] now[i],
                        ) by {
                            if e == 0 {
                                assert(now[i] == rest[i + 1]);
                                assert(before.unused(rest[i + 1]));
                                assert(rest[0] != rest[i + 1]);
                            } else {
                                assert(before.unused(rest[i]));
                            }
                        }
                        assert forall|i: int, j: int| 0 <= i < j < now.len() implies now[i]
                            != now[j] by {
                            if e == 0 {
                                assert(rest[i + 1] != rest[j + 1]);
                            }
                        }
                    }
                    if e == 0 {
                        assert(before.unused(rest[0]));
                    }
                }
                Ok(next)
            },
            Err(_) => {
                proof {
                    let after = *self;
                    assert(before.extended_by(after));
                    assert forall|x: u64| after.referenced(x) implies before.referenced(x) by {
                        let (t, i) = choose|t: u64, i: int|
                            (#[trigger] after.entry_at(t, i)) != 0 && entry_addr(
                                after.entry_at(t, i),
                            ) == x;
                        if t == table && i == index {
                            assert(before.entry_at(table, index as int) != 0);
                        } else {
                            assert(before.entry_at(t, i) == after.entry_at(t, i));
                        }
                    }
                    assert(after.frames_unused(allocator.remaining())) by {
                        let now = allocator.remaining();
                        assert forall|i: int| 0 <= i < now.len() implies after.unused(
                            #[trigger] now[i],
                        ) by {
                            assert(before.unused(rest[i]));
                        }
                    }
                }
                Err(MapToError::ParentEntryHugePage)
            },
        }
    }

    /// Every entry of `other` is that of `self`, or that of `self` with
    /// `flags` added where it is in use.
    #[verifier::opaque]
    spec fn flagged_by(self, other: OffsetPageTable, flags: u64) -> bool {
        forall|t: u64, i: int|
            #![trigger other.entry_at(t, i)]
            other.entry_at(t, i) == self.entry_at(t, i) || (self.entry_at(t, i) != 0
                && other.entry_at(t, i) == self.entry_at(t, i) | flags)
    }

    proof fn lemma_flagged_by_self(self, flags: u64)
        ensures
            self.flagged_by(self, flags),
    {
        reveal(OffsetPageTable::flagged_by);
    }

    proof fn lemma_flagged_step(
        self,
        a: OffsetPageTable,
        b: OffsetPageTable,
        table: u64,
        index: int,
        flags: u64,
    )
        requires
            self.flagged_by(a, flags),
            a.differs_at(b, table, index),
            a.entry_at(table, index) != 0,
            b.entry_at(table, index) == a.entry_at(table, index) | flags,
            flags == 1 || flags == 3 || flags == 5 || flags == 7,
        ensures
            self.flagged_by(b, flags),
    {
        reveal(OffsetPageTable::flagged_by);
        reveal(OffsetPageTable::differs_at);
        let e = self.entry_at(table, index);
        assert((e | flags) | flags == e | flags) by (bit_vector);
        lemma_flagged_entry(e, flags);
        assert forall|t: u64, i: int| #![trigger b.entry_at(t, i)]
            b.entry_at(t, i) == self.entry_at(t, i) || (self.entry_at(t, i) != 0 && b.entry_at(
                t,
                i,
            ) == self.entry_at(t, i) | flags) by {
            if t == table && i == index {
                assert(a.entry_at(t, i) == e || (e != 0 && a.entry_at(t, i) == e | flags));
            } else {
                assert(b.entry_at(t, i) == a.entry_at(t, i));
            }
        }
    }

    proof fn lemma_flagged_same(
        self,
        a: OffsetPageTable,
        b: OffsetPageTable,
        table: u64,
        index: int,
        flags: u64,
    )
        requires
            self.flagged_by(a, flags),
            a.differs_at(b, table, index),
            b.entry_at(table, index) == a.entry_at(table, index),
        ensures
            self.flagged_by(b, flags),
    {
        reveal(OffsetPageTable::flagged_by);
        reveal(OffsetPageTable::differs_at);
        assert forall|t: u64, i: int| #![trigger b.entry_at(t, i)]
            b.entry_at(t, i) == self.entry_at(t, i) || (self.entry_at(t, i) != 0 && b.entry_at(
                t,
                i,
            ) == self.entry_at(t, i) | flags) by {
            assert(b.entry_at(t, i) == a.entry_at(t, i));
            assert(a.entry_at(t, i) == self.entry_at(t, i) || (self.entry_at(t, i) != 0
                && a.entry_at(t, i) == self.entry_at(t, i) | flags));
        }
    }

    /// Where entries have at most gained flags, every page stands as it
    /// stood.
    proof fn lemma_flagged_statuses(self, a: OffsetPageTable, flags: u64)
        requires
            self.flagged_by(a, flags),
            a.root() == self.root(),
            flags == 1 || flags == 3 || flags == 5 || flags == 7,
        ensures
            forall|q: u64| #[trigger] a.page_status(q) == self.page_status(q),
    {
        assert forall|q: u64| #[trigger] a.page_status(q) == self.page_status(q) by {
            let e4 = self.entry_at(self.root(), p4_index_of(q));
            self.lemma_flagged_cell(a, flags, self.root(), p4_index_of(q));
            let e3 = self.entry_at(entry_addr(e4), p3_index_of(q));
            self.lemma_flagged_cell(a, flags, entry_addr(e4), p3_index_of(q));
            let e2 = self.entry_at(entry_addr(e3), p2_index_of(q));
            self.lemma_flagged_cell(a, flags, entry_addr(e3), p2_index_of(q));
            self.lemma_flagged_cell(a, flags, entry_addr(e2), p1_index_of(q));
        }
    }

    /// Where the walk for a page ends at an unused entry of its level 3
    /// table, two tables are missing for it and for every page that shares
    /// its level 1 table.
    proof fn lemma_stops_at_level_3(self, page: u64, p3: u64)
        requires
            self.entry_at(self.root(), p4_index_of(page)) != 0,
            !entry_huge(self.entry_at(self.root(), p4_index_of(page))),
            entry_addr(self.entry_at(self.root(), p4_index_of(page))) == p3,
            self.entry_at(p3, p3_index_of(page)) == 0,
        ensures
            forall|q: u64|
                q / 4096 / 512 == page / 4096 / 512 ==> #[trigger] self.page_status(q) == (
                PageStatus::Mappable { missing: 2 }),
    {
    }

    /// Where the walk for a page ends at an unused entry of its level 2
    /// table, one table is missing for it and for every page that shares its
    /// level 1 table.
    proof fn lemma_stops_at_level_2(self, page: u64, p3: u64, p2: u64)
        requires
            self.entry_at(self.root(), p4_index_of(page)) != 0,
            !entry_huge(self.entry_at(self.root(), p4_index_of(page))),
            entry_addr(self.entry_at(self.root(), p4_index_of(page))) == p3,
            self.entry_at(p3, p3_index_of(page)) != 0,
            !entry_huge(self.entry_at(p3, p3_index_of(page))),
            entry_addr(self.entry_at(p3, p3_index_of(page))) == p2,
            self.entry_at(p2, p2_index_of(page)) == 0,
        ensures
            forall|q: u64|
                q / 4096 / 512 == page / 4096 / 512 ==> #[trigger] self.page_status(q) == (
                PageStatus::Mappable { missing: 1 }),
    {
    }

    proof fn lemma_differs_refl(self, table: u64, index: int)
        ensures
            self.differs_at(self, table, index),
    {
        reveal(OffsetPageTable::differs_at);
    }

    /// Four changes, each to an entry on the walk for `page` as it is in the
    /// end, leave every entry off that walk as it was.
    proof fn lemma_changes_on_walk(
        self,
        m1: OffsetPageTable,
        m2: OffsetPageTable,
        m3: OffsetPageTable,
        m4: OffsetPageTable,
        page: u64,
        p3: u64,
        p2: u64,
        p1: u64,
    )
        requires
            self.differs_at(m1, m4.root(), p4_index_of(page)),
            m1.differs_at(m2, p3, p3_index_of(page)),
            m2.differs_at(m3, p2, p2_index_of(page)),
            m3.differs_at(m4, p1, p1_index_of(page)),
            m1 == m2 || p3 == entry_addr(m4.entry_at(m4.root(), p4_index_of(page))),
            m2 == m3 || (p3 == entry_addr(m4.entry_at(m4.root(), p4_index_of(page))) && p2
                == entry_addr(m4.entry_at(p3, p3_index_of(page)))),
            m3 == m4 || (p3 == entry_addr(m4.entry_at(m4.root(), p4_index_of(page))) && p2
                == entry_addr(m4.entry_at(p3, p3_index_of(page))) && p1 == entry_addr(
                m4.entry_at(p2, p2_index_of(page)),
            )),
        ensures
            self.kept_off_walk(m4, page),
    {
        reveal(OffsetPageTable::differs_at);
        reveal(OffsetPageTable::kept_off_walk);
        assert forall|t: u64, i: int| #![trigger m4.entry_at(t, i)] !m4.on_walk(page, t, i) implies m4.entry_at(
            t,
            i,
        ) == self.entry_at(t, i) by {
            assert(m1.entry_at(t, i) == self.entry_at(t, i));
            assert(m2.entry_at(t, i) == m1.entry_at(t, i));
            assert(m3.entry_at(t, i) == m2.entry_at(t, i));
            assert(m4.entry_at(t, i) == m3.entry_at(t, i));
        }
    }

    /// In an extension a page stands as it stood, unless it could be mapped
    /// and its first unused entry has come into use. A page that can still
    /// be mapped has no address that is mapped to anything.
    pub proof fn lemma_status_kept(self, other: OffsetPageTable, q: u64)
        requires
            self.extended_by(other),
            self.page_status(q) is Mappable ==> other.entry_at(
                self.first_unused(q).0,
                self.first_unused(q).1,
            ) == 0,
        ensures
            other.page_status(q) == self.page_status(q),
            self.page_status(q) is Mappable ==> other.translation(q) == Err::<u64, TranslateError>(
                TranslateError::TranslationMiss,
            ),
    {
        assert(other.root() == self.root()) by {
            reveal(OffsetPageTable::extended_by);
        }
        let e4 = self.entry_at(self.root(), p4_index_of(q));
        let e3 = self.entry_at(entry_addr(e4), p3_index_of(q));
        let e2 = self.entry_at(entry_addr(e3), p2_index_of(q));
        if e4 != 0 {
            self.lemma_extended_cell(other, self.root(), p4_index_of(q));
        }
        if e4 != 0 && !entry_huge(e4) && e3 != 0 {
            self.lemma_extended_cell(other, entry_addr(e4), p3_index_of(q));
        }
        if e4 != 0 && !entry_huge(e4) && e3 != 0 && !entry_huge(e3) && e2 != 0 {
            self.lemma_extended_cell(other, entry_addr(e3), p2_index_of(q));
        }
        if self.page_status(q) is AlreadyMapped {
            self.lemma_extended_cell(other, entry_addr(e2), p1_index_of(q));
        }
        if self.page_status(q) is Mappable {
            other.lemma_mappable_is_unmapped(q);
        }
    }

    /// What a mapping of `page` leaves alone. A page that was mapped, or
    /// stood below a huge entry, stands as it stood. A page that could be
    /// mapped, and whose first unused entry the walk for `page` does not
    /// read, can be mapped as before, and no address in it is mapped to
    /// anything.
    pub proof fn lemma_other_pages_kept(self, other: OffsetPageTable, page: u64, q: u64)
        requires
            self.extended_by(other),
            self.kept_off_walk(other, page),
            self.page_status(q) is Mappable ==> !other.on_walk(
                page,
                self.first_unused(q).0,
                self.first_unused(q).1,
            ),
        ensures
            other.page_status(q) == self.page_status(q),
            self.page_status(q) is Mappable ==> other.translation(q) == Err::<u64, TranslateError>(
                TranslateError::TranslationMiss,
            ),
    {
        reveal(OffsetPageTable::kept_off_walk);
        if self.page_status(q) is Mappable {
            let (t, i) = self.first_unused(q);
            assert(other.entry_at(t, i) == self.entry_at(t, i));
        }
        self.lemma_status_kept(other, q);
    }

    /// An extension keeps the walk of an address that is mapped.
    pub proof fn lemma_walk_kept(self, other: OffsetPageTable, addr: u64)
        requires
            self.extended_by(other),
            self.translation(addr) is Ok,
        ensures
            forall|t: u64, i: int| self.on_walk(addr, t, i) == other.on_walk(addr, t, i),
    {
        assert(other.root() == self.root()) by {
            reveal(OffsetPageTable::extended_by);
        }
        let e4 = self.entry_at(self.root(), p4_index_of(addr));
        lemma_entry_addr(e4);
        self.lemma_extended_cell(other, self.root(), p4_index_of(addr));
        let e3 = self.entry_at(entry_addr(e4), p3_index_of(addr));
        lemma_entry_addr(e3);
        self.lemma_extended_cell(other, entry_addr(e4), p3_index_of(addr));
        let e2 = self.entry_at(entry_addr(e3), p2_index_of(addr));
        lemma_entry_addr(e2);
        self.lemma_extended_cell(other, entry_addr(e3), p2_index_of(addr));
    }

    /// A table that was made on the way to a page holds nothing but the
    /// entry on that way.
    proof fn lemma_new_tables_empty(
        self,
        m1: OffsetPageTable,
        m2: OffsetPageTable,
        m3: OffsetPageTable,
        m4: OffsetPageTable,
        page: u64,
        p3: u64,
        p2: u64,
        p1: u64,
        made: int,
    )
        requires
            self.differs_at(m1, self.root(), p4_index_of(page)),
            m1.differs_at(m2, p3, p3_index_of(page)),
            m2.differs_at(m3, p2, p2_index_of(page)),
            m3.differs_at(m4, p1, p1_index_of(page)),
            self.holds_table(self.root()),
            m1.holds_table(p3),
            m2.holds_table(p2),
            forall|t: u64| self.holds_table(t) ==> m1.holds_table(t),
            forall|t: u64| m1.holds_table(t) ==> m2.holds_table(t),
            made >= 3 ==> !self.holds_table(p3),
            made >= 2 ==> !m1.holds_table(p2),
            made >= 1 ==> !m2.holds_table(p1),
        ensures
            made >= 3 ==> forall|j: int|
                j != p3_index_of(page) ==> #[trigger] m4.entry_at(p3, j) == 0,
            made >= 2 ==> forall|j: int|
                j != p2_index_of(page) ==> #[trigger] m4.entry_at(p2, j) == 0,
            made >= 1 ==> forall|j: int|
                j != p1_index_of(page) ==> #[trigger] m4.entry_at(p1, j) == 0,
    {
        reveal(OffsetPageTable::differs_at);
        if made >= 3 {
            assert forall|j: int| j != p3_index_of(page) implies #[trigger] m4.entry_at(p3, j)
                == 0 by {
                self.lemma_no_table_no_entry(p3, j);
                assert(m1.entry_at(p3, j) == self.entry_at(p3, j));
                assert(m2.entry_at(p3, j) == m1.entry_at(p3, j));
                assert(m3.entry_at(p3, j) == m2.entry_at(p3, j));
                assert(m4.entry_at(p3, j) == m3.entry_at(p3, j));
            }
        }
        if made >= 2 {
            assert forall|j: int| j != p2_index_of(page) implies #[trigger] m4.entry_at(p2, j)
                == 0 by {
                m1.lemma_no_table_no_entry(p2, j);
                assert(m2.entry_at(p2, j) == m1.entry_at(p2, j));
                assert(m3.entry_at(p2, j) == m2.entry_at(p2, j));
                assert(m4.entry_at(p2, j) == m3.entry_at(p2, j));
            }
        }
        if made >= 1 {
            assert forall|j: int| j != p1_index_of(page) implies #[trigger] m4.entry_at(p1, j)
                == 0 by {
                m2.lemma_no_table_no_entry(p1, j);
                assert(m3.entry_at(p1, j) == m2.entry_at(p1, j));
                assert(m4.entry_at(p1, j) == m3.entry_at(p1, j));
            }
        }
    }

    /// Where the pages stand that had their first unused entry in common
    /// with a page that has been mapped.
    proof fn lemma_joined_statuses(
        self,
        m4: OffsetPageTable,
        page: u64,
        p3: u64,
        p2: u64,
        p1: u64,
        missing: u8,
    )
        requires
            self.extended_by(m4),
            self.page_status(page) == (PageStatus::Mappable { missing }),
            m4.entry_at(m4.root(), p4_index_of(page)) != 0,
            !entry_huge(m4.entry_at(m4.root(), p4_index_of(page))),
            entry_addr(m4.entry_at(m4.root(), p4_index_of(page))) == p3,
            m4.entry_at(p3, p3_index_of(page)) != 0,
            !entry_huge(m4.entry_at(p3, p3_index_of(page))),
            entry_addr(m4.entry_at(p3, p3_index_of(page))) == p2,
            m4.entry_at(p2, p2_index_of(page)) != 0,
            !entry_huge(m4.entry_at(p2, p2_index_of(page))),
            entry_addr(m4.entry_at(p2, p2_index_of(page))) == p1,
            m4.entry_at(p1, p1_index_of(page)) != 0,
            missing >= 3 ==> forall|j: int|
                j != p3_index_of(page) ==> #[trigger] m4.entry_at(p3, j) == 0,
            missing >= 2 ==> forall|j: int|
                j != p2_index_of(page) ==> #[trigger] m4.entry_at(p2, j) == 0,
            missing >= 1 ==> forall|j: int|
                j != p1_index_of(page) ==> #[trigger] m4.entry_at(p1, j) == 0,
        ensures
            self.pages_joined(m4, page, missing),
    {
        reveal(OffsetPageTable::pages_joined);
        assert(m4.root() == self.root()) by {
            reveal(OffsetPageTable::extended_by);
        }
        assert forall|q: u64|
            self.first_unused(q) == self.first_unused(page) && self.page_status(q)
                == self.page_status(page) implies #[trigger] m4.page_status(q) == joined_status(
            missing,
            page,
            q,
        ) by {
            let e4 = self.entry_at(self.root(), p4_index_of(q));
            let e3 = self.entry_at(entry_addr(e4), p3_index_of(q));
            let e2 = self.entry_at(entry_addr(e3), p2_index_of(q));
            let f4 = self.entry_at(self.root(), p4_index_of(page));
            let f3 = self.entry_at(entry_addr(f4), p3_index_of(page));
            let f2 = self.entry_at(entry_addr(f3), p2_index_of(page));
            if missing <= 2 {
                self.lemma_extended_cell(m4, self.root(), p4_index_of(q));
                self.lemma_extended_cell(m4, self.root(), p4_index_of(page));
            }
            if missing <= 1 {
                self.lemma_extended_cell(m4, entry_addr(e4), p3_index_of(q));
                self.lemma_extended_cell(m4, entry_addr(f4), p3_index_of(page));
            }
            if missing == 0 {
                self.lemma_extended_cell(m4, entry_addr(e3), p2_index_of(q));
                self.lemma_extended_cell(m4, entry_addr(f3), p2_index_of(page));
            }
        }
    }

    /// A change that sets flag bits in an entry in use, or puts an unused
    /// entry to use, keeps what the earlier changes made of the entries that
    /// were in use.
    proof fn lemma_flags_step(
        self,
        a: OffsetPageTable,
        b: OffsetPageTable,
        table: u64,
        index: int,
        flags: u64,
    )
        requires
            self.flags_added(a, flags),
            a.differs_at(b, table, index),
            a.entry_at(table, index) == 0 || b.entry_at(table, index) == a.entry_at(table, index)
                | flags,
        ensures
            self.flags_added(b, flags),
    {
        reveal(OffsetPageTable::flags_added);
        reveal(OffsetPageTable::differs_at);
        let e = self.entry_at(table, index);
        assert((e | flags) | flags == e | flags) by (bit_vector);
        assert(e != 0 ==> e | flags != 0) by (bit_vector);
        assert forall|t: u64, i: int| #![trigger b.entry_at(t, i)] self.entry_at(t, i) != 0 implies (
        b.entry_at(t, i) == self.entry_at(t, i) || b.entry_at(t, i) == self.entry_at(t, i) | flags) by {
            if t == table && i == index {
                assert(a.entry_at(t, i) == e || a.entry_at(t, i) == e | flags);
            } else {
                assert(b.entry_at(t, i) == a.entry_at(t, i));
            }
        }
    }

    /// An entry that holds the flag bits is not changed by a change that
    /// sets them in an entry in use or puts an unused entry to use.
    proof fn lemma_set_entry_stays(
        self,
        b: OffsetPageTable,
        table: u64,
        index: int,
        flags: u64,
        t: u64,
        i: int,
    )
        requires
            self.differs_at(b, table, index),
            self.entry_at(table, index) == 0 || b.entry_at(table, index) == self.entry_at(
                table,
                index,
            ) | flags,
            self.entry_at(t, i) != 0,
            self.entry_at(t, i) | flags == self.entry_at(t, i),
        ensures
            b.entry_at(t, i) == self.entry_at(t, i),
    {
        reveal(OffsetPageTable::differs_at);
    }

    /// An entry in use gets, from a change that sets flag bits in an entry
    /// in use or puts an unused entry to use, no more than the flag bits.
    proof fn lemma_used_entry_flagged(
        self,
        b: OffsetPageTable,
        table: u64,
        index: int,
        flags: u64,
        t: u64,
        i: int,
    )
        requires
            self.differs_at(b, table, index),
            self.entry_at(table, index) == 0 || b.entry_at(table, index) == self.entry_at(
                table,
                index,
            ) | flags,
            self.entry_at(t, i) != 0,
        ensures
            b.entry_at(t, i) != 0,
            b.entry_at(t, i) | flags == self.entry_at(t, i) | flags,
    {
        reveal(OffsetPageTable::differs_at);
        let e = self.entry_at(t, i);
        assert((e | flags) | flags == e | flags) by (bit_vector);
        assert(e != 0 ==> e | flags != 0) by (bit_vector);
    }

    /// Nothing is added where nothing is changed.
    pub proof fn lemma_flags_added_refl(self, flags: u64)
        ensures
            self.flags_added(self, flags),
    {
        reveal(OffsetPageTable::flags_added);
    }

    /// Flag bits set twice are set once.
    pub proof fn lemma_flags_added_trans(self, b: OffsetPageTable, c: OffsetPageTable, flags: u64)
        requires
            self.flags_added(b, flags),
            b.flags_added(c, flags),
        ensures
            self.flags_added(c, flags),
    {
        reveal(OffsetPageTable::flags_added);
        assert forall|t: u64, i: int| #![trigger c.entry_at(t, i)] self.entry_at(t, i) != 0 implies (
        c.entry_at(t, i) == self.entry_at(t, i) || c.entry_at(t, i) == self.entry_at(t, i) | flags) by {
            let e = self.entry_at(t, i);
            assert((e | flags) | flags == e | flags) by (bit_vector);
            assert(e != 0 ==> e | flags != 0) by (bit_vector);
            assert(b.entry_at(t, i) == e || b.entry_at(t, i) == e | flags);
        }
    }

    /// What the entries that lead to a page hold once it is mapped.
    proof fn lemma_parents_set(
        self,
        m1: OffsetPageTable,
        m2: OffsetPageTable,
        m3: OffsetPageTable,
        m4: OffsetPageTable,
        page: u64,
        p3: u64,
        p2: u64,
        p1: u64,
        frames: Seq<u64>,
        flags: u64,
        missing: int,
    )
        requires
            flags == 1 || flags == 3 || flags == 5 || flags == 7,
            0 <= missing <= 3,
            m4.root() == self.root(),
            self.differs_at(m1, self.root(), p4_index_of(page)),
            m1.differs_at(m2, p3, p3_index_of(page)),
            m2.differs_at(m3, p2, p2_index_of(page)),
            m3.differs_at(m4, p1, p1_index_of(page)),
            (self.entry_at(self.root(), p4_index_of(page)) == 0) == (missing >= 3),
            (m1.entry_at(p3, p3_index_of(page)) == 0) == (missing >= 2),
            (m2.entry_at(p2, p2_index_of(page)) == 0) == (missing >= 1),
            m3.entry_at(p1, p1_index_of(page)) == 0,
            m1.entry_at(self.root(), p4_index_of(page)) == (if missing >= 3 {
                frames[0]
            } else {
                self.entry_at(self.root(), p4_index_of(page))
            }) | flags,
            m2.entry_at(p3, p3_index_of(page)) == (if missing >= 2 {
                frames[missing - 2]
            } else {
                m1.entry_at(p3, p3_index_of(page))
            }) | flags,
            m3.entry_at(p2, p2_index_of(page)) == (if missing >= 1 {
                frames[missing - 1]
            } else {
                m2.entry_at(p2, p2_index_of(page))
            }) | flags,
            entry_addr(m1.entry_at(self.root(), p4_index_of(page))) == p3,
            entry_addr(m2.entry_at(p3, p3_index_of(page))) == p2,
        ensures
            self.parents_set(m4, page, frames, flags, missing),
    {
        reveal(OffsetPageTable::parents_set);
        let root = self.root();
        let i4 = p4_index_of(page);
        let i3 = p3_index_of(page);
        let i2 = p2_index_of(page);
        let i1 = p1_index_of(page);
        let e4 = self.entry_at(root, i4);
        let e3 = self.entry_at(entry_addr(e4), i3);
        let e2 = self.entry_at(entry_addr(e3), i2);
        let v4 = m1.entry_at(root, i4);
        let v3 = m2.entry_at(p3, i3);
        let v2 = m3.entry_at(p2, i2);
        let x3 = m1.entry_at(p3, i3);
        let y2 = m2.entry_at(p2, i2);
        lemma_flagged_entry(if missing >= 3 { frames[0] } else { e4 }, flags);
        lemma_flagged_entry(if missing >= 2 { frames[missing - 2] } else { x3 }, flags);
        lemma_flagged_entry(if missing >= 1 { frames[missing - 1] } else { y2 }, flags);
        assert(v4 | flags == v4 && v3 | flags == v3 && v2 | flags == v2) by {
            let a = if missing >= 3 { frames[0] } else { e4 };
            let b = if missing >= 2 { frames[missing - 2] } else { x3 };
            let c = if missing >= 1 { frames[missing - 1] } else { y2 };
            assert((a | flags) | flags == a | flags) by (bit_vector);
            assert((b | flags) | flags == b | flags) by (bit_vector);
            assert((c | flags) | flags == c | flags) by (bit_vector);
        }
        // The entry of the root.
        m1.lemma_set_entry_stays(m2, p3, i3, flags, root, i4);
        m2.lemma_set_entry_stays(m3, p2, i2, flags, root, i4);
        m3.lemma_set_entry_stays(m4, p1, i1, flags, root, i4);
        assert(m4.entry_at(root, i4) == v4);
        // The entry of the level 3 table.
        m2.lemma_set_entry_stays(m3, p2, i2, flags, p3, i3);
        m3.lemma_set_entry_stays(m4, p1, i1, flags, p3, i3);
        assert(m4.entry_at(p3, i3) == v3);
        if missing < 3 {
            assert(p3 == entry_addr(e4));
        }
        if missing < 2 {
            if e3 == 0 {
                self.lemma_cell_kept(m1, root, i4, p3, i3);
            }
            self.lemma_used_entry_flagged(m1, root, i4, flags, p3, i3);
            assert(v3 == e3 | flags);
            lemma_flagged_entry(e3, flags);
            assert(p2 == entry_addr(e3));
        }
        // The entry of the level 2 table.
        m3.lemma_set_entry_stays(m4, p1, i1, flags, p2, i2);
        assert(m4.entry_at(p2, i2) == v2);
        if missing < 1 {
            if e2 == 0 {
                self.lemma_cell_kept(m1, root, i4, p2, i2);
                m1.lemma_cell_kept(m2, p3, i3, p2, i2);
            }
            self.lemma_used_entry_flagged(m1, root, i4, flags, p2, i2);
            m1.lemma_used_entry_flagged(m2, p3, i3, flags, p2, i2);
            assert(v2 == e2 | flags);
        }
    }

    proof fn lemma_flagged_cell(self, a: OffsetPageTable, flags: u64, t: u64, i: int)
        requires
            self.flagged_by(a, flags),
            flags == 1 || flags == 3 || flags == 5 || flags == 7,
        ensures
            (a.entry_at(t, i) == 0) == (self.entry_at(t, i) == 0),
            entry_huge(a.entry_at(t, i)) == entry_huge(self.entry_at(t, i)),
            entry_addr(a.entry_at(t, i)) == entry_addr(self.entry_at(t, i)),
    {
        reveal(OffsetPageTable::flagged_by);
        lemma_flagged_entry(self.entry_at(t, i), flags);
        assert(a.entry_at(t, i) == self.entry_at(t, i) || (self.entry_at(t, i) != 0
            && a.entry_at(t, i) == self.entry_at(t, i) | flags));
    }

    proof fn lemma_cell_kept(self, b: OffsetPageTable, table: u64, index: int, t: u64, i: int)
        requires
            self.differs_at(b, table, index),
            !(t == table && i == index),
        ensures
            b.entry_at(t, i) == self.entry_at(t, i),
    {
        reveal(OffsetPageTable::differs_at);
    }

    proof fn lemma_no_table_no_entry(self, t: u64, i: int)
        requires
            !self.holds_table(t),
        ensures
            self.entry_at(t, i) == 0,
    {
        reveal(OffsetPageTable::entry_at);
    }

    proof fn lemma_extended_cell(self, b: OffsetPageTable, t: u64, i: int)
        requires
            self.extended_by(b),
            self.entry_at(t, i) != 0,
        ensures
            b.entry_at(t, i) != 0,
            entry_addr(b.entry_at(t, i)) == entry_addr(self.entry_at(t, i)),
            entry_huge(b.entry_at(t, i)) == entry_huge(self.entry_at(t, i)),
            entry_present(self.entry_at(t, i)) ==> entry_present(b.entry_at(t, i)),
            entry_writable(self.entry_at(t, i)) ==> entry_writable(b.entry_at(t, i)),
    {
        reveal(OffsetPageTable::extended_by);
    }

    /// Extension is transitive.
    pub proof fn lemma_extended_trans(self, b: OffsetPageTable, c: OffsetPageTable)
        requires
            self.extended_by(b),
            b.extended_by(c),
        ensures
            self.extended_by(c),
    {
        reveal(OffsetPageTable::extended_by);
        assert forall|t: u64, i: int|
            #![trigger self.entry_at(t, i)]
            #![trigger c.entry_at(t, i)]
            self.entry_at(t, i) != 0 implies {
            &&& c.entry_at(t, i) != 0
            &&& entry_addr(c.entry_at(t, i)) == entry_addr(self.entry_at(t, i))
            &&& entry_huge(c.entry_at(t, i)) == entry_huge(self.entry_at(t, i))
            &&& entry_present(self.entry_at(t, i)) ==> entry_present(c.entry_at(t, i))
            &&& entry_writable(self.entry_at(t, i)) ==> entry_writable(c.entry_at(t, i))
        } by {
            assert(b.entry_at(t, i) != 0);
        }
    }

    /// Every address space extends itself.
    pub proof fn lemma_extended_refl(self)
        ensures
            self.extended_by(self),
    {
        reveal(OffsetPageTable::extended_by);
    }

    /// An extension keeps every translation that there was.
    pub proof fn lemma_extension_keeps_translation(self, b: OffsetPageTable, addr: u64)
        requires
            self.extended_by(b),
            self.translation(addr) is Ok,
        ensures
            b.translation(addr) == self.translation(addr),
            self.is_writable(addr) ==> b.is_writable(addr),
    {
        let e4 = self.entry_at(self.root(), p4_index_of(addr));
        lemma_entry_addr(e4);
        self.lemma_extended_cell(b, self.root(), p4_index_of(addr));
        assert(b.root() == self.root()) by {
            reveal(OffsetPageTable::extended_by);
        }
        let p3 = entry_addr(e4);
        let e3 = self.entry_at(p3, p3_index_of(addr));
        lemma_entry_addr(e3);
        self.lemma_extended_cell(b, p3, p3_index_of(addr));
        let p2 = entry_addr(e3);
        let e2 = self.entry_at(p2, p2_index_of(addr));
        lemma_entry_addr(e2);
        self.lemma_extended_cell(b, p2, p2_index_of(addr));
        let p1 = entry_addr(e2);
        let e1 = self.entry_at(p1, p1_index_of(addr));
        lemma_entry_addr(e1);
        self.lemma_extended_cell(b, p1, p1_index_of(addr));
    }

    /// An extension that has only set the bits of `flags` in entries in use
    /// keeps the entry of a mapped page that holds those bits.
    pub proof fn lemma_page_entry_kept(self, b: OffsetPageTable, addr: u64, flags: u64)
        requires
            self.extended_by(b),
            self.flags_added(b, flags),
            self.translation(addr) is Ok,
            self.page_entry(addr) | flags == self.page_entry(addr),
        ensures
            b.page_entry(addr) == self.page_entry(addr),
    {
        reveal(OffsetPageTable::flags_added);
        assert(b.root() == self.root()) by {
            reveal(OffsetPageTable::extended_by);
        }
        let e4 = self.entry_at(self.root(), p4_index_of(addr));
        lemma_entry_addr(e4);
        self.lemma_extended_cell(b, self.root(), p4_index_of(addr));
        let e3 = self.entry_at(entry_addr(e4), p3_index_of(addr));
        lemma_entry_addr(e3);
        self.lemma_extended_cell(b, entry_addr(e4), p3_index_of(addr));
        let e2 = self.entry_at(entry_addr(e3), p2_index_of(addr));
        lemma_entry_addr(e2);
        self.lemma_extended_cell(b, entry_addr(e3), p2_index_of(addr));
        let e1 = self.entry_at(entry_addr(e2), p1_index_of(addr));
        lemma_entry_addr(e1);
        assert(b.entry_at(entry_addr(e2), p1_index_of(addr)) == e1 || b.entry_at(
            entry_addr(e2),
            p1_index_of(addr),
        ) == e1 | flags);
    }

    /// The walk along entries that lead from the root to a frame.
    proof fn lemma_walk(self, page: u64, p3: u64, p2: u64, p1: u64, frame: u64)
        requires
            frame < PHYS_ADDR_LIMIT,
            walk_step(self.entry_at(self.root(), p4_index_of(page))) == Ok::<u64, TranslateError>(
                p3,
            ),
            walk_step(self.entry_at(p3, p3_index_of(page))) == Ok::<u64, TranslateError>(p2),
            walk_step(self.entry_at(p2, p2_index_of(page))) == Ok::<u64, TranslateError>(p1),
            walk_step(self.entry_at(p1, p1_index_of(page))) == Ok::<u64, TranslateError>(frame),
        ensures
            forall|a: u64|
                a / 4096 == page / 4096 ==> #[trigger] self.translation(a) == Ok::<
                    u64,
                    TranslateError,
                >((frame + a % 4096) as u64),
            self.page_status(page) == PageStatus::AlreadyMapped,
            forall|a: u64|
                a / 4096 == page / 4096 ==> #[trigger] self.page_entry(a) == self.entry_at(
                    p1,
                    p1_index_of(page),
                ),
    {
        lemma_entry_addr(self.entry_at(self.root(), p4_index_of(page)));
        lemma_entry_addr(self.entry_at(p3, p3_index_of(page)));
        lemma_entry_addr(self.entry_at(p2, p2_index_of(page)));
        lemma_entry_addr(self.entry_at(p1, p1_index_of(page)));
    }

    /// The status of a page below entries that lead to its level 1 table.
    proof fn lemma_status_below(self, q: u64, p3: u64, p2: u64, p1: u64)
        requires
            walk_step(self.entry_at(self.root(), p4_index_of(q))) == Ok::<u64, TranslateError>(p3),
            walk_step(self.entry_at(p3, p3_index_of(q))) == Ok::<u64, TranslateError>(p2),
            walk_step(self.entry_at(p2, p2_index_of(q))) == Ok::<u64, TranslateError>(p1),
        ensures
            self.page_status(q) == (if self.entry_at(p1, p1_index_of(q)) == 0 {
                PageStatus::Mappable { missing: 0 }
            } else {
                PageStatus::AlreadyMapped
            }),
    {
        lemma_entry_addr(self.entry_at(self.root(), p4_index_of(q)));
        lemma_entry_addr(self.entry_at(p3, p3_index_of(q)));
        lemma_entry_addr(self.entry_at(p2, p2_index_of(q)));
    }

    /// Of frames that are unused, those after the first are unused, and the
    /// first is none of them.
    pub proof fn lemma_unused_rest(self, frames: Seq<u64>)
        requires
            self.frames_unused(frames),
            frames.len() > 0,
        ensures
            self.frames_unused(frames.skip(1)),
            !frames.skip(1).contains(frames[0]),
    {
        reveal(OffsetPageTable::frames_unused);
        let rest = frames.skip(1);
        assert forall|i: int| 0 <= i < rest.len() implies self.unused(#[trigger] rest[i]) by {
            assert(rest[i] == frames[i + 1]);
        }
        assert forall|i: int, j: int| 0 <= i < j < rest.len() implies rest[i] != rest[j] by {
            assert(frames[i + 1] != frames[j + 1]);
        }
        if rest.contains(frames[0]) {
            let i = choose|i: int| 0 <= i < rest.len() && rest[i] == frames[0];
            assert(frames[0] != frames[i + 1]);
        }
    }

    /// No two of the frames that are unused are the same.
    pub proof fn lemma_unused_distinct(self, frames: Seq<u64>)
        requires
            self.frames_unused(frames),
        ensures
            forall|i: int, j: int| 0 <= i < j < frames.len() ==> frames[i] != frames[j],
    {
        reveal(OffsetPageTable::frames_unused);
    }

    /// Frames that are unused stay unused when an entry is written that
    /// points at none of them.
    proof fn lemma_entry_written(
        self,
        b: OffsetPageTable,
        frames: Seq<u64>,
        table: u64,
        index: int,
        target: u64,
    )
        requires
            self.frames_unused(frames),
            self.differs_at(b, table, index),
            entry_addr(b.entry_at(table, index)) == target,
            forall|t: u64| b.holds_table(t) == self.holds_table(t),
            forall|i: int| 0 <= i < frames.len() ==> frames[i] != target,
        ensures
            b.frames_unused(frames),
    {
        reveal(OffsetPageTable::frames_unused);
        reveal(OffsetPageTable::referenced);
        reveal(OffsetPageTable::differs_at);
        assert forall|i: int| 0 <= i < frames.len() implies b.unused(#[trigger] frames[i]) by {
            assert(self.unused(frames[i]));
            if b.referenced(frames[i]) {
                let (t, c) = choose|t: u64, c: int|
                    (#[trigger] b.entry_at(t, c)) != 0 && entry_addr(b.entry_at(t, c))
                        == frames[i];
                if t == table && c == index {
                } else {
                    assert(self.entry_at(t, c) == b.entry_at(t, c));
                    assert(self.referenced(frames[i]));
                }
            }
        }
    }

    /// A page that can be mapped is not mapped: no address in it has a
    /// translation.
    pub proof fn lemma_mappable_is_unmapped(self, addr: u64)
        requires
            self.page_status(addr) is Mappable,
        ensures
            self.translation(addr) == Err::<u64, TranslateError>(TranslateError::TranslationMiss),
    {
        assert(0u64 & 1 == 0) by (bit_vector);
    }
}

impl OffsetPageTable {
    /// Maps `page` to `frame`.
    ///
    /// Tables that are missing on the way to the page's entry are made in
    /// frames taken from the allocator, in the order in which the allocator
    /// hands them out. Entries already in use on the way get the mapping's
    /// flags added. The page's own entry must be unused; it becomes a present
    /// entry for `frame` with the mapping's flags.
    ///
    /// The caller flushes the returned page from the translation cache before
    /// it relies on the mapping.
    #[verifier::rlimit(100)]
    pub fn map_to<A: FrameAllocator>(
        &mut self,
        page: Page,
        frame: PhysFrame,
        flags: PageTableFlags,
        frame_allocator: &mut A,
    ) -> (r: Result<MapperFlush, MapToError>)
        requires
            old(self).wf(),
            old(frame_allocator).wf(),
            old(self).frames_unused(old(frame_allocator).remaining()),
        ensures
            final(self).wf(),
            final(frame_allocator).wf(),
            old(self).extended_by(*final(self)),
            old(self).kept_off_walk(*final(self), page@),
            old(self).flags_added(*final(self), flags.bits()),
            match old(self).page_status(page@) {
                PageStatus::Mappable { missing } => if missing <= old(frame_allocator).remaining().len() {
                    &&& r == Ok::<MapperFlush, MapToError>(MapperFlush { page })
                    &&& final(frame_allocator).remaining() == old(frame_allocator).remaining().skip(missing as int)
                    &&& forall|a: u64|
                        a / 4096 == page@ / 4096 ==> #[trigger] final(self).translation(a) == Ok::<
                            u64,
                            TranslateError,
                        >((frame@ + a % 4096) as u64)
                    &&& final(self).page_status(page@) == PageStatus::AlreadyMapped
                    &&& old(self).parents_set(
                        *final(self),
                        page@,
                        old(frame_allocator).remaining(),
                        flags.bits(),
                        missing as int,
                    )
                    &&& forall|a: u64|
                        a / 4096 == page@ / 4096 ==> #[trigger] final(self).page_entry(a) == frame@
                            | flags.bits()
                    &&& forall|a: u64|
                        a / 4096 == page@ / 4096 ==> #[trigger] final(self).is_writable(a)
                            == flags.writable
                    &&& forall|q: u64|
                        q / 4096 / 512 == page@ / 4096 / 512 && q / 4096 != page@ / 4096
                            ==> #[trigger] final(self).page_status(q) == settled(
                            old(self).page_status(q),
                        )
                    &&& old(self).pages_joined(*final(self), page@, missing)
                } else {
                    &&& r == Err::<MapperFlush, MapToError>(MapToError::FrameAllocationFailed)
                    &&& final(frame_allocator).remaining().len() == 0
                    &&& forall|q: u64|
                        q / 4096 / 512 == page@ / 4096 / 512 ==> #[trigger] final(self).page_status(
                            q,
                        ) == (PageStatus::Mappable {
                            missing: (missing - old(frame_allocator).remaining().len()) as u8,
                        })
                },
                PageStatus::HugeParent => {
                    &&& r == Err::<MapperFlush, MapToError>(MapToError::ParentEntryHugePage)
                    &&& final(frame_allocator).remaining() == old(frame_allocator).remaining()
                    &&& forall|q: u64|
                        #[trigger] final(self).page_status(q) == old(self).page_status(q)
                },
                PageStatus::AlreadyMapped => {
                    &&& r == Err::<MapperFlush, MapToError>(MapToError::PageAlreadyMapped(frame))
                    &&& final(frame_allocator).remaining() == old(frame_allocator).remaining()
                    &&& forall|q: u64|
                        #[trigger] final(self).page_status(q) == old(self).page_status(q)
                },
            },
            r is Err || !old(frame_allocator).remaining().contains(frame@) ==> final(self).frames_unused(final(frame_allocator).remaining()),
    {
        let ghost m0 = *self;
        let ghost rest = frame_allocator.remaining();
        let addr: VirtAddr = page.start_address();
        let bits: u64 = flags.bits();
        let root: u64 = self.level_4_frame;
        let i4: usize = addr.p4_index() as usize;
        let i3: usize = addr.p3_index() as usize;
        let i2: usize = addr.p2_index() as usize;
        let i1: usize = addr.p1_index() as usize;
        let ghost e4 = m0.entry_at(root, i4 as int);
        let ghost e3 = m0.entry_at(entry_addr(e4), i3 as int);
        let ghost e2 = m0.entry_at(entry_addr(e3), i2 as int);
        let ghost e1 = m0.entry_at(entry_addr(e2), i1 as int);
        proof {
            flags.lemma_bits();
            m0.lemma_flagged_by_self(bits);
            m0.lemma_extended_refl();
            m0.lemma_flags_added_refl(bits);
        }
        // Level 4.
        let p3: u64 = match self.create_next_table(root, i4, bits, frame_allocator) {
            Ok(t) => t,
            Err(e) => {
                proof {
                    if e4 == 0 {
                        m0.lemma_flagged_same(m0, *self, root, i4 as int, bits);
                    } else {
                        m0.lemma_flagged_step(m0, *self, root, i4 as int, bits);
                    }
                    m0.lemma_flagged_statuses(*self, bits);
                    let now = *self;
                    m0.lemma_flags_step(m0, now, root, i4 as int, bits);
                    now.lemma_differs_refl(0, p3_index_of(page@));
                    now.lemma_differs_refl(0, p2_index_of(page@));
                    now.lemma_differs_refl(0, p1_index_of(page@));
                    m0.lemma_changes_on_walk(now, now, now, now, page@, 0, 0, 0);
                }
                return Err(e);
            },
        };
        let ghost m1 = *self;
        let ghost rest1 = frame_allocator.remaining();
        let ghost made1 = e4 == 0;
        let ghost x3 = m1.entry_at(p3, i3 as int);
        proof {
            if made1 {
                m0.lemma_no_table_no_entry(p3, i3 as int);
                m0.lemma_cell_kept(m1, root, i4 as int, p3, i3 as int);
                assert(x3 == 0);
            } else {
                m0.lemma_flagged_step(m0, m1, root, i4 as int, bits);
                m0.lemma_flagged_cell(m1, bits, p3, i3 as int);
            }
            lemma_flagged_entry(e4, bits);
            if made1 {
                lemma_frame_entry(rest[0], bits);
            }
            assert(m1.entry_at(root, i4 as int) != 0 && entry_addr(m1.entry_at(root, i4 as int))
                == p3);
            m0.lemma_flags_step(m0, m1, root, i4 as int, bits);
        }
        // Level 3.
        let p2: u64 = match self.create_next_table(p3, i3, bits, frame_allocator) {
            Ok(t) => t,
            Err(e) => {
                proof {
                    let now = *self;
                    m0.lemma_extended_trans(m1, now);
                    m1.lemma_extended_cell(now, root, i4 as int);
                    m0.lemma_flags_step(m1, now, p3, i3 as int, bits);
                    now.lemma_differs_refl(0, p2_index_of(page@));
                    now.lemma_differs_refl(0, p1_index_of(page@));
                    m0.lemma_changes_on_walk(m1, now, now, now, page@, p3, 0, 0);
                    if made1 {
                        now.lemma_stops_at_level_3(page@, p3);
                    } else {
                        if x3 == 0 {
                            m0.lemma_flagged_same(m1, now, p3, i3 as int, bits);
                        } else {
                            m0.lemma_flagged_step(m1, now, p3, i3 as int, bits);
                        }
                        m0.lemma_flagged_statuses(now, bits);
                    }
                }
                return Err(e);
            },
        };
        let ghost m2 = *self;
        let ghost rest2 = frame_allocator.remaining();
        let ghost made2 = x3 == 0;
        let ghost y2 = m2.entry_at(p2, i2 as int);
        proof {
            m0.lemma_extended_trans(m1, m2);
            if made2 {
                m1.lemma_no_table_no_entry(p2, i2 as int);
                m1.lemma_cell_kept(m2, p3, i3 as int, p2, i2 as int);
                assert(y2 == 0);
            } else {
                m0.lemma_flagged_step(m1, m2, p3, i3 as int, bits);
                m0.lemma_flagged_cell(m2, bits, p2, i2 as int);
            }
            lemma_flagged_entry(x3, bits);
            if made2 {
                lemma_frame_entry(rest1[0], bits);
            }
            assert(m2.entry_at(p3, i3 as int) != 0 && entry_addr(m2.entry_at(p3, i3 as int)) == p2);
            m0.lemma_flags_step(m1, m2, p3, i3 as int, bits);
        }
        // Level 2.
        let p1: u64 = match self.create_next_table(p2, i2, bits, frame_allocator) {
            Ok(t) => t,
            Err(e) => {
                proof {
                    let now = *self;
                    m0.lemma_extended_trans(m2, now);
                    m1.lemma_extended_trans(m2, now);
                    m1.lemma_extended_cell(now, root, i4 as int);
                    m2.lemma_extended_cell(now, p3, i3 as int);
                    m0.lemma_flags_step(m2, now, p2, i2 as int, bits);
                    now.lemma_differs_refl(0, p1_index_of(page@));
                    m0.lemma_changes_on_walk(m1, m2, now, now, page@, p3, p2, 0);
                    if made2 {
                        now.lemma_stops_at_level_2(page@, p3, p2);
                    } else {
                        if y2 == 0 {
                            m0.lemma_flagged_same(m2, now, p2, i2 as int, bits);
                        } else {
                            m0.lemma_flagged_step(m2, now, p2, i2 as int, bits);
                        }
                        m0.lemma_flagged_statuses(now, bits);
                    }
                }
                return Err(e);
            },
        };
        let ghost m3 = *self;
        let ghost rest3 = frame_allocator.remaining();
        let ghost made3 = y2 == 0;
        let ghost z1 = m3.entry_at(p1, i1 as int);
        proof {
            m0.lemma_extended_trans(m2, m3);
            if made3 {
                m2.lemma_no_table_no_entry(p1, i1 as int);
                m2.lemma_cell_kept(m3, p2, i2 as int, p1, i1 as int);
                assert(z1 == 0);
            } else {
                m0.lemma_flagged_step(m2, m3, p2, i2 as int, bits);
                m0.lemma_flagged_cell(m3, bits, p1, i1 as int);
            }
            lemma_flagged_entry(y2, bits);
            if made3 {
                lemma_frame_entry(rest2[0], bits);
            }
            assert(m3.entry_at(p2, i2 as int) != 0 && entry_addr(m3.entry_at(p2, i2 as int)) == p1);
            m0.lemma_flags_step(m2, m3, p2, i2 as int, bits);
            m1.lemma_extended_trans(m2, m3);
            m1.lemma_extended_cell(m3, root, i4 as int);
            m2.lemma_extended_cell(m3, p3, i3 as int);
        }
        // The page's own entry.
        let k: usize = match self.find_table(p1) {
            Some(k) => k,
            None => 0,
        };
        proof {
            reveal(OffsetPageTable::entry_at);
            m3.lemma_slot(k as int);
        }
        if !table_is_unused(&self.tables[k].table, i1) {
            proof {
                m0.lemma_flagged_statuses(m3, bits);
                m3.lemma_differs_refl(p1, p1_index_of(page@));
                m0.lemma_changes_on_walk(m1, m2, m3, m3, page@, p3, p2, p1);
            }
            return Err(MapToError::PageAlreadyMapped(frame));
        }
        let start: u64 = frame.start_address().as_u64();
        self.put_frame(k, i1, start, bits);
        proof {
            let m4 = *self;
            assert(z1 == 0);
            lemma_frame_entry(start, bits);
            assert(m3.extended_by(m4)) by {
                reveal(OffsetPageTable::extended_by);
                reveal(OffsetPageTable::differs_at);
            }
            m0.lemma_extended_trans(m3, m4);
            m1.lemma_extended_trans(m3, m4);
            m2.lemma_extended_trans(m3, m4);
            // What the allocator gave.
            let missing: int = if made1 {
                3
            } else if made2 {
                2
            } else if made3 {
                1
            } else {
                0
            };
            assert(rest3 =~= rest.skip(missing));
            assert(m0.page_status(page@) == PageStatus::Mappable { missing: missing as u8 });
            // The walk through the new mapping.
            let n4 = m1.entry_at(root, i4 as int);
            let n3 = m2.entry_at(p3, i3 as int);
            let n2 = m3.entry_at(p2, i2 as int);
            lemma_flagged_entry(e4, bits);
            lemma_flagged_entry(x3, bits);
            lemma_flagged_entry(y2, bits);
            if made1 {
                lemma_frame_entry(rest[0], bits);
            }
            if made2 {
                lemma_frame_entry(rest1[0], bits);
            }
            if made3 {
                lemma_frame_entry(rest2[0], bits);
            }
            assert(n4 != 0 && entry_present(n4) && !entry_huge(n4) && entry_addr(n4) == p3);
            assert(n3 != 0 && entry_present(n3) && !entry_huge(n3) && entry_addr(n3) == p2);
            assert(n2 != 0 && entry_present(n2) && !entry_huge(n2) && entry_addr(n2) == p1);
            m1.lemma_extended_cell(m4, root, i4 as int);
            m2.lemma_extended_cell(m4, p3, i3 as int);
            m3.lemma_extended_cell(m4, p2, i2 as int);
            m4.lemma_walk(page@, p3, p2, p1, start);
            m0.lemma_changes_on_walk(m1, m2, m3, m4, page@, p3, p2, p1);
            m0.lemma_flags_step(m3, m4, p1, i1 as int, bits);
            m0.lemma_parents_set(m1, m2, m3, m4, page@, p3, p2, p1, rest, bits, missing);
            m0.lemma_new_tables_empty(m1, m2, m3, m4, page@, p3, p2, p1, missing);
            m0.lemma_joined_statuses(m4, page@, p3, p2, p1, missing as u8);
            // The pages next to it.
            assert forall|q: u64|
                q / 4096 / 512 == page@ / 4096 / 512 && q / 4096 != page@ / 4096 implies #[trigger] m4.page_status(
                q,
            ) == settled(m0.page_status(q)) by {
                let j = p1_index_of(q);
                assert(j != i1);
                m3.lemma_cell_kept(m4, p1, i1 as int, p1, j);
                if made3 {
                    m2.lemma_no_table_no_entry(p1, j);
                    m2.lemma_cell_kept(m3, p2, i2 as int, p1, j);
                    assert(m4.entry_at(p1, j) == 0);
                } else {
                    m0.lemma_flagged_cell(m3, bits, p1, j);
                }
                m4.lemma_status_below(q, p3, p2, p1);
            }
            // The frames that are left.
            if !rest.contains(frame@) {
                assert forall|i: int| 0 <= i < rest3.len() implies rest3[i] != frame@ by {
                    assert(rest3[i] == rest[i + missing]);
                }
                m3.lemma_entry_written(m4, rest3, p1, i1 as int, start);
            }
        }
        Ok(MapperFlush { page })
    }
}

/// Facts about an entry written from an address and flag bits.
proof fn lemma_raw_entry(frame: u64, flags: u64)
    by (bit_vector)
    requires
        frame < 0x10_0000_0000_0000,
        frame % 4096 == 0,
    ensures
        (flags & 0xfff0_0000_0000_0fff) & 0xfff0_0000_0000_0fff == flags & 0xfff0_0000_0000_0fff,
        ((frame | 1) & 0x000f_ffff_ffff_f000) | (flags & 0xfff0_0000_0000_0fff) == frame | (flags
            & 0xfff0_0000_0000_0fff),
{
}

impl OffsetPageTable {
    /// The frame that the entry at `index` of the table in `table` points
    /// to. A frame that holds no table has no entry that is present.
    pub fn next_frame(&self, table: PhysFrame, index: u16) -> (r: Result<PhysFrame, FrameError>)
        requires
            self.wf(),
        ensures
            match r {
                Ok(f) => f.wf() && entry_frame(self.entry_at(table@, index as int)) == Ok::<
                    u64,
                    FrameError,
                >(f@),
                Err(e) => entry_frame(self.entry_at(table@, index as int)) == Err::<
                    u64,
                    FrameError,
                >(e),
            },
    {
        proof {
            reveal(OffsetPageTable::entry_at);
            assert(0u64 & 1 == 0) by (bit_vector);
        }
        if index >= 512 {
            return Err(FrameError::FrameNotPresent);
        }
        match self.find_table(table.start_address().as_u64()) {
            None => Err(FrameError::FrameNotPresent),
            Some(k) => {
                proof {
                    self.lemma_slot(k as int);
                    lemma_entry_addr(self.entry_at(table@, index as int));
                }
                match table_frame(&self.tables[k].table, index as usize) {
                    Ok(next) => match crate::addr::PhysAddr::try_new(next) {
                        Some(a) => Ok(PhysFrame::containing_address(a)),
                        None => Err(FrameError::FrameNotPresent),
                    },
                    Err(e) => Err(e),
                }
            },
        }
    }

    /// Writes one entry: the address of `target` with the flag bits of
    /// `flags`. This is how tables that firmware has built are brought into
    /// the address space.
    #[verifier::rlimit(50)]
    pub fn set_entry(&mut self, table: PhysFrame, index: u16, target: PhysFrame, flags: u64)
        requires
            old(self).wf(),
            index < 512,
        ensures
            final(self).wf(),
            final(self).root() == old(self).root(),
            final(self).offset() == old(self).offset(),
            final(self).entry_at(table@, index as int) == target@ | (flags & FLAGS_MASK),
            forall|t: u64, i: int|
                !(t == table@ && i == index) ==> #[trigger] final(self).entry_at(t, i) == old(self).entry_at(t, i),
    {
        let ghost before = *self;
        let from: u64 = table.start_address().as_u64();
        let to: u64 = target.start_address().as_u64();
        let k: usize = self.slot_for(from);
        let ghost adopted = *self;
        self.put_frame(k, index as usize, to, PRESENT);
        let ghost pointed = *self;
        proof {
            lemma_raw_entry(to, flags);
        }
        self.put_flags(k, index as usize, flags & FLAGS_MASK);
        proof {
            reveal(OffsetPageTable::differs_at);
            let after = *self;
            assert forall|t: u64, i: int| !(t == table@ && i == index) implies #[trigger] after.entry_at(
                t,
                i,
            ) == before.entry_at(t, i) by {
                assert(pointed.entry_at(t, i) == adopted.entry_at(t, i));
                assert(after.entry_at(t, i) == pointed.entry_at(t, i));
            }
        }
    }

    /// Where `page` stands: whether it can be mapped, and how many tables
    /// that would take.
    pub fn status(&self, page: Page) -> (r: PageStatus)
        requires
            self.wf(),
        ensures
            r == self.page_status(page@),
    {
        let addr: VirtAddr = page.start_address();
        let mut table: u64 = self.level_4_frame;
        let i4: usize = addr.p4_index() as usize;
        let i3: usize = addr.p3_index() as usize;
        let i2: usize = addr.p2_index() as usize;
        let i1: usize = addr.p1_index() as usize;
        match self.peek(table, i4) {
            Peek::Unused => {
                return PageStatus::Mappable { missing: 3 };
            },
            Peek::Huge => {
                return PageStatus::HugeParent;
            },
            Peek::Table(next) => {
                table = next;
            },
        }
        match self.peek(table, i3) {
            Peek::Unused => {
                return PageStatus::Mappable { missing: 2 };
            },
            Peek::Huge => {
                return PageStatus::HugeParent;
            },
            Peek::Table(next) => {
                table = next;
            },
        }
        match self.peek(table, i2) {
            Peek::Unused => {
                return PageStatus::Mappable { missing: 1 };
            },
            Peek::Huge => {
                return PageStatus::HugeParent;
            },
            Peek::Table(next) => {
                table = next;
            },
        }
        match self.peek(table, i1) {
            Peek::Unused => PageStatus::Mappable { missing: 0 },
            _ => PageStatus::AlreadyMapped,
        }
    }

    /// What the entry at `index` of the table in `table` means to a mapping.
    fn peek(&self, table: u64, index: usize) -> (r: Peek)
        requires
            self.wf(),
            index < 512,
        ensures
            r == (if self.entry_at(table, index as int) == 0 {
                Peek::Unused
            } else if entry_huge(self.entry_at(table, index as int)) {
                Peek::Huge
            } else {
                Peek::Table(entry_addr(self.entry_at(table, index as int)))
            }),
    {
        proof {
            reveal(OffsetPageTable::entry_at);
        }
        match self.find_table(table) {
            None => Peek::Unused,
            Some(k) => {
                proof {
                    self.lemma_slot(k as int);
                }
                let ghost e = self.entry_at(table, index as int);
                if table_is_unused(&self.tables[k].table, index) {
                    Peek::Unused
                } else {
                    let flags: u64 = table_flags(&self.tables[k].table, index);
                    proof {
                        assert((e & 0xfff0_0000_0000_0fff) & 0x80 == e & 0x80) by (bit_vector);
                    }
                    if flags & HUGE_PAGE != 0 {
                        Peek::Huge
                    } else {
                        Peek::Table(table_addr(&self.tables[k].table, index))
                    }
                }
            },
        }
    }
}

/// What an entry means to a mapping.
enum Peek {
    Unused,
    Huge,
    Table(u64),
}

/// A page whose new mapping the translation cache may not know yet. The
/// page is to be flushed from the cache before the mapping is relied on.
#[must_use]
#[derive(Clone, Copy, PartialEq, Eq, Structural, Debug)]
pub struct MapperFlush {
    pub page: Page,
}

/// The status of a page once another page that shares its level 1 table has
/// been mapped: no table is missing any more.
/// Where a page `q` stands once `page` is mapped, if the two had the same
/// first unused entry and `missing` tables were made below it: the tables
/// are shared down to the first level at which the two pages differ in
/// their index, and those below are missing for `q`.
pub open spec fn joined_status(missing: u8, page: u64, q: u64) -> PageStatus {
    if missing >= 3 && p3_index_of(q) != p3_index_of(page) {
        PageStatus::Mappable { missing: 2 }
    } else if missing >= 2 && p2_index_of(q) != p2_index_of(page) {
        PageStatus::Mappable { missing: 1 }
    } else if missing >= 1 && p1_index_of(q) != p1_index_of(page) {
        PageStatus::Mappable { missing: 0 }
    } else {
        PageStatus::AlreadyMapped
    }
}

pub open spec fn settled(status: PageStatus) -> PageStatus {
    match status {
        PageStatus::Mappable { .. } => PageStatus::Mappable { missing: 0 },
        PageStatus::HugeParent => PageStatus::HugeParent,
        PageStatus::AlreadyMapped => PageStatus::AlreadyMapped,
    }
}

} // verus!

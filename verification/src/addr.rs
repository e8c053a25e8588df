//! Virtual and physical addresses, pages and frames.
//!
//! The address arithmetic itself is done by the `x86_64` crate; this module
//! gives each of its results a mathematical description over plain integers
//! and wraps the results in types whose invariants Verus tracks.

use vstd::prelude::*;

verus! {

/// Size in bytes of a page and of a frame.
pub const PAGE_SIZE: u64 = 4096;

/// Number of entries in a page table.
pub const ENTRY_COUNT: usize = 512;

/// One past the largest physical address the architecture can express (2^52).
pub const PHYS_ADDR_LIMIT: u64 = 0x10_0000_0000_0000;

/// An address is canonical when bits 47 to 63 are all equal.
pub open spec fn is_canonical(addr: u64) -> bool {
    addr < 0x0000_8000_0000_0000 || addr >= 0xffff_8000_0000_0000
}

/// The canonical address that a raw value stands for, if any: a canonical
/// value stands for itself, a value whose bit 47 is the only one set among
/// bits 47 to 63 is sign-extended, every other value stands for nothing.
pub open spec fn canonical_form(addr: u64) -> Option<u64> {
    if is_canonical(addr) {
        Some(addr)
    } else if addr < 0x0001_0000_0000_0000 {
        Some((addr + 0xffff_0000_0000_0000) as u64)
    } else {
        None
    }
}

/// The 9-bit index into the level 4 table (bits 39 to 47).
pub open spec fn p4_index_of(addr: u64) -> int {
    (addr as int / 4096 / 512 / 512 / 512) % 512
}

/// The 9-bit index into the level 3 table (bits 30 to 38).
pub open spec fn p3_index_of(addr: u64) -> int {
    (addr as int / 4096 / 512 / 512) % 512
}

/// The 9-bit index into the level 2 table (bits 21 to 29).
pub open spec fn p2_index_of(addr: u64) -> int {
    (addr as int / 4096 / 512) % 512
}

/// The 9-bit index into the level 1 table (bits 12 to 20).
pub open spec fn p1_index_of(addr: u64) -> int {
    (addr as int / 4096) % 512
}

/// The offset of an address within its page (bits 0 to 11).
pub open spec fn page_offset_of(addr: u64) -> int {
    addr as int % 4096
}

/// The start of the 4 KiB block that holds `addr`.
pub open spec fn align_down_4k(addr: u64) -> u64 {
    (addr - addr % 4096) as u64
}

/// `x86_64::VirtAddr::try_new`, then `as_u64`: the canonical form of the raw
/// value, or nothing where bits 48 to 63 hold data.
#[verifier::external_body]
fn x86_virt_addr(addr: u64) -> (r: Option<u64>)
    ensures
        r == canonical_form(addr),
{
    match x86_64::VirtAddr::try_new(addr) {
        Ok(a) => Some(a.as_u64()),
        Err(_) => None,
    }
}

/// `x86_64::PhysAddr::try_new`, then `as_u64`: the value itself where bits 52
/// to 63 are clear, nothing otherwise.
#[verifier::external_body]
fn x86_phys_addr(addr: u64) -> (r: Option<u64>)
    ensures
        r == (if addr < PHYS_ADDR_LIMIT { Some(addr) } else { None::<u64> }),
{
    match x86_64::PhysAddr::try_new(addr) {
        Ok(a) => Some(a.as_u64()),
        Err(_) => None,
    }
}

/// `x86_64::VirtAddr::p4_index` of a canonical address.
#[verifier::external_body]
fn x86_p4_index(addr: u64) -> (r: u16)
    requires
        is_canonical(addr),
    ensures
        r == p4_index_of(addr),
{
    u16::from(x86_64::VirtAddr::new(addr).p4_index())
}

/// `x86_64::VirtAddr::p3_index` of a canonical address.
#[verifier::external_body]
fn x86_p3_index(addr: u64) -> (r: u16)
    requires
        is_canonical(addr),
    ensures
        r == p3_index_of(addr),
{
    u16::from(x86_64::VirtAddr::new(addr).p3_index())
}

/// `x86_64::VirtAddr::p2_index` of a canonical address.
#[verifier::external_body]
fn x86_p2_index(addr: u64) -> (r: u16)
    requires
        is_canonical(addr),
    ensures
        r == p2_index_of(addr),
{
    u16::from(x86_64::VirtAddr::new(addr).p2_index())
}

/// `x86_64::VirtAddr::p1_index` of a canonical address.
#[verifier::external_body]
fn x86_p1_index(addr: u64) -> (r: u16)
    requires
        is_canonical(addr),
    ensures
        r == p1_index_of(addr),
{
    u16::from(x86_64::VirtAddr::new(addr).p1_index())
}

/// `x86_64::VirtAddr::page_offset` of a canonical address.
#[verifier::external_body]
fn x86_page_offset(addr: u64) -> (r: u16)
    requires
        is_canonical(addr),
    ensures
        r == page_offset_of(addr),
{
    u16::from(x86_64::VirtAddr::new(addr).page_offset())
}

/// `x86_64::structures::paging::Page::containing_address` for 4 KiB pages,
/// then the page's start address: the address rounded down to a multiple of
/// the page size.
#[verifier::external_body]
fn x86_page_containing(addr: u64) -> (r: u64)
    requires
        is_canonical(addr),
    ensures
        r == align_down_4k(addr),
{
    let page: x86_64::structures::paging::Page<x86_64::structures::paging::Size4KiB> =
        x86_64::structures::paging::Page::containing_address(x86_64::VirtAddr::new(addr));
    page.start_address().as_u64()
}

/// `x86_64::structures::paging::PhysFrame::containing_address` for 4 KiB
/// frames, then the frame's start address: the address rounded down to a
/// multiple of the frame size.
#[verifier::external_body]
fn x86_frame_containing(addr: u64) -> (r: u64)
    requires
        addr < PHYS_ADDR_LIMIT,
    ensures
        r == align_down_4k(addr),
{
    let frame: x86_64::structures::paging::PhysFrame<x86_64::structures::paging::Size4KiB> =
        x86_64::structures::paging::PhysFrame::containing_address(x86_64::PhysAddr::new(addr));
    frame.start_address().as_u64()
}

/// A canonical 64-bit virtual address.
#[derive(Clone, Copy, PartialEq, Eq, Structural, Debug)]
pub struct VirtAddr {
    addr: u64,
}

impl VirtAddr {
    #[verifier::type_invariant]
    spec fn inv(self) -> bool {
        is_canonical(self.addr)
    }

    /// The address as an integer.
    pub closed spec fn view(self) -> u64 {
        self.addr
    }

    /// Every value of this type is canonical.
    pub open spec fn wf(self) -> bool {
        is_canonical(self@)
    }

    /// The canonical address that `addr` stands for, if it stands for one.
    pub fn try_new(addr: u64) -> (r: Option<VirtAddr>)
        ensures
            match r {
                Some(a) => a.wf() && canonical_form(addr) == Some(a@),
                None => canonical_form(addr) is None,
            },
    {
        match x86_virt_addr(addr) {
            Some(a) => Some(VirtAddr { addr: a }),
            None => None,
        }
    }

    /// The canonical address that `addr` stands for.
    pub fn new(addr: u64) -> (r: VirtAddr)
        requires
            canonical_form(addr) is Some,
        ensures
            r.wf(),
            Some(r@) == canonical_form(addr),
    {
        match x86_virt_addr(addr) {
            Some(a) => VirtAddr { addr: a },
            None => VirtAddr { addr: 0 },
        }
    }

    /// The address 0.
    pub fn zero() -> (r: VirtAddr)
        ensures
            r.wf(),
            r@ == 0,
    {
        VirtAddr { addr: 0 }
    }

    pub fn as_u64(self) -> (r: u64)
        ensures
            r == self@,
            is_canonical(r),
    {
        proof {
            use_type_invariant(self);
        }
        self.addr
    }

    /// The address `rhs` bytes further on, where the sum is an address:
    /// nothing where it leaves the 64-bit range or has no canonical form.
    pub fn checked_add(self, rhs: u64) -> (r: Option<VirtAddr>)
        ensures
            match r {
                Some(a) => a.wf() && self@ + rhs <= u64::MAX && canonical_form(
                    (self@ + rhs) as u64,
                ) == Some(a@),
                None => self@ + rhs > u64::MAX || canonical_form((self@ + rhs) as u64) is None,
            },
    {
        match self.addr.checked_add(rhs) {
            Some(sum) => VirtAddr::try_new(sum),
            None => None,
        }
    }

    /// Index of this address's entry in the level 4 table.
    pub fn p4_index(self) -> (r: u16)
        ensures
            r == p4_index_of(self@),
            r < 512,
    {
        proof {
            use_type_invariant(self);
        }
        x86_p4_index(self.addr)
    }

    /// Index of this address's entry in the level 3 table.
    pub fn p3_index(self) -> (r: u16)
        ensures
            r == p3_index_of(self@),
            r < 512,
    {
        proof {
            use_type_invariant(self);
        }
        x86_p3_index(self.addr)
    }

    /// Index of this address's entry in the level 2 table.
    pub fn p2_index(self) -> (r: u16)
        ensures
            r == p2_index_of(self@),
            r < 512,
    {
        proof {
            use_type_invariant(self);
        }
        x86_p2_index(self.addr)
    }

    /// Index of this address's entry in the level 1 table.
    pub fn p1_index(self) -> (r: u16)
        ensures
            r == p1_index_of(self@),
            r < 512,
    {
        proof {
            use_type_invariant(self);
        }
        x86_p1_index(self.addr)
    }

    /// Offset of this address within its page.
    pub fn page_offset(self) -> (r: u16)
        ensures
            r == page_offset_of(self@),
            r < 4096,
    {
        proof {
            use_type_invariant(self);
        }
        x86_page_offset(self.addr)
    }
}

/// A physical address: a value below 2^52.
#[derive(Clone, Copy, PartialEq, Eq, Structural, Debug)]
pub struct PhysAddr {
    addr: u64,
}

impl PhysAddr {
    #[verifier::type_invariant]
    spec fn inv(self) -> bool {
        self.addr < PHYS_ADDR_LIMIT
    }

    /// The address as an integer.
    pub closed spec fn view(self) -> u64 {
        self.addr
    }

    /// Every value of this type lies below 2^52.
    pub open spec fn wf(self) -> bool {
        self@ < PHYS_ADDR_LIMIT
    }

    /// The physical address `addr`, where bits 52 to 63 are clear.
    pub fn try_new(addr: u64) -> (r: Option<PhysAddr>)
        ensures
            match r {
                Some(a) => a.wf() && a@ == addr,
                None => addr >= PHYS_ADDR_LIMIT,
            },
    {
        match x86_phys_addr(addr) {
            Some(a) => Some(PhysAddr { addr: a }),
            None => None,
        }
    }

    /// The physical address `addr`.
    pub fn new(addr: u64) -> (r: PhysAddr)
        requires
            addr < PHYS_ADDR_LIMIT,
        ensures
            r.wf(),
            r@ == addr,
    {
        match x86_phys_addr(addr) {
            Some(a) => PhysAddr { addr: a },
            None => PhysAddr { addr: 0 },
        }
    }

    pub fn as_u64(self) -> (r: u64)
        ensures
            r == self@,
            r < PHYS_ADDR_LIMIT,
    {
        proof {
            use_type_invariant(self);
        }
        self.addr
    }

    /// The address `rhs` bytes further on, where the sum is a physical
    /// address.
    pub fn checked_add(self, rhs: u64) -> (r: Option<PhysAddr>)
        ensures
            match r {
                Some(a) => a.wf() && a@ == self@ + rhs,
                None => self@ + rhs >= PHYS_ADDR_LIMIT,
            },
    {
        match self.addr.checked_add(rhs) {
            Some(sum) => PhysAddr::try_new(sum),
            None => None,
        }
    }
}

/// A 4 KiB frame of physical memory, named by its start address.
#[derive(Clone, Copy, PartialEq, Eq, Structural, Debug)]
pub struct PhysFrame {
    start: u64,
}

impl PhysFrame {
    #[verifier::type_invariant]
    spec fn inv(self) -> bool {
        self.start < PHYS_ADDR_LIMIT && self.start % 4096 == 0
    }

    /// The frame's start address as an integer.
    pub closed spec fn view(self) -> u64 {
        self.start
    }

    /// Every frame starts at a multiple of the frame size below 2^52.
    pub open spec fn wf(self) -> bool {
        self@ < PHYS_ADDR_LIMIT && self@ % 4096 == 0
    }

    /// Two frames are the same exactly when they start at the same address.
    pub proof fn lemma_view_injective(a: PhysFrame, b: PhysFrame)
        ensures
            a@ == b@ <==> a == b,
    {
    }

    /// The frame that starts at `start`.
    pub closed spec fn at(start: u64) -> PhysFrame {
        PhysFrame { start }
    }

    /// A frame is the frame at its start address.
    pub proof fn lemma_at(self)
        ensures
            PhysFrame::at(self@) == self,
    {
    }

    /// The frame that holds `address`.
    pub fn containing_address(address: PhysAddr) -> (r: PhysFrame)
        ensures
            r.wf(),
            r@ == align_down_4k(address@),
    {
        let start: u64 = x86_frame_containing(address.as_u64());
        PhysFrame { start }
    }

    /// The frame that starts at `address`, where that is a multiple of the
    /// frame size.
    pub fn from_start_address(address: PhysAddr) -> (r: Option<PhysFrame>)
        ensures
            match r {
                Some(f) => f.wf() && f@ == address@,
                None => address@ % 4096 != 0,
            },
    {
        let raw: u64 = address.as_u64();
        let start: u64 = x86_frame_containing(raw);
        if start == raw {
            Some(PhysFrame { start })
        } else {
            None
        }
    }

    pub fn start_address(self) -> (r: PhysAddr)
        ensures
            r.wf(),
            r@ == self@,
            r@ % 4096 == 0,
    {
        proof {
            use_type_invariant(self);
        }
        PhysAddr { addr: self.start }
    }
}

/// A 4 KiB page of virtual memory, named by its start address.
#[derive(Clone, Copy, PartialEq, Eq, Structural, Debug)]
pub struct Page {
    start: u64,
}

impl Page {
    #[verifier::type_invariant]
    spec fn inv(self) -> bool {
        is_canonical(self.start) && self.start % 4096 == 0
    }

    /// The page's start address as an integer.
    pub closed spec fn view(self) -> u64 {
        self.start
    }

    /// Every page starts at a canonical multiple of the page size.
    pub open spec fn wf(self) -> bool {
        is_canonical(self@) && self@ % 4096 == 0
    }

    /// Two pages are the same exactly when they start at the same address.
    pub proof fn lemma_view_injective(a: Page, b: Page)
        ensures
            a@ == b@ <==> a == b,
    {
    }

    /// The page that holds `address`.
    pub fn containing_address(address: VirtAddr) -> (r: Page)
        ensures
            r.wf(),
            r@ == align_down_4k(address@),
    {
        let start: u64 = x86_page_containing(address.as_u64());
        Page { start }
    }

    /// The page that starts at `address`, where that is a multiple of the
    /// page size.
    pub fn from_start_address(address: VirtAddr) -> (r: Option<Page>)
        ensures
            match r {
                Some(p) => p.wf() && p@ == address@,
                None => address@ % 4096 != 0,
            },
    {
        let raw: u64 = address.as_u64();
        let start: u64 = x86_page_containing(raw);
        if start == raw {
            Some(Page { start })
        } else {
            None
        }
    }

    pub fn start_address(self) -> (r: VirtAddr)
        ensures
            r.wf(),
            r@ == self@,
            r@ % 4096 == 0,
    {
        proof {
            use_type_invariant(self);
        }
        VirtAddr { addr: self.start }
    }
}

} // verus!

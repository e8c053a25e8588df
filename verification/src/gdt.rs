//! The segment table and the task state structure.
//!
//! The segment table is `x86_64::structures::gdt::GlobalDescriptorTable`; the
//! functions here decide what goes into it, in which order it is loaded, and
//! where the stack for double faults lies.

use vstd::prelude::*;
use x86_64::structures::gdt::GlobalDescriptorTable;
use crate::addr::VirtAddr;

verus! {

/// The slot of the interrupt stack table that holds the stack for double
/// faults.
pub const DOUBLE_FAULT_IST_INDEX: u16 = 0;

/// The size in bytes of the stack for double faults.
pub const STACK_SIZE: u64 = 4096 * 5;

/// The size in bytes of the task state structure.
pub const TSS_SIZE: u16 = 0x68;

/// The descriptor of a 64-bit code segment for ring 0.
pub const KERNEL_CODE64: u64 = 0x00af_9b00_0000_ffff;

/// A segment descriptor: one entry of the table for a code or data segment,
/// two for a system segment.
#[derive(Clone, Copy, PartialEq, Eq, Structural, Debug)]
pub enum Descriptor {
    UserSegment(u64),
    SystemSegment(u64, u64),
}

/// An index into the segment table, shifted left by 3, with the privilege
/// level that is asked for in the low bits.
#[derive(Clone, Copy, PartialEq, Eq, Structural, Debug)]
pub struct SegmentSelector(pub u16);

/// The selectors of the two segments that the kernel uses.
#[derive(Clone, Copy, PartialEq, Eq, Structural, Debug)]
pub struct Selectors {
    pub code_selector: SegmentSelector,
    pub tss_selector: SegmentSelector,
}

/// The task state structure, as far as the kernel uses it: the stacks that
/// the processor switches to.
#[derive(Clone, Copy, Debug)]
pub struct TaskStateSegment {
    pub privilege_stack_table: [u64; 3],
    pub interrupt_stack_table: [u64; 7],
    pub iomap_base: u16,
}

/// One step in bringing the tables into use.
#[derive(Clone, Copy, PartialEq, Eq, Structural, Debug)]
pub enum LoadStep {
    /// Load the segment table.
    LoadGdt,
    /// Reload the code segment register with the selector.
    SetCodeSegment(SegmentSelector),
    /// Load the task register with the selector.
    LoadTss(SegmentSelector),
}

/// The entries of a `GlobalDescriptorTable` that are in use, the null entry
/// first: what its `as_raw_slice` gives.
pub uninterp spec fn gdt_entries(gdt: GlobalDescriptorTable) -> Seq<u64>;

/// `x86_64::structures::gdt::GlobalDescriptorTable`, of which nothing is
/// known here but what the functions below say of its entries.
#[verifier::external_type_specification]
#[verifier::external_body]
pub struct ExGlobalDescriptorTable(GlobalDescriptorTable);

/// The privilege level of a descriptor: bits 45 and 46 of its first entry.
pub open spec fn descriptor_dpl(low: u64) -> u16 {
    ((low >> 45) & 3) as u16
}

/// The selector for index `index` at privilege level `rpl`.
pub open spec fn selector_bits(index: int, rpl: u16) -> u16 {
    ((index as u16) << 3) | rpl
}

/// The number of entries that a descriptor takes.
pub open spec fn descriptor_len(entry: Descriptor) -> int {
    match entry {
        Descriptor::UserSegment(_) => 1,
        Descriptor::SystemSegment(_, _) => 2,
    }
}

/// The first entry of the descriptor of a task state structure at `base`:
/// present, of the type of an available 64-bit task state segment, the limit
/// one less than the structure's size, and the low 32 bits of the base.
pub open spec fn tss_descriptor_low(base: u64) -> u64 {
    (1u64 << 47) | (0b1001u64 << 40) | 0x67u64 | ((base & 0xff_ffff) << 16) | (((base >> 24)
        & 0xff) << 56)
}

/// The second entry of the descriptor: the high 32 bits of the base.
pub open spec fn tss_descriptor_high(base: u64) -> u64 {
    base >> 32
}

/// `GlobalDescriptorTable::new`: a table that holds the null entry only.
#[verifier::external_body]
fn gdt_new() -> (gdt: GlobalDescriptorTable)
    ensures
        gdt_entries(gdt) == seq![0u64],
{
    GlobalDescriptorTable::new()
}

/// `GlobalDescriptorTable::add_entry`: the descriptor's entries are appended,
/// and the selector that comes back is made of the index of the first of them
/// and the descriptor's privilege level. The table holds 8 entries at most;
/// the crate refuses a descriptor that does not fit.
#[verifier::external_body]
fn gdt_add_entry(gdt: &mut GlobalDescriptorTable, entry: Descriptor) -> (selector: u16)
    requires
        gdt_entries(*old(gdt)).len() + descriptor_len(entry) <= 8,
    ensures
        match entry {
            Descriptor::UserSegment(value) => {
                &&& gdt_entries(*final(gdt)) == gdt_entries(*old(gdt)).push(value)
                &&& selector == selector_bits(
                    gdt_entries(*old(gdt)).len() as int,
                    descriptor_dpl(value),
                )
            },
            Descriptor::SystemSegment(low, high) => {
                &&& gdt_entries(*final(gdt)) == gdt_entries(*old(gdt)).push(low).push(high)
                &&& selector == selector_bits(
                    gdt_entries(*old(gdt)).len() as int,
                    descriptor_dpl(low),
                )
            },
        },
{
    let entry = match entry {
        Descriptor::UserSegment(value) => x86_64::structures::gdt::Descriptor::UserSegment(value),
        Descriptor::SystemSegment(low, high) => x86_64::structures::gdt::Descriptor::SystemSegment(
            low,
            high,
        ),
    };
    gdt.add_entry(entry).0
}

/// `Descriptor::kernel_code_segment`: the descriptor of a 64-bit code
/// segment for ring 0.
#[verifier::external_body]
fn x86_kernel_code_segment() -> (entry: Descriptor)
    ensures
        entry == Descriptor::UserSegment(KERNEL_CODE64),
{
    match x86_64::structures::gdt::Descriptor::kernel_code_segment() {
        x86_64::structures::gdt::Descriptor::UserSegment(value) => Descriptor::UserSegment(value),
        x86_64::structures::gdt::Descriptor::SystemSegment(low, high) => Descriptor::SystemSegment(
            low,
            high,
        ),
    }
}

impl Descriptor {
    /// The descriptor of the kernel's code segment.
    pub fn kernel_code_segment() -> (entry: Descriptor)
        ensures
            entry == Descriptor::UserSegment(KERNEL_CODE64),
    {
        x86_kernel_code_segment()
    }

    /// The descriptor of a task state structure that lies at `base`.
    pub fn tss_segment(base: u64) -> (entry: Descriptor)
        ensures
            entry == Descriptor::SystemSegment(
                tss_descriptor_low(base),
                tss_descriptor_high(base),
            ),
    {
        let low: u64 = (1u64 << 47) | (0b1001u64 << 40) | 0x67u64 | ((base & 0xff_ffff) << 16) | (((
        base >> 24) & 0xff) << 56);
        let high: u64 = base >> 32;
        Descriptor::SystemSegment(low, high)
    }
}

impl TaskStateSegment {
    /// A task state structure with no stack set.
    pub fn new() -> (tss: TaskStateSegment)
        ensures
            tss.privilege_stack_table@ == seq![0u64, 0u64, 0u64],
            tss.interrupt_stack_table@ == seq![0u64, 0u64, 0u64, 0u64, 0u64, 0u64, 0u64],
            tss.iomap_base == TSS_SIZE,
    {
        let tss = TaskStateSegment {
            privilege_stack_table: [0; 3],
            interrupt_stack_table: [0; 7],
            iomap_base: TSS_SIZE,
        };
        proof {
            assert(tss.privilege_stack_table@ =~= seq![0u64, 0u64, 0u64]);
            assert(tss.interrupt_stack_table@ =~= seq![0u64, 0u64, 0u64, 0u64, 0u64, 0u64, 0u64]);
        }
        tss
    }
}

/// The task state structure of the kernel: the stack for double faults is
/// the `STACK_SIZE` bytes from `stack_start` on, and the slot for it holds
/// the address after the last of them, from which the stack grows down.
/// Nothing where the stack would not end at an address.
pub fn build_tss(stack_start: VirtAddr) -> (r: Option<TaskStateSegment>)
    ensures
        match r {
            Some(tss) => {
                &&& stack_start@ + STACK_SIZE <= u64::MAX
                &&& crate::addr::canonical_form((stack_start@ + STACK_SIZE) as u64) == Some(
                    tss.interrupt_stack_table@[DOUBLE_FAULT_IST_INDEX as int],
                )
                &&& forall|i: int| 1 <= i < 7 ==> tss.interrupt_stack_table@[i] == 0
                &&& tss.privilege_stack_table@ == seq![0u64, 0u64, 0u64]
                &&& tss.iomap_base == TSS_SIZE
            },
            None => stack_start@ + STACK_SIZE > u64::MAX || crate::addr::canonical_form(
                (stack_start@ + STACK_SIZE) as u64,
            ) is None,
        },
{
    match stack_start.checked_add(STACK_SIZE) {
        None => None,
        Some(stack_end) => {
            let mut tss = TaskStateSegment::new();
            tss.interrupt_stack_table[DOUBLE_FAULT_IST_INDEX as usize] = stack_end.as_u64();
            Some(tss)
        },
    }
}

/// The segment table of the kernel and the selectors of its segments: after
/// the null entry come the kernel's code segment and the descriptor of the
/// task state structure that lies at `tss_base`.
pub fn build_gdt(tss_base: u64) -> (r: (GlobalDescriptorTable, Selectors))
    ensures
        gdt_entries(r.0) == seq![
            0u64,
            KERNEL_CODE64,
            tss_descriptor_low(tss_base),
            tss_descriptor_high(tss_base),
        ],
        r.1.code_selector == SegmentSelector(8),
        r.1.tss_selector == SegmentSelector(16),
{
    let mut gdt: GlobalDescriptorTable = gdt_new();
    let code: u16 = gdt_add_entry(&mut gdt, Descriptor::kernel_code_segment());
    let tss: u16 = gdt_add_entry(&mut gdt, Descriptor::tss_segment(tss_base));
    proof {
        assert(gdt_entries(gdt) =~= seq![
            0u64,
            KERNEL_CODE64,
            tss_descriptor_low(tss_base),
            tss_descriptor_high(tss_base),
        ]);
        assert(selector_bits(1, descriptor_dpl(0x00af_9b00_0000_ffff)) == 8) by (bit_vector);
        lemma_tss_selector(tss_base);
    }
    (gdt, Selectors { code_selector: SegmentSelector(code), tss_selector: SegmentSelector(tss) })
}

/// The descriptor of a task state structure is of privilege level 0, so that
/// its selector at index 2 is 16.
proof fn lemma_tss_selector(base: u64)
    ensures
        selector_bits(2, descriptor_dpl(tss_descriptor_low(base))) == 16,
{
    let low = tss_descriptor_low(base);
    assert((((1u64 << 47) | (0b1001u64 << 40) | 0x67u64 | ((base & 0xff_ffff) << 16) | (((base
        >> 24) & 0xff) << 56)) >> 45) & 3 == 0) by (bit_vector);
    assert(((2u16 << 3) | 0u16) == 16) by (bit_vector);
}

/// The steps that bring the tables into use, in the order in which they are
/// to be taken: the segment table is loaded first, then the code segment
/// register is reloaded, then the task register is loaded.
pub fn init(selectors: Selectors) -> (steps: Vec<LoadStep>)
    ensures
        steps@ == seq![
            LoadStep::LoadGdt,
            LoadStep::SetCodeSegment(selectors.code_selector),
            LoadStep::LoadTss(selectors.tss_selector),
        ],
{
    let mut steps: Vec<LoadStep> = Vec::new();
    steps.push(LoadStep::LoadGdt);
    steps.push(LoadStep::SetCodeSegment(selectors.code_selector));
    steps.push(LoadStep::LoadTss(selectors.tss_selector));
    proof {
        assert(steps@ =~= seq![
            LoadStep::LoadGdt,
            LoadStep::SetCodeSegment(selectors.code_selector),
            LoadStep::LoadTss(selectors.tss_selector),
        ]);
    }
    steps
}

} // verus!

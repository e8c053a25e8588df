//! Boot-time core of a small x86_64 kernel: physical frames and page tables,
//! the kernel heap, descriptor tables and interrupt dispatch.

pub mod addr;
pub mod allocator;
pub mod emulation;
pub mod free_list;
pub mod gdt;
pub mod interrupts;
pub mod keyboard;
pub mod memory;
pub mod paging;
pub mod registers;
pub mod sound;
pub mod time;
pub mod vga_buffer;
pub mod vga_draw;
pub mod vga_help;

use vstd::prelude::*;

verus! {

/// The port of the emulator's exit device.
pub const QEMU_EXIT_PORT: u16 = 0xf4;

/// What the emulator is told when the kernel is done.
#[derive(Clone, Copy, PartialEq, Eq, Structural, Debug)]
pub enum QemuExitCode {
    Success,
    Failed,
}

impl QemuExitCode {
    /// The value written to the exit device.
    pub open spec fn code_spec(self) -> u32 {
        match self {
            QemuExitCode::Success => 0x10,
            QemuExitCode::Failed => 0x11,
        }
    }

    #[verifier::when_used_as_spec(code_spec)]
    pub fn code(self) -> (r: u32)
        ensures
            r == self.code_spec(),
    {
        match self {
            QemuExitCode::Success => 0x10,
            QemuExitCode::Failed => 0x11,
        }
    }
}

/// The port and the value whose writing makes the emulator exit with
/// `exit_code`.
pub fn exit_qemu(exit_code: QemuExitCode) -> (r: (u16, u32))
    ensures
        r == (0xf4u16, exit_code.code()),
{
    (QEMU_EXIT_PORT, exit_code.code())
}

/// One step in making the machine safe for interrupts.
#[derive(Clone, Copy, PartialEq, Eq, Structural, Debug)]
pub enum BootStep {
    /// Build the segment table and the task state structure and bring them
    /// into use.
    LoadDescriptorTables,
    /// Build the dispatch table and load it.
    LoadDispatchTable,
    /// Make the two interrupt controllers deliver their lines from these
    /// vectors on.
    RemapPics { offset_1: u8, offset_2: u8 },
    /// Let the processor take interrupts.
    EnableInterrupts,
    /// Ask for a display mode through the software vector for it.
    RequestDisplayMode(u8),
}

/// The steps of `init`.
pub open spec fn init_steps() -> Seq<BootStep> {
    seq![
        BootStep::LoadDescriptorTables,
        BootStep::LoadDispatchTable,
        BootStep::RemapPics { offset_1: 32, offset_2: 40 },
        BootStep::EnableInterrupts,
        BootStep::RequestDisplayMode(0x13),
    ]
}

/// Whether interrupts are enabled in good order: by the time a step lets the
/// processor take interrupts, the descriptor tables are loaded, the dispatch
/// table has been loaded after them, and the interrupt controllers deliver at
/// the vectors to which the dispatch table binds their lines. A request
/// through a software vector needs the dispatch table too.
pub open spec fn safe_order(steps: Seq<BootStep>) -> bool {
    forall|k: int|
        0 <= k < steps.len() && (#[trigger] steps[k] == BootStep::EnableInterrupts
            || steps[k] is RequestDisplayMode) ==> exists|g: int, d: int|
            0 <= g < d < k && steps[g] == BootStep::LoadDescriptorTables && steps[d]
                == BootStep::LoadDispatchTable && (steps[k] == BootStep::EnableInterrupts
                ==> exists|p: int|
                d < p < k && steps[p] == (BootStep::RemapPics {
                    offset_1: interrupts::PIC_1_OFFSET,
                    offset_2: interrupts::PIC_2_OFFSET,
                }))
}

/// The steps that make the machine safe for interrupts, in the order in
/// which they are to be taken: descriptor tables, dispatch table, interrupt
/// controllers, and only then interrupts. The request for graphics mode
/// comes last.
pub fn init() -> (steps: Vec<BootStep>)
    ensures
        steps@ == init_steps(),
        safe_order(steps@),
{
    let mut steps: Vec<BootStep> = Vec::new();
    steps.push(BootStep::LoadDescriptorTables);
    steps.push(BootStep::LoadDispatchTable);
    steps.push(
        BootStep::RemapPics {
            offset_1: interrupts::PIC_1_OFFSET,
            offset_2: interrupts::PIC_2_OFFSET,
        },
    );
    steps.push(BootStep::EnableInterrupts);
    steps.push(BootStep::RequestDisplayMode(vga_help::GRAPHICS_MODE));
    proof {
        assert(steps@ =~= init_steps());
        lemma_init_order();
    }
    steps
}

/// The steps of `init` enable interrupts in good order.
pub proof fn lemma_init_order()
    ensures
        safe_order(init_steps()),
{
    let steps = init_steps();
    assert forall|k: int|
        0 <= k < steps.len() && (#[trigger] steps[k] == BootStep::EnableInterrupts
            || steps[k] is RequestDisplayMode) implies exists|g: int, d: int|
        0 <= g < d < k && steps[g] == BootStep::LoadDescriptorTables && steps[d]
            == BootStep::LoadDispatchTable && (steps[k] == BootStep::EnableInterrupts
            ==> exists|p: int|
            d < p < k && steps[p] == (BootStep::RemapPics {
                offset_1: interrupts::PIC_1_OFFSET,
                offset_2: interrupts::PIC_2_OFFSET,
            })) by {
        assert(steps[0] == BootStep::LoadDescriptorTables);
        assert(steps[1] == BootStep::LoadDispatchTable);
        assert(steps[2] == (BootStep::RemapPics { offset_1: 32, offset_2: 40 }));
        assert(k == 3 || k == 4);
    }
}

} // verus!

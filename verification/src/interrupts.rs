//! Interrupt vectors, the table that binds them to handlers, and what the
//! handlers do.
//!
//! A handler is described by the steps it takes; carrying them out on the
//! machine is left to the caller, which also supplies what the handler reads
//! from the machine.

use vstd::prelude::*;
use crate::gdt::{TaskStateSegment, DOUBLE_FAULT_IST_INDEX};
use crate::registers::{ah_of, get_ah_value};

verus! {

/// The vector at which the first interrupt controller delivers its line 0.
pub const PIC_1_OFFSET: u8 = 32;

/// The vector at which the second interrupt controller delivers its line 0.
pub const PIC_2_OFFSET: u8 = 40;

/// The vector of the breakpoint exception.
pub const BREAKPOINT_VECTOR: u8 = 3;

/// The vector of the double fault.
pub const DOUBLE_FAULT_VECTOR: u8 = 8;

/// The vector of the page fault.
pub const PAGE_FAULT_VECTOR: u8 = 14;

/// The vector by which software asks for a display mode.
pub const VGA_MODE_VECTOR: u8 = 16;

/// The hardware interrupts that have a handler.
#[derive(Clone, Copy, PartialEq, Eq, Structural, Debug)]
pub enum InterruptIndex {
    /// Line 0 of the first controller.
    Timer,
    /// Line 1 of the first controller.
    Keyboard,
}

impl InterruptIndex {
    /// The vector of the interrupt: the first controller's offset plus the
    /// line.
    pub open spec fn vector(self) -> u8 {
        match self {
            InterruptIndex::Timer => 32,
            InterruptIndex::Keyboard => 33,
        }
    }

    pub fn as_u8(self) -> (r: u8)
        ensures
            r == self.vector(),
    {
        match self {
            InterruptIndex::Timer => PIC_1_OFFSET,
            InterruptIndex::Keyboard => PIC_1_OFFSET + 1,
        }
    }

    pub fn as_usize(self) -> (r: usize)
        ensures
            r == self.vector(),
    {
        self.as_u8() as usize
    }
}

/// One of the two chained interrupt controllers.
#[derive(Clone, Copy, PartialEq, Eq, Structural, Debug)]
pub enum Pic {
    Primary,
    Secondary,
}

/// The controller that owns the line behind a vector, if one does: each
/// controller owns the eight vectors from its offset on.
pub open spec fn pic_of(vector: u8) -> Option<Pic> {
    if 32 <= vector < 40 {
        Some(Pic::Primary)
    } else if 40 <= vector < 48 {
        Some(Pic::Secondary)
    } else {
        None
    }
}

/// The controller that owns the line behind `vector`.
pub fn owning_pic(vector: u8) -> (r: Option<Pic>)
    ensures
        r == pic_of(vector),
{
    if PIC_1_OFFSET <= vector && vector < PIC_1_OFFSET + 8 {
        Some(Pic::Primary)
    } else if PIC_2_OFFSET <= vector && vector < PIC_2_OFFSET + 8 {
        Some(Pic::Secondary)
    } else {
        None
    }
}

/// The routines that vectors are bound to.
#[derive(Clone, Copy, PartialEq, Eq, Structural, Debug)]
pub enum Handler {
    Breakpoint,
    PageFault,
    DoubleFault,
    Timer,
    Keyboard,
    VgaMode,
}

/// A slot of the dispatch table that is bound: the routine, and the slot of
/// the interrupt stack table whose stack the routine runs on, if it is not
/// to run on the stack that was in use.
#[derive(Clone, Copy, PartialEq, Eq, Structural, Debug)]
pub struct Gate {
    pub handler: Handler,
    pub stack_index: Option<u16>,
}

/// The dispatch table: 256 slots, each unset or bound to a routine.
pub struct InterruptDescriptorTable {
    slots: Vec<Option<Gate>>,
}

/// The binding of each vector in the kernel's table.
pub open spec fn kernel_gate(vector: int) -> Option<Gate> {
    if vector == 3 {
        Some(Gate { handler: Handler::Breakpoint, stack_index: None })
    } else if vector == 8 {
        Some(Gate { handler: Handler::DoubleFault, stack_index: Some(DOUBLE_FAULT_IST_INDEX) })
    } else if vector == 14 {
        Some(Gate { handler: Handler::PageFault, stack_index: None })
    } else if vector == 16 {
        Some(Gate { handler: Handler::VgaMode, stack_index: None })
    } else if vector == 32 {
        Some(Gate { handler: Handler::Timer, stack_index: None })
    } else if vector == 33 {
        Some(Gate { handler: Handler::Keyboard, stack_index: None })
    } else {
        None
    }
}

impl InterruptDescriptorTable {
    /// The slots of the table, by vector.
    pub closed spec fn view(&self) -> Seq<Option<Gate>> {
        self.slots@
    }

    pub open spec fn wf(&self) -> bool {
        self@.len() == 256
    }

    /// A table with every slot unset.
    pub fn new() -> (idt: InterruptDescriptorTable)
        ensures
            idt.wf(),
            forall|v: int| 0 <= v < 256 ==> idt@[v] is None,
    {
        let mut slots: Vec<Option<Gate>> = Vec::new();
        let mut v: usize = 0;
        while v < 256
            invariant
                v <= 256,
                slots@.len() == v,
                forall|i: int| 0 <= i < v ==> slots@[i] is None,
            decreases 256 - v,
        {
            slots.push(None);
            v += 1;
        }
        InterruptDescriptorTable { slots }
    }

    /// Binds `vector` to `handler`, to run on the stack that is in use.
    pub fn set_handler(&mut self, vector: u8, handler: Handler)
        requires
            old(self).wf(),
        ensures
            final(self).wf(),
            final(self)@ == old(self)@.update(
                vector as int,
                Some(Gate { handler, stack_index: None }),
            ),
    {
        self.slots.set(vector as usize, Some(Gate { handler, stack_index: None }));
    }

    /// Makes the routine of `vector` run on the stack in slot `index` of the
    /// interrupt stack table. An unset slot stays unset.
    pub fn set_stack_index(&mut self, vector: u8, index: u16)
        requires
            old(self).wf(),
        ensures
            final(self).wf(),
            final(self)@ == (match old(self)@[vector as int] {
                Some(gate) => old(self)@.update(
                    vector as int,
                    Some(Gate { handler: gate.handler, stack_index: Some(index) }),
                ),
                None => old(self)@,
            }),
    {
        match self.slots[vector as usize] {
            Some(gate) => {
                self.slots.set(
                    vector as usize,
                    Some(Gate { handler: gate.handler, stack_index: Some(index) }),
                );
            },
            None => {},
        }
    }

    /// The binding of `vector`.
    pub fn gate(&self, vector: u8) -> (r: Option<Gate>)
        requires
            self.wf(),
        ensures
            r == self@[vector as int],
    {
        self.slots[vector as usize]
    }
}

/// The kernel's dispatch table: breakpoint, page fault and double fault, the
/// double fault on its own stack; the timer and the keyboard at the vectors
/// at which the first interrupt controller delivers them; and the vector for
/// display-mode requests. Every other slot is unset.
pub fn init_idt() -> (idt: InterruptDescriptorTable)
    ensures
        idt.wf(),
        forall|v: int| 0 <= v < 256 ==> #[trigger] idt@[v] == kernel_gate(v),
{
    let mut idt = InterruptDescriptorTable::new();
    idt.set_handler(BREAKPOINT_VECTOR, Handler::Breakpoint);
    idt.set_handler(DOUBLE_FAULT_VECTOR, Handler::DoubleFault);
    idt.set_stack_index(DOUBLE_FAULT_VECTOR, DOUBLE_FAULT_IST_INDEX);
    idt.set_handler(PAGE_FAULT_VECTOR, Handler::PageFault);
    idt.set_handler(InterruptIndex::Timer.as_u8(), Handler::Timer);
    idt.set_handler(InterruptIndex::Keyboard.as_u8(), Handler::Keyboard);
    idt.set_handler(VGA_MODE_VECTOR, Handler::VgaMode);
    idt
}

/// What a handler reads from the machine when it runs.
#[derive(Clone, Copy, PartialEq, Eq, Structural, Debug)]
pub struct MachineState {
    /// The error code that the processor pushed, for the exceptions that
    /// have one.
    pub error_code: u64,
    /// The register that holds the address of the last page fault.
    pub fault_address: u64,
    /// The byte at the keyboard's data port.
    pub scancode: u8,
    /// The register `rax` as the interrupted code left it.
    pub rax: u64,
}

/// What an exception report is about.
#[derive(Clone, Copy, PartialEq, Eq, Structural, Debug)]
pub enum Report {
    Breakpoint,
    PageFault { address: u64, error_code: u64 },
    DoubleFault { address: u64, error_code: u64 },
}

/// One step of a handler.
#[derive(Clone, Copy, PartialEq, Eq, Structural, Debug)]
pub enum Action {
    /// Write the report, with the interrupted context, to the screen and to
    /// the serial line.
    Log(Report),
    /// Count one tick.
    Tick,
    /// Hand the byte to the keyboard decoder.
    HandleKeycode(u8),
    /// Ask for the display mode.
    DisplayMode(u8),
    /// Tell the interrupt controllers that the interrupt at this vector has
    /// been served.
    EndOfInterrupt(u8),
    /// Stop the kernel for good.
    Halt,
}

/// The steps of each routine. The breakpoint is logged and the interrupted
/// code goes on. The page fault and the double fault are logged with the
/// faulting address and halt the kernel. The timer counts a tick, the
/// keyboard hands on the byte it read; both then acknowledge their
/// interrupt, once. The display-mode request hands on the mode in `ah`.
pub open spec fn handler_steps(handler: Handler, state: MachineState) -> Seq<Action> {
    match handler {
        Handler::Breakpoint => seq![Action::Log(Report::Breakpoint)],
        Handler::PageFault => seq![
            Action::Log(
                Report::PageFault { address: state.fault_address, error_code: state.error_code },
            ),
            Action::Halt,
        ],
        Handler::DoubleFault => seq![
            Action::Log(
                Report::DoubleFault { address: state.fault_address, error_code: state.error_code },
            ),
            Action::Halt,
        ],
        Handler::Timer => seq![Action::Tick, Action::EndOfInterrupt(32)],
        Handler::Keyboard => seq![
            Action::HandleKeycode(state.scancode),
            Action::EndOfInterrupt(33),
        ],
        Handler::VgaMode => seq![Action::DisplayMode(ah_of(state.rax))],
    }
}

/// The steps of the breakpoint handler.
pub fn breakpoint_handler() -> (steps: Vec<Action>)
    ensures
        steps@ == seq![Action::Log(Report::Breakpoint)],
{
    let mut steps: Vec<Action> = Vec::new();
    steps.push(Action::Log(Report::Breakpoint));
    proof {
        assert(steps@ =~= seq![Action::Log(Report::Breakpoint)]);
    }
    steps
}

/// The steps of the page fault handler.
pub fn page_fault_handler(fault_address: u64, error_code: u64) -> (steps: Vec<Action>)
    ensures
        steps@ == seq![
            Action::Log(Report::PageFault { address: fault_address, error_code }),
            Action::Halt,
        ],
{
    let mut steps: Vec<Action> = Vec::new();
    steps.push(Action::Log(Report::PageFault { address: fault_address, error_code }));
    steps.push(Action::Halt);
    proof {
        assert(steps@ =~= seq![
            Action::Log(Report::PageFault { address: fault_address, error_code }),
            Action::Halt,
        ]);
    }
    steps
}

/// The steps of the double fault handler.
pub fn double_fault_handler(fault_address: u64, error_code: u64) -> (steps: Vec<Action>)
    ensures
        steps@ == seq![
            Action::Log(Report::DoubleFault { address: fault_address, error_code }),
            Action::Halt,
        ],
{
    let mut steps: Vec<Action> = Vec::new();
    steps.push(Action::Log(Report::DoubleFault { address: fault_address, error_code }));
    steps.push(Action::Halt);
    proof {
        assert(steps@ =~= seq![
            Action::Log(Report::DoubleFault { address: fault_address, error_code }),
            Action::Halt,
        ]);
    }
    steps
}

/// The steps of the timer interrupt handler.
pub fn timer_interrupt_handler() -> (steps: Vec<Action>)
    ensures
        steps@ == seq![Action::Tick, Action::EndOfInterrupt(32)],
{
    let mut steps: Vec<Action> = Vec::new();
    steps.push(Action::Tick);
    steps.push(Action::EndOfInterrupt(InterruptIndex::Timer.as_u8()));
    proof {
        assert(steps@ =~= seq![Action::Tick, Action::EndOfInterrupt(32)]);
    }
    steps
}

/// The steps of the keyboard interrupt handler, given the byte that it read
/// from the keyboard's data port.
pub fn keyboard_interrupt_handler(scancode: u8) -> (steps: Vec<Action>)
    ensures
        steps@ == seq![Action::HandleKeycode(scancode), Action::EndOfInterrupt(33)],
{
    let mut steps: Vec<Action> = Vec::new();
    steps.push(Action::HandleKeycode(scancode));
    steps.push(Action::EndOfInterrupt(InterruptIndex::Keyboard.as_u8()));
    proof {
        assert(steps@ =~= seq![Action::HandleKeycode(scancode), Action::EndOfInterrupt(33)]);
    }
    steps
}

/// The steps of the handler for display-mode requests, given `rax` as the
/// requesting code left it.
pub fn vga_mode_interrupt_handler(rax: u64) -> (steps: Vec<Action>)
    ensures
        steps@ == seq![Action::DisplayMode(ah_of(rax))],
{
    let mode: u8 = get_ah_value(rax);
    let mut steps: Vec<Action> = Vec::new();
    steps.push(Action::DisplayMode(mode));
    proof {
        assert(steps@ =~= seq![Action::DisplayMode(ah_of(rax))]);
    }
    steps
}

/// The steps that the interrupt at `vector` leads to: those of the routine
/// that the vector is bound to, nothing where the slot is unset.
pub fn dispatch(idt: &InterruptDescriptorTable, vector: u8, state: MachineState) -> (r: Option<
    Vec<Action>,
>)
    requires
        idt.wf(),
    ensures
        match r {
            Some(steps) => idt@[vector as int] is Some && steps@ == handler_steps(
                idt@[vector as int].unwrap().handler,
                state,
            ),
            None => idt@[vector as int] is None,
        },
{
    match idt.gate(vector) {
        None => None,
        Some(gate) => Some(
            match gate.handler {
                Handler::Breakpoint => breakpoint_handler(),
                Handler::PageFault => page_fault_handler(state.fault_address, state.error_code),
                Handler::DoubleFault => double_fault_handler(
                    state.fault_address,
                    state.error_code,
                ),
                Handler::Timer => timer_interrupt_handler(),
                Handler::Keyboard => keyboard_interrupt_handler(state.scancode),
                Handler::VgaMode => vga_mode_interrupt_handler(state.rax),
            },
        ),
    }
}

/// Where the delivery of an exception or interrupt ends.
#[derive(Clone, Copy, PartialEq, Eq, Structural, Debug)]
pub enum Delivery {
    /// The routine runs.
    Runs(Handler),
    /// Delivery failed and so did the delivery of the double fault that
    /// followed: the machine resets.
    Reset,
}

/// Whether the processor can enter the routine of a bound slot: it can on
/// the stack in the slot of the interrupt stack table that is named, if one
/// is set there, and on the stack that is in use if that has room left.
pub open spec fn can_enter(gate: Gate, tss: TaskStateSegment, stack_usable: bool) -> bool {
    match gate.stack_index {
        Some(index) => index < 7 && tss.interrupt_stack_table@[index as int] != 0,
        None => stack_usable,
    }
}

/// Where the delivery of `vector` ends. A vector whose routine cannot be
/// entered, or that has none, raises a double fault; a double fault whose
/// routine cannot be entered resets the machine.
pub open spec fn delivery(
    idt: InterruptDescriptorTable,
    tss: TaskStateSegment,
    vector: u8,
    stack_usable: bool,
) -> Delivery {
    match idt@[vector as int] {
        Some(gate) if can_enter(gate, tss, stack_usable) => Delivery::Runs(gate.handler),
        _ => match idt@[8] {
            Some(gate) if can_enter(gate, tss, stack_usable) => Delivery::Runs(gate.handler),
            _ => Delivery::Reset,
        },
    }
}

/// Where the delivery of `vector` ends, given whether the stack in use has
/// room left.
pub fn deliver(
    idt: &InterruptDescriptorTable,
    tss: &TaskStateSegment,
    vector: u8,
    stack_usable: bool,
) -> (r: Delivery)
    requires
        idt.wf(),
    ensures
        r == delivery(*idt, *tss, vector, stack_usable),
{
    match idt.gate(vector) {
        Some(gate) => {
            if enterable(gate, tss, stack_usable) {
                return Delivery::Runs(gate.handler);
            }
        },
        None => {},
    }
    match idt.gate(DOUBLE_FAULT_VECTOR) {
        Some(gate) => {
            if enterable(gate, tss, stack_usable) {
                return Delivery::Runs(gate.handler);
            }
        },
        None => {},
    }
    Delivery::Reset
}

/// Whether the processor can enter the routine behind `gate`.
fn enterable(gate: Gate, tss: &TaskStateSegment, stack_usable: bool) -> (r: bool)
    ensures
        r == can_enter(gate, *tss, stack_usable),
{
    match gate.stack_index {
        Some(index) => index < 7 && tss.interrupt_stack_table[index as usize] != 0,
        None => stack_usable,
    }
}

/// With the kernel's dispatch table and a stack set for double faults, no
/// delivery ends in a reset: whatever the vector, and whether or not the
/// stack in use has room left, a routine runs. When the stack in use has no
/// room left, the routine that runs is the double fault handler.
pub proof fn lemma_no_reset(
    idt: InterruptDescriptorTable,
    tss: TaskStateSegment,
    vector: u8,
    stack_usable: bool,
)
    requires
        idt.wf(),
        forall|v: int| 0 <= v < 256 ==> #[trigger] idt@[v] == kernel_gate(v),
        tss.interrupt_stack_table@[DOUBLE_FAULT_IST_INDEX as int] != 0,
    ensures
        delivery(idt, tss, vector, stack_usable) is Runs,
        !stack_usable ==> delivery(idt, tss, vector, stack_usable) == Delivery::Runs(
            Handler::DoubleFault,
        ),
{
    assert(idt@[8] == kernel_gate(8));
    assert(idt@[vector as int] == kernel_gate(vector as int));
}

/// A hardware interrupt is acknowledged exactly once, at its own vector, and
/// the controller that owns that vector's line is the first.
pub proof fn lemma_acknowledged_once(index: InterruptIndex, state: MachineState)
    ensures
        ({
            let handler = match index {
                InterruptIndex::Timer => Handler::Timer,
                InterruptIndex::Keyboard => Handler::Keyboard,
            };
            let steps = handler_steps(handler, state);
            &&& kernel_gate(index.vector() as int) == Some(Gate { handler, stack_index: None })
            &&& steps.filter(|a: Action| a is EndOfInterrupt) == seq![
                Action::EndOfInterrupt(index.vector()),
            ]
            &&& pic_of(index.vector()) == Some(Pic::Primary)
        }),
{
    let handler = match index {
        InterruptIndex::Timer => Handler::Timer,
        InterruptIndex::Keyboard => Handler::Keyboard,
    };
    let steps = handler_steps(handler, state);
    let f = |a: Action| a is EndOfInterrupt;
    reveal_with_fuel(Seq::filter, 3);
    assert(steps.drop_last().drop_last() =~= Seq::<Action>::empty());
    assert(steps.drop_last() =~= seq![steps[0]]);
}

} // verus!

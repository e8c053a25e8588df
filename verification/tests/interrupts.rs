use nesos::addr::VirtAddr;
use nesos::gdt::{build_tss, TaskStateSegment};
use nesos::interrupts::{
    breakpoint_handler, deliver, dispatch, double_fault_handler, init_idt,
    keyboard_interrupt_handler, owning_pic, page_fault_handler, timer_interrupt_handler,
    vga_mode_interrupt_handler, Action, Delivery, Gate, Handler, InterruptDescriptorTable,
    InterruptIndex, MachineState, Pic, Report, PIC_1_OFFSET, PIC_2_OFFSET,
};
use nesos::registers::get_ah_value;
use nesos::vga_help::{draw_mode, handle_vga_interrupt, Line, VgaAction};

fn state() -> MachineState {
    MachineState { error_code: 2, fault_address: 0xfffff0, scancode: 0x1e, rax: 0x1300 }
}

#[test]
fn hardware_vectors_follow_the_first_controller() {
    assert_eq!(InterruptIndex::Timer.as_u8(), 32);
    assert_eq!(InterruptIndex::Keyboard.as_u8(), 33);
    assert_eq!(InterruptIndex::Timer.as_usize(), 32);
    assert_eq!(InterruptIndex::Keyboard.as_usize(), 33);
    assert_eq!(PIC_1_OFFSET, 32);
    assert_eq!(PIC_2_OFFSET, 40);
    assert_eq!(owning_pic(32), Some(Pic::Primary));
    assert_eq!(owning_pic(39), Some(Pic::Primary));
    assert_eq!(owning_pic(40), Some(Pic::Secondary));
    assert_eq!(owning_pic(47), Some(Pic::Secondary));
    assert_eq!(owning_pic(48), None);
    assert_eq!(owning_pic(31), None);
}

#[test]
fn kernel_table_binds_six_vectors() {
    let idt = init_idt();
    let mut bound = Vec::new();
    for v in 0..=255u8 {
        if let Some(gate) = idt.gate(v) {
            bound.push((v, gate));
        }
    }
    assert_eq!(
        bound,
        vec![
            (3, Gate { handler: Handler::Breakpoint, stack_index: None }),
            (8, Gate { handler: Handler::DoubleFault, stack_index: Some(0) }),
            (14, Gate { handler: Handler::PageFault, stack_index: None }),
            (16, Gate { handler: Handler::VgaMode, stack_index: None }),
            (32, Gate { handler: Handler::Timer, stack_index: None }),
            (33, Gate { handler: Handler::Keyboard, stack_index: None }),
        ]
    );
}

#[test]
fn stack_index_of_an_unset_slot_stays_unset() {
    let mut idt = InterruptDescriptorTable::new();
    idt.set_stack_index(8, 3);
    assert_eq!(idt.gate(8), None);
    idt.set_handler(8, Handler::DoubleFault);
    idt.set_stack_index(8, 3);
    assert_eq!(idt.gate(8), Some(Gate { handler: Handler::DoubleFault, stack_index: Some(3) }));
    idt.set_handler(8, Handler::Breakpoint);
    assert_eq!(idt.gate(8), Some(Gate { handler: Handler::Breakpoint, stack_index: None }));
}

#[test]
fn display_mode_request_reaches_the_callback_once() {
    let idt = init_idt();
    let steps = dispatch(&idt, 16, state()).unwrap();
    assert_eq!(steps, vec![Action::DisplayMode(0x13)]);
    assert_eq!(handle_vga_interrupt(0x13), VgaAction::DrawMode);
    assert_eq!(handle_vga_interrupt(0x12), VgaAction::InvalidMode);
    assert_eq!(handle_vga_interrupt(0), VgaAction::InvalidMode);
    assert_eq!(vga_mode_interrupt_handler(0xffff_ffff_ffff_42ff), vec![Action::DisplayMode(0x42)]);
}

#[test]
fn ah_is_the_second_byte_of_rax() {
    assert_eq!(get_ah_value(0x1300), 0x13);
    assert_eq!(get_ah_value(0x1234_5678_9abc_def0), 0xde);
    assert_eq!(get_ah_value(0xff), 0);
}

#[test]
fn handlers_take_their_steps() {
    assert_eq!(breakpoint_handler(), vec![Action::Log(Report::Breakpoint)]);
    assert_eq!(
        page_fault_handler(0xfffff0, 2),
        vec![Action::Log(Report::PageFault { address: 0xfffff0, error_code: 2 }), Action::Halt]
    );
    assert_eq!(
        double_fault_handler(0x10, 0),
        vec![Action::Log(Report::DoubleFault { address: 0x10, error_code: 0 }), Action::Halt]
    );
    assert_eq!(timer_interrupt_handler(), vec![Action::Tick, Action::EndOfInterrupt(32)]);
    assert_eq!(
        keyboard_interrupt_handler(0x1e),
        vec![Action::HandleKeycode(0x1e), Action::EndOfInterrupt(33)]
    );
}

#[test]
fn dispatch_goes_through_the_table() {
    let idt = init_idt();
    assert_eq!(dispatch(&idt, 3, state()), Some(vec![Action::Log(Report::Breakpoint)]));
    assert_eq!(dispatch(&idt, 32, state()), Some(vec![Action::Tick, Action::EndOfInterrupt(32)]));
    assert_eq!(
        dispatch(&idt, 33, state()),
        Some(vec![Action::HandleKeycode(0x1e), Action::EndOfInterrupt(33)])
    );
    assert_eq!(
        dispatch(&idt, 14, state()),
        Some(vec![
            Action::Log(Report::PageFault { address: 0xfffff0, error_code: 2 }),
            Action::Halt
        ])
    );
    assert_eq!(
        dispatch(&idt, 8, state()),
        Some(vec![
            Action::Log(Report::DoubleFault { address: 0xfffff0, error_code: 2 }),
            Action::Halt
        ])
    );
    assert_eq!(dispatch(&idt, 0, state()), None);
    assert_eq!(dispatch(&idt, 255, state()), None);
}

#[test]
fn stack_overflow_ends_in_the_double_fault_handler() {
    let idt = init_idt();
    let tss = build_tss(VirtAddr::new(0x20_0000)).unwrap();
    // The page fault of the overflowing stack cannot be delivered on it.
    assert_eq!(deliver(&idt, &tss, 14, false), Delivery::Runs(Handler::DoubleFault));
    assert_eq!(deliver(&idt, &tss, 8, false), Delivery::Runs(Handler::DoubleFault));
    assert_eq!(deliver(&idt, &tss, 14, true), Delivery::Runs(Handler::PageFault));
    assert_eq!(deliver(&idt, &tss, 32, true), Delivery::Runs(Handler::Timer));
    // A vector without a routine ends in the double fault too.
    assert_eq!(deliver(&idt, &tss, 13, true), Delivery::Runs(Handler::DoubleFault));
    for v in 0..=255u8 {
        assert_ne!(deliver(&idt, &tss, v, false), Delivery::Reset);
        assert_ne!(deliver(&idt, &tss, v, true), Delivery::Reset);
    }
}

#[test]
fn without_a_double_fault_stack_the_machine_resets() {
    let idt = init_idt();
    let tss = TaskStateSegment::new();
    assert_eq!(deliver(&idt, &tss, 14, false), Delivery::Reset);
    assert_eq!(deliver(&idt, &tss, 14, true), Delivery::Runs(Handler::PageFault));
    let bare = InterruptDescriptorTable::new();
    let good = build_tss(VirtAddr::new(0x20_0000)).unwrap();
    assert_eq!(deliver(&bare, &good, 14, true), Delivery::Reset);
}

#[test]
fn test_picture_has_two_lines() {
    assert_eq!(
        draw_mode(),
        vec![
            Line { x0: 5, y0: 7, x1: 30, y1: 100, color: 1 },
            Line { x0: 50, y0: 7, x1: 30, y1: 200, color: 4 },
        ]
    );
}

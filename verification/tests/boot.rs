use nesos::time::{hard_sleep, soft_sleep, tick, Sleep, SleepStep, TickCounter};
use nesos::{exit_qemu, init, BootStep, QemuExitCode};

#[test]
fn boot_steps_come_in_order() {
    assert_eq!(
        init(),
        vec![
            BootStep::LoadDescriptorTables,
            BootStep::LoadDispatchTable,
            BootStep::RemapPics { offset_1: 32, offset_2: 40 },
            BootStep::EnableInterrupts,
            BootStep::RequestDisplayMode(0x13),
        ]
    );
}

#[test]
fn exit_codes_go_to_the_exit_port() {
    assert_eq!(exit_qemu(QemuExitCode::Success), (0xf4, 0x10));
    assert_eq!(exit_qemu(QemuExitCode::Failed), (0xf4, 0x11));
    assert_eq!(QemuExitCode::Success.code(), 0x10);
}

#[test]
fn ticks_count_up_from_zero() {
    let mut counter = TickCounter::new();
    assert_eq!(counter.ticks(), 0);
    tick(&mut counter);
    tick(&mut counter);
    assert_eq!(counter.ticks(), 2);
}

#[test]
fn hard_sleep_lasts_until_the_counter_is_past_the_target() {
    let mut counter = TickCounter::new();
    tick(&mut counter);
    let sleep = hard_sleep(3, &counter);
    assert_eq!(sleep, Sleep { target: 4 });
    for _ in 0..3 {
        assert_eq!(sleep.poll(&counter), SleepStep::Halt);
        tick(&mut counter);
    }
    assert_eq!(counter.ticks(), 4);
    assert_eq!(sleep.poll(&counter), SleepStep::Halt);
    tick(&mut counter);
    assert_eq!(sleep.poll(&counter), SleepStep::Wake);
    soft_sleep(5);
}

#[test]
fn trivial_assertion() {
    assert_eq!(1, 1);
}

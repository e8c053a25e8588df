use nesos::addr::VirtAddr;
use nesos::gdt::{
    build_gdt, build_tss, init, Descriptor, LoadStep, SegmentSelector, Selectors,
    TaskStateSegment, DOUBLE_FAULT_IST_INDEX, KERNEL_CODE64, STACK_SIZE,
};

#[test]
fn kernel_code_segment_is_the_64_bit_ring_0_descriptor() {
    assert_eq!(Descriptor::kernel_code_segment(), Descriptor::UserSegment(0x00af_9b00_0000_ffff));
    assert_eq!(KERNEL_CODE64, 0x00af_9b00_0000_ffff);
}

#[test]
fn tss_descriptor_holds_base_limit_and_type() {
    assert_eq!(
        Descriptor::tss_segment(0x1234_5678_9abc_def0),
        Descriptor::SystemSegment(0x9a00_89bc_def0_0067, 0x1234_5678)
    );
    assert_eq!(Descriptor::tss_segment(0), Descriptor::SystemSegment(0x0000_8900_0000_0067, 0));
}

#[test]
fn gdt_holds_null_code_and_tss() {
    let (gdt, selectors) = build_gdt(0xffff_8000_0010_2000);
    assert_eq!(
        gdt.as_raw_slice(),
        &[0, 0x00af_9b00_0000_ffff, 0x0000_8910_2000_0067, 0xffff_8000]
    );
    assert_eq!(
        selectors,
        Selectors { code_selector: SegmentSelector(8), tss_selector: SegmentSelector(16) }
    );
}

#[test]
fn double_fault_stack_ends_above_its_start() {
    let tss = build_tss(VirtAddr::new(0x20_0000)).unwrap();
    assert_eq!(tss.interrupt_stack_table[DOUBLE_FAULT_IST_INDEX as usize], 0x20_0000 + STACK_SIZE);
    assert_eq!(STACK_SIZE, 20480);
    for i in 1..7 {
        assert_eq!(tss.interrupt_stack_table[i], 0);
    }
    assert_eq!(tss.privilege_stack_table, [0, 0, 0]);
    assert_eq!(tss.iomap_base, 0x68);
    assert!(build_tss(VirtAddr::new(0xffff_ffff_ffff_f000)).is_none());
    let empty = TaskStateSegment::new();
    assert_eq!(empty.interrupt_stack_table, [0; 7]);
}

#[test]
fn tables_are_loaded_in_order() {
    let selectors =
        Selectors { code_selector: SegmentSelector(8), tss_selector: SegmentSelector(16) };
    assert_eq!(
        init(selectors),
        vec![
            LoadStep::LoadGdt,
            LoadStep::SetCodeSegment(SegmentSelector(8)),
            LoadStep::LoadTss(SegmentSelector(16)),
        ]
    );
}

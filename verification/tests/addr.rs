use nesos::addr::{Page, PhysAddr, PhysFrame, VirtAddr};

#[test]
fn canonical_addresses_are_kept() {
    assert_eq!(VirtAddr::try_new(0).map(|a| a.as_u64()), Some(0));
    assert_eq!(
        VirtAddr::try_new(0x7fff_ffff_ffff).map(|a| a.as_u64()),
        Some(0x7fff_ffff_ffff)
    );
    assert_eq!(
        VirtAddr::try_new(0xffff_8000_0000_0000).map(|a| a.as_u64()),
        Some(0xffff_8000_0000_0000)
    );
    assert_eq!(VirtAddr::zero().as_u64(), 0);
}

#[test]
fn bit_47_is_sign_extended() {
    assert_eq!(
        VirtAddr::try_new(0x8000_0000_0000).map(|a| a.as_u64()),
        Some(0xffff_8000_0000_0000)
    );
    assert_eq!(VirtAddr::new(0xffff_ffff_f123).as_u64(), 0xffff_ffff_ffff_f123);
}

#[test]
fn addresses_with_data_in_the_high_bits_are_refused() {
    assert_eq!(VirtAddr::try_new(0x1_0000_0000_0000), None);
    assert_eq!(VirtAddr::try_new(0xfffe_8000_0000_0000), None);
    assert_eq!(VirtAddr::try_new(0x8000_0000_0000_0000), None);
}

#[test]
fn table_indexes_are_nine_bit_slices() {
    let a = VirtAddr::new(0x4444_4444_0abc);
    assert_eq!(a.p4_index(), 0x88);
    assert_eq!(a.p3_index(), 0x111);
    assert_eq!(a.p2_index(), 0x22);
    assert_eq!(a.p1_index(), 0x40);
    assert_eq!(a.page_offset(), 0xabc);
    let top = VirtAddr::new(0xffff_ffff_ffff_ffff);
    assert_eq!(top.p4_index(), 511);
    assert_eq!(top.p3_index(), 511);
    assert_eq!(top.p2_index(), 511);
    assert_eq!(top.p1_index(), 511);
    assert_eq!(top.page_offset(), 4095);
}

#[test]
fn checked_add_stays_within_addresses() {
    let a = VirtAddr::new(0x1000);
    assert_eq!(a.checked_add(0x234).map(|a| a.as_u64()), Some(0x1234));
    assert_eq!(VirtAddr::new(0xffff_ffff_ffff_ffff).checked_add(1), None);
    assert_eq!(VirtAddr::new(0x7fff_ffff_ffff).checked_add(0x1_0000_0000_0000), None);
    // Stepping over the end of the lower half lands in the upper half.
    assert_eq!(
        VirtAddr::new(0x7fff_ffff_ffff).checked_add(1).map(|a| a.as_u64()),
        Some(0xffff_8000_0000_0000)
    );
}

#[test]
fn physical_addresses_end_at_52_bits() {
    assert_eq!(PhysAddr::try_new(0xf_ffff_ffff_ffff).map(|a| a.as_u64()), Some(0xf_ffff_ffff_ffff));
    assert_eq!(PhysAddr::try_new(0x10_0000_0000_0000), None);
    assert_eq!(PhysAddr::new(0xb8000).checked_add(0x10).map(|a| a.as_u64()), Some(0xb8010));
    assert_eq!(PhysAddr::new(0xf_ffff_ffff_ffff).checked_add(1), None);
    assert_eq!(PhysAddr::new(5).checked_add(u64::MAX), None);
}

#[test]
fn frames_and_pages_start_at_multiples_of_4096() {
    let f = PhysFrame::containing_address(PhysAddr::new(0xb8123));
    assert_eq!(f.start_address().as_u64(), 0xb8000);
    assert_eq!(PhysFrame::from_start_address(PhysAddr::new(0xb8000)), Some(f));
    assert_eq!(PhysFrame::from_start_address(PhysAddr::new(0xb8001)), None);
    let p = Page::containing_address(VirtAddr::new(0xffff_8000_0000_1fff));
    assert_eq!(p.start_address().as_u64(), 0xffff_8000_0000_1000);
    assert_eq!(Page::from_start_address(VirtAddr::new(0x2000)).map(|p| p.start_address().as_u64()), Some(0x2000));
    assert_eq!(Page::from_start_address(VirtAddr::new(0x2008)), None);
}

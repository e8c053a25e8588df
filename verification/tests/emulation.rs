use nesos::emulation::construct::{
    color16_from_u8, Pixel, TerminalAudio, TerminalKeyboard, TerminalScreen,
};
use nesos::emulation::{
    get_rgb, keyboard_mapping, plan_rom, read_header, rgb_colors, run_rom, BankType,
    CircularBuffer, INesHeader, MapperKind, MirrorType, RomError, RomPlan, SimpleCart,
};
use nesos::vga_buffer::Color;

fn image(prg: u8, chr: u8, flags6: u8, flags7: u8) -> Vec<u8> {
    let mut rom = vec![b'N', b'E', b'S', 0x1a, prg, chr, flags6, flags7, 0, 0, 0];
    rom.resize(16, 0);
    rom
}

#[test]
fn palette_colours_split_into_rgb() {
    assert_eq!(get_rgb(0), (0x66, 0x66, 0x66));
    assert_eq!(get_rgb(1), (0x00, 0x2a, 0x88));
    assert_eq!(get_rgb(0x21), (0x64, 0xb0, 0xff));
    assert_eq!(get_rgb(63), (0, 0, 0));
    assert_eq!(rgb_colors()[61], 0xb8b8b8);
}

#[test]
fn ring_starts_with_the_head_after_the_tail() {
    let mut ring = CircularBuffer::new();
    // The head is one ahead of the tail: the first sample is taken from
    // position 1, where nothing has been put yet.
    ring.enque(11);
    ring.enque(22);
    ring.enque(33);
    assert_eq!(ring.deque(), 22);
    // The head would catch up with the tail and stays; the tail falls back.
    assert_eq!(ring.deque(), 33);
    assert_eq!(ring.deque(), 33);
    ring.enque(44);
    assert_eq!(ring.deque(), 44);
}

#[test]
fn ring_wraps_around() {
    let mut ring = CircularBuffer::new();
    for i in 0..4852 {
        ring.enque((i % 1000) as i16);
    }
    // The tail is back at 0; position 1 holds the second sample.
    assert_eq!(ring.deque(), 1);
    assert_eq!(ring.deque(), 2);
    ring.enque(-5);
    for _ in 0..4849 {
        ring.deque();
    }
    assert_eq!(ring.deque(), -5);
}

#[test]
fn header_is_read_from_the_first_bytes() {
    let rom = image(2, 1, 0x11, 0x40);
    assert_eq!(
        read_header(&rom),
        Some(INesHeader {
            magic: [b'N', b'E', b'S', 0x1a],
            prg_rom_nbanks: 2,
            chr_rom_nbanks: 1,
            flags6: 0x11,
            flags7: 0x40,
            prg_ram_nbanks: 0,
            flags9: 0,
            flags10: 0,
        })
    );
    assert_eq!(read_header(&rom[..15]), None);
}

#[test]
fn plan_gives_sizes_mirror_and_mapper() {
    assert_eq!(
        run_rom(&image(2, 1, 0x01, 0x00)),
        Ok(RomPlan {
            prg_len: 0x8000,
            chr_len: 0x2000,
            sram_len: 0x2000,
            mirror: MirrorType::Vertical,
            mapper_id: 0,
            mapper: MapperKind::Mapper2,
        })
    );
    let plan = run_rom(&image(8, 0, 0x48, 0x00)).unwrap();
    assert_eq!(plan.chr_len, 0x2000);
    assert_eq!(plan.prg_len, 0x20000);
    assert_eq!(plan.mirror, MirrorType::Single0);
    assert_eq!(plan.mapper_id, 4);
    assert_eq!(plan.mapper, MapperKind::Mapper4);
    let plan = run_rom(&image(1, 2, 0x19, 0x00)).unwrap();
    assert_eq!(plan.mirror, MirrorType::Single1);
    assert_eq!(plan.mapper, MapperKind::Mapper1);
    assert_eq!(plan.chr_len, 0x4000);
    assert_eq!(run_rom(&image(1, 1, 0x20, 0x00)).unwrap().mirror, MirrorType::Horizontal);
    assert_eq!(run_rom(&image(1, 1, 0x20, 0x00)).unwrap().mapper, MapperKind::Mapper2);
}

#[test]
fn bad_images_are_refused() {
    assert_eq!(run_rom(&[b'N', b'E', b'S']), Err(RomError::TooShort));
    let mut rom = image(1, 1, 0, 0);
    rom[3] = 0x1b;
    assert_eq!(run_rom(&rom), Err(RomError::NotINes));
    assert_eq!(run_rom(&image(1, 1, 0x30, 0x00)), Err(RomError::UnsupportedMapper(3)));
    assert_eq!(run_rom(&image(1, 1, 0x50, 0x40)), Err(RomError::UnsupportedMapper(0x45)));
    let header = read_header(&image(1, 1, 0x50, 0x40)).unwrap();
    assert_eq!(header.mapper_id(), 0x45);
    assert_eq!(plan_rom(&header), Err(RomError::UnsupportedMapper(0x45)));
}

#[test]
fn cartridge_gives_its_banks() {
    let mut cart = SimpleCart::new(vec![1, 2, 3, 4], vec![5, 6, 7], vec![8, 9], MirrorType::Four);
    assert_eq!(cart.get_size(BankType::ChrRom), 4);
    assert_eq!(cart.get_size(BankType::PrgRom), 3);
    assert_eq!(cart.get_size(BankType::Sram), 2);
    assert_eq!(cart.get_bank(1, 2, BankType::ChrRom), &[2, 3]);
    assert_eq!(cart.get_bank(0, 3, BankType::PrgRom), &[5, 6, 7]);
    assert_eq!(cart.get_bank(2, 0, BankType::Sram), &[] as &[u8]);
    cart.set_byte(1, 0x99, BankType::Sram);
    assert_eq!(cart.get_bank(0, 2, BankType::Sram), &[8, 0x99]);
    assert_eq!(cart.get_mirror_type(), MirrorType::Four);
    cart.set_mirror_type(MirrorType::Vertical);
    assert_eq!(cart.get_mirror_type(), MirrorType::Vertical);
    assert!(SimpleCart::transfer_complete(4, Some(4)));
    assert!(!SimpleCart::transfer_complete(4, Some(3)));
    assert!(!SimpleCart::transfer_complete(4, None));
}

#[test]
fn every_key_is_up() {
    assert_eq!(keyboard_mapping("I"), 16);
    assert_eq!(keyboard_mapping("Return"), 16);
    assert_eq!(keyboard_mapping(""), 16);
}

#[test]
fn terminal_devices() {
    assert_eq!(color16_from_u8(0), Color::Blue);
    assert_eq!(color16_from_u8(200), Color::Blue);
    let mut screen = TerminalScreen::new();
    assert_eq!(screen.put(3, 250, 7), Pixel { x: 3, y: 250, color: Color::Blue });
    assert_eq!(screen.frame(), Color::Black);
    let mut audio = TerminalAudio {};
    audio.queue(-3);
    assert_eq!(TerminalKeyboard {}.poll(), 0);
}

//! What the emulated console needs from the kernel: the cartridge image, the
//! colour table and the audio queue.

pub mod construct;

use vstd::prelude::*;
use vstd::slice::slice_subrange;

verus! {

/// The colours of the console's palette as 0xRRGGBB.
pub fn rgb_colors() -> (table: [u32; 64])
    ensures
        table@ == rgb_table(),
{
    let table: [u32; 64] = [
        0x666666, 0x002a88, 0x1412a7, 0x3b00a4, 0x5c007e, 0x6e0040, 0x6c0600, 0x561d00,
        0x333500, 0x0b4800, 0x005200, 0x004f08, 0x00404d, 0x000000, 0x000000, 0x000000,
        0xadadad, 0x155fd9, 0x4240ff, 0x7527fe, 0xa01acc, 0xb71e7b, 0xb53120, 0x994e00,
        0x6b6d00, 0x388700, 0x0c9300, 0x008f32, 0x007c8d, 0x000000, 0x000000, 0x000000,
        0xfffeff, 0x64b0ff, 0x9290ff, 0xc676ff, 0xf36aff, 0xfe6ecc, 0xfe8170, 0xea9e22,
        0xbcbe00, 0x88d800, 0x5ce430, 0x45e082, 0x48cdde, 0x4f4f4f, 0x000000, 0x000000,
        0xfffeff, 0xc0dfff, 0xd3d2ff, 0xe8c8ff, 0xfbc2ff, 0xfec4ea, 0xfeccc5, 0xf7d8a5,
        0xe4e594, 0xcfef96, 0xbdf4ab, 0xb3f3cc, 0xb5ebf2, 0xb8b8b8, 0x000000, 0x000000,
    ];
    proof {
        assert(table@ =~= rgb_table());
    }
    table
}

/// The colours of the console's palette as 0xRRGGBB.
pub open spec fn rgb_table() -> Seq<u32> {
    seq![
        0x666666u32, 0x002a88u32, 0x1412a7u32, 0x3b00a4u32, 0x5c007eu32, 0x6e0040u32,
        0x6c0600u32, 0x561d00u32, 0x333500u32, 0x0b4800u32, 0x005200u32, 0x004f08u32,
        0x00404du32, 0x000000u32, 0x000000u32, 0x000000u32, 0xadadadu32, 0x155fd9u32,
        0x4240ffu32, 0x7527feu32, 0xa01accu32, 0xb71e7bu32, 0xb53120u32, 0x994e00u32,
        0x6b6d00u32, 0x388700u32, 0x0c9300u32, 0x008f32u32, 0x007c8du32, 0x000000u32,
        0x000000u32, 0x000000u32, 0xfffeffu32, 0x64b0ffu32, 0x9290ffu32, 0xc676ffu32,
        0xf36affu32, 0xfe6eccu32, 0xfe8170u32, 0xea9e22u32, 0xbcbe00u32, 0x88d800u32,
        0x5ce430u32, 0x45e082u32, 0x48cddeu32, 0x4f4f4fu32, 0x000000u32, 0x000000u32,
        0xfffeffu32, 0xc0dfffu32, 0xd3d2ffu32, 0xe8c8ffu32, 0xfbc2ffu32, 0xfec4eau32,
        0xfeccc5u32, 0xf7d8a5u32, 0xe4e594u32, 0xcfef96u32, 0xbdf4abu32, 0xb3f3ccu32,
        0xb5ebf2u32, 0xb8b8b8u32, 0x000000u32, 0x000000u32,
    ]
}

/// The red, green and blue parts of palette colour `color`.
pub fn get_rgb(color: u8) -> (rgb: (u8, u8, u8))
    requires
        color < 64,
    ensures
        rgb.0 == rgb_table()[color as int] / 0x10000,
        rgb.1 == (rgb_table()[color as int] / 0x100) % 0x100,
        rgb.2 == rgb_table()[color as int] % 0x100,
{
    let table: [u32; 64] = rgb_colors();
    let c: u32 = table[color as usize];
    proof {
        assert(forall|i: int| 0 <= i < 64 ==> rgb_table()[i] <= 0xffffff);
    }
    ((c / 0x10000) as u8, ((c / 0x100) % 0x100) as u8, (c % 0x100) as u8)
}

/// The number of samples that the audio queue holds, and one more.
pub const AUDIO_BUFFER_LEN: usize = 4852;

/// A ring of audio samples. `tail` is where the next sample is put, `head`
/// where the next is taken.
pub struct CircularBuffer {
    buffer: [i16; 4852],
    head: usize,
    tail: usize,
}

/// The position after `at` in the ring.
pub open spec fn ring_next(at: int) -> int {
    if at + 1 == 4852 {
        0
    } else {
        at + 1
    }
}

impl CircularBuffer {
    /// The samples in the ring, by position.
    pub closed spec fn samples(&self) -> Seq<i16> {
        self.buffer@
    }

    /// The position from which the next sample is taken.
    pub closed spec fn head(&self) -> int {
        self.head as int
    }

    /// The position at which the next sample is put.
    pub closed spec fn tail(&self) -> int {
        self.tail as int
    }

    pub open spec fn wf(&self) -> bool {
        &&& self.samples().len() == 4852
        &&& 0 <= self.head() < 4852
        &&& 0 <= self.tail() < 4852
    }

    /// A ring of silence, the head one position after the tail.
    pub fn new() -> (r: CircularBuffer)
        ensures
            r.wf(),
            r.head() == 1,
            r.tail() == 0,
            forall|i: int| 0 <= i < 4852 ==> r.samples()[i] == 0,
    {
        CircularBuffer { buffer: [0; 4852], head: 1, tail: 0 }
    }

    /// Puts a sample at the tail and moves the tail on.
    pub fn enque(&mut self, sample: i16)
        requires
            old(self).wf(),
        ensures
            final(self).wf(),
            final(self).samples() == old(self).samples().update(old(self).tail(), sample),
            final(self).tail() == ring_next(old(self).tail()),
            final(self).head() == old(self).head(),
    {
        self.buffer[self.tail] = sample;
        self.tail = self.tail + 1;
        if self.tail == AUDIO_BUFFER_LEN {
            self.tail = 0;
        }
    }

    /// Takes the sample at the head. The head moves on unless it has caught
    /// up with the tail, or would by moving; in the latter case the tail
    /// falls back to the head.
    pub fn deque(&mut self) -> (res: i16)
        requires
            old(self).wf(),
        ensures
            final(self).wf(),
            res == old(self).samples()[old(self).head()],
            final(self).samples() == old(self).samples(),
            final(self).head() == (if old(self).head() != old(self).tail() && ring_next(
                old(self).head(),
            ) != old(self).tail() {
                ring_next(old(self).head())
            } else {
                old(self).head()
            }),
            final(self).tail() == (if old(self).head() != old(self).tail() && ring_next(
                old(self).head(),
            ) == old(self).tail() {
                old(self).head()
            } else {
                old(self).tail()
            }),
    {
        let res: i16 = self.buffer[self.head];
        if self.head != self.tail {
            let mut h: usize = self.head + 1;
            if h == AUDIO_BUFFER_LEN {
                h = 0;
            }
            if h != self.tail {
                self.head = h;
            } else {
                self.tail = self.head;
            }
        }
        res
    }
}

/// How the console's two screens of tiles mirror each other.
#[derive(Clone, Copy, PartialEq, Eq, Structural, Debug)]
pub enum MirrorType {
    Horizontal,
    Vertical,
    Single0,
    Single1,
    Four,
}

/// The three memories of a cartridge.
#[derive(Clone, Copy, PartialEq, Eq, Structural, Debug)]
pub enum BankType {
    PrgRom,
    ChrRom,
    Sram,
}

/// The circuits that map a cartridge's memories into the console.
#[derive(Clone, Copy, PartialEq, Eq, Structural, Debug)]
pub enum MapperKind {
    Mapper1,
    Mapper2,
    Mapper4,
}

/// The first sixteen bytes of a cartridge image.
#[derive(Clone, Copy, PartialEq, Eq, Debug)]
pub struct INesHeader {
    pub magic: [u8; 4],
    pub prg_rom_nbanks: u8,
    pub chr_rom_nbanks: u8,
    pub flags6: u8,
    pub flags7: u8,
    pub prg_ram_nbanks: u8,
    pub flags9: u8,
    pub flags10: u8,
}

/// Why a cartridge image cannot be run.
#[derive(Clone, Copy, PartialEq, Eq, Structural, Debug)]
pub enum RomError {
    /// The image is shorter than a header.
    TooShort,
    /// The image does not start with `NES` and the byte 0x1a.
    NotINes,
    /// The image asks for a mapper that is not at hand.
    UnsupportedMapper(u8),
}

/// What is to be set up for a cartridge image.
#[derive(Clone, Copy, PartialEq, Eq, Structural, Debug)]
pub struct RomPlan {
    pub prg_len: usize,
    pub chr_len: usize,
    pub sram_len: usize,
    pub mirror: MirrorType,
    pub mapper_id: u8,
    pub mapper: MapperKind,
}

/// Whether a header is the one that the first sixteen bytes of an image
/// hold: byte by byte, the last five bytes left out.
pub open spec fn is_header_of(header: INesHeader, rom: Seq<u8>) -> bool {
    &&& header.magic@ == rom.subrange(0, 4)
    &&& header.prg_rom_nbanks == rom[4]
    &&& header.chr_rom_nbanks == rom[5]
    &&& header.flags6 == rom[6]
    &&& header.flags7 == rom[7]
    &&& header.prg_ram_nbanks == rom[8]
    &&& header.flags9 == rom[9]
    &&& header.flags10 == rom[10]
}

/// The four bytes that a cartridge image starts with: `NES` and 0x1a.
pub open spec fn ines_magic() -> Seq<u8> {
    seq![0x4eu8, 0x45u8, 0x53u8, 0x1au8]
}

impl INesHeader {
    /// The mirroring that the header asks for: bit 0 of `flags6` tells
    /// vertical from horizontal, bit 3 selects a single screen.
    pub open spec fn mirror_spec(self) -> MirrorType {
        let single = (self.flags6 / 8) % 2 == 1;
        let odd = self.flags6 % 2 == 1;
        if single {
            if odd {
                MirrorType::Single1
            } else {
                MirrorType::Single0
            }
        } else {
            if odd {
                MirrorType::Vertical
            } else {
                MirrorType::Horizontal
            }
        }
    }

    /// The number of the mapper: the high four bits from `flags7`, the low
    /// four from the high four of `flags6`.
    pub open spec fn mapper_id_spec(self) -> u8 {
        ((self.flags7 / 16) * 16 + self.flags6 / 16) as u8
    }

    /// Whether the header starts as a cartridge image must.
    pub open spec fn is_ines(self) -> bool {
        self.magic@ == ines_magic()
    }

    pub fn mirror(&self) -> (r: MirrorType)
        ensures
            r == self.mirror_spec(),
    {
        let flags6: u8 = self.flags6;
        let kind: u8 = ((flags6 >> 2) & 2) | (flags6 & 1);
        proof {
            assert(((flags6 >> 2) & 2) | (flags6 & 1) == ((flags6 / 8) % 2) * 2 + flags6 % 2)
                by (bit_vector);
        }
        match kind {
            0 => MirrorType::Horizontal,
            1 => MirrorType::Vertical,
            2 => MirrorType::Single0,
            3 => MirrorType::Single1,
            _ => MirrorType::Four,
        }
    }

    pub fn mapper_id(&self) -> (r: u8)
        ensures
            r == self.mapper_id_spec(),
    {
        let flags6: u8 = self.flags6;
        let flags7: u8 = self.flags7;
        proof {
            assert((flags7 & 0xf0) | (flags6 >> 4) == (flags7 / 16) * 16 + flags6 / 16)
                by (bit_vector);
        }
        (flags7 & 0xf0) | (flags6 >> 4)
    }
}

/// The mapper at hand for a mapper number.
pub open spec fn mapper_for(id: u8) -> Option<MapperKind> {
    if id == 0 || id == 2 {
        Some(MapperKind::Mapper2)
    } else if id == 1 {
        Some(MapperKind::Mapper1)
    } else if id == 4 {
        Some(MapperKind::Mapper4)
    } else {
        None
    }
}

/// What is to be set up for an image with this header: 16 KiB of program
/// memory per bank, 8 KiB of pattern memory per bank and 8 KiB where the
/// header names no bank, and 8 KiB of save memory.
pub open spec fn plan_for(header: INesHeader) -> Result<RomPlan, RomError> {
    if !header.is_ines() {
        Err(RomError::NotINes)
    } else {
        match mapper_for(header.mapper_id_spec()) {
            None => Err(RomError::UnsupportedMapper(header.mapper_id_spec())),
            Some(mapper) => Ok(
                RomPlan {
                    prg_len: (header.prg_rom_nbanks * 0x4000) as usize,
                    chr_len: if header.chr_rom_nbanks == 0 {
                        0x2000
                    } else {
                        (header.chr_rom_nbanks * 0x2000) as usize
                    },
                    sram_len: 0x2000,
                    mirror: header.mirror_spec(),
                    mapper_id: header.mapper_id_spec(),
                    mapper,
                },
            ),
        }
    }
}

/// Reads the header of a cartridge image, if the image is long enough to
/// hold one.
pub fn read_header(rom: &[u8]) -> (r: Option<INesHeader>)
    ensures
        match r {
            Some(header) => rom@.len() >= 16 && is_header_of(header, rom@),
            None => rom@.len() < 16,
        },
{
    if rom.len() < 16 {
        return None;
    }
    let magic: [u8; 4] = [rom[0], rom[1], rom[2], rom[3]];
    proof {
        assert(magic@ =~= rom@.subrange(0, 4));
    }
    Some(
        INesHeader {
            magic,
            prg_rom_nbanks: rom[4],
            chr_rom_nbanks: rom[5],
            flags6: rom[6],
            flags7: rom[7],
            prg_ram_nbanks: rom[8],
            flags9: rom[9],
            flags10: rom[10],
        },
    )
}

/// What is to be set up for an image with this header, or why it cannot be
/// run.
pub fn plan_rom(header: &INesHeader) -> (r: Result<RomPlan, RomError>)
    ensures
        r == plan_for(*header),
{
    let mirror: MirrorType = header.mirror();
    let mapper_id: u8 = header.mapper_id();
    if !(header.magic[0] == 0x4e && header.magic[1] == 0x45 && header.magic[2] == 0x53
        && header.magic[3] == 0x1a) {
        proof {
            if header.magic@ == ines_magic() {
                assert(ines_magic()[0] == 0x4e && ines_magic()[1] == 0x45 && ines_magic()[2]
                    == 0x53 && ines_magic()[3] == 0x1a);
            }
        }
        return Err(RomError::NotINes);
    }
    proof {
        assert(header.magic@ =~= ines_magic());
    }
    let prg_len: usize = header.prg_rom_nbanks as usize * 0x4000;
    let mut chr_len: usize = header.chr_rom_nbanks as usize * 0x2000;
    if chr_len == 0 {
        chr_len = 0x2000;
    }
    let mapper: MapperKind = match mapper_id {
        0 | 2 => MapperKind::Mapper2,
        1 => MapperKind::Mapper1,
        4 => MapperKind::Mapper4,
        _ => {
            return Err(RomError::UnsupportedMapper(mapper_id));
        },
    };
    Ok(RomPlan { prg_len, chr_len, sram_len: 0x2000, mirror, mapper_id, mapper })
}

/// What is to be set up to run a cartridge image, or why it cannot be run:
/// the plan for the header that the image starts with.
pub fn run_rom(rom: &[u8]) -> (r: Result<RomPlan, RomError>)
    ensures
        rom@.len() < 16 ==> r == Err::<RomPlan, RomError>(RomError::TooShort),
        rom@.len() >= 16 ==> exists|header: INesHeader|
            is_header_of(header, rom@) && r == plan_for(header),
{
    match read_header(rom) {
        None => Err(RomError::TooShort),
        Some(header) => {
            let r = plan_rom(&header);
            proof {
                assert(is_header_of(header, rom@) && r == plan_for(header));
            }
            r
        },
    }
}

/// A cartridge: its pattern memory, its program memory, its save memory and
/// how its screens mirror.
pub struct SimpleCart {
    chr_rom: Vec<u8>,
    prg_rom: Vec<u8>,
    sram: Vec<u8>,
    mirror_type: MirrorType,
}

impl SimpleCart {
    /// How the cartridge's screens mirror.
    pub closed spec fn mirror(&self) -> MirrorType {
        self.mirror_type
    }

    /// The contents of one of the cartridge's memories.
    pub closed spec fn bank(&self, kind: BankType) -> Seq<u8> {
        match kind {
            BankType::PrgRom => self.prg_rom@,
            BankType::ChrRom => self.chr_rom@,
            BankType::Sram => self.sram@,
        }
    }

    pub fn new(chr_rom: Vec<u8>, prg_rom: Vec<u8>, sram: Vec<u8>, mirror_type: MirrorType) -> (r:
        SimpleCart)
        ensures
            r.bank(BankType::ChrRom) == chr_rom@,
            r.bank(BankType::PrgRom) == prg_rom@,
            r.bank(BankType::Sram) == sram@,
            r.mirror() == mirror_type,
    {
        SimpleCart { chr_rom, prg_rom, sram, mirror_type }
    }

    /// The cartridge taken apart: pattern memory, program memory, save
    /// memory and mirroring.
    pub fn into_banks(self) -> (r: (Vec<u8>, Vec<u8>, Vec<u8>, MirrorType))
        ensures
            r.0@ == self.bank(BankType::ChrRom),
            r.1@ == self.bank(BankType::PrgRom),
            r.2@ == self.bank(BankType::Sram),
            r.3 == self.mirror(),
    {
        (self.chr_rom, self.prg_rom, self.sram, self.mirror_type)
    }

    /// The size in bytes of one of the memories.
    pub fn get_size(&self, kind: BankType) -> (r: usize)
        ensures
            r == self.bank(kind).len(),
    {
        match kind {
            BankType::PrgRom => self.prg_rom.len(),
            BankType::ChrRom => self.chr_rom.len(),
            BankType::Sram => self.sram.len(),
        }
    }

    /// The `size` bytes from `base` on of one of the memories.
    pub fn get_bank(&self, base: usize, size: usize, kind: BankType) -> (r: &[u8])
        requires
            base + size <= self.bank(kind).len(),
        ensures
            r@ == self.bank(kind).subrange(base as int, base + size),
    {
        let total: usize = self.get_size(kind);
        match kind {
            BankType::PrgRom => slice_subrange(self.prg_rom.as_slice(), base, base + size),
            BankType::ChrRom => slice_subrange(self.chr_rom.as_slice(), base, base + size),
            BankType::Sram => slice_subrange(self.sram.as_slice(), base, base + size),
        }
    }

    /// Writes `value` at `index` of one of the memories.
    pub fn set_byte(&mut self, index: usize, value: u8, kind: BankType)
        requires
            index < old(self).bank(kind).len(),
        ensures
            final(self).bank(kind) == old(self).bank(kind).update(index as int, value),
            forall|other: BankType| other != kind ==> final(self).bank(other) == old(self).bank(other),
            final(self).mirror() == old(self).mirror(),
    {
        match kind {
            BankType::PrgRom => self.prg_rom.set(index, value),
            BankType::ChrRom => self.chr_rom.set(index, value),
            BankType::Sram => self.sram.set(index, value),
        }
    }

    pub fn get_mirror_type(&self) -> (r: MirrorType)
        ensures
            r == self.mirror(),
    {
        self.mirror_type
    }

    pub fn set_mirror_type(&mut self, mt: MirrorType)
        ensures
            final(self).mirror() == mt,
            forall|kind: BankType| final(self).bank(kind) == old(self).bank(kind),
    {
        self.mirror_type = mt;
    }

    /// Whether a transfer that moved `moved` bytes has filled or emptied a
    /// memory of `len` bytes: it has if it moved all of them.
    pub fn transfer_complete(len: usize, moved: Option<usize>) -> (r: bool)
        ensures
            r == (moved == Some(len)),
    {
        match moved {
            Some(x) => x == len,
            None => false,
        }
    }
}

/// The bit of the controller's state byte for the button "up".
pub const UP: u8 = 16;

/// `runes::controller::stdctl::UP`: bit 4 of the controller's state byte.
#[verifier::external_body]
fn stdctl_up() -> (button: u8)
    ensures
        button == UP,
{
    runes::controller::stdctl::UP
}

/// The button of the console's controller that a key stands for. Every key
/// stands for "up".
pub fn keyboard_mapping(key: &str) -> (button: u8)
    ensures
        button == UP,
{
    stdctl_up()
}

} // verus!

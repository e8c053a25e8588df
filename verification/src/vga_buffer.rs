//! The VGA text buffer: 25 rows of 80 characters, each with a colour.

use vstd::prelude::*;
use vstd::string::StringSliceAdditionalSpecFns;

verus! {

/// The sixteen colours of VGA text mode.
#[derive(Clone, Copy, PartialEq, Eq, Structural, Debug)]
pub enum Color {
    Black,
    Blue,
    Green,
    Cyan,
    Red,
    Magenta,
    Brown,
    LightGray,
    DarkGray,
    LightBlue,
    LightGreen,
    LightCyan,
    LightRed,
    Pink,
    Yellow,
    White,
}

impl Color {
    /// The colour's number, 0 to 15.
    pub open spec fn code_spec(self) -> u8 {
        match self {
            Color::Black => 0,
            Color::Blue => 1,
            Color::Green => 2,
            Color::Cyan => 3,
            Color::Red => 4,
            Color::Magenta => 5,
            Color::Brown => 6,
            Color::LightGray => 7,
            Color::DarkGray => 8,
            Color::LightBlue => 9,
            Color::LightGreen => 10,
            Color::LightCyan => 11,
            Color::LightRed => 12,
            Color::Pink => 13,
            Color::Yellow => 14,
            Color::White => 15,
        }
    }

    #[verifier::when_used_as_spec(code_spec)]
    pub fn code(self) -> (r: u8)
        ensures
            r == self.code_spec(),
            r < 16,
    {
        match self {
            Color::Black => 0,
            Color::Blue => 1,
            Color::Green => 2,
            Color::Cyan => 3,
            Color::Red => 4,
            Color::Magenta => 5,
            Color::Brown => 6,
            Color::LightGray => 7,
            Color::DarkGray => 8,
            Color::LightBlue => 9,
            Color::LightGreen => 10,
            Color::LightCyan => 11,
            Color::LightRed => 12,
            Color::Pink => 13,
            Color::Yellow => 14,
            Color::White => 15,
        }
    }
}

/// A foreground and a background colour in one byte: the background in the
/// high four bits, the foreground in the low four.
#[derive(Clone, Copy, PartialEq, Eq, Structural, Debug)]
pub struct ColorCode(pub u8);

impl ColorCode {
    pub fn new(foreground: Color, background: Color) -> (r: ColorCode)
        ensures
            r.0 == background.code() * 16 + foreground.code(),
    {
        ColorCode(background.code() * 16 + foreground.code())
    }

    /// Red on magenta.
    pub fn default() -> (r: ColorCode)
        ensures
            r.0 == 0x54,
    {
        ColorCode::new(Color::Red, Color::Magenta)
    }
}

/// One cell of the screen.
#[derive(Clone, Copy, PartialEq, Eq, Structural, Debug)]
pub struct ScreenChar {
    pub ascii_character: u8,
    pub color_code: ColorCode,
}

impl ScreenChar {
    /// A space, yellow on black.
    pub fn blank() -> (r: ScreenChar)
        ensures
            r == (ScreenChar { ascii_character: 0x20, color_code: ColorCode(0x0e) }),
    {
        ScreenChar { ascii_character: 0x20, color_code: ColorCode::new(Color::Yellow, Color::Black) }
    }

    /// The character `byte`, yellow on black.
    pub fn basic(byte: u8) -> (r: ScreenChar)
        ensures
            r == (ScreenChar { ascii_character: byte, color_code: ColorCode(0x0e) }),
    {
        ScreenChar { ascii_character: byte, color_code: ColorCode::new(Color::Yellow, Color::Black) }
    }
}

/// The number of rows of the screen.
pub const BUFFER_HEIGHT: usize = 25;

/// The number of characters in a row.
pub const BUFFER_WIDTH: usize = 80;

/// The byte that is shown in place of one that cannot be printed.
pub const UNPRINTABLE: u8 = 0xfe;

/// What is on the screen, where the next character goes and how it will
/// look: the cells row by row, top row first, the column in the bottom row,
/// and the colour in which the writer writes.
pub struct Screen {
    pub cells: Seq<ScreenChar>,
    pub column: int,
    pub color: ColorCode,
}

/// The cell that a row and a column name.
pub open spec fn cell_index(row: int, col: int) -> int {
    row * 80 + col
}

/// The screen after a new line: every row moves up by one, the top row is
/// lost, the characters that move take the writer's colour, and the bottom
/// row is blank.
pub open spec fn new_line_spec(screen: Screen) -> Screen {
    Screen {
        cells: Seq::new(
            2000,
            |i: int|
                if i < 1920 {
                    ScreenChar {
                        ascii_character: screen.cells[i + 80].ascii_character,
                        color_code: screen.color,
                    }
                } else {
                    ScreenChar { ascii_character: 0x20, color_code: ColorCode(0x0e) }
                },
        ),
        column: 0,
        color: screen.color,
    }
}

/// The screen after a byte other than a new line is written: it goes to the
/// bottom row at the column, after a new line if the row is full, and the
/// column moves on by one.
pub open spec fn put_spec(screen: Screen, byte: u8) -> Screen {
    let at = if screen.column >= 80 {
        new_line_spec(screen)
    } else {
        screen
    };
    Screen {
        cells: at.cells.update(
            cell_index(24, at.column),
            ScreenChar { ascii_character: byte, color_code: screen.color },
        ),
        column: at.column + 1,
        color: screen.color,
    }
}

/// The screen after one byte is written.
pub open spec fn write_byte_spec(screen: Screen, byte: u8) -> Screen {
    if byte == 0x0a {
        new_line_spec(screen)
    } else {
        put_spec(screen, byte)
    }
}

/// The byte that is written for a byte of a string: the byte itself if it is
/// a printable ASCII character or a new line, the placeholder otherwise.
pub open spec fn shown(byte: u8) -> u8 {
    if (0x20 <= byte <= 0x7e) || byte == 0x0a {
        byte
    } else {
        0xfe
    }
}

/// The screen after the bytes of a string are written, one after the other.
pub open spec fn write_bytes_spec(screen: Screen, bytes: Seq<u8>) -> Screen
    decreases bytes.len(),
{
    if bytes.len() == 0 {
        screen
    } else {
        write_byte_spec(write_bytes_spec(screen, bytes.drop_last()), shown(bytes.last()))
    }
}

/// Writes text to the screen, at the bottom row; full rows scroll up.
pub struct Writer {
    column_position: usize,
    color_code: ColorCode,
    buffer: Vec<ScreenChar>,
}

impl Writer {
    /// What is on the screen, where the next character goes and in which
    /// colour.
    pub closed spec fn view(&self) -> Screen {
        Screen {
            cells: self.buffer@,
            column: self.column_position as int,
            color: self.color_code,
        }
    }

    /// The colour in which the writer writes.
    pub open spec fn color(&self) -> ColorCode {
        self@.color
    }

    pub open spec fn wf(&self) -> bool {
        self@.cells.len() == 2000 && 0 <= self@.column <= 80
    }

    /// A writer at the start of the bottom row of a blank screen.
    pub fn new(color_code: ColorCode) -> (w: Writer)
        ensures
            w.wf(),
            w.color() == color_code,
            w@.column == 0,
            forall|i: int|
                0 <= i < 2000 ==> w@.cells[i] == (ScreenChar {
                    ascii_character: 0x20,
                    color_code: ColorCode(0x0e),
                }),
    {
        let mut buffer: Vec<ScreenChar> = Vec::new();
        let mut i: usize = 0;
        while i < BUFFER_HEIGHT * BUFFER_WIDTH
            invariant
                i <= 2000,
                buffer@.len() == i,
                forall|j: int|
                    0 <= j < i ==> buffer@[j] == (ScreenChar {
                        ascii_character: 0x20,
                        color_code: ColorCode(0x0e),
                    }),
            decreases 2000 - i,
        {
            buffer.push(ScreenChar::blank());
            i += 1;
        }
        Writer { column_position: 0, color_code, buffer }
    }

    /// The cell at `row` and `col`.
    pub fn read(&self, row: usize, col: usize) -> (c: ScreenChar)
        requires
            self.wf(),
            row < 25,
            col < 80,
        ensures
            c == self@.cells[cell_index(row as int, col as int)],
    {
        self.buffer[row * BUFFER_WIDTH + col]
    }

    /// The cells of the screen, row by row.
    pub fn cells(&self) -> (r: &Vec<ScreenChar>)
        ensures
            r@ == self@.cells,
    {
        &self.buffer
    }

    /// The column at which the next character goes.
    pub fn column_position(&self) -> (r: usize)
        ensures
            r == self@.column,
    {
        self.column_position
    }

    /// Writes the bytes of `s`: printable ASCII characters and new lines as
    /// they are, the placeholder for every other byte.
    pub fn write_string(&mut self, s: &str)
        requires
            old(self).wf(),
        ensures
            final(self).wf(),
            final(self).color() == old(self).color(),
            final(self)@ == write_bytes_spec(old(self)@, s.spec_bytes()),
    {
        let bytes: &[u8] = s.as_bytes();
        let ghost all = s.spec_bytes();
        let mut i: usize = 0;
        while i < bytes.len()
            invariant
                bytes@ == all,
                i <= all.len(),
                self.wf(),
                self.color() == old(self).color(),
                self@ == write_bytes_spec(old(self)@, all.take(i as int)),
            decreases all.len() - i,
        {
            let byte: u8 = bytes[i];
            proof {
                assert(all.take(i + 1).drop_last() =~= all.take(i as int));
                assert(all.take(i + 1).last() == byte);
            }
            if (0x20 <= byte && byte <= 0x7e) || byte == 0x0a {
                self.write_byte(byte);
            } else {
                self.write_byte(UNPRINTABLE);
            }
            i += 1;
        }
        proof {
            assert(all.take(i as int) =~= all);
        }
    }

    /// Writes one byte: a new line starts a new line, every other byte goes
    /// to the bottom row.
    pub fn write_byte(&mut self, byte: u8)
        requires
            old(self).wf(),
        ensures
            final(self).wf(),
            final(self).color() == old(self).color(),
            final(self)@ == write_byte_spec(old(self)@, byte),
    {
        if byte == 0x0a {
            self.new_line();
        } else {
            if self.column_position >= BUFFER_WIDTH {
                self.new_line();
            }
            let row: usize = BUFFER_HEIGHT - 1;
            let col: usize = self.column_position;
            self.position_write(byte, row, col);
            self.column_position = self.column_position + 1;
        }
    }

    /// Puts `byte` in the writer's colour at `row` and `col`.
    fn position_write(&mut self, byte: u8, row: usize, col: usize)
        requires
            old(self).wf(),
            row < 25,
            col < 80,
        ensures
            final(self).wf(),
            final(self).color() == old(self).color(),
            final(self)@.column == old(self)@.column,
            final(self)@.cells == old(self)@.cells.update(
                cell_index(row as int, col as int),
                ScreenChar { ascii_character: byte, color_code: old(self).color() },
            ),
    {
        let color_code: ColorCode = self.color_code;
        self.buffer.set(
            row * BUFFER_WIDTH + col,
            ScreenChar { ascii_character: byte, color_code },
        );
    }

    /// Fills every cell of the screen with `ch` in the writer's colour.
    pub fn fill_screen_w_char(&mut self, ch: u8)
        requires
            old(self).wf(),
        ensures
            final(self).wf(),
            final(self).color() == old(self).color(),
            final(self)@.column == old(self)@.column,
            forall|i: int|
                0 <= i < 2000 ==> final(self)@.cells[i] == (ScreenChar {
                    ascii_character: ch,
                    color_code: old(self).color(),
                }),
    {
        let mut row: usize = 0;
        while row < BUFFER_HEIGHT
            invariant
                row <= 25,
                self.wf(),
                self.color() == old(self).color(),
                self@.column == old(self)@.column,
                forall|i: int|
                    0 <= i < row * 80 ==> self@.cells[i] == (ScreenChar {
                        ascii_character: ch,
                        color_code: old(self).color(),
                    }),
            decreases 25 - row,
        {
            let mut col: usize = 0;
            while col < BUFFER_WIDTH
                invariant
                    row < 25,
                    col <= 80,
                    self.wf(),
                    self.color() == old(self).color(),
                    self@.column == old(self)@.column,
                    forall|i: int|
                        0 <= i < row * 80 + col ==> self@.cells[i] == (ScreenChar {
                            ascii_character: ch,
                            color_code: old(self).color(),
                        }),
                decreases 80 - col,
            {
                self.position_write(ch, row, col);
                col += 1;
            }
            row += 1;
        }
    }

    /// Starts a new line: the rows move up by one and the bottom row is
    /// cleared.
    fn new_line(&mut self)
        requires
            old(self).wf(),
        ensures
            final(self).wf(),
            final(self).color() == old(self).color(),
            final(self)@ == new_line_spec(old(self)@),
    {
        let ghost before = self@.cells;
        let mut row: usize = 1;
        while row < BUFFER_HEIGHT
            invariant
                1 <= row <= 25,
                self.wf(),
                before.len() == 2000,
                self.color() == old(self).color(),
                forall|i: int|
                    0 <= i < (row - 1) * 80 ==> self@.cells[i] == (ScreenChar {
                        ascii_character: before[i + 80].ascii_character,
                        color_code: old(self).color(),
                    }),
                forall|i: int| (row - 1) * 80 <= i < 2000 ==> self@.cells[i] == before[i],
            decreases 25 - row,
        {
            let mut col: usize = 0;
            while col < BUFFER_WIDTH
                invariant
                    1 <= row < 25,
                    col <= 80,
                    self.wf(),
                    before.len() == 2000,
                    self.color() == old(self).color(),
                    forall|i: int|
                        0 <= i < (row - 1) * 80 + col ==> self@.cells[i] == (ScreenChar {
                            ascii_character: before[i + 80].ascii_character,
                            color_code: old(self).color(),
                        }),
                    forall|i: int|
                        (row - 1) * 80 + col <= i < 2000 ==> self@.cells[i] == before[i],
                decreases 80 - col,
            {
                let character: ScreenChar = self.read(row, col);
                self.position_write(character.ascii_character, row - 1, col);
                col += 1;
            }
            row += 1;
        }
        self.clear_row(BUFFER_HEIGHT - 1);
        self.column_position = 0;
        proof {
            assert(self@.cells =~= new_line_spec(old(self)@).cells);
        }
    }

    /// Blanks the cells of `row`.
    fn clear_row(&mut self, row: usize)
        requires
            old(self).wf(),
            row < 25,
        ensures
            final(self).wf(),
            final(self).color() == old(self).color(),
            final(self)@.column == old(self)@.column,
            forall|i: int|
                0 <= i < 2000 ==> final(self)@.cells[i] == (if row * 80 <= i < row * 80 + 80 {
                    ScreenChar { ascii_character: 0x20, color_code: ColorCode(0x0e) }
                } else {
                    old(self)@.cells[i]
                }),
    {
        let mut col: usize = 0;
        while col < BUFFER_WIDTH
            invariant
                row < 25,
                col <= 80,
                self.wf(),
                self.color() == old(self).color(),
                self@.column == old(self)@.column,
                forall|i: int|
                    0 <= i < 2000 ==> self@.cells[i] == (if row * 80 <= i < row * 80 + col {
                        ScreenChar { ascii_character: 0x20, color_code: ColorCode(0x0e) }
                    } else {
                        old(self)@.cells[i]
                    }),
            decreases 80 - col,
        {
            self.buffer.set(row * BUFFER_WIDTH + col, ScreenChar::blank());
            col += 1;
        }
    }
}

} // verus!

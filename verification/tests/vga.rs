use nesos::vga_buffer::{Color, ColorCode, ScreenChar, Writer, BUFFER_HEIGHT, BUFFER_WIDTH};
use nesos::vga_draw::{draw_line, set_pixel, Frame};

fn row_text(writer: &Writer, row: usize) -> String {
    (0..BUFFER_WIDTH).map(|col| writer.read(row, col).ascii_character as char).collect()
}

#[test]
fn colour_codes_pack_background_and_foreground() {
    assert_eq!(ColorCode::new(Color::Yellow, Color::Black), ColorCode(0x0e));
    assert_eq!(ColorCode::new(Color::Red, Color::Magenta), ColorCode(0x54));
    assert_eq!(ColorCode::default(), ColorCode(0x54));
    assert_eq!(ColorCode::new(Color::White, Color::White), ColorCode(0xff));
    assert_eq!(Color::LightGray.code(), 7);
    assert_eq!(
        ScreenChar::blank(),
        ScreenChar { ascii_character: b' ', color_code: ColorCode(0x0e) }
    );
    assert_eq!(
        ScreenChar::basic(b'x'),
        ScreenChar { ascii_character: b'x', color_code: ColorCode(0x0e) }
    );
}

#[test]
fn test_println_output() {
    let mut writer = Writer::new(ColorCode::default());
    let s = "hello mario";
    writer.write_string(s);
    writer.write_string("\n");
    for (i, c) in s.chars().enumerate() {
        let screen_char = writer.read(BUFFER_HEIGHT - 2, i);
        assert_eq!(char::from(screen_char.ascii_character), c);
        assert_eq!(screen_char.color_code, ColorCode(0x54));
    }
    assert_eq!(writer.column_position(), 0);
    assert_eq!(writer.read(BUFFER_HEIGHT - 1, 0), ScreenChar::blank());
}

#[test]
fn test_println_many() {
    let mut writer = Writer::new(ColorCode::default());
    for _ in 0..200 {
        writer.write_string("ttesttesttesttesttesttesttesttesttesttesttesttesttesttesttesttesttesttesttesttesttesttesttesttesttesttesttesttesttesttesttesttestest\n");
    }
    assert_eq!(writer.cells().len(), 2000);
    assert_eq!(writer.column_position(), 0);
}

#[test]
fn long_lines_wrap_at_80_columns() {
    let mut writer = Writer::new(ColorCode(0x0f));
    let line: String = (0..85).map(|i| (b'a' + (i % 26) as u8) as char).collect();
    writer.write_string(&line);
    assert_eq!(writer.column_position(), 5);
    assert_eq!(row_text(&writer, 23), line[..80]);
    assert_eq!(&row_text(&writer, 24)[..5], &line[80..]);
    assert_eq!(writer.read(24, 5), ScreenChar::blank());
}

#[test]
fn unprintable_bytes_become_the_placeholder() {
    let mut writer = Writer::new(ColorCode(0x0f));
    writer.write_string("a\tö~");
    assert_eq!(writer.read(24, 0).ascii_character, b'a');
    assert_eq!(writer.read(24, 1).ascii_character, 0xfe);
    // The two bytes of the umlaut.
    assert_eq!(writer.read(24, 2).ascii_character, 0xfe);
    assert_eq!(writer.read(24, 3).ascii_character, 0xfe);
    assert_eq!(writer.read(24, 4).ascii_character, b'~');
    assert_eq!(writer.column_position(), 5);
}

#[test]
fn scrolled_rows_take_the_writers_colour() {
    let mut writer = Writer::new(ColorCode(0x0f));
    writer.write_byte(b'x');
    writer.write_byte(b'\n');
    writer.write_byte(b'\n');
    assert_eq!(writer.read(22, 0), ScreenChar { ascii_character: b'x', color_code: ColorCode(0x0f) });
    // Blank cells that moved up have the writer's colour as well.
    assert_eq!(writer.read(22, 1), ScreenChar { ascii_character: b' ', color_code: ColorCode(0x0f) });
    assert_eq!(writer.read(24, 1), ScreenChar::blank());
}

#[test]
fn fill_screen_writes_every_cell() {
    let mut writer = Writer::new(ColorCode(0x1e));
    writer.write_string("ab");
    writer.fill_screen_w_char(b'#');
    for cell in writer.cells() {
        assert_eq!(*cell, ScreenChar { ascii_character: b'#', color_code: ColorCode(0x1e) });
    }
    assert_eq!(writer.column_position(), 2);
}

#[test]
fn pixels_off_the_screen_are_dropped() {
    let mut frame = Frame::new();
    set_pixel(&mut frame, 0, 0, 1);
    set_pixel(&mut frame, 319, 199, 2);
    set_pixel(&mut frame, 5, 7, 3);
    set_pixel(&mut frame, 320, 0, 9);
    set_pixel(&mut frame, 0, 200, 9);
    set_pixel(&mut frame, -1, 5, 9);
    set_pixel(&mut frame, 5, -1, 9);
    let pixels = frame.pixels();
    assert_eq!(pixels.len(), 64000);
    assert_eq!(pixels[0], 1);
    assert_eq!(pixels[63999], 2);
    assert_eq!(pixels[7 * 320 + 5], 3);
    assert_eq!(pixels.iter().filter(|p| **p != 0).count(), 3);
}

fn lit(frame: &Frame) -> Vec<(usize, usize)> {
    let pixels = frame.pixels();
    let mut points = Vec::new();
    for y in 0..200 {
        for x in 0..320 {
            if pixels[y * 320 + x] != 0 {
                points.push((x, y));
            }
        }
    }
    points
}

#[test]
fn lines_step_along_their_longer_extent() {
    let mut frame = Frame::new();
    draw_line(&mut frame, 0, 0, 4, 3, 7);
    assert_eq!(lit(&frame), vec![(0, 0), (1, 1), (2, 1), (3, 2), (4, 3)]);
    let mut frame = Frame::new();
    draw_line(&mut frame, 0, 0, 1, 3, 7);
    assert_eq!(lit(&frame), vec![(0, 0), (0, 1), (1, 2), (1, 3)]);
    // The same line from its other end.
    let mut frame = Frame::new();
    draw_line(&mut frame, 1, 3, 0, 0, 7);
    assert_eq!(lit(&frame), vec![(0, 0), (0, 1), (1, 2), (1, 3)]);
    let mut frame = Frame::new();
    draw_line(&mut frame, 10, 10, 10, 10, 7);
    assert_eq!(lit(&frame), vec![(10, 10)]);
    let mut frame = Frame::new();
    draw_line(&mut frame, 3, 5, 0, 5, 7);
    assert_eq!(lit(&frame), vec![(0, 5), (1, 5), (2, 5), (3, 5)]);
    let mut frame = Frame::new();
    draw_line(&mut frame, 2, 2, 0, 0, 7);
    assert_eq!(lit(&frame), vec![(0, 0), (1, 1), (2, 2)]);
}

#[test]
fn lines_are_clipped_to_the_screen() {
    let mut frame = Frame::new();
    draw_line(&mut frame, -2, 197, 2, 201, 5);
    assert_eq!(lit(&frame), vec![(0, 199)]);
    let mut frame = Frame::new();
    draw_line(&mut frame, 50, 7, 30, 200, 4);
    let points = lit(&frame);
    // One point per row from row 7 to the last row of the screen.
    assert_eq!(points.len(), 193);
    assert_eq!(points[0], (50, 7));
    assert_eq!(frame.pixels()[7 * 320 + 50], 4);
    let mut frame = Frame::new();
    draw_line(&mut frame, -0x0fff_ffff, 0, -0x0fff_fff0, 0, 5);
    assert!(lit(&frame).is_empty());
}

#[test]
fn lines_far_from_the_screen_draw_nothing() {
    let mut frame = Frame::new();
    draw_line(&mut frame, isize::MAX - 3, isize::MAX - 1, isize::MAX, isize::MAX, 9);
    draw_line(&mut frame, isize::MIN, isize::MIN + 4, isize::MIN + 2, isize::MIN, 9);
    draw_line(&mut frame, isize::MAX, 3, isize::MAX - 5, 3, 9);
    draw_line(&mut frame, 2, isize::MIN + 6, 2, isize::MIN, 9);
    assert_eq!(lit(&frame), vec![]);
    // A line that enters the screen from far to its left.
    draw_line(&mut frame, -1000, 3, 2, 3, 9);
    assert_eq!(lit(&frame), vec![(0, 3), (1, 3), (2, 3)]);
}

#[test]
fn test_println_simple() {
    let mut writer = Writer::new(ColorCode::default());
    let line = "ttesttesttesttesttesttesttesttesttesttesttesttesttesttesttesttesttesttesttesttesttesttesttesttesttesttesttesttesttesttesttesttestest";
    writer.write_string(line);
    writer.write_string("\n");
    // 133 characters: a full row, and 53 in the row below it.
    assert_eq!(row_text(&writer, 22), line[..80]);
    assert_eq!(row_text(&writer, 23).trim_end(), &line[80..]);
    assert_eq!(row_text(&writer, 24).trim_end(), "");
}

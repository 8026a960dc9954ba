use x86_kernel::vga_buffer::{Colour, ColourCode, ScreenWriter, BUFFER_HEIGHT, BUFFER_WIDTH};
use x86_kernel::QemuExitCode;

#[test]
fn test_colour_codes() {
    assert_eq!(ColourCode::new(Colour::Yellow, Colour::Black).0, 14);
    assert_eq!(ColourCode::new(Colour::White, Colour::Blue).0, 0x1f);
    assert_eq!(ColourCode::new(Colour::Black, Colour::White).0, 0xf0);
    assert_eq!(ColourCode::new(Colour::LightCyan, Colour::DarkGrey).0, 0x8b);
}

#[test]
fn test_new_writer_is_blank() {
    let w = ScreenWriter::new(ColourCode::new(Colour::Yellow, Colour::Black));
    assert_eq!(w.column_position, 0);
    assert_eq!(w.buffer.len(), BUFFER_HEIGHT);
    for row in &w.buffer {
        assert_eq!(row.len(), BUFFER_WIDTH);
        for cell in row {
            assert_eq!(cell.ascii_char, b' ');
            assert_eq!(cell.colour_code.0, 14);
        }
    }
}

#[test]
fn test_sending_chars() {
    // Characters sent to the writer must really appear in the grid.
    let s = "Some string to be sent";
    let mut w = ScreenWriter::new(ColourCode::new(Colour::Yellow, Colour::Black));
    w.write_string(s);
    for (i, c) in s.chars().enumerate() {
        assert_eq!(char::from(w.buffer[BUFFER_HEIGHT - 1][i].ascii_char), c);
    }
    assert_eq!(w.column_position, s.len());
}

#[test]
fn test_newline_scrolls() {
    let mut w = ScreenWriter::new(ColourCode::new(Colour::Yellow, Colour::Black));
    w.write_string("first\nsecond");
    // "first" scrolled up one row; "second" sits in the bottom row.
    assert_eq!(w.buffer[BUFFER_HEIGHT - 2][0].ascii_char, b'f');
    assert_eq!(w.buffer[BUFFER_HEIGHT - 2][4].ascii_char, b't');
    assert_eq!(w.buffer[BUFFER_HEIGHT - 1][0].ascii_char, b's');
    assert_eq!(w.column_position, 6);
}

#[test]
fn test_long_line_wraps() {
    let mut w = ScreenWriter::new(ColourCode::new(Colour::Yellow, Colour::Black));
    // Thirty bytes into a 25-column grid: the line wraps after 25.
    let s = "abcdefghijklmnopqrstuvwxyz0123";
    w.write_string(s);
    for i in 0..BUFFER_WIDTH {
        assert_eq!(w.buffer[BUFFER_HEIGHT - 2][i].ascii_char, s.as_bytes()[i]);
    }
    for i in 0..5 {
        assert_eq!(
            w.buffer[BUFFER_HEIGHT - 1][i].ascii_char,
            s.as_bytes()[BUFFER_WIDTH + i]
        );
    }
    assert_eq!(w.column_position, 5);
}

#[test]
fn test_unprintable_becomes_replacement_glyph() {
    let mut w = ScreenWriter::new(ColourCode::new(Colour::Yellow, Colour::Black));
    // Writing goes byte by byte: the three bytes of the smiley each leave
    // one replacement glyph, as does the control byte.
    w.write_string("a\u{263a}b\u{7}");
    assert_eq!(w.buffer[BUFFER_HEIGHT - 1][0].ascii_char, b'a');
    assert_eq!(w.buffer[BUFFER_HEIGHT - 1][1].ascii_char, 0xfe);
    assert_eq!(w.buffer[BUFFER_HEIGHT - 1][2].ascii_char, 0xfe);
    assert_eq!(w.buffer[BUFFER_HEIGHT - 1][3].ascii_char, 0xfe);
    assert_eq!(w.buffer[BUFFER_HEIGHT - 1][4].ascii_char, b'b');
    assert_eq!(w.buffer[BUFFER_HEIGHT - 1][5].ascii_char, 0xfe);
    assert_eq!(w.column_position, 6);
}

#[test]
fn test_heavy_printing_keeps_last_lines() {
    let mut w = ScreenWriter::new(ColourCode::new(Colour::Yellow, Colour::Black));
    for i in 0..100 {
        let line = format!("line {}\n", i);
        w.write_string(&line);
    }
    // The last written line ended with a scroll, so row 78 holds it.
    assert_eq!(w.buffer[BUFFER_HEIGHT - 2][0].ascii_char, b'l');
    assert_eq!(w.buffer[BUFFER_HEIGHT - 2][5].ascii_char, b'9');
    assert_eq!(w.buffer[BUFFER_HEIGHT - 2][6].ascii_char, b'9');
    // The bottom row is blank again.
    assert_eq!(w.buffer[BUFFER_HEIGHT - 1][0].ascii_char, b' ');
    assert_eq!(w.column_position, 0);
}

#[test]
fn test_qemu_exit_codes() {
    assert_eq!(QemuExitCode::Success.as_u32(), 0x10);
    assert_eq!(QemuExitCode::Failure.as_u32(), 0x11);
}

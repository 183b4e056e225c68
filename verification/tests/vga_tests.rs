use mold_console::vga_buffer::Color;
use mold_console::vga_buffer::ColorCode;
use mold_console::vga_buffer::Writer;
use mold_console::vga_buffer::_clrscr;
use mold_console::vga_buffer::_reset_color;
use mold_console::vga_buffer::_setcolor;
use mold_console::vga_buffer::BUFFER_HEIGHT;
use mold_console::vga_buffer::BUFFER_WIDTH;

#[test]
fn color_code_packs_nibbles() {
    assert_eq!(ColorCode::new(Color::White, Color::Black).0, 15);
    assert_eq!(ColorCode::new(Color::Cyan, Color::Black).0, 3);
    assert_eq!(ColorCode::new(Color::White, Color::Blue).0, 16 + 15);
    assert_eq!(ColorCode::new(Color::Yellow, Color::Red).0, 4 * 16 + 14);
}

#[test]
fn new_writer_is_blank() {
    let w = Writer::new();
    assert_eq!(w.column(), 0);
    for row in 0..BUFFER_HEIGHT {
        for col in 0..BUFFER_WIDTH {
            let cell = w.read_at(row, col);
            assert_eq!(cell.ascii_character, b' ');
            assert_eq!(cell.color_code.0, 15);
        }
    }
}

#[test]
fn write_byte_places_at_cursor_on_last_row() {
    let mut w = Writer::new();
    w.write_byte(b'A');
    w.write_byte(b'B');
    assert_eq!(w.read_at(24, 0).ascii_character, b'A');
    assert_eq!(w.read_at(24, 1).ascii_character, b'B');
    assert_eq!(w.column(), 2);
}

#[test]
fn newline_scrolls_content_up() {
    let mut w = Writer::new();
    w.write_string(b"hi");
    w.write_byte(b'\n');
    assert_eq!(w.read_at(23, 0).ascii_character, b'h');
    assert_eq!(w.read_at(23, 1).ascii_character, b'i');
    assert_eq!(w.read_at(24, 0).ascii_character, b' ');
    assert_eq!(w.column(), 0);
}

#[test]
fn backspace_blanks_previous_cell() {
    let mut w = Writer::new();
    w.write_string(b"ab");
    w.write_byte(0x08);
    assert_eq!(w.column(), 1);
    assert_eq!(w.read_at(24, 1).ascii_character, b' ');
    assert_eq!(w.read_at(24, 0).ascii_character, b'a');
}

#[test]
fn backspace_at_column_zero_does_nothing() {
    let mut w = Writer::new();
    w.write_byte(0x08);
    assert_eq!(w.column(), 0);
    for col in 0..BUFFER_WIDTH {
        assert_eq!(w.read_at(24, col).ascii_character, b' ');
    }
}

#[test]
fn printable_run_wraps_at_width() {
    // eighty-five printable bytes with no newline: the first row fills,
    // scrolls up, and the tail continues from column zero
    let mut w = Writer::new();
    let mut bytes = Vec::new();
    for i in 0..85u32 {
        bytes.push(b'0' + (i % 10) as u8);
    }
    w.write_string(&bytes);
    for i in 0..80usize {
        assert_eq!(w.read_at(23, i).ascii_character, b'0' + (i % 10) as u8);
    }
    for i in 80..85usize {
        assert_eq!(w.read_at(24, i - 80).ascii_character, b'0' + (i % 10) as u8);
    }
    assert_eq!(w.column(), 5);
}

#[test]
fn unprintable_bytes_become_placeholder() {
    let mut w = Writer::new();
    w.write_string(&[0x01, 0xff, b'z']);
    assert_eq!(w.read_at(24, 0).ascii_character, b'@');
    assert_eq!(w.read_at(24, 1).ascii_character, b'@');
    assert_eq!(w.read_at(24, 2).ascii_character, b'z');
}

#[test]
fn height_newlines_blank_the_screen() {
    let mut w = Writer::new();
    w.write_string(b"some text");
    w.write_byte(b'\n');
    w.write_string(b"more text");
    for _ in 0..BUFFER_HEIGHT {
        w.write_byte(b'\n');
    }
    assert_eq!(w.column(), 0);
    for row in 0..BUFFER_HEIGHT {
        for col in 0..BUFFER_WIDTH {
            assert_eq!(w.read_at(row, col).ascii_character, b' ');
        }
    }
    // scrolling a blank screen keeps it blank
    w.write_byte(b'\n');
    for row in 0..BUFFER_HEIGHT {
        for col in 0..BUFFER_WIDTH {
            assert_eq!(w.read_at(row, col).ascii_character, b' ');
        }
    }
}

#[test]
fn write_at_is_bounds_checked() {
    let mut w = Writer::new();
    w.write_at(3, 7, b'X');
    assert_eq!(w.read_at(3, 7).ascii_character, b'X');
    // out-of-range coordinates are silently ignored
    w.write_at(25, 0, b'Y');
    w.write_at(0, 80, b'Y');
    w.write_at(9999, 9999, b'Y');
    for row in 0..BUFFER_HEIGHT {
        for col in 0..BUFFER_WIDTH {
            if !(row == 3 && col == 7) {
                assert_eq!(w.read_at(row, col).ascii_character, b' ');
            }
        }
    }
}

#[test]
fn write_string_at_round_trips() {
    let mut w = Writer::new();
    let text = b"hello";
    w.write_string_at(5, 10, text);
    for (i, &b) in text.iter().enumerate() {
        assert_eq!(w.read_at(5, 10 + i).ascii_character, b);
    }
    assert_eq!(w.column(), 0);
}

#[test]
fn write_string_at_truncates_at_row_boundary() {
    let mut w = Writer::new();
    w.write_string_at(2, 78, b"wxyz");
    assert_eq!(w.read_at(2, 78).ascii_character, b'w');
    assert_eq!(w.read_at(2, 79).ascii_character, b'x');
    // nothing wraps to the next row
    for col in 0..BUFFER_WIDTH {
        assert_eq!(w.read_at(3, col).ascii_character, b' ');
    }
}

#[test]
fn writer_lines_and_box() {
    let mut w = Writer::new();
    w.draw_horizontal_line(4, 2, 6);
    for col in 2..6 {
        assert_eq!(w.read_at(4, col).ascii_character, b'-');
    }
    assert_eq!(w.read_at(4, 6).ascii_character, b' ');
    w.draw_vertical_line(9, 1, 4);
    for row in 1..4 {
        assert_eq!(w.read_at(row, 9).ascii_character, b'|');
    }
    let mut w2 = Writer::new();
    w2.draw_box(0, 0, 5, 10);
    assert_eq!(w2.read_at(0, 0).ascii_character, b'+');
    assert_eq!(w2.read_at(0, 10).ascii_character, b'+');
    assert_eq!(w2.read_at(5, 0).ascii_character, b'+');
    assert_eq!(w2.read_at(5, 10).ascii_character, b'+');
    assert_eq!(w2.read_at(0, 5).ascii_character, b'-');
    assert_eq!(w2.read_at(5, 5).ascii_character, b'-');
    assert_eq!(w2.read_at(3, 0).ascii_character, b'|');
    assert_eq!(w2.read_at(3, 10).ascii_character, b'|');
    assert_eq!(w2.read_at(3, 5).ascii_character, b' ');
}

#[test]
fn color_changes_apply_to_later_writes() {
    let mut w = Writer::new();
    _setcolor(&mut w, Color::Cyan, Color::Black);
    w.write_byte(b'c');
    assert_eq!(w.read_at(24, 0).color_code.0, 3);
    _reset_color(&mut w);
    w.write_byte(b'w');
    assert_eq!(w.read_at(24, 1).color_code.0, 15);
    assert_eq!(w.color().0, 15);
}

#[test]
fn clrscr_blanks_everything() {
    let mut w = Writer::new();
    w.write_string(b"text");
    _clrscr(&mut w);
    assert_eq!(w.column(), 0);
    for row in 0..BUFFER_HEIGHT {
        for col in 0..BUFFER_WIDTH {
            assert_eq!(w.read_at(row, col).ascii_character, b' ');
        }
    }
}

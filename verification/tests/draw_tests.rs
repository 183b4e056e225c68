use mold_console::draw::Draw;
use mold_console::vga_buffer::Color;
use mold_console::vga_buffer::Writer;
use mold_console::vga_buffer::BUFFER_HEIGHT;
use mold_console::vga_buffer::BUFFER_WIDTH;

#[test]
fn plot_writes_one_cell_in_draw_colors() {
    let mut w = Writer::new();
    let mut d = Draw::new();
    d.set_fg_color(Color::Green);
    d.set_bg_color(Color::Blue);
    d.plot(4, 2, b'#', &mut w);
    let cell = w.read_at(2, 4);
    assert_eq!(cell.ascii_character, b'#');
    assert_eq!(cell.color_code.0, 1 * 16 + 2);
    // the writer's own color is untouched
    assert_eq!(w.color().0, 15);
}

#[test]
fn plot_ignores_out_of_range() {
    let mut w = Writer::new();
    let d = Draw::new();
    d.plot(80, 0, b'#', &mut w);
    d.plot(0, 25, b'#', &mut w);
    for row in 0..BUFFER_HEIGHT {
        for col in 0..BUFFER_WIDTH {
            assert_eq!(w.read_at(row, col).ascii_character, b' ');
        }
    }
}

#[test]
fn horizontal_and_vertical_runs_are_inclusive() {
    let mut w = Writer::new();
    let d = Draw::new();
    d.draw_horizontal_line(2, 5, 1, &mut w);
    for x in 2..=5 {
        assert_eq!(w.read_at(1, x).ascii_character, 0xC4);
    }
    assert_eq!(w.read_at(1, 6).ascii_character, b' ');
    d.draw_vertical_line(3, 6, 9, &mut w);
    for y in 3..=6 {
        assert_eq!(w.read_at(y, 9).ascii_character, 0xB3);
    }
    assert_eq!(w.read_at(7, 9).ascii_character, b' ');
}

#[test]
fn diagonal_line_plots_the_bresenham_cells() {
    let mut w = Writer::new();
    let d = Draw::new();
    d.draw_diagonal_line(0, 0, 3, 3, &mut w);
    for i in 0..=3 {
        assert_eq!(w.read_at(i, i).ascii_character, b'*');
    }
    assert_eq!(w.read_at(0, 1).ascii_character, b' ');

    let mut w2 = Writer::new();
    d.draw_diagonal_line(0, 0, 5, 2, &mut w2);
    let expected = [(0, 0), (1, 0), (2, 1), (3, 1), (4, 2), (5, 2)];
    for &(x, y) in expected.iter() {
        assert_eq!(w2.read_at(y, x).ascii_character, b'*');
    }
    assert_eq!(w2.read_at(2, 2).ascii_character, b' ');
}

#[test]
fn draw_line_dispatches_on_the_endpoints() {
    let mut w = Writer::new();
    let d = Draw::new();
    // horizontal, given in reverse order
    d.draw_line(7, 3, 4, 3, &mut w);
    for x in 4..=7 {
        assert_eq!(w.read_at(3, x).ascii_character, 0xC4);
    }
    // vertical
    d.draw_line(2, 8, 2, 5, &mut w);
    for y in 5..=8 {
        assert_eq!(w.read_at(y, 2).ascii_character, 0xB3);
    }
    // diagonal
    d.draw_line(10, 10, 12, 12, &mut w);
    for i in 10..=12 {
        assert_eq!(w.read_at(i, i).ascii_character, b'*');
    }
}

#[test]
fn box_has_borders_and_blank_interior() {
    // a box with corners (0, 0) and (5, 10): its top and bottom rows and
    // its left and right columns are the only cells drawn
    let mut w = Writer::new();
    let d = Draw::new();
    d.draw_box(0, 0, 5, 10, &mut w);
    assert_eq!(w.read_at(0, 0).ascii_character, 0xDA);
    assert_eq!(w.read_at(0, 5).ascii_character, 0xBF);
    assert_eq!(w.read_at(10, 0).ascii_character, 0xC0);
    assert_eq!(w.read_at(10, 5).ascii_character, 0xD9);
    for x in 1..=4 {
        assert_eq!(w.read_at(0, x).ascii_character, 0xC4);
        assert_eq!(w.read_at(10, x).ascii_character, 0xC4);
    }
    for y in 1..=9 {
        assert_eq!(w.read_at(y, 0).ascii_character, 0xB3);
        assert_eq!(w.read_at(y, 5).ascii_character, 0xB3);
    }
    for y in 1..=9 {
        for x in 1..=4 {
            assert_eq!(w.read_at(y, x).ascii_character, b' ');
        }
    }
    for row in 11..BUFFER_HEIGHT {
        for col in 0..BUFFER_WIDTH {
            assert_eq!(w.read_at(row, col).ascii_character, b' ');
        }
    }
}

#[test]
fn draw_text_stops_at_the_right_edge() {
    let mut w = Writer::new();
    let d = Draw::new();
    d.draw_text(77, 6, b"abcdef", &mut w);
    assert_eq!(w.read_at(6, 77).ascii_character, b'a');
    assert_eq!(w.read_at(6, 78).ascii_character, b'b');
    assert_eq!(w.read_at(6, 79).ascii_character, b'c');
    for col in 0..BUFFER_WIDTH {
        assert_eq!(w.read_at(7, col).ascii_character, b' ');
    }
}

#[test]
fn text_box_wraps_and_honors_newlines() {
    let mut w = Writer::new();
    let d = Draw::new();
    // interior columns 1..=4 on rows 1.., starting at (1, 1)
    d.draw_text_box(0, 0, 5, 6, b"abcde\nfg", &mut w);
    assert_eq!(w.read_at(1, 1).ascii_character, b'a');
    assert_eq!(w.read_at(1, 2).ascii_character, b'b');
    assert_eq!(w.read_at(1, 3).ascii_character, b'c');
    assert_eq!(w.read_at(1, 4).ascii_character, b'd');
    // the fifth byte no longer fits on the row and wraps to column 0
    assert_eq!(w.read_at(2, 0).ascii_character, b'e');
    // the newline wraps again
    assert_eq!(w.read_at(3, 0).ascii_character, b'f');
    assert_eq!(w.read_at(3, 1).ascii_character, b'g');
}

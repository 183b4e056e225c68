//! The framebuffer writer: an 80 x 25 grid of character/attribute cells,
//! a cursor column on the last row, and the current color attribute.
//! Scrolling moves every row up by one; the cursor row is always the last.
use vstd::prelude::*;

verus! {

/// Number of rows in the character grid.
pub const BUFFER_HEIGHT: usize = 25;

/// Number of columns in the character grid.
pub const BUFFER_WIDTH: usize = 80;

/// The sixteen fixed palette entries understood by the display hardware.
#[derive(Clone, Copy, PartialEq, Eq, Structural, Debug)]
pub enum Color {
    Black,
    Blue,
    Green,
    Cyan,
    Red,
    Magenta,
    Brown,
    LightGray,
    DarkGray,
    LightBlue,
    LightGreen,
    LightCyan,
    LightRed,
    Pink,
    Yellow,
    White,
}

/// The palette number of a color: its position in the fixed palette.
pub open spec fn color_value(c: Color) -> u8 {
    match c {
        Color::Black => 0,
        Color::Blue => 1,
        Color::Green => 2,
        Color::Cyan => 3,
        Color::Red => 4,
        Color::Magenta => 5,
        Color::Brown => 6,
        Color::LightGray => 7,
        Color::DarkGray => 8,
        Color::LightBlue => 9,
        Color::LightGreen => 10,
        Color::LightCyan => 11,
        Color::LightRed => 12,
        Color::Pink => 13,
        Color::Yellow => 14,
        Color::White => 15,
    }
}

impl Color {
    /// The palette number of this color, as the hardware encodes it.
    pub fn value(self) -> (v: u8)
        ensures
            v == color_value(self),
    {
        match self {
            Color::Black => 0,
            Color::Blue => 1,
            Color::Green => 2,
            Color::Cyan => 3,
            Color::Red => 4,
            Color::Magenta => 5,
            Color::Brown => 6,
            Color::LightGray => 7,
            Color::DarkGray => 8,
            Color::LightBlue => 9,
            Color::LightGreen => 10,
            Color::LightCyan => 11,
            Color::LightRed => 12,
            Color::Pink => 13,
            Color::Yellow => 14,
            Color::White => 15,
        }
    }
}

/// A packed attribute byte: background palette number in the high nibble,
/// foreground palette number in the low nibble.
#[derive(Clone, Copy, PartialEq, Eq, Structural, Debug)]
pub struct ColorCode(pub u8);

impl ColorCode {
    /// Packs a foreground and a background color into one attribute byte.
    pub fn new(foreground: Color, background: Color) -> (c: ColorCode)
        ensures
            c.0 == color_value(background) * 16 + color_value(foreground),
    {
        let fg = foreground.value();
        let bg = background.value();
        assert((bg << 4u8) | fg == bg * 16 + fg) by (bit_vector)
            requires
                fg < 16 && bg < 16,
        ;
        ColorCode((bg << 4u8) | fg)
    }
}

/// One cell of the grid, laid out as the display hardware expects it:
/// the character byte first, the attribute byte second.
#[derive(Clone, Copy, PartialEq, Eq, Structural, Debug)]
pub struct ScreenChar {
    pub ascii_character: u8,
    pub color_code: ColorCode,
}

/// The mathematical state of the writer: the grid as a row-major sequence
/// of cells, the cursor column, and the current color attribute.
pub struct ScreenState {
    pub grid: Seq<ScreenChar>,
    pub col: int,
    pub color: ColorCode,
}

impl ScreenState {
    /// The grid has exactly height * width cells and the cursor column
    /// never passes the right edge (it may rest just past the last cell,
    /// meaning a scroll is due before the next character).
    pub open spec fn wf(self) -> bool {
        &&& self.grid.len() == 2000
        &&& 0 <= self.col <= 80
    }

    /// The cell at a row and column of the grid.
    pub open spec fn cell(self, row: int, col: int) -> ScreenChar {
        self.grid[row * 80 + col]
    }
}

/// A space in the given color: what cleared cells are filled with.
pub open spec fn blank_cell(color: ColorCode) -> ScreenChar {
    ScreenChar { ascii_character: 32, color_code: color }
}

/// Effect of a bounds-checked write of a full cell: out-of-range
/// coordinates leave the state unchanged; cursor and color are untouched.
pub open spec fn spec_put_cell(s: ScreenState, row: int, col: int, cell: ScreenChar) -> ScreenState {
    if 0 <= row < 25 && 0 <= col < 80 {
        ScreenState { grid: s.grid.update(row * 80 + col, cell), ..s }
    } else {
        s
    }
}

/// Effect of a bounds-checked positional write: out-of-range coordinates
/// leave the state unchanged.
pub open spec fn spec_write_at(s: ScreenState, row: int, col: int, byte: u8) -> ScreenState {
    spec_put_cell(s, row, col, ScreenChar { ascii_character: byte, color_code: s.color })
}

/// Effect of a scroll: every cell moves one row up, the last row becomes
/// blank in the current color, and the cursor returns to column zero.
pub open spec fn spec_scroll(s: ScreenState) -> ScreenState {
    ScreenState {
        grid: Seq::new(2000, |i: int| if i < 1920 { s.grid[i + 80] } else { blank_cell(s.color) }),
        col: 0,
        color: s.color,
    }
}

/// Effect of clearing the whole screen: every cell blank, cursor at zero.
pub open spec fn spec_clear(s: ScreenState) -> ScreenState {
    ScreenState { grid: Seq::new(2000, |i: int| blank_cell(s.color)), col: 0, color: s.color }
}

/// Effect of one byte on the writer: newline scrolls; backspace steps the
/// cursor left and blanks that cell in the current color; any other byte
/// is placed at the cursor on the last row (scrolling first if the cursor
/// rests past the right edge) and the cursor advances.
pub open spec fn spec_write_byte(s: ScreenState, byte: u8) -> ScreenState {
    if byte == 10 {
        spec_scroll(s)
    } else if byte == 8 {
        if s.col > 0 {
            ScreenState {
                grid: s.grid.update(24 * 80 + (s.col - 1), blank_cell(s.color)),
                col: s.col - 1,
                color: s.color,
            }
        } else {
            s
        }
    } else {
        let t = if s.col >= 80 {
            spec_scroll(s)
        } else {
            s
        };
        ScreenState {
            grid: t.grid.update(
                24 * 80 + t.col,
                ScreenChar { ascii_character: byte, color_code: s.color },
            ),
            col: t.col + 1,
            color: s.color,
        }
    }
}

/// The placeholder applied by the string write path: bytes outside
/// printable ASCII, newline and backspace become the fixed glyph `@`.
pub open spec fn filter_byte(b: u8) -> u8 {
    if (0x20 <= b <= 0x7e) || b == 10 || b == 8 {
        b
    } else {
        0x40
    }
}

/// Effect of writing a whole byte string through the line-editing write
/// path: each byte in order, after the placeholder filter.
pub open spec fn spec_write_string(s: ScreenState, bytes: Seq<u8>) -> ScreenState
    decreases bytes.len(),
{
    if bytes.len() == 0 {
        s
    } else {
        spec_write_string(spec_write_byte(s, filter_byte(bytes[0])), bytes.drop_first())
    }
}

/// Effect of a positional string write: the bytes land left to right on
/// one row, starting at the given column, and stop at the row boundary;
/// nothing wraps, nothing else changes.
pub open spec fn spec_write_string_at(
    s: ScreenState,
    row: int,
    col: int,
    bytes: Seq<u8>,
) -> ScreenState {
    ScreenState {
        grid: Seq::new(
            2000,
            |i: int|
                if i / 80 == row && col <= i % 80 && i % 80 - col < bytes.len() {
                    ScreenChar { ascii_character: bytes[i % 80 - col], color_code: s.color }
                } else {
                    s.grid[i]
                },
        ),
        ..s
    }
}

/// Effect of a horizontal line of `-` glyphs on one row, over the columns
/// `start <= c < end` that lie on the screen.
pub open spec fn spec_hline(s: ScreenState, row: int, start: int, end: int) -> ScreenState {
    ScreenState {
        grid: Seq::new(
            2000,
            |i: int|
                if i / 80 == row && start <= i % 80 < end {
                    ScreenChar { ascii_character: 0x2d, color_code: s.color }
                } else {
                    s.grid[i]
                },
        ),
        ..s
    }
}

/// Effect of a vertical line of `|` glyphs on one column, over the rows
/// `start <= r < end` that lie on the screen.
pub open spec fn spec_vline(s: ScreenState, col: int, start: int, end: int) -> ScreenState {
    ScreenState {
        grid: Seq::new(
            2000,
            |i: int|
                if i % 80 == col && start <= i / 80 < end {
                    ScreenChar { ascii_character: 0x7c, color_code: s.color }
                } else {
                    s.grid[i]
                },
        ),
        ..s
    }
}

/// One byte does not break well-formedness.
pub proof fn lemma_write_byte_wf(s: ScreenState, byte: u8)
    requires
        s.wf(),
    ensures
        spec_write_byte(s, byte).wf(),
{
}

/// A whole byte string does not break well-formedness.
pub proof fn lemma_write_string_wf(s: ScreenState, bytes: Seq<u8>)
    requires
        s.wf(),
    ensures
        spec_write_string(s, bytes).wf(),
    decreases bytes.len(),
{
    if bytes.len() > 0 {
        lemma_write_byte_wf(s, filter_byte(bytes[0]));
        lemma_write_string_wf(spec_write_byte(s, filter_byte(bytes[0])), bytes.drop_first());
    }
}

/// Writing one byte after a byte string is the byte string followed by
/// the byte: the fold can be unrolled from either end.
pub proof fn lemma_write_string_snoc(s: ScreenState, bytes: Seq<u8>, b: u8)
    ensures
        spec_write_string(s, bytes.push(b)) == spec_write_byte(
            spec_write_string(s, bytes),
            filter_byte(b),
        ),
    decreases bytes.len(),
{
    if bytes.len() == 0 {
        assert(bytes.push(b)[0] == b);
        assert(bytes.push(b).drop_first() =~= Seq::<u8>::empty());
        assert(spec_write_string(s, bytes.push(b)) == spec_write_string(
            spec_write_byte(s, filter_byte(b)),
            Seq::<u8>::empty(),
        ));
        assert(spec_write_string(s, bytes) == s);
    } else {
        let w1 = spec_write_byte(s, filter_byte(bytes[0]));
        assert(bytes.push(b)[0] == bytes[0]);
        assert(bytes.push(b).drop_first() =~= bytes.drop_first().push(b));
        assert(spec_write_string(s, bytes.push(b)) == spec_write_string(
            w1,
            bytes.drop_first().push(b),
        ));
        lemma_write_string_snoc(w1, bytes.drop_first(), b);
        assert(spec_write_string(s, bytes) == spec_write_string(w1, bytes.drop_first()));
    }
}

/// The framebuffer writer. It owns the character grid for the lifetime of
/// the process; every mutation of the screen goes through it.
pub struct Writer {
    column_position: usize,
    color_code: ColorCode,
    buffer: Vec<ScreenChar>,
}

impl View for Writer {
    type V = ScreenState;

    closed spec fn view(&self) -> ScreenState {
        ScreenState {
            grid: self.buffer.view(),
            col: self.column_position as int,
            color: self.color_code,
        }
    }
}

impl Writer {
    /// A fresh writer: a blank white-on-black screen, cursor at column zero.
    pub fn new() -> (w: Writer)
        ensures
            w@.wf(),
            w@ == spec_clear(w@),
            w@.color.0 == 15,
    {
        let color_code = ColorCode::new(Color::White, Color::Black);
        let blank = ScreenChar { ascii_character: 0x20, color_code };
        let buffer: Vec<ScreenChar> = vec![blank; 2000];
        let w = Writer { column_position: 0, color_code, buffer };
        proof {
            assert(w@.grid =~= Seq::new(2000, |i: int| blank_cell(w@.color)));
        }
        w
    }

    /// The cell at a row and column, read back from the grid.
    pub fn read_at(&self, row: usize, col: usize) -> (c: ScreenChar)
        requires
            self@.wf(),
            row < 25,
            col < 80,
        ensures
            c == self@.cell(row as int, col as int),
    {
        self.buffer[row * 80 + col]
    }

    /// The cursor column.
    pub fn column(&self) -> (c: usize)
        ensures
            c == self@.col,
    {
        self.column_position
    }

    /// The current color attribute.
    pub fn color(&self) -> (c: ColorCode)
        ensures
            c == self@.color,
    {
        self.color_code
    }

    /// Bounds-checked write of a full cell, leaving cursor and color as
    /// they are; out-of-range coordinates are silently ignored.
    pub fn put_cell(&mut self, row: usize, col: usize, cell: ScreenChar)
        requires
            old(self)@.wf(),
        ensures
            final(self)@.wf(),
            final(self)@ == spec_put_cell(old(self)@, row as int, col as int, cell),
    {
        if row < BUFFER_HEIGHT && col < BUFFER_WIDTH {
            self.buffer.set(row * 80 + col, cell);
        }
    }

    /// Direct positional write, bounds-checked; out-of-range coordinates
    /// are silently ignored.
    pub fn write_at(&mut self, row: usize, col: usize, character: u8)
        requires
            old(self)@.wf(),
        ensures
            final(self)@.wf(),
            final(self)@ == spec_write_at(old(self)@, row as int, col as int, character),
    {
        let color_code = self.color_code;
        self.put_cell(row, col, ScreenChar { ascii_character: character, color_code });
    }

    /// Blanks one row in the current color.
    fn clear_row(&mut self, row: usize)
        requires
            old(self)@.wf(),
            row < 25,
        ensures
            final(self)@.wf(),
            final(self)@.col == old(self)@.col,
            final(self)@.color == old(self)@.color,
            final(self)@.grid =~= Seq::new(
                2000,
                |i: int|
                    if row * 80 <= i < row * 80 + 80 {
                        blank_cell(old(self)@.color)
                    } else {
                        old(self)@.grid[i]
                    },
            ),
    {
        let blank = ScreenChar { ascii_character: 0x20, color_code: self.color_code };
        let mut col: usize = 0;
        while col < BUFFER_WIDTH
            invariant
                old(self)@.wf(),
                self@.wf(),
                col <= 80,
                row < 25,
                blank == blank_cell(old(self)@.color),
                self@.col == old(self)@.col,
                self@.color == old(self)@.color,
                forall|i: int|
                    0 <= i < 2000 ==> self@.grid[i] == if row * 80 <= i < row * 80 + col {
                        blank_cell(old(self)@.color)
                    } else {
                        old(self)@.grid[i]
                    },
            decreases 80 - col,
        {
            self.buffer.set(row * 80 + col, blank);
            col = col + 1;
        }
    }

    /// Scrolls: every cell moves one row up, the freed last row is blanked
    /// in the current color, and the cursor returns to column zero. This is
    /// the only way rows are ever removed; there is no scroll-back buffer.
    fn new_line(&mut self)
        requires
            old(self)@.wf(),
        ensures
            final(self)@.wf(),
            final(self)@ == spec_scroll(old(self)@),
    {
        let mut i: usize = 0;
        while i < 1920
            invariant
                old(self)@.wf(),
                self@.wf(),
                i <= 1920,
                self@.col == old(self)@.col,
                self@.color == old(self)@.color,
                forall|j: int|
                    0 <= j < 2000 ==> self@.grid[j] == if j < i {
                        old(self)@.grid[j + 80]
                    } else {
                        old(self)@.grid[j]
                    },
            decreases 1920 - i,
        {
            let moved = self.buffer[i + 80];
            self.buffer.set(i, moved);
            i = i + 1;
        }
        self.clear_row(BUFFER_HEIGHT - 1);
        self.column_position = 0;
        proof {
            assert(self@.grid =~= spec_scroll(old(self)@).grid);
        }
    }

    /// Writes one byte at the cursor: newline scrolls; backspace steps the
    /// cursor left and blanks that cell with the current color; any other
    /// byte is placed at (last row, cursor), scrolling first if the cursor
    /// rests past the last column, and the cursor advances.
    pub fn write_byte(&mut self, byte: u8)
        requires
            old(self)@.wf(),
        ensures
            final(self)@.wf(),
            final(self)@ == spec_write_byte(old(self)@, byte),
    {
        match byte {
            0x0a => self.new_line(),
            0x08 => {
                if self.column_position > 0 {
                    self.column_position = self.column_position - 1;
                    let row = BUFFER_HEIGHT - 1;
                    let col = self.column_position;
                    let color_code = self.color_code;
                    self.buffer.set(
                        row * 80 + col,
                        ScreenChar { ascii_character: 0x20, color_code },
                    );
                }
            },
            _ => {
                if self.column_position >= BUFFER_WIDTH {
                    self.new_line();
                }
                let row = BUFFER_HEIGHT - 1;
                let col = self.column_position;
                let color_code = self.color_code;
                self.buffer.set(
                    row * 80 + col,
                    ScreenChar { ascii_character: byte, color_code },
                );
                self.column_position = self.column_position + 1;
            },
        }
    }

    /// Writes a byte string through the line-editing write path, byte by
    /// byte in order; bytes outside printable ASCII, newline and backspace
    /// are replaced with the fixed placeholder glyph.
    pub fn write_string(&mut self, s: &[u8])
        requires
            old(self)@.wf(),
        ensures
            final(self)@.wf(),
            final(self)@ == spec_write_string(old(self)@, s@),
    {
        let n = s.len();
        let mut i: usize = 0;
        while i < n
            invariant
                old(self)@.wf(),
                self@.wf(),
                i <= n,
                n == s@.len(),
                self@ == spec_write_string(old(self)@, s@.take(i as int)),
            decreases n - i,
        {
            let byte = s[i];
            proof {
                lemma_write_string_snoc(old(self)@, s@.take(i as int), byte);
                assert(s@.take(i as int + 1) =~= s@.take(i as int).push(byte));
            }
            match byte {
                0x20..=0x7e => self.write_byte(byte),
                0x0a => self.write_byte(byte),
                0x08 => self.write_byte(byte),
                _ => self.write_byte(0x40),
            }
            i = i + 1;
        }
        proof {
            assert(s@.take(n as int) =~= s@);
        }
    }

    /// Positional string write: the bytes land left to right on one row
    /// and the write stops, without error, at the row boundary.
    pub fn write_string_at(&mut self, row: usize, col: usize, s: &[u8])
        requires
            old(self)@.wf(),
        ensures
            final(self)@.wf(),
            final(self)@ == spec_write_string_at(old(self)@, row as int, col as int, s@),
    {
        let n = s.len();
        let mut idx: usize = 0;
        let mut current_col = col;
        while idx < n && current_col < BUFFER_WIDTH
            invariant
                old(self)@.wf(),
                self@.wf(),
                idx <= n,
                n == s@.len(),
                current_col == col + idx,
                self@.col == old(self)@.col,
                self@.color == old(self)@.color,
                forall|i: int|
                    0 <= i < 2000 ==> self@.grid[i] == if i / 80 == row && col <= i % 80 && i % 80
                        - col < idx {
                        (ScreenChar { ascii_character: s@[i % 80 - col], color_code: old(self)@.color })
                    } else {
                        old(self)@.grid[i]
                    },
            decreases n - idx,
        {
            self.write_at(row, current_col, s[idx]);
            current_col = current_col + 1;
            idx = idx + 1;
        }
        proof {
            assert(self@.grid =~= spec_write_string_at(
                old(self)@,
                row as int,
                col as int,
                s@,
            ).grid);
        }
    }

    /// Draws a horizontal line of `-` glyphs on one row, from `start_col`
    /// up to but not including `end_col`, clipped to the screen.
    pub fn draw_horizontal_line(&mut self, row: usize, start_col: usize, end_col: usize)
        requires
            old(self)@.wf(),
        ensures
            final(self)@.wf(),
            final(self)@ == spec_hline(old(self)@, row as int, start_col as int, end_col as int),
    {
        if row >= BUFFER_HEIGHT {
            proof {
                assert(self@.grid =~= spec_hline(
                    old(self)@,
                    row as int,
                    start_col as int,
                    end_col as int,
                ).grid);
            }
            return ;
        }
        let start = if start_col < BUFFER_WIDTH {
            start_col
        } else {
            BUFFER_WIDTH
        };
        let end = if end_col < BUFFER_WIDTH {
            end_col
        } else {
            BUFFER_WIDTH
        };
        let mut c = start;
        while c < end
            invariant
                old(self)@.wf(),
                self@.wf(),
                start <= c <= 80,
                c <= end || c == start,
                end <= 80,
                start <= 80,
                row < 25,
                start == if start_col < 80 { start_col as int } else { 80 },
                end == if end_col < 80 { end_col as int } else { 80 },
                self@.col == old(self)@.col,
                self@.color == old(self)@.color,
                forall|i: int|
                    0 <= i < 2000 ==> self@.grid[i] == if i / 80 == row && start <= i % 80 < c {
                        (ScreenChar { ascii_character: 0x2d, color_code: old(self)@.color })
                    } else {
                        old(self)@.grid[i]
                    },
            decreases end - c,
        {
            self.write_at(row, c, 0x2d);
            c = c + 1;
        }
        proof {
            assert(self@.grid =~= spec_hline(
                old(self)@,
                row as int,
                start_col as int,
                end_col as int,
            ).grid);
        }
    }

    /// Draws a vertical line of `|` glyphs on one column, from `start_row`
    /// up to but not including `end_row`, clipped to the screen.
    pub fn draw_vertical_line(&mut self, col: usize, start_row: usize, end_row: usize)
        requires
            old(self)@.wf(),
        ensures
            final(self)@.wf(),
            final(self)@ == spec_vline(old(self)@, col as int, start_row as int, end_row as int),
    {
        if col >= BUFFER_WIDTH {
            proof {
                assert(self@.grid =~= spec_vline(
                    old(self)@,
                    col as int,
                    start_row as int,
                    end_row as int,
                ).grid);
            }
            return ;
        }
        let start = if start_row < BUFFER_HEIGHT {
            start_row
        } else {
            BUFFER_HEIGHT
        };
        let end = if end_row < BUFFER_HEIGHT {
            end_row
        } else {
            BUFFER_HEIGHT
        };
        let mut r = start;
        while r < end
            invariant
                old(self)@.wf(),
                self@.wf(),
                start <= r <= 25,
                r <= end || r == start,
                end <= 25,
                start <= 25,
                col < 80,
                start == if start_row < 25 { start_row as int } else { 25 },
                end == if end_row < 25 { end_row as int } else { 25 },
                self@.col == old(self)@.col,
                self@.color == old(self)@.color,
                forall|i: int|
                    0 <= i < 2000 ==> self@.grid[i] == if i % 80 == col && start <= i / 80 < r {
                        (ScreenChar { ascii_character: 0x7c, color_code: old(self)@.color })
                    } else {
                        old(self)@.grid[i]
                    },
            decreases end - r,
        {
            self.write_at(r, col, 0x7c);
            r = r + 1;
        }
        proof {
            assert(self@.grid =~= spec_vline(
                old(self)@,
                col as int,
                start_row as int,
                end_row as int,
            ).grid);
        }
    }

    /// Draws a rectangle: its top and bottom edges, its left and right
    /// edges, and a `+` glyph on each of the four corners.
    pub fn draw_box(&mut self, start_row: usize, start_col: usize, end_row: usize, end_col: usize)
        requires
            old(self)@.wf(),
        ensures
            final(self)@.wf(),
            final(self)@ == spec_write_at(
                spec_write_at(
                    spec_write_at(
                        spec_write_at(
                            spec_vline(
                                spec_vline(
                                    spec_hline(
                                        spec_hline(
                                            old(self)@,
                                            start_row as int,
                                            start_col as int,
                                            end_col as int,
                                        ),
                                        end_row as int,
                                        start_col as int,
                                        end_col as int,
                                    ),
                                    start_col as int,
                                    start_row as int,
                                    end_row as int,
                                ),
                                end_col as int,
                                start_row as int,
                                end_row as int,
                            ),
                            start_row as int,
                            start_col as int,
                            0x2b,
                        ),
                        start_row as int,
                        end_col as int,
                        0x2b,
                    ),
                    end_row as int,
                    start_col as int,
                    0x2b,
                ),
                end_row as int,
                end_col as int,
                0x2b,
            ),
    {
        self.draw_horizontal_line(start_row, start_col, end_col);
        self.draw_horizontal_line(end_row, start_col, end_col);
        self.draw_vertical_line(start_col, start_row, end_row);
        self.draw_vertical_line(end_col, start_row, end_row);
        self.write_at(start_row, start_col, 0x2b);
        self.write_at(start_row, end_col, 0x2b);
        self.write_at(end_row, start_col, 0x2b);
        self.write_at(end_row, end_col, 0x2b);
    }

    /// Clears the whole screen to blanks and resets the cursor column.
    pub fn clear(&mut self)
        requires
            old(self)@.wf(),
        ensures
            final(self)@.wf(),
            final(self)@ == spec_clear(old(self)@),
    {
        let blank = ScreenChar { ascii_character: 0x20, color_code: self.color_code };
        let mut i: usize = 0;
        while i < 2000
            invariant
                old(self)@.wf(),
                self@.wf(),
                i <= 2000,
                blank == blank_cell(old(self)@.color),
                self@.col == old(self)@.col,
                self@.color == old(self)@.color,
                forall|j: int|
                    0 <= j < 2000 ==> self@.grid[j] == if j < i {
                        blank_cell(old(self)@.color)
                    } else {
                        old(self)@.grid[j]
                    },
            decreases 2000 - i,
        {
            self.buffer.set(i, blank);
            i = i + 1;
        }
        self.column_position = 0;
        proof {
            assert(self@.grid =~= spec_clear(old(self)@).grid);
        }
    }
}

/// Clears the screen through a writer handle.
pub fn _clrscr(w: &mut Writer)
    requires
        old(w)@.wf(),
    ensures
        final(w)@.wf(),
        final(w)@ == spec_clear(old(w)@),
{
    w.clear();
}

/// Sets the writer's color attribute; it affects all subsequent writes
/// until changed again. Grid and cursor stay as they are.
pub fn _setcolor(w: &mut Writer, fg: Color, bg: Color)
    requires
        old(w)@.wf(),
    ensures
        final(w)@.wf(),
        final(w)@.grid == old(w)@.grid,
        final(w)@.col == old(w)@.col,
        final(w)@.color.0 == color_value(bg) * 16 + color_value(fg),
{
    w.color_code = ColorCode::new(fg, bg);
}

/// Resets the writer's color attribute to white on black.
pub fn _reset_color(w: &mut Writer)
    requires
        old(w)@.wf(),
    ensures
        final(w)@.wf(),
        final(w)@.grid == old(w)@.grid,
        final(w)@.col == old(w)@.col,
        final(w)@.color.0 == 15,
{
    w.color_code = ColorCode::new(Color::White, Color::Black);
}

/// Division and remainder of a nonnegative offset by the width, as the
/// placement arguments below need them.
proof fn lemma_div80(o: int)
    requires
        o >= 0,
    ensures
        o == 80 * (o / 80) + (o % 80),
        0 <= o % 80 < 80,
        o / 80 >= 0,
{
    vstd::arithmetic::div_mod::lemma_fundamental_div_mod(o, 80);
    vstd::arithmetic::div_mod::lemma_mod_division_less_than_divisor(o, 80);
    if o / 80 < 0 {
        assert(80 * (o / 80) <= -80);
    }
}

/// Stepping an offset by one: the remainder advances by one within a
/// row and wraps to zero at the width, where the quotient steps up.
proof fn lemma_div80_step(o: int)
    requires
        o >= 1,
    ensures
        o % 80 == 0 ==> (o - 1) % 80 == 79 && o / 80 == (o - 1) / 80 + 1,
        o % 80 != 0 ==> (o - 1) % 80 == o % 80 - 1 && o / 80 == (o - 1) / 80,
{
    lemma_div80(o);
    lemma_div80(o - 1);
}

/// The number of wraps (scrolls) a printable run of `n` bytes starting
/// at column `col` causes.
pub open spec fn spec_run_wraps(col: int, n: int) -> int {
    if n == 0 {
        0
    } else {
        (col + n - 1) / 80
    }
}

/// Placement of a contiguous printable run written through the
/// line-editing write path with no newline among the bytes: starting at
/// the cursor on the last row, the bytes land left to right, the column
/// wrapping at the width, with each full row scrolled up by one. With
/// `k` wraps in total, the byte at running offset `o` (counted from
/// column zero of the first row written) ends on row `24 - k + o / 80`,
/// column `o % 80`, in the color held when the run began, as far as
/// those rows are still on the screen; the cursor ends one past the
/// last byte's column.
pub proof fn lemma_printable_run(s: ScreenState, bytes: Seq<u8>)
    requires
        s.wf(),
        0 <= s.col < 80,
        forall|i: int| 0 <= i < bytes.len() ==> 0x20 <= #[trigger] bytes[i] <= 0x7e,
        s.col + bytes.len() <= 2000,
    ensures
        spec_write_string(s, bytes).color == s.color,
        spec_write_string(s, bytes).col == (if bytes.len() == 0 {
            s.col
        } else {
            (s.col + bytes.len() - 1) % 80 + 1
        }),
        forall|i: int|
            #![trigger bytes[i]]
            0 <= i < bytes.len() && 24 - spec_run_wraps(s.col, bytes.len() as int) + (s.col + i)
                / 80 >= 0 ==> spec_write_string(s, bytes).grid[(24 - spec_run_wraps(
                s.col,
                bytes.len() as int,
            ) + (s.col + i) / 80) * 80 + ((s.col + i) % 80)] == (ScreenChar {
                ascii_character: bytes[i],
                color_code: s.color,
            }),
    decreases bytes.len(),
{
    lemma_write_string_wf(s, bytes);
    if bytes.len() == 0 {
    } else {
        let n = bytes.len() as int;
        let prefix = bytes.drop_last();
        let b = bytes.last();
        lemma_printable_run(s, prefix);
        lemma_write_string_wf(s, prefix);
        assert(bytes =~= prefix.push(b));
        lemma_write_string_snoc(s, prefix, b);
        let t_prev = spec_write_string(s, prefix);
        let t = spec_write_byte(t_prev, filter_byte(b));
        assert(filter_byte(b) == b);
        let o = s.col + n - 1;
        let k = spec_run_wraps(s.col, n);
        let kp = spec_run_wraps(s.col, n - 1);
        lemma_div80(o);
        if n == 1 {
            assert(t_prev == s);
            assert(o == s.col && o / 80 == 0 && o % 80 == s.col) by {
                lemma_div80(o);
                if o / 80 >= 1 {
                    assert(80 * (o / 80) >= 80);
                }
            }
            assert(t.grid[24 * 80 + s.col] == (ScreenChar {
                ascii_character: b,
                color_code: s.color,
            }));
        } else {
            lemma_div80_step(o);
            lemma_div80(o - 1);
            assert(t_prev.col == (o - 1) % 80 + 1);
            if t_prev.col < 80 {
                // no scroll for this byte: wrap count and prior rows stay
                assert(o % 80 != 0 && k == kp && o % 80 == t_prev.col);
                assert forall|i: int|
                    #![trigger bytes[i]]
                    0 <= i < n && 24 - k + (s.col + i) / 80 >= 0 implies t.grid[(24 - k + (s.col
                    + i) / 80) * 80 + ((s.col + i) % 80)] == (ScreenChar {
                    ascii_character: bytes[i],
                    color_code: s.color,
                }) by {
                    let oi = s.col + i;
                    lemma_div80(oi);
                    if i < n - 1 {
                        assert(prefix[i] == bytes[i]);
                        assert(oi < o);
                        if (24 - k + oi / 80) * 80 + (oi % 80) == 24 * 80 + t_prev.col {
                            assert(oi / 80 == k && oi % 80 == o % 80);
                            assert(oi == o);
                        }
                    } else {
                        assert(24 - k + o / 80 == 24);
                    }
                }
            } else {
                // the cursor rests past the edge: this byte scrolls first
                assert(o % 80 == 0 && k == kp + 1) by {
                    assert((o - 1) % 80 == 79);
                }
                let scrolled = spec_scroll(t_prev);
                assert forall|i: int|
                    #![trigger bytes[i]]
                    0 <= i < n && 24 - k + (s.col + i) / 80 >= 0 implies t.grid[(24 - k + (s.col
                    + i) / 80) * 80 + ((s.col + i) % 80)] == (ScreenChar {
                    ascii_character: bytes[i],
                    color_code: s.color,
                }) by {
                    let oi = s.col + i;
                    lemma_div80(oi);
                    let row = 24 - k + oi / 80;
                    let idx = row * 80 + (oi % 80);
                    if i < n - 1 {
                        assert(prefix[i] == bytes[i]);
                        let prow = 24 - kp + oi / 80;
                        let pidx = prow * 80 + (oi % 80);
                        assert(prow == row + 1 && pidx == idx + 80);
                        assert(t_prev.grid[pidx] == (ScreenChar {
                            ascii_character: bytes[i],
                            color_code: s.color,
                        }));
                        assert(idx < 1920);
                        assert(scrolled.grid[idx] == t_prev.grid[idx + 80]);
                        if idx == 24 * 80 + 0 {
                            assert(false);
                        }
                        assert(t.grid[idx] == scrolled.grid[idx]);
                    } else {
                        assert(oi == o && row == 24 && idx == 24 * 80);
                        assert(t.grid[idx] == (ScreenChar {
                            ascii_character: b,
                            color_code: s.color,
                        }));
                    }
                }
            }
        }
    }
}

/// A run of `k` newline bytes.
pub open spec fn spec_newlines(k: int) -> Seq<u8> {
    Seq::new(k as nat, |i: int| 10u8)
}

/// Scrolling property: writing one newline per row through the write
/// path returns every cell to blank in the current color and the cursor
/// to column zero, whatever was on the screen.
pub proof fn lemma_newlines_blank(s: ScreenState)
    requires
        s.wf(),
    ensures
        spec_write_string(s, spec_newlines(25)).col == 0,
        spec_write_string(s, spec_newlines(25)).color == s.color,
        forall|i: int|
            0 <= i < 2000 ==> #[trigger] spec_write_string(s, spec_newlines(25)).grid[i]
                == blank_cell(s.color),
{
    lemma_newlines_partial(s, 25);
}

/// After `k` newlines the bottom `k` rows are blank and the rest is the
/// old content moved up by `k` rows.
proof fn lemma_newlines_partial(s: ScreenState, k: int)
    requires
        s.wf(),
        0 <= k <= 25,
    ensures
        spec_write_string(s, spec_newlines(k)).wf(),
        spec_write_string(s, spec_newlines(k)).col == (if k == 0 {
            s.col
        } else {
            0int
        }),
        spec_write_string(s, spec_newlines(k)).color == s.color,
        forall|i: int|
            0 <= i < 2000 ==> #[trigger] spec_write_string(s, spec_newlines(k)).grid[i] == (if i < (
            25 - k) * 80 {
                s.grid[i + k * 80]
            } else {
                blank_cell(s.color)
            }),
    decreases k,
{
    let run = spec_newlines(k);
    if k == 0 {
        assert(run.len() == 0);
    } else {
        assert(run[0] == 10u8 && filter_byte(10) == 10);
        assert(run.drop_first() =~= spec_newlines(k - 1));
        lemma_newlines_partial(spec_scroll(s), k - 1);
        assert(spec_write_string(s, run) == spec_write_string(spec_scroll(s), spec_newlines(k - 1)));
    }
}

/// Scrolling an already blank screen is idempotent: every cell stays
/// blank and the cursor stays at column zero.
pub proof fn lemma_scroll_blank_idempotent(s: ScreenState)
    requires
        s.wf(),
        forall|i: int| 0 <= i < 2000 ==> s.grid[i] == blank_cell(s.color),
    ensures
        spec_scroll(s).grid =~= s.grid,
        spec_scroll(s).col == 0,
        spec_scroll(s).color == s.color,
{
}

/// Round trip for positional writes: after writing a byte string at a
/// row and column, reading the cells back on that row yields exactly the
/// bytes, up to the row boundary; every other cell is unchanged, so
/// content past the boundary is truncated, never wrapped.
pub proof fn lemma_write_string_at_round_trip(s: ScreenState, row: int, col: int, bytes: Seq<u8>)
    requires
        s.wf(),
        0 <= row < 25,
        0 <= col,
    ensures
        forall|i: int|
            0 <= i < bytes.len() && col + i < 80 ==> spec_write_string_at(
                s,
                row,
                col,
                bytes,
            ).cell(row, col + i) == (ScreenChar { ascii_character: bytes[i], color_code: s.color }),
        forall|r: int, c: int|
            0 <= r < 25 && 0 <= c < 80 && !(r == row && col <= c < col + bytes.len())
                ==> spec_write_string_at(s, row, col, bytes).cell(r, c) == s.cell(r, c),
        spec_write_string_at(s, row, col, bytes).col == s.col,
        spec_write_string_at(s, row, col, bytes).color == s.color,
{
    let t = spec_write_string_at(s, row, col, bytes);
    assert forall|i: int| 0 <= i < bytes.len() && col + i < 80 implies t.cell(row, col + i)
        == (ScreenChar { ascii_character: bytes[i], color_code: s.color }) by {
        lemma_rc_index(row, col + i);
    }
    assert forall|r: int, c: int|
        0 <= r < 25 && 0 <= c < 80 && !(r == row && col <= c < col + bytes.len()) implies t.cell(
        r,
        c,
    ) == s.cell(r, c) by {
        lemma_rc_index(r, c);
    }
}

/// A row and a column in range determine the flat index and back.
proof fn lemma_rc_index(r: int, c: int)
    requires
        0 <= r < 25,
        0 <= c < 80,
    ensures
        0 <= r * 80 + c < 2000,
        (r * 80 + c) / 80 == r,
        (r * 80 + c) % 80 == c,
{
    lemma_div80(r * 80 + c);
    let q = (r * 80 + c) / 80;
    if q < r {
        assert(80 * q <= 80 * (r - 1));
    }
    if q > r {
        assert(80 * q >= 80 * (r + 1));
    }
}

} // verus!

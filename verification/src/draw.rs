//! Drawing primitives over the framebuffer writer: single-cell plots,
//! axis-aligned lines, boxes with line-drawing glyphs, text placement and
//! wrapped text boxes, and the integer Bresenham algorithm for diagonal
//! lines. All of it goes through bounds-checked cell writes, with a
//! foreground/background color pair of its own.
use crate::vga_buffer::color_value;
use crate::vga_buffer::spec_put_cell;
use crate::vga_buffer::Color;
use crate::vga_buffer::ColorCode;
use crate::vga_buffer::ScreenChar;
use crate::vga_buffer::ScreenState;
use crate::vga_buffer::Writer;
use vstd::prelude::*;

verus! {

/// Effect of an inclusive horizontal run of one glyph, over the cells of
/// row `y` with `x0 <= x <= x1` that lie on the screen.
pub open spec fn spec_hseg(s: ScreenState, x0: int, x1: int, y: int, cell: ScreenChar) -> ScreenState {
    ScreenState {
        grid: Seq::new(
            2000,
            |i: int|
                if i / 80 == y && x0 <= i % 80 <= x1 {
                    cell
                } else {
                    s.grid[i]
                },
        ),
        ..s
    }
}

/// Effect of an inclusive vertical run of one glyph, over the cells of
/// column `x` with `y0 <= y <= y1` that lie on the screen.
pub open spec fn spec_vseg(s: ScreenState, y0: int, y1: int, x: int, cell: ScreenChar) -> ScreenState {
    ScreenState {
        grid: Seq::new(
            2000,
            |i: int|
                if i % 80 == x && y0 <= i / 80 <= y1 {
                    cell
                } else {
                    s.grid[i]
                },
        ),
        ..s
    }
}

/// The plots the Bresenham line algorithm makes, step by step: plot the
/// current point, stop at the target, otherwise move one step along x
/// and/or y by the sign of the error term. The constants `dx`, `dy`,
/// `sx`, `sy` are those computed from the endpoints; `fuel` bounds the
/// recursion and is chosen large enough that it never runs out.
pub open spec fn spec_bres(
    s: ScreenState,
    x: int,
    y: int,
    x1: int,
    y1: int,
    dx: int,
    dy: int,
    sx: int,
    sy: int,
    err: int,
    cell: ScreenChar,
    fuel: nat,
) -> ScreenState
    decreases fuel,
{
    let plotted = spec_put_cell(s, y, x, cell);
    if x == x1 && y == y1 {
        plotted
    } else if fuel == 0 {
        plotted
    } else {
        let e2 = 2 * err;
        let xstep = e2 >= dy;
        let ystep = e2 <= dx;
        let nx = if xstep {
            x + sx
        } else {
            x
        };
        let ny = if ystep {
            y + sy
        } else {
            y
        };
        let nerr = err + (if xstep {
            dy
        } else {
            0
        }) + (if ystep {
            dx
        } else {
            0
        });
        spec_bres(plotted, nx, ny, x1, y1, dx, dy, sx, sy, nerr, cell, (fuel - 1) as nat)
    }
}

/// Effect of a whole Bresenham line between two points: the step
/// constants and the starting error term are fixed from the endpoints,
/// and the fuel covers one step per cell of horizontal and vertical
/// distance, which the algorithm never exceeds.
pub open spec fn spec_diag(
    s: ScreenState,
    x0: int,
    y0: int,
    x1: int,
    y1: int,
    cell: ScreenChar,
) -> ScreenState {
    let dx = vstd::math::abs(x1 - x0) as int;
    let dy = -(vstd::math::abs(y1 - y0) as int);
    let sx: int = if x0 < x1 {
        1
    } else {
        -1
    };
    let sy: int = if y0 < y1 {
        1
    } else {
        -1
    };
    spec_bres(s, x0, y0, x1, y1, dx, dy, sx, sy, dx + dy, cell, (dx - dy) as nat)
}

/// The Bresenham error term stays within one machine word while the step
/// counts stay within their distances.
proof fn lemma_err_bound(a: int, b: int, dx: int, dy: int)
    by (nonlinear_arith)
    requires
        0 <= a <= dx,
        0 <= b <= -dy,
        dx <= 0x4000_0000,
        -dy <= 0x4000_0000,
        dy <= 0,
    ensures
        -0x2000_0000_0000_0000 <= (a + 1) * dy + (b + 1) * dx <= 0x2000_0000_0000_0000,
{
}

/// When the horizontal distance is exhausted but the vertical one is
/// not, the error term forbids a further horizontal step.
proof fn lemma_no_x_overshoot(a: int, b: int, dx: int, dy: int, err: int)
    by (nonlinear_arith)
    requires
        a == dx,
        0 <= b,
        b + 1 <= -dy,
        dy <= 0,
        0 <= dx,
        err == (a + 1) * dy + (b + 1) * dx,
    ensures
        2 * err < dy,
{
}

/// When the vertical distance is exhausted but the horizontal one is
/// not, the error term forbids a further vertical step.
proof fn lemma_no_y_overshoot(a: int, b: int, dx: int, dy: int, err: int)
    by (nonlinear_arith)
    requires
        b == -dy,
        0 <= a,
        a + 1 <= dx,
        dy <= 0,
        err == (a + 1) * dy + (b + 1) * dx,
    ensures
        2 * err > dx,
{
}

/// A handle for drawing with its own foreground and background colors.
pub struct Draw {
    fg_color: Color,
    bg_color: Color,
}

impl Draw {
    /// The foreground (text) color.
    pub closed spec fn fg(self) -> Color {
        self.fg_color
    }

    /// The background color.
    pub closed spec fn bg(self) -> Color {
        self.bg_color
    }

    /// The packed attribute byte that plots of this handle carry.
    pub open spec fn draw_color(self) -> ColorCode {
        ColorCode((color_value(self.bg()) * 16 + color_value(self.fg())) as u8)
    }

    /// The cell a plot of a glyph through this handle writes.
    pub open spec fn glyph_cell(self, glyph: u8) -> ScreenChar {
        ScreenChar { ascii_character: glyph, color_code: self.draw_color() }
    }

    /// A new handle with the default colors, white on black.
    pub fn new() -> (d: Draw)
        ensures
            d.fg() == Color::White,
            d.bg() == Color::Black,
    {
        Draw { fg_color: Color::White, bg_color: Color::Black }
    }

    /// Changes the foreground (text) color.
    pub fn set_fg_color(&mut self, color: Color)
        ensures
            final(self).fg() == color,
            final(self).bg() == old(self).bg(),
    {
        self.fg_color = color;
    }

    /// Changes the background color.
    pub fn set_bg_color(&mut self, color: Color)
        ensures
            final(self).bg() == color,
            final(self).fg() == old(self).fg(),
    {
        self.bg_color = color;
    }

    /// Plots a single glyph at column `x`, row `y` in this handle's
    /// colors; out-of-range coordinates are silently ignored.
    pub fn plot(&self, x: usize, y: usize, character: u8, w: &mut Writer)
        requires
            old(w)@.wf(),
        ensures
            final(w)@.wf(),
            final(w)@ == spec_put_cell(old(w)@, y as int, x as int, self.glyph_cell(character)),
    {
        let color_code = ColorCode::new(self.fg_color, self.bg_color);
        w.put_cell(y, x, ScreenChar { ascii_character: character, color_code });
    }

    /// Draws a horizontal run of box-drawing glyphs from column `x0` to
    /// column `x1`, inclusive, on row `y`.
    pub fn draw_horizontal_line(&self, x0: usize, x1: usize, y: usize, w: &mut Writer)
        requires
            old(w)@.wf(),
        ensures
            final(w)@.wf(),
            final(w)@ == if x0 <= x1 {
                spec_hseg(old(w)@, x0 as int, x1 as int, y as int, self.glyph_cell(0xC4))
            } else {
                old(w)@
            },
    {
        if x0 > x1 {
            return ;
        }
        let mut x = x0;
        while x < x1
            invariant
                old(w)@.wf(),
                w@.wf(),
                x0 <= x <= x1,
                w@.col == old(w)@.col,
                w@.color == old(w)@.color,
                forall|i: int|
                    0 <= i < 2000 ==> w@.grid[i] == if i / 80 == y && x0 <= i % 80 < x {
                        self.glyph_cell(0xC4)
                    } else {
                        old(w)@.grid[i]
                    },
            decreases x1 - x,
        {
            self.plot(x, y, 0xC4, w);
            x = x + 1;
        }
        self.plot(x1, y, 0xC4, w);
        proof {
            assert(w@.grid =~= spec_hseg(
                old(w)@,
                x0 as int,
                x1 as int,
                y as int,
                self.glyph_cell(0xC4),
            ).grid);
        }
    }

    /// Draws a vertical run of box-drawing glyphs from row `y0` to row
    /// `y1`, inclusive, on column `x`.
    pub fn draw_vertical_line(&self, y0: usize, y1: usize, x: usize, w: &mut Writer)
        requires
            old(w)@.wf(),
        ensures
            final(w)@.wf(),
            final(w)@ == if y0 <= y1 {
                spec_vseg(old(w)@, y0 as int, y1 as int, x as int, self.glyph_cell(0xB3))
            } else {
                old(w)@
            },
    {
        if y0 > y1 {
            return ;
        }
        let mut y = y0;
        while y < y1
            invariant
                old(w)@.wf(),
                w@.wf(),
                y0 <= y <= y1,
                w@.col == old(w)@.col,
                w@.color == old(w)@.color,
                forall|i: int|
                    0 <= i < 2000 ==> w@.grid[i] == if i % 80 == x && y0 <= i / 80 < y {
                        self.glyph_cell(0xB3)
                    } else {
                        old(w)@.grid[i]
                    },
            decreases y1 - y,
        {
            self.plot(x, y, 0xB3, w);
            y = y + 1;
        }
        self.plot(x, y1, 0xB3, w);
        proof {
            assert(w@.grid =~= spec_vseg(
                old(w)@,
                y0 as int,
                y1 as int,
                x as int,
                self.glyph_cell(0xB3),
            ).grid);
        }
    }

    /// Draws a diagonal (or arbitrary) line of `*` glyphs from (x0, y0)
    /// to (x1, y1) with the integer Bresenham algorithm. The coordinate
    /// bound keeps the error term inside a machine word.
    pub fn draw_diagonal_line(&self, x0: usize, y0: usize, x1: usize, y1: usize, w: &mut Writer)
        requires
            old(w)@.wf(),
            x0 < 0x4000_0000,
            y0 < 0x4000_0000,
            x1 < 0x4000_0000,
            y1 < 0x4000_0000,
        ensures
            final(w)@.wf(),
            final(w)@ == spec_diag(
                old(w)@,
                x0 as int,
                y0 as int,
                x1 as int,
                y1 as int,
                self.glyph_cell(0x2a),
            ),
    {
        let ghost cell = self.glyph_cell(0x2a);
        let mut cx = x0 as i64;
        let mut cy = y0 as i64;
        let tx = x1 as i64;
        let ty = y1 as i64;
        let dx = if tx >= cx {
            tx - cx
        } else {
            cx - tx
        };
        let dy = -(if ty >= cy {
            ty - cy
        } else {
            cy - ty
        });
        let mut err = dx + dy;
        let sx: i64 = if cx < tx {
            1
        } else {
            -1
        };
        let sy: i64 = if cy < ty {
            1
        } else {
            -1
        };
        let ghost mut a: int = 0;
        let ghost mut b: int = 0;
        let ghost mut fuel_rem: int = dx - dy;
        proof {
            assert(err == (a + 1) * dy + (b + 1) * dx) by (nonlinear_arith)
                requires
                    a == 0 && b == 0 && err == dx + dy,
            ;
            assert(x1 == x0 + sx * dx && y1 == y0 + sy * (-dy) && cx == x0 + sx * a && cy == y0
                + sy * b) by (nonlinear_arith)
                requires
                    a == 0 && b == 0 && cx == x0 && cy == y0 && (sx == 1 || sx == -1) && (sy == 1
                        || sy == -1) && dx == vstd::math::abs(x1 as int - x0 as int) && dy == -(
                    vstd::math::abs(y1 as int - y0 as int) as int) && sx == (if (x0 as int) < x1 as int {
                        1int
                    } else {
                        -1int
                    }) && sy == (if (y0 as int) < y1 as int {
                        1int
                    } else {
                        -1int
                    }),
            ;
        }
        while cx != tx || cy != ty
            invariant
                old(w)@.wf(),
                w@.wf(),
                x0 < 0x4000_0000,
                y0 < 0x4000_0000,
                x1 < 0x4000_0000,
                y1 < 0x4000_0000,
                tx == x1,
                ty == y1,
                cell == self.glyph_cell(0x2a),
                dx == vstd::math::abs(x1 as int - x0 as int) as int,
                dy == -(vstd::math::abs(y1 as int - y0 as int) as int),
                0 <= dx < 0x4000_0000,
                0 >= dy > -0x4000_0000,
                sx == (if (x0 as int) < x1 as int {
                    1int
                } else {
                    -1int
                }),
                sy == (if (y0 as int) < y1 as int {
                    1int
                } else {
                    -1int
                }),
                x1 == x0 + sx * dx,
                y1 == y0 + sy * (-dy),
                0 <= a <= dx,
                0 <= b <= -dy,
                cx == x0 + sx * a,
                cy == y0 + sy * b,
                0 <= cx < 0x4000_0000,
                0 <= cy < 0x4000_0000,
                err == (a + 1) * dy + (b + 1) * dx,
                (cx == tx) <==> (a == dx),
                (cy == ty) <==> (b == -dy),
                fuel_rem >= (dx - a) + (-dy - b),
                spec_diag(
                    old(w)@,
                    x0 as int,
                    y0 as int,
                    x1 as int,
                    y1 as int,
                    cell,
                ) == spec_bres(
                    w@,
                    cx as int,
                    cy as int,
                    x1 as int,
                    y1 as int,
                    dx as int,
                    dy as int,
                    sx as int,
                    sy as int,
                    err as int,
                    cell,
                    fuel_rem as nat,
                ),
            decreases (dx - a) + (-dy - b),
        {
            let ghost w_pre = w@;
            let ghost cx0 = cx as int;
            let ghost cy0 = cy as int;
            self.plot(cx as usize, cy as usize, 0x2a, w);
            proof {
                assert(w@ == spec_put_cell(w_pre, cy0, cx0, cell));
                lemma_err_bound(a, b, dx as int, dy as int);
                assert(-0x2000_0000_0000_0000 <= err <= 0x2000_0000_0000_0000);
                if a == dx {
                    lemma_no_x_overshoot(a, b, dx as int, dy as int, err as int);
                }
                if b == -dy {
                    lemma_no_y_overshoot(a, b, dx as int, dy as int, err as int);
                }
            }
            let e2 = 2 * err;
            let ghost a0 = a;
            let ghost b0 = b;
            let ghost err0 = err as int;
            if e2 >= dy {
                err = err + dy;
                cx = cx + sx;
                proof {
                    a = a + 1;
                    assert(cx == x0 + sx * a && err == (a + 1) * dy + (b + 1) * dx && ((cx
                        == tx) <==> (a == dx))) by (nonlinear_arith)
                        requires
                            cx == x0 + sx * a0 + sx,
                            a == a0 + 1,
                            err == err0 + dy,
                            err0 == (a0 + 1) * dy + (b + 1) * dx,
                            tx == x0 + sx * dx,
                            sx == 1 || sx == -1,
                            a <= dx,
                    ;
                }
            }
            if e2 <= dx {
                err = err + dx;
                cy = cy + sy;
                proof {
                    let ghost err1 = err0 + (if 2 * err0 >= dy {
                        dy as int
                    } else {
                        0int
                    });
                    b = b + 1;
                    assert(cy == y0 + sy * b && ((cy == ty) <==> (b == -dy))) by (nonlinear_arith)
                        requires
                            cy == y0 + sy * b0 + sy,
                            b == b0 + 1,
                            ty == y0 + sy * (-dy),
                            sy == 1 || sy == -1,
                            b <= -dy,
                    ;
                    assert(err == (a + 1) * dy + (b + 1) * dx) by (nonlinear_arith)
                        requires
                            b == b0 + 1,
                            err == (a + 1) * dy + (b0 + 1) * dx + dx,
                    ;
                }
            }
            proof {
                fuel_rem = fuel_rem - 1;
                let e2g = 2 * err0;
                assert(cx0 != x1 || cy0 != y1);
                assert(fuel_rem >= 0);
                assert(cx == if e2g >= dy {
                    cx0 + sx
                } else {
                    cx0
                });
                assert(cy == if e2g <= dx {
                    cy0 + sy
                } else {
                    cy0
                });
                assert(err == err0 + (if e2g >= dy {
                    dy as int
                } else {
                    0int
                }) + (if e2g <= dx {
                    dx as int
                } else {
                    0int
                }));
                assert(spec_bres(
                    w_pre,
                    cx0,
                    cy0,
                    x1 as int,
                    y1 as int,
                    dx as int,
                    dy as int,
                    sx as int,
                    sy as int,
                    err0,
                    cell,
                    (fuel_rem + 1) as nat,
                ) == spec_bres(
                    w@,
                    cx as int,
                    cy as int,
                    x1 as int,
                    y1 as int,
                    dx as int,
                    dy as int,
                    sx as int,
                    sy as int,
                    err as int,
                    cell,
                    fuel_rem as nat,
                ));
            }
        }
        self.plot(cx as usize, cy as usize, 0x2a, w);
    }

    /// Draws a line, picking the right method: a horizontal run when the
    /// rows agree, a vertical run when the columns agree, and the
    /// Bresenham algorithm otherwise.
    pub fn draw_line(&self, x0: usize, y0: usize, x1: usize, y1: usize, w: &mut Writer)
        requires
            old(w)@.wf(),
            x0 != x1 && y0 != y1 ==> x0 < 0x4000_0000 && y0 < 0x4000_0000 && x1 < 0x4000_0000 && y1
                < 0x4000_0000,
        ensures
            final(w)@.wf(),
            y0 == y1 ==> final(w)@ == spec_hseg(
                old(w)@,
                vstd::math::min(x0 as int, x1 as int),
                vstd::math::max(x0 as int, x1 as int),
                y0 as int,
                self.glyph_cell(0xC4),
            ),
            x0 == x1 && y0 != y1 ==> final(w)@ == spec_vseg(
                old(w)@,
                vstd::math::min(y0 as int, y1 as int),
                vstd::math::max(y0 as int, y1 as int),
                x0 as int,
                self.glyph_cell(0xB3),
            ),
            x0 != x1 && y0 != y1 ==> final(w)@ == spec_diag(
                old(w)@,
                x0 as int,
                y0 as int,
                x1 as int,
                y1 as int,
                self.glyph_cell(0x2a),
            ),
    {
        if y0 == y1 {
            let lo = if x0 < x1 {
                x0
            } else {
                x1
            };
            let hi = if x0 < x1 {
                x1
            } else {
                x0
            };
            self.draw_horizontal_line(lo, hi, y0, w);
        } else if x0 == x1 {
            let lo = if y0 < y1 {
                y0
            } else {
                y1
            };
            let hi = if y0 < y1 {
                y1
            } else {
                y0
            };
            self.draw_vertical_line(lo, hi, x0, w);
        } else {
            self.draw_diagonal_line(x0, y0, x1, y1, w);
        }
    }

    /// Effect of a box between two corners: the four corner glyphs, the
    /// top and bottom edges between them, and the left and right edges.
    pub open spec fn spec_box(self, s: ScreenState, x0: int, y0: int, x1: int, y1: int) -> ScreenState {
        let xmin = vstd::math::min(x0, x1);
        let xmax = vstd::math::max(x0, x1);
        let ymin = vstd::math::min(y0, y1);
        let ymax = vstd::math::max(y0, y1);
        let s1 = spec_put_cell(s, ymin, xmin, self.glyph_cell(0xDA));
        let s2 = spec_put_cell(s1, ymin, xmax, self.glyph_cell(0xBF));
        let s3 = spec_put_cell(s2, ymax, xmin, self.glyph_cell(0xC0));
        let s4 = spec_put_cell(s3, ymax, xmax, self.glyph_cell(0xD9));
        let s5 = if xmin + 1 <= xmax - 1 {
            spec_hseg(s4, xmin + 1, xmax - 1, ymin, self.glyph_cell(0xC4))
        } else {
            s4
        };
        let s6 = if xmin + 1 <= xmax - 1 {
            spec_hseg(s5, xmin + 1, xmax - 1, ymax, self.glyph_cell(0xC4))
        } else {
            s5
        };
        let s7 = if ymin + 1 <= ymax - 1 {
            spec_vseg(s6, ymin + 1, ymax - 1, xmin, self.glyph_cell(0xB3))
        } else {
            s6
        };
        if ymin + 1 <= ymax - 1 {
            spec_vseg(s7, ymin + 1, ymax - 1, xmax, self.glyph_cell(0xB3))
        } else {
            s7
        }
    }

    /// Draws a box between two corners with line-drawing glyphs: corners,
    /// then horizontal edges, then vertical edges.
    pub fn draw_box(&self, x0: usize, y0: usize, x1: usize, y1: usize, w: &mut Writer)
        requires
            old(w)@.wf(),
            x0 >= 1 || x1 >= 1,
            y0 >= 1 || y1 >= 1,
            x0 < usize::MAX,
            x1 < usize::MAX,
            y0 < usize::MAX,
            y1 < usize::MAX,
        ensures
            final(w)@.wf(),
            final(w)@ == self.spec_box(old(w)@, x0 as int, y0 as int, x1 as int, y1 as int),
    {
        let x_min = if x0 < x1 {
            x0
        } else {
            x1
        };
        let x_max = if x0 < x1 {
            x1
        } else {
            x0
        };
        let y_min = if y0 < y1 {
            y0
        } else {
            y1
        };
        let y_max = if y0 < y1 {
            y1
        } else {
            y0
        };
        self.plot(x_min, y_min, 0xDA, w);
        self.plot(x_max, y_min, 0xBF, w);
        self.plot(x_min, y_max, 0xC0, w);
        self.plot(x_max, y_max, 0xD9, w);
        self.draw_horizontal_line(x_min + 1, x_max - 1, y_min, w);
        self.draw_horizontal_line(x_min + 1, x_max - 1, y_max, w);
        self.draw_vertical_line(y_min + 1, y_max - 1, x_min, w);
        self.draw_vertical_line(y_min + 1, y_max - 1, x_max, w);
    }

    /// Effect of placing text on one row: the bytes land left to right
    /// from the given column in this handle's colors and stop at the
    /// screen's right edge.
    pub open spec fn spec_text(self, s: ScreenState, x: int, y: int, bytes: Seq<u8>) -> ScreenState {
        ScreenState {
            grid: Seq::new(
                2000,
                |i: int|
                    if i / 80 == y && x <= i % 80 && i % 80 - x < bytes.len() {
                        self.glyph_cell(bytes[i % 80 - x])
                    } else {
                        s.grid[i]
                    },
            ),
            ..s
        }
    }

    /// Draws text at a position, stopping at the screen's right edge.
    pub fn draw_text(&self, x: usize, y: usize, text: &[u8], w: &mut Writer)
        requires
            old(w)@.wf(),
            y < 25,
        ensures
            final(w)@.wf(),
            final(w)@ == self.spec_text(old(w)@, x as int, y as int, text@),
    {
        let n = text.len();
        let mut idx: usize = 0;
        let mut col = x;
        while idx < n && col < 80
            invariant
                old(w)@.wf(),
                w@.wf(),
                idx <= n,
                n == text@.len(),
                col == x + idx,
                y < 25,
                w@.col == old(w)@.col,
                w@.color == old(w)@.color,
                forall|i: int|
                    0 <= i < 2000 ==> w@.grid[i] == if i / 80 == y && x <= i % 80 && i % 80 - x
                        < idx {
                        self.glyph_cell(text@[i % 80 - x])
                    } else {
                        old(w)@.grid[i]
                    },
            decreases n - idx,
        {
            self.plot(col, y, text[idx], w);
            col = col + 1;
            idx = idx + 1;
        }
        proof {
            assert(w@.grid =~= self.spec_text(old(w)@, x as int, y as int, text@).grid);
        }
    }

    /// Effect of wrapped text inside a box: bytes fill the interior left
    /// to right from just inside the top-left corner, wrapping to the
    /// left interior column at the right edge or on a newline, and the
    /// text stops when it runs past the bottom edge.
    pub open spec fn spec_text_box(
        self,
        s: ScreenState,
        bytes: Seq<u8>,
        col: int,
        row: int,
        x0: int,
        x1: int,
        y1: int,
    ) -> ScreenState
        decreases bytes.len(),
    {
        if bytes.len() == 0 {
            s
        } else {
            let byte = bytes[0];
            if row > y1 - 1 {
                s
            } else if col > x1 - 1 || byte == 10 {
                let nrow = row + 1;
                if nrow > y1 {
                    s
                } else if byte == 10 {
                    self.spec_text_box(s, bytes.drop_first(), x0, nrow, x0, x1, y1)
                } else {
                    self.spec_text_box(
                        spec_put_cell(s, nrow, x0, self.glyph_cell(byte)),
                        bytes.drop_first(),
                        x0 + 1,
                        nrow,
                        x0,
                        x1,
                        y1,
                    )
                }
            } else {
                self.spec_text_box(
                    spec_put_cell(s, row, col, self.glyph_cell(byte)),
                    bytes.drop_first(),
                    col + 1,
                    row,
                    x0,
                    x1,
                    y1,
                )
            }
        }
    }

    /// Draws text with wrapping inside the box with corners (x0, y0) and
    /// (x1, y1), starting just inside the top-left corner.
    pub fn draw_text_box(
        &self,
        x0: usize,
        y0: usize,
        x1: usize,
        y1: usize,
        text: &[u8],
        w: &mut Writer,
    )
        requires
            old(w)@.wf(),
            x1 >= 1,
            y1 >= 1,
            x0 + 1 < usize::MAX,
            x1 < usize::MAX,
            y1 < usize::MAX,
            y0 < usize::MAX,
        ensures
            final(w)@.wf(),
            final(w)@ == self.spec_text_box(
                old(w)@,
                text@,
                x0 as int + 1,
                y0 as int + 1,
                x0 as int,
                x1 as int,
                y1 as int,
            ),
    {
        let n = text.len();
        let mut col = x0 + 1;
        let mut row = y0 + 1;
        let mut i: usize = 0;
        let mut stop = false;
        proof {
            assert(text@.skip(0) =~= text@);
        }
        while i < n && !stop
            invariant
                old(w)@.wf(),
                w@.wf(),
                i <= n,
                n == text@.len(),
                x1 >= 1,
                y1 >= 1,
                x0 + 1 < usize::MAX,
                x1 < usize::MAX,
                y1 < usize::MAX,
                col <= x1 || col <= x0 + 1,
                row <= y1 || row == y0 + 1,
                self.spec_text_box(
                    old(w)@,
                    text@,
                    x0 as int + 1,
                    y0 as int + 1,
                    x0 as int,
                    x1 as int,
                    y1 as int,
                ) == if stop {
                    w@
                } else {
                    self.spec_text_box(
                        w@,
                        text@.skip(i as int),
                        col as int,
                        row as int,
                        x0 as int,
                        x1 as int,
                        y1 as int,
                    )
                },
            decreases n - i + (if stop {
                0int
            } else {
                1int
            }),
        {
            let ghost rest = text@.skip(i as int);
            proof {
                assert(rest[0] == text@[i as int]);
                assert(rest.drop_first() =~= text@.skip(i as int + 1));
            }
            let byte = text[i];
            if row > y1 - 1 {
                stop = true;
            } else {
                let mut skip_write = false;
                if col > x1 - 1 || byte == 0x0a {
                    row = row + 1;
                    col = x0;
                    if row > y1 {
                        stop = true;
                        skip_write = true;
                    } else if byte == 0x0a {
                        skip_write = true;
                    }
                }
                if !skip_write {
                    self.plot(col, row, byte, w);
                    col = col + 1;
                }
                i = i + 1;
            }
        }
        proof {
            if !stop {
                assert(text@.skip(n as int) =~= Seq::<u8>::empty());
            }
        }
    }
}

} // verus!

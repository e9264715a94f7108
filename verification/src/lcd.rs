//! The display: two double-buffered layers of packed 16-bit pixels,
//! addressed row-major. Pixel addressing computes the physical word
//! address a point maps to; all drawing goes through one narrow write
//! that clips out-of-range points instead of faulting.

use crate::color::Color;
use crate::primitives::Line;
use crate::primitives::Point;
use crate::primitives::max2;
use crate::primitives::Rect;
use vstd::prelude::*;

verus! {

/// Horizontal pixel count of the display.
pub const LCD_WIDTH: u16 = 480;

/// Vertical pixel count of the display.
pub const LCD_HEIGHT: u16 = 272;

/// Pixels in one layer's framebuffer.
pub const PIXELS_PER_LAYER: usize = 480 * 272;

/// First byte of the memory-mapped framebuffer region.
pub const FRAMEBUFFER_BASE: u32 = 0xC000_0000;

/// One of the two framebuffer regions used for double buffering.
#[derive(Copy, Clone, Debug, PartialEq, Eq, Structural)]
pub enum Layer {
    Layer1,
    Layer2,
}

/// The layer a given layer is paired with.
pub open spec fn other_layer(l: Layer) -> Layer {
    match l {
        Layer::Layer1 => Layer::Layer2,
        Layer::Layer2 => Layer::Layer1,
    }
}

/// The whole display area as a rect at the origin.
pub open spec fn spec_lcd_size() -> Rect {
    Rect { origin: Point { x: 0, y: 0 }, width: LCD_WIDTH, height: LCD_HEIGHT }
}

/// The whole display area as a rect at the origin.
pub fn lcd_size() -> (r: Rect)
    ensures
        r == spec_lcd_size(),
{
    Rect { origin: Point { x: 0, y: 0 }, width: LCD_WIDTH, height: LCD_HEIGHT }
}

/// The display: one packed-pixel buffer per layer, plus the device's
/// background-color register.
pub struct Lcd {
    pub layer1: Vec<u16>,
    pub layer2: Vec<u16>,
    pub background: u32,
}

impl Lcd {
    /// Both layer buffers hold exactly one word per pixel.
    pub open spec fn wf(self) -> bool {
        self.layer1@.len() == PIXELS_PER_LAYER && self.layer2@.len() == PIXELS_PER_LAYER
    }

    /// The pixel words of one layer, row-major.
    pub open spec fn layer_view(self, l: Layer) -> Seq<u16> {
        match l {
            Layer::Layer1 => self.layer1@,
            Layer::Layer2 => self.layer2@,
        }
    }

    /// The pixel word at column `x`, row `y` of one layer.
    pub open spec fn pixel(self, l: Layer, x: int, y: int) -> u16 {
        self.layer_view(l)[y * (LCD_WIDTH as int) + x]
    }

    /// A display whose layers are cleared to zero.
    pub fn new() -> (r: Lcd)
        ensures
            r.wf(),
            r.background == 0,
            forall|l: Layer, x: int, y: int|
                0 <= x < LCD_WIDTH && 0 <= y < LCD_HEIGHT ==> #[trigger] r.pixel(l, x, y) == 0,
    {
        let r = Lcd { layer1: zero_buffer(), layer2: zero_buffer(), background: 0 };
        proof {
            assert forall|l: Layer, x: int, y: int|
                0 <= x < LCD_WIDTH && 0 <= y < LCD_HEIGHT implies #[trigger] r.pixel(l, x, y)
                == 0 by {
                lemma_cell_index_bounds(x, y);
            }
        }
        r
    }

    /// The physical address of a point's pixel word in a layer:
    /// the layer base plus two bytes per pixel, row-major.
    pub fn point_addr(&self, point: Point, layer: Layer) -> (r: u32)
        requires
            point.x < LCD_WIDTH,
            point.y < LCD_HEIGHT,
        ensures
            r == FRAMEBUFFER_BASE + spec_layer_index(layer) * (LCD_WIDTH as int) * (
            LCD_HEIGHT as int) * 2 + (point.y * (LCD_WIDTH as int) + point.x) * 2,
    {
        let base: u32 = match layer {
            Layer::Layer1 => FRAMEBUFFER_BASE,
            Layer::Layer2 => {
                let mut addr = LCD_WIDTH as u32;
                addr *= LCD_HEIGHT as u32;
                addr *= 2;
                addr += FRAMEBUFFER_BASE;
                addr
            },
        };
        let mut pixel_offset: u32 = point.y as u32;
        pixel_offset *= LCD_WIDTH as u32;
        pixel_offset += point.x as u32;
        pixel_offset *= 2;
        base + pixel_offset
    }

    /// Set the device's background-color register.
    pub fn set_background_color(&mut self, color: Color)
        ensures
            final(self).background == color.red * 65536 + color.green * 256 + color.blue,
            final(self).layer1 == old(self).layer1,
            final(self).layer2 == old(self).layer2,
    {
        self.background = color.to_rgb();
    }

    /// Write one packed pixel; points outside the display are clipped
    /// (the write becomes a no-op), never a fault.
    pub fn draw_point_color(&mut self, p: Point, l: Layer, c: u16)
        requires
            old(self).wf(),
        ensures
            final(self).wf(),
            final(self).background == old(self).background,
            final(self).layer_view(other_layer(l)) == old(self).layer_view(other_layer(l)),
            p.x < LCD_WIDTH && p.y < LCD_HEIGHT ==> final(self).layer_view(l) == old(
                self,
            ).layer_view(l).update(p.y * (LCD_WIDTH as int) + p.x, c),
            !(p.x < LCD_WIDTH && p.y < LCD_HEIGHT) ==> *final(self) == *old(self),
    {
        if !(p.x < LCD_WIDTH && p.y < LCD_HEIGHT) {
            return ;
        }
        proof {
            lemma_cell_index_bounds(p.x as int, p.y as int);
        }
        let idx: usize = p.y as usize * LCD_WIDTH as usize + p.x as usize;
        match l {
            Layer::Layer1 => {
                self.layer1.set(idx, c);
            },
            Layer::Layer2 => {
                self.layer2.set(idx, c);
            },
        }
    }
}

/// A rect covers a cell when the cell lies in `[origin, origin + extent)`,
/// the same far-edge-exclusive policy as `Rect::foreach_point`.
pub open spec fn rect_covers_cell(r: Rect, x: int, y: int) -> bool {
    &&& r.origin.x <= x < r.origin.x + r.width
    &&& r.origin.y <= y < r.origin.y + r.height
}

impl Lcd {
    /// Fill every cell of `r` (far edge exclusive) with one packed color,
    /// clipping to the display.
    pub fn fill_rect_color(&mut self, r: Rect, l: Layer, c: u16)
        requires
            old(self).wf(),
            r.valid(),
        ensures
            final(self).wf(),
            final(self).background == old(self).background,
            final(self).layer_view(other_layer(l)) == old(self).layer_view(other_layer(l)),
            forall|x: int, y: int|
                0 <= x < LCD_WIDTH && 0 <= y < LCD_HEIGHT ==> #[trigger] final(self).pixel(l, x, y)
                    == if rect_covers_cell(r, x, y) {
                    c
                } else {
                    old(self).pixel(l, x, y)
                },
    {
        let ghost orig = *old(self);
        let mut i: u16 = 0;
        while i < r.height
            invariant
                self.wf(),
                orig.wf(),
                r.valid(),
                i <= r.height,
                self.background == orig.background,
                self.layer_view(other_layer(l)) == orig.layer_view(other_layer(l)),
                forall|x: int, y: int|
                    0 <= x < LCD_WIDTH && 0 <= y < LCD_HEIGHT ==> #[trigger] self.pixel(l, x, y)
                        == if rect_covers_cell(r, x, y) && y < r.origin.y + i {
                        c
                    } else {
                        orig.pixel(l, x, y)
                    },
            decreases r.height - i,
        {
            let mut j: u16 = 0;
            while j < r.width
                invariant
                    self.wf(),
                    orig.wf(),
                    r.valid(),
                    i < r.height,
                    j <= r.width,
                    self.background == orig.background,
                    self.layer_view(other_layer(l)) == orig.layer_view(other_layer(l)),
                    forall|x: int, y: int|
                        0 <= x < LCD_WIDTH && 0 <= y < LCD_HEIGHT ==> #[trigger] self.pixel(
                            l,
                            x,
                            y,
                        ) == if rect_covers_cell(r, x, y) && (y < r.origin.y + i || (y
                            == r.origin.y + i && x < r.origin.x + j)) {
                            c
                        } else {
                            orig.pixel(l, x, y)
                        },
                decreases r.width - j,
            {
                let ghost before = *self;
                let p = Point { x: r.origin.x + j, y: r.origin.y + i };
                self.draw_point_color(p, l, c);
                proof {
                    assert forall|x: int, y: int|
                        0 <= x < LCD_WIDTH && 0 <= y < LCD_HEIGHT implies #[trigger] self.pixel(
                        l,
                        x,
                        y,
                    ) == if rect_covers_cell(r, x, y) && (y < r.origin.y + i || (y == r.origin.y + i
                        && x < r.origin.x + j + 1)) {
                        c
                    } else {
                        orig.pixel(l, x, y)
                    } by {
                        let w = LCD_WIDTH as int;
                        assert(before.pixel(l, x, y) == if rect_covers_cell(r, x, y) && (y
                            < r.origin.y + i || (y == r.origin.y + i && x < r.origin.x + j)) {
                            c
                        } else {
                            orig.pixel(l, x, y)
                        });
                        if p.x < LCD_WIDTH && p.y < LCD_HEIGHT {
                            lemma_cell_index_bounds(x, y);
                            lemma_cell_index_bounds(p.x as int, p.y as int);
                            assert(self.layer_view(l) == before.layer_view(l).update(
                                p.y * w + p.x,
                                c,
                            ));
                            if x == p.x && y == p.y {
                                assert(self.pixel(l, x, y) == c);
                            } else {
                                if y * w + x == p.y * w + p.x {
                                    lemma_cell_index_injective(x, y, p.x as int, p.y as int);
                                }
                                assert(self.pixel(l, x, y) == before.pixel(l, x, y));
                            }
                        } else {
                            assert(self.pixel(l, x, y) == before.pixel(l, x, y));
                        }
                    }
                }
                j += 1;
            }
            i += 1;
        }
    }

    /// Clear both layers to the zero color's packed form.
    pub fn clear_screen(&mut self)
        requires
            old(self).wf(),
        ensures
            final(self).wf(),
            final(self).background == old(self).background,
            forall|l: Layer, x: int, y: int|
                0 <= x < LCD_WIDTH && 0 <= y < LCD_HEIGHT ==> #[trigger] final(self).pixel(l, x, y)
                    == 0,
    {
        let clear = Color { red: 0, green: 0, blue: 0, alpha: 0 };
        let packed = clear.to_argb1555();
        self.fill_rect_color(lcd_size(), Layer::Layer1, packed);
        let ghost mid = *self;
        self.fill_rect_color(lcd_size(), Layer::Layer2, packed);
        proof {
            assert forall|l: Layer, x: int, y: int|
                0 <= x < LCD_WIDTH && 0 <= y < LCD_HEIGHT implies #[trigger] self.pixel(l, x, y)
                == 0 by {
                assert(rect_covers_cell(spec_lcd_size(), x, y));
                match l {
                    Layer::Layer1 => {
                        assert(self.layer_view(Layer::Layer1) == mid.layer_view(Layer::Layer1));
                        assert(mid.pixel(Layer::Layer1, x, y) == packed);
                    },
                    Layer::Layer2 => {
                        assert(self.pixel(Layer::Layer2, x, y) == packed);
                    },
                }
            }
        }
    }
}

/// One step state of the rasterizer walk, written as a recursion: emit the
/// current point; when the target is not yet reached, move one step on each
/// axis whose error condition fires, always toward the target. The guards
/// `x != x1` / `y != y1` keep the recursion well founded; a run started from
/// `spec_line_points` never needs them.
pub open spec fn bres_rec(x: int, y: int, x1: int, y1: int, err: int, dx: int, dy: int) -> Seq<
    Point,
>
    decreases vstd::math::abs(x1 - x) + vstd::math::abs(y1 - y),
{
    let pt = Point { x: x as u16, y: y as u16 };
    if x == x1 && y == y1 {
        seq![pt]
    } else {
        let e2 = 2 * err;
        let step_x = e2 > dy && x != x1;
        let step_y = e2 < dx && y != y1;
        if !step_x && !step_y {
            seq![pt]
        } else {
            let nx = if step_x {
                if x < x1 {
                    x + 1
                } else {
                    x - 1
                }
            } else {
                x
            };
            let ny = if step_y {
                if y < y1 {
                    y + 1
                } else {
                    y - 1
                }
            } else {
                y
            };
            let nerr = err + (if step_x {
                dy
            } else {
                0
            }) + (if step_y {
                dx
            } else {
                0
            });
            seq![pt] + bres_rec(nx, ny, x1, y1, nerr, dx, dy)
        }
    }
}

/// The points the rasterizer visits for a line, both endpoints included.
pub open spec fn spec_line_points(line: Line) -> Seq<Point> {
    let dx = vstd::math::abs(line.to.x - line.from.x) as int;
    let dy = -(vstd::math::abs(line.to.y - line.from.y) as int);
    bres_rec(
        line.from.x as int,
        line.from.y as int,
        line.to.x as int,
        line.to.y as int,
        dx + dy,
        dx,
        dy,
    )
}

/// Rasterize a line with the integer error-accumulator walk: both endpoints
/// inclusive, one point per step, each step moving at most one cell on each
/// axis, always toward the target. The count is pinned for the straight
/// cases: an axis-aligned or 45-degree line yields exactly
/// `max(|dx|, |dy|) + 1` points.
pub fn line_points(line: Line) -> (r: Vec<Point>)
    ensures
        r@ == spec_line_points(line),
        r@.len() >= vstd::math::abs(line.to.x - line.from.x) + 1,
        r@.len() >= vstd::math::abs(line.to.y - line.from.y) + 1,
        r@.len() <= vstd::math::abs(line.to.x - line.from.x) + vstd::math::abs(
            line.to.y - line.from.y,
        ) + 1,
        line.from.y == line.to.y ==> r@.len() == vstd::math::abs(line.to.x - line.from.x) + 1,
        line.from.x == line.to.x ==> r@.len() == vstd::math::abs(line.to.y - line.from.y) + 1,
        vstd::math::abs(line.to.x - line.from.x) == vstd::math::abs(line.to.y - line.from.y)
            ==> r@.len() == vstd::math::abs(line.to.x - line.from.x) + 1,
        r@[0] == line.from,
        r@[r@.len() - 1] == line.to,
        forall|k: int|
            0 <= k < r@.len() ==> min2(line.from.x as int, line.to.x as int) <= (
            #[trigger] r@[k]).x <= max2(line.from.x as int, line.to.x as int) && min2(
                line.from.y as int,
                line.to.y as int,
            ) <= r@[k].y <= max2(line.from.y as int, line.to.y as int),
{
    let x0 = line.from.x as i64;
    let y0 = line.from.y as i64;
    let x1 = line.to.x as i64;
    let y1 = line.to.y as i64;
    let dx: i64 = if x0 >= x1 {
        x0 - x1
    } else {
        x1 - x0
    };
    let dy: i64 = if y0 >= y1 {
        y1 - y0
    } else {
        y0 - y1
    };
    let mut err: i64 = dx + dy;
    let mut x = x0;
    let mut y = y0;
    let mut out: Vec<Point> = Vec::new();
    let ghost full = spec_line_points(line);
    proof {
        assert(vstd::math::abs(x1 - x0) * dy + vstd::math::abs(y1 - y0) * dx == 0)
            by (nonlinear_arith)
            requires
                dx == vstd::math::abs(x1 - x0),
                dy == -(vstd::math::abs(y1 - y0) as int),
        ;
    }
    loop
        invariant_except_break
            dx == vstd::math::abs(x1 - x0),
            dy == -(vstd::math::abs(y1 - y0) as int),
            min2(x0 as int, x1 as int) <= x <= max2(x0 as int, x1 as int),
            min2(y0 as int, y1 as int) <= y <= max2(y0 as int, y1 as int),
            0 <= x0 <= u16::MAX && 0 <= y0 <= u16::MAX,
            0 <= x1 <= u16::MAX && 0 <= y1 <= u16::MAX,
            x0 == line.from.x && y0 == line.from.y && x1 == line.to.x && y1 == line.to.y,
            err == dx + dy - vstd::math::abs(x1 - x) * dy - vstd::math::abs(y1 - y) * dx,
            full == out@ + bres_rec(x as int, y as int, x1 as int, y1 as int, err as int, dx as int, dy as int),
            out@.len() >= dx - vstd::math::abs(x1 - x),
            out@.len() >= -dy - vstd::math::abs(y1 - y),
            out@.len() <= (dx - vstd::math::abs(x1 - x)) + (-dy - vstd::math::abs(y1 - y)),
            dx == -dy ==> vstd::math::abs(x1 - x) == vstd::math::abs(y1 - y) && out@.len() == dx
                - vstd::math::abs(x1 - x),
            forall|k: int|
                0 <= k < out@.len() ==> min2(x0 as int, x1 as int) <= (#[trigger] out@[k]).x
                    <= max2(x0 as int, x1 as int) && min2(y0 as int, y1 as int) <= out@[k].y
                    <= max2(y0 as int, y1 as int),
            out@.len() > 0 ==> out@[0] == line.from,
        ensures
            out@ == full,
            out@.len() >= dx + 1,
            out@.len() >= -dy + 1,
            out@.len() <= dx - dy + 1,
            dx == -dy ==> out@.len() == dx + 1,
            out@[0] == line.from,
            out@[out@.len() - 1] == line.to,
            forall|k: int|
                0 <= k < out@.len() ==> min2(x0 as int, x1 as int) <= (#[trigger] out@[k]).x
                    <= max2(x0 as int, x1 as int) && min2(y0 as int, y1 as int) <= out@[k].y
                    <= max2(y0 as int, y1 as int),
        decreases vstd::math::abs(x1 - x) + vstd::math::abs(y1 - y),
    {
        out.push(Point { x: x as u16, y: y as u16 });
        if x == x1 && y == y1 {
            break ;
        }
        let ghost rx = vstd::math::abs(x1 - x) as int;
        let ghost ry = vstd::math::abs(y1 - y) as int;
        proof {
            assert(-8590000000 < err < 8590000000) by (nonlinear_arith)
                requires
                    err == dx + dy - rx * dy - ry * dx,
                    0 <= dx <= 65535,
                    -65535 <= dy <= 0,
                    0 <= rx <= 65535,
                    0 <= ry <= 65535,
            ;
        }
        let e2 = 2 * err;
        proof {
            if rx == 0 && ry > 0 {
                assert(!(e2 > dy)) by (nonlinear_arith)
                    requires
                        e2 == 2 * (dx + dy - rx * dy - ry * dx),
                        rx == 0,
                        ry >= 1,
                        dy <= -1,
                        dx >= 0,
                ;
            }
            if ry == 0 && rx > 0 {
                assert(!(e2 < dx)) by (nonlinear_arith)
                    requires
                        e2 == 2 * (dx + dy - rx * dy - ry * dx),
                        ry == 0,
                        rx >= 1,
                        dx >= 1,
                        dy <= 0,
                ;
            }
            if !(e2 > dy) && !(e2 < dx) {
                assert(dx == 0 && dy == 0);
                assert(rx == 0 && ry == 0);
                assert(false);
            }
            if dx == -dy {
                assert(rx == ry);
                assert(rx >= 1 && dx >= rx);
                assert(err == 0) by (nonlinear_arith)
                    requires
                        err == dx + dy - rx * dy - ry * dx,
                        dy == -dx,
                        rx == ry,
                ;
            }
        }
        let step_x = e2 > dy;
        let step_y = e2 < dx;
        proof {
            assert(step_x ==> rx >= 1);
            assert(step_y ==> ry >= 1);
            let nrx = if step_x {
                rx - 1
            } else {
                rx
            };
            let nry = if step_y {
                ry - 1
            } else {
                ry
            };
            let nerr = err + (if step_x {
                dy
            } else {
                0
            }) + (if step_y {
                dx
            } else {
                0
            });
            assert(nerr == dx + dy - nrx * dy - nry * dx) by (nonlinear_arith)
                requires
                    err == dx + dy - rx * dy - ry * dx,
                    nerr == err + (if step_x {
                        dy as int
                    } else {
                        0int
                    }) + (if step_y {
                        dx as int
                    } else {
                        0int
                    }),
                    nrx == if step_x {
                        rx - 1int
                    } else {
                        rx
                    },
                    nry == if step_y {
                        ry - 1int
                    } else {
                        ry
                    },
            ;
        }
        if step_x {
            err += dy;
            x += if x < x1 {
                1
            } else {
                -1
            };
        }
        if step_y {
            err += dx;
            y += if y < y1 {
                1
            } else {
                -1
            };
        }
    }
    out
}

impl Lcd {
    /// Rasterize a line into a layer. The whole line is rejected (nothing
    /// is drawn) when either endpoint lies outside the display; otherwise
    /// exactly the rasterizer's points receive the color.
    pub fn draw_line_color(&mut self, line: Line, layer: Layer, color: u16)
        requires
            old(self).wf(),
        ensures
            final(self).wf(),
            final(self).background == old(self).background,
            final(self).layer_view(other_layer(layer)) == old(self).layer_view(other_layer(layer)),
            line_in_bounds(line) ==> forall|x: int, y: int|
                0 <= x < LCD_WIDTH && 0 <= y < LCD_HEIGHT ==> #[trigger] final(self).pixel(
                    layer,
                    x,
                    y,
                ) == if spec_line_points(line).contains(Point { x: x as u16, y: y as u16 }) {
                    color
                } else {
                    old(self).pixel(layer, x, y)
                },
            !line_in_bounds(line) ==> *final(self) == *old(self),
    {
        if !(line.from.x < LCD_WIDTH && line.to.x < LCD_WIDTH) || !(line.from.y < LCD_HEIGHT
            && line.to.y < LCD_HEIGHT) {
            return ;
        }
        let pts = line_points(line);
        let ghost orig = *self;
        let ghost all = spec_line_points(line);
        let mut j: usize = 0;
        while j < pts.len()
            invariant
                self.wf(),
                orig.wf(),
                j <= pts@.len(),
                pts@ == all,
                line_in_bounds(line),
                self.background == orig.background,
                self.layer_view(other_layer(layer)) == orig.layer_view(other_layer(layer)),
                forall|k: int| 0 <= k < pts@.len() ==> (#[trigger] pts@[k]).x < LCD_WIDTH
                    && pts@[k].y < LCD_HEIGHT,
                forall|x: int, y: int|
                    0 <= x < LCD_WIDTH && 0 <= y < LCD_HEIGHT ==> #[trigger] self.pixel(
                        layer,
                        x,
                        y,
                    ) == if pts@.take(j as int).contains(Point { x: x as u16, y: y as u16 }) {
                        color
                    } else {
                        orig.pixel(layer, x, y)
                    },
            decreases pts@.len() - j,
        {
            let ghost before = *self;
            let p = pts[j];
            self.draw_point_color(p, layer, color);
            proof {
                let w = LCD_WIDTH as int;
                assert(pts@.take(j + 1) =~= pts@.take(j as int).push(p));
                assert forall|x: int, y: int|
                    0 <= x < LCD_WIDTH && 0 <= y < LCD_HEIGHT implies #[trigger] self.pixel(
                    layer,
                    x,
                    y,
                ) == if pts@.take(j + 1).contains(Point { x: x as u16, y: y as u16 }) {
                    color
                } else {
                    orig.pixel(layer, x, y)
                } by {
                    let q = Point { x: x as u16, y: y as u16 };
                    vstd::seq_lib::lemma_seq_contains_after_push(pts@.take(j as int), p, q);
                    assert(before.pixel(layer, x, y) == if pts@.take(j as int).contains(q) {
                        color
                    } else {
                        orig.pixel(layer, x, y)
                    });
                    lemma_cell_index_bounds(x, y);
                    lemma_cell_index_bounds(p.x as int, p.y as int);
                    assert(self.layer_view(layer) == before.layer_view(layer).update(
                        p.y * w + p.x,
                        color,
                    ));
                    if x == p.x && y == p.y {
                        assert(q == p);
                        assert(self.pixel(layer, x, y) == color);
                    } else {
                        if y * w + x == p.y * w + p.x {
                            lemma_cell_index_injective(x, y, p.x as int, p.y as int);
                        }
                        assert(self.pixel(layer, x, y) == before.pixel(layer, x, y));
                        assert(q != p);
                    }
                }
            }
            j += 1;
        }
        proof {
            assert(pts@.take(pts@.len() as int) =~= pts@);
        }
    }
}

/// Both endpoints of a line lie strictly within the display.
pub open spec fn line_in_bounds(line: Line) -> bool {
    &&& line.from.x < LCD_WIDTH && line.to.x < LCD_WIDTH
    &&& line.from.y < LCD_HEIGHT && line.to.y < LCD_HEIGHT
}

/// The smaller of two values.
pub open spec fn min2(a: int, b: int) -> int {
    if a <= b {
        a
    } else {
        b
    }
}

/// The zero-based position of a layer's framebuffer region.
pub open spec fn spec_layer_index(l: Layer) -> int {
    match l {
        Layer::Layer1 => 0,
        Layer::Layer2 => 1,
    }
}

/// A cleared single-layer buffer.
fn zero_buffer() -> (r: Vec<u16>)
    ensures
        r@.len() == PIXELS_PER_LAYER,
        forall|i: int| 0 <= i < r@.len() ==> r@[i] == 0,
{
    let mut r: Vec<u16> = Vec::new();
    let mut i: usize = 0;
    while i < PIXELS_PER_LAYER
        invariant
            i <= PIXELS_PER_LAYER,
            r@.len() == i,
            forall|k: int| 0 <= k < r@.len() ==> r@[k] == 0,
        decreases PIXELS_PER_LAYER - i,
    {
        r.push(0);
        i += 1;
    }
    r
}

/// Row-major cell indices stay within one layer's buffer.
proof fn lemma_cell_index_bounds(x: int, y: int)
    requires
        0 <= x < LCD_WIDTH,
        0 <= y < LCD_HEIGHT,
    ensures
        0 <= y * (LCD_WIDTH as int) + x < PIXELS_PER_LAYER,
{
    assert(0 <= y * 480 + x < 480 * 272) by (nonlinear_arith)
        requires
            0 <= x < 480,
            0 <= y < 272,
    ;
}

/// Distinct cells have distinct row-major indices.
proof fn lemma_cell_index_injective(x1: int, y1: int, x2: int, y2: int)
    requires
        0 <= x1 < LCD_WIDTH,
        0 <= x2 < LCD_WIDTH,
        y1 * (LCD_WIDTH as int) + x1 == y2 * (LCD_WIDTH as int) + x2,
    ensures
        x1 == x2 && y1 == y2,
{
    assert(x1 == x2 && y1 == y2) by (nonlinear_arith)
        requires
            0 <= x1 < 480,
            0 <= x2 < 480,
            y1 * 480 + x1 == y2 * 480 + x2,
    ;
}

} // verus!

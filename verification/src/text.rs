//! The two-pass text layout engine: a glyph walk shared by a measure pass
//! and a draw pass. The walk works in coordinates relative to its canvas
//! origin; `redraw` measures the text's effective bounding box, aligns it
//! inside the requested canvas, clears that box to the background color,
//! and emits every glyph pixel in absolute coordinates.

use crate::color::spec_mix_color;
use crate::color::Color;
use crate::color::mix_color;
use crate::font::good_raster;
use crate::font::Error;
use crate::font::FontModel;
use crate::font::FontProvider;
use crate::font::GlyphRaster;
use crate::font::RasterModel;
use crate::primitives::max2;
use crate::primitives::spec_extend;
use crate::primitives::Point;
use crate::primitives::Rect;
use vstd::prelude::*;
use vstd::string::StrSliceExecFns;

verus! {

/// Horizontal placement of the measured text within the request canvas.
#[derive(Copy, Clone, Debug, PartialEq, Eq, Structural)]
pub enum Alignment {
    Left,
    Center,
    Right,
}

/// One pixel the glyph walk emits, in coordinates relative to the walk
/// canvas's origin.
#[derive(Copy, Clone, Debug, PartialEq, Eq, Structural)]
pub struct RelPixel {
    pub x: u64,
    pub y: u64,
    pub color: Color,
}

/// The walk's pen: the next glyph cell's position relative to the canvas
/// origin, and the previously placed glyph (for kerning).
pub ghost struct Pen {
    pub x: int,
    pub y: int,
    pub last: Option<u32>,
}

/// One row of a glyph cell. Cells are as wide as the advance or the
/// bitmap, whichever is larger; columns under the bitmap blend the
/// foreground over the background by the coverage byte, the rest of the
/// cell is flat background. The bitmap is centered in a wider advance.
/// Rows that would rise above the canvas top or reach the canvas bottom
/// edge `h` are clipped away.
pub open spec fn glyph_row(
    r: RasterModel,
    adv: int,
    fg: Color,
    bg: Color,
    px: int,
    py: int,
    size: int,
    h: int,
    yy: int,
) -> Seq<RelPixel> {
    let rowy = py + size + r.top + yy;
    if rowy < 0 || rowy >= h {
        Seq::empty()
    } else {
        let sx = if adv >= r.width {
            (adv - r.width) / 2
        } else {
            0
        };
        let upper = max2(adv, sx + r.width);
        Seq::new(
            upper as nat,
            |xx: int|
                RelPixel {
                    x: (px + xx) as u64,
                    y: rowy as u64,
                    color: if sx <= xx < sx + r.width {
                        spec_mix_color(fg, bg, r.data[yy * (r.width as int) + (xx - sx)])
                    } else {
                        bg
                    },
                },
        )
    }
}

/// The first `n` rows of a glyph cell, top row first.
pub open spec fn glyph_rows(
    r: RasterModel,
    adv: int,
    fg: Color,
    bg: Color,
    px: int,
    py: int,
    size: int,
    h: int,
    n: nat,
) -> Seq<RelPixel>
    decreases n,
{
    if n == 0 {
        Seq::empty()
    } else {
        glyph_rows(r, adv, fg, bg, px, py, size, h, (n - 1) as nat) + glyph_row(
            r,
            adv,
            fg,
            bg,
            px,
            py,
            size,
            h,
            n - 1,
        )
    }
}

/// Every pixel of one glyph cell on a canvas `h` tall, row-major.
pub open spec fn glyph_cmds(
    r: RasterModel,
    adv: int,
    fg: Color,
    bg: Color,
    px: int,
    py: int,
    size: int,
    h: int,
) -> Seq<RelPixel> {
    glyph_rows(r, adv, fg, bg, px, py, size, h, r.height)
}

/// Append one glyph cell's pixels to the output buffer, clipped to a
/// canvas `h` tall.
fn emit_glyph(
    out: &mut Vec<RelPixel>,
    r: &GlyphRaster,
    adv: u16,
    fg: Color,
    bg: Color,
    px: u64,
    py: u64,
    size: u16,
    h: u16,
)
    requires
        r.data@.len() == r.width * r.height,
        r.width <= 0xffff,
        r.height <= 0xffff,
        px <= 0x2000_0000_0000_0000,
        py <= 0x2000_0000_0000_0000,
    ensures
        final(out)@ == old(out)@ + glyph_cmds(
            r.model(),
            adv as int,
            fg,
            bg,
            px as int,
            py as int,
            size as int,
            h as int,
        ),
{
    let ghost rm = r.model();
    let mut yy: usize = 0;
    while yy < r.height
        invariant
            r.data@.len() == r.width * r.height,
            r.width <= 0xffff,
            r.height <= 0xffff,
            px <= 0x2000_0000_0000_0000,
            py <= 0x2000_0000_0000_0000,
            yy <= r.height,
            rm == r.model(),
            out@ == old(out)@ + glyph_rows(
                rm,
                adv as int,
                fg,
                bg,
                px as int,
                py as int,
                size as int,
                h as int,
                yy as nat,
            ),
        decreases r.height - yy,
    {
        let ghost row = glyph_row(
            rm,
            adv as int,
            fg,
            bg,
            px as int,
            py as int,
            size as int,
            h as int,
            yy as int,
        );
        let rowy: i64 = py as i64 + size as i64 + r.top as i64 + yy as i64;
        if rowy >= 0 && rowy < h as i64 {
            let w = r.width;
            let advu = adv as usize;
            let sx: usize = if advu >= w {
                (advu - w) / 2
            } else {
                0
            };
            let upper: usize = if advu >= sx + w {
                advu
            } else {
                sx + w
            };
            proof {
                assert(row.len() == upper);
            }
            let mut xx: usize = 0;
            while xx < upper
                invariant
                    r.data@.len() == r.width * r.height,
                    r.width <= 0xffff,
                    r.height <= 0xffff,
                    px <= 0x2000_0000_0000_0000,
                    py <= 0x2000_0000_0000_0000,
                    yy < r.height,
                    xx <= upper,
                    w == r.width,
                    advu == adv,
                    rm == r.model(),
                    rowy == py + size + r.top + yy,
                    0 <= rowy < h,
                    sx == if advu >= w {
                        (advu - w) / 2int
                    } else {
                        0int
                    },
                    upper == max2(advu as int, sx + w),
                    row == glyph_row(
                        rm,
                        adv as int,
                        fg,
                        bg,
                        px as int,
                        py as int,
                        size as int,
                        h as int,
                        yy as int,
                    ),
                    row.len() == upper,
                    out@ == old(out)@ + glyph_rows(
                        rm,
                        adv as int,
                        fg,
                        bg,
                        px as int,
                        py as int,
                        size as int,
                        h as int,
                        yy as nat,
                    ) + row.take(xx as int),
                decreases upper - xx,
            {
                let color = if sx <= xx && xx < sx + w {
                    let d = xx - sx;
                    proof {
                        assert(yy * w + d < r.width * r.height && yy * w + d < 0x1_0000_0000)
                            by (nonlinear_arith)
                            requires
                                0 <= yy < r.height,
                                0 <= d < w,
                                w == r.width,
                                w <= 0xffff,
                                r.height <= 0xffff,
                        ;
                    }
                    let idx = yy * w + d;
                    mix_color(fg, bg, r.data[idx])
                } else {
                    bg
                };
                out.push(RelPixel { x: px + xx as u64, y: rowy as u64, color });
                proof {
                    assert(row[xx as int] == RelPixel {
                        x: (px + xx) as u64,
                        y: rowy as u64,
                        color: if sx <= xx < sx + rm.width {
                            spec_mix_color(fg, bg, rm.data[yy * (rm.width as int) + (xx - sx)])
                        } else {
                            bg
                        },
                    });
                    assert(row.take(xx + 1) =~= row.take(xx as int).push(row[xx as int]));
                }
                xx += 1;
            }
            proof {
                assert(row.take(upper as int) =~= row);
            }
        } else {
            proof {
                assert(row =~= Seq::<RelPixel>::empty());
                assert(out@ =~= old(out)@ + glyph_rows(
                    rm,
                    adv as int,
                    fg,
                    bg,
                    px as int,
                    py as int,
                    size as int,
                    h as int,
                    yy as nat,
                ) + row);
            }
        }
        yy += 1;
        proof {
            assert(glyph_rows(
                rm,
                adv as int,
                fg,
                bg,
                px as int,
                py as int,
                size as int,
                h as int,
                yy as nat,
            ) == glyph_rows(
                rm,
                adv as int,
                fg,
                bg,
                px as int,
                py as int,
                size as int,
                h as int,
                (yy - 1) as nat,
            ) + glyph_row(
                rm,
                adv as int,
                fg,
                bg,
                px as int,
                py as int,
                size as int,
                h as int,
                yy - 1,
            ));
        }
    }
    proof {
        assert(out@ =~= old(out)@ + glyph_cmds(
            rm,
            adv as int,
            fg,
            bg,
            px as int,
            py as int,
            size as int,
            h as int,
        ));
    }
}

/// The glyph walk over a character sequence, from a given pen state, on a
/// canvas `w` wide and `h` tall (all relative to the canvas origin).
/// A newline resets the pen to the left edge and advances one line,
/// emitting nothing. A space consumes the advance of a substituted dash
/// and paints flat background across that full cell, so no stale pixels
/// survive under it. Any other character renders its glyph cell, wrapping
/// to the next line first when its advance would pass the right edge.
/// When a cell would pass the bottom edge the walk stops and the rest of
/// the text is dropped; single rows that reach past the bottom or above
/// the top are clipped away. A glyph the provider cannot rasterize ends
/// the walk with no result (a recoverable error, not a panic).
pub open spec fn spec_walk(
    m: FontModel,
    w: int,
    h: int,
    fg: Color,
    bg: Color,
    s: Seq<char>,
    pen: Pen,
) -> Option<(Seq<RelPixel>, Pen)>
    decreases s.len(),
{
    if s.len() == 0 {
        Some((Seq::empty(), pen))
    } else {
        let c = s[0];
        let rest = s.drop_first();
        if c == '\n' {
            spec_walk(m, w, h, fg, bg, rest, Pen { x: 0, y: pen.y + m.size, last: pen.last })
        } else {
            let rc = if c == ' ' {
                '-'
            } else {
                c
            };
            let render = c != ' ';
            let g = m.glyph[rc];
            if !good_raster(m, g) {
                None
            } else {
                let gr = m.raster[g]->Some_0;
                let adv = m.advance[(pen.last, g)] as int;
                let wrapped = render && pen.x + adv > w;
                let px = if wrapped {
                    0
                } else {
                    pen.x
                };
                let py = if wrapped {
                    pen.y + m.size
                } else {
                    pen.y
                };
                if py + m.size > h {
                    Some((Seq::empty(), pen))
                } else {
                    let cell = if render {
                        glyph_cmds(gr, adv, fg, bg, px, py, m.size as int, h)
                    } else {
                        glyph_cmds(gr, adv, bg, bg, px, py, m.size as int, h)
                    };
                    match spec_walk(m, w, h, fg, bg, rest, Pen { x: px + adv, y: py, last: Some(g) }) {
                        None => None,
                        Some(more) => Some((cell + more.0, more.1)),
                    }
                }
            }
        }
    }
}

/// Run the glyph walk over a string on a `w` by `h` canvas, collecting
/// every emitted pixel (relative to the canvas origin) in order. Returns
/// the rasterization error exactly when the walk meets a glyph the
/// provider cannot rasterize before the height limit stops it.
pub fn walk_text<P: FontProvider>(
    font: &P,
    w: u16,
    h: u16,
    fg: Color,
    bg: Color,
    s: &str,
) -> (r: Result<Vec<RelPixel>, Error>)
    requires
        font.wf_req(),
        s@.len() <= 0x1000_0000_0000,
    ensures
        ({
            let walk = spec_walk(
                font.model(),
                w as int,
                h as int,
                fg,
                bg,
                s@,
                Pen { x: 0, y: 0, last: None },
            );
            match r {
                Ok(v) => walk is Some && v@ == walk->Some_0.0,
                Err(e) => walk is None && e == Error::Rasterize,
            }
        }),
{
    let ghost m = font.model();
    let ghost full = spec_walk(m, w as int, h as int, fg, bg, s@, Pen { x: 0, y: 0, last: None });

    let size = font.size();
    let mut pen_x: u64 = 0;
    let mut pen_y: u64 = 0;
    let mut last: Option<u32> = None;
    let mut out: Vec<RelPixel> = Vec::new();
    let n = s.unicode_len();
    let mut i: usize = 0;
    proof {
        assert(s@.skip(0) =~= s@);
        match full {
            Some(more) => {
                assert(out@ + more.0 =~= more.0);
            },
            None => {},
        }
    }
    while i < n
        invariant
            i <= n,
            n == s@.len(),
            s@.len() <= 0x1000_0000_0000,
            size == m.size,
            m == font.model(),
            font.wf_req(),
            full == spec_walk(m, w as int, h as int, fg, bg, s@, Pen { x: 0, y: 0, last: None }),
            pen_x <= 0x10000 * (i as int),
            pen_y <= 0x10000 * (i as int),
            full == match spec_walk(
                m,
                w as int,
                h as int,
                fg,
                bg,
                s@.skip(i as int),
                Pen { x: pen_x as int, y: pen_y as int, last: last },
            ) {
                Some(more) => Some((out@ + more.0, more.1)),
                None => None::<(Seq<RelPixel>, Pen)>,
            },
        decreases n - i,
    {
        let ghost pen = Pen { x: pen_x as int, y: pen_y as int, last: last };
        let ghost suffix = s@.skip(i as int);
        proof {
            assert(suffix.len() > 0);
            assert(suffix[0] == s@[i as int]);
            assert(suffix.drop_first() =~= s@.skip(i as int + 1));
        }
        let c = s.get_char(i);
        if c == '\n' {
            pen_x = 0;
            pen_y = pen_y + size as u64;
            i = i + 1;
            continue ;
        }
        let rc = if c == ' ' {
            '-'
        } else {
            c
        };
        let render = c != ' ';
        let g = font.glyph_index(rc);
        let rast = match font.raster(g) {
            Some(gr) => gr,
            None => {
                proof {
                    assert(spec_walk(m, w as int, h as int, fg, bg, suffix, pen) is None);
                }
                return Err(Error::Rasterize);
            },
        };
        let adv = font.advance_width(last, g);
        let wrapped = render && pen_x + adv as u64 > w as u64;
        let px: u64 = if wrapped {
            0
        } else {
            pen_x
        };
        let py: u64 = if wrapped {
            pen_y + size as u64
        } else {
            pen_y
        };
        if py + size as u64 > h as u64 {
            i = n;
        } else {
            if render {
                emit_glyph(&mut out, &rast, adv, fg, bg, px, py, size, h);
            } else {
                emit_glyph(&mut out, &rast, adv, bg, bg, px, py, size, h);
            }
            pen_x = px + adv as u64;
            pen_y = py;
            last = Some(g);
            i = i + 1;
        }
    }
    proof {
        assert(s@.skip(n as int) =~= Seq::<char>::empty());
    }
    Ok(out)
}

/// Whether a relative pixel still fits the grid when placed at `origin`.
pub open spec fn abs_ok(origin: Point, rp: RelPixel) -> bool {
    origin.x + rp.x <= u16::MAX && origin.y + rp.y <= u16::MAX
}

/// A relative pixel placed at `origin`, as an absolute grid point.
pub open spec fn abs_point(origin: Point, rp: RelPixel) -> Point {
    Point { x: (origin.x + rp.x) as u16, y: (origin.y + rp.y) as u16 }
}

/// Grow `r` over every emitted pixel placed at `origin`, skipping pixels
/// that fall off the grid.
pub open spec fn fold_extend(r: Rect, origin: Point, cmds: Seq<RelPixel>) -> Rect
    decreases cmds.len(),
{
    if cmds.len() == 0 {
        r
    } else {
        let r1 = if abs_ok(origin, cmds[0]) {
            spec_extend(r, abs_point(origin, cmds[0]))
        } else {
            r
        };
        fold_extend(r1, origin, cmds.drop_first())
    }
}

/// The emitted pixels placed at `origin` in absolute coordinates, in
/// emission order; pixels that fall off the grid are clipped away.
pub open spec fn abs_cmds(origin: Point, cmds: Seq<RelPixel>) -> Seq<(Point, Color)>
    decreases cmds.len(),
{
    if cmds.len() == 0 {
        Seq::empty()
    } else {
        let rest = abs_cmds(origin, cmds.drop_first());
        if abs_ok(origin, cmds[0]) {
            seq![(abs_point(origin, cmds[0]), cmds[0].color)] + rest
        } else {
            rest
        }
    }
}

/// The x-offset that places a measured width inside a canvas width:
/// none for left alignment, the whole slack for right, half of it for
/// centered; text wider than the canvas is left at the canvas edge.
pub open spec fn spec_align_offset(a: Alignment, canvas_w: int, eff_w: int) -> int {
    if eff_w > canvas_w {
        0
    } else {
        match a {
            Alignment::Left => 0,
            Alignment::Center => (canvas_w - eff_w) / 2,
            Alignment::Right => canvas_w - eff_w,
        }
    }
}

/// Every cell of a rect paired with the background color, in the
/// enumeration's row-major order.
pub open spec fn spec_clear_cmds(r: Rect, bg: Color) -> Seq<(Point, Color)> {
    Seq::new(r.point_seq().len(), |k: int| (r.point_seq()[k], bg))
}

/// Everything one `redraw` call emits, in order: first the background
/// clear of the aligned effective canvas, then every glyph-walk pixel,
/// both in absolute coordinates. The effective canvas is the bounding box
/// the measure walk grows from the canvas origin; the draw walk places
/// the same relative pixels at the origin shifted by the alignment offset.
pub open spec fn spec_redraw(
    m: FontModel,
    canvas: Rect,
    a: Alignment,
    fg: Color,
    bg: Color,
    s: Seq<char>,
) -> Option<Seq<(Point, Color)>> {
    match spec_walk(
        m,
        canvas.width as int,
        canvas.height as int,
        fg,
        bg,
        s,
        Pen { x: 0, y: 0, last: None },
    ) {
        None => None,
        Some(walk) => {
            let rel = walk.0;
            let eff = fold_extend(
                Rect { origin: canvas.origin, width: 0, height: 0 },
                canvas.origin,
                rel,
            );
            let off = spec_align_offset(a, canvas.width as int, eff.width as int);
            let aligned = Rect {
                origin: Point { x: (eff.origin.x + off) as u16, y: eff.origin.y },
                width: eff.width,
                height: eff.height,
            };
            let origin2 = Point { x: (canvas.origin.x + off) as u16, y: canvas.origin.y };
            Some(spec_clear_cmds(aligned, bg) + abs_cmds(origin2, rel))
        },
    }
}

/// One text-rendering request: where to draw, how to align, with which
/// font and colors. The text itself is supplied per call.
pub struct TextBox<'a, P: FontProvider> {
    pub alignment: Alignment,
    pub canvas: Rect,
    pub font: &'a P,
    pub bg_color: Color,
    pub fg_color: Color,
}

impl<'a, P: FontProvider> TextBox<'a, P> {
    /// Render a string: measure it with one glyph walk, align the measured
    /// box inside the canvas, then emit the background clear followed by
    /// the draw walk's pixels, in order, as absolute draw commands.
    /// Fails exactly when the walk meets an unrasterizable glyph.
    pub fn redraw(&self, s: &str) -> (r: Result<Vec<(Point, Color)>, Error>)
        requires
            self.font.wf_req(),
            self.canvas.valid(),
            s@.len() <= 0x1000_0000_0000,
        ensures
            ({
                let drawn = spec_redraw(
                    self.font.model(),
                    self.canvas,
                    self.alignment,
                    self.fg_color,
                    self.bg_color,
                    s@,
                );
                match r {
                    Ok(v) => drawn == Some(v@),
                    Err(e) => drawn is None && e == Error::Rasterize,
                }
            }),
    {
        let ghost m = self.font.model();
        let rel = match walk_text(
            self.font,
            self.canvas.width,
            self.canvas.height,
            self.fg_color,
            self.bg_color,
            s,
        ) {
            Ok(v) => v,
            Err(e) => {
                return Err(e);
            },
        };
        let ghost relseq = rel@;

        // Measure: grow the effective canvas over every walked pixel.
        let mut eff = Rect { origin: self.canvas.origin, width: 0, height: 0 };
        let ghost eff_final = fold_extend(
            Rect { origin: self.canvas.origin, width: 0, height: 0 },
            self.canvas.origin,
            relseq,
        );
        let mut k: usize = 0;
        proof {
            assert(relseq.skip(0) =~= relseq);
        }
        while k < rel.len()
            invariant
                k <= relseq.len(),
                relseq == rel@,
                eff.valid(),
                eff.origin.x == self.canvas.origin.x,
                eff.origin.y == self.canvas.origin.y,
                self.canvas.valid(),
                eff_final == fold_extend(eff, self.canvas.origin, relseq.skip(k as int)),
            decreases relseq.len() - k,
        {
            let rp = rel[k];
            proof {
                assert(relseq.skip(k as int)[0] == rp);
                assert(relseq.skip(k as int).drop_first() =~= relseq.skip(k as int + 1));
            }
            let ox64 = self.canvas.origin.x as u64;
            let oy64 = self.canvas.origin.y as u64;
            if rp.x <= u16::MAX as u64 - ox64 && rp.y <= u16::MAX as u64 - oy64 {
                let p = Point {
                    x: self.canvas.origin.x + rp.x as u16,
                    y: self.canvas.origin.y + rp.y as u16,
                };
                proof {
                    assert(abs_ok(self.canvas.origin, rp));
                    assert(p == abs_point(self.canvas.origin, rp));
                }
                eff.extend_to_point(p);
            } else {
                proof {
                    assert(!abs_ok(self.canvas.origin, rp));
                }
            }
            k += 1;
        }
        proof {
            assert(relseq.skip(relseq.len() as int) =~= Seq::<RelPixel>::empty());
            assert(eff == eff_final);
        }

        // Alignment: place the measured box inside the canvas.
        let off: u16 = if eff.width > self.canvas.width {
            0
        } else {
            match self.alignment {
                Alignment::Left => 0,
                Alignment::Center => (self.canvas.width - eff.width) / 2,
                Alignment::Right => self.canvas.width - eff.width,
            }
        };
        let aligned = Rect {
            origin: Point { x: eff.origin.x + off, y: eff.origin.y },
            width: eff.width,
            height: eff.height,
        };

        // Clear the aligned effective canvas to the background color.
        let mut out: Vec<(Point, Color)> = Vec::new();
        let pts = aligned.foreach_point();
        let ghost clear = spec_clear_cmds(aligned, self.bg_color);
        let mut k2: usize = 0;
        while k2 < pts.len()
            invariant
                k2 <= pts@.len(),
                pts@ == aligned.point_seq(),
                clear == spec_clear_cmds(aligned, self.bg_color),
                out@ =~= clear.take(k2 as int),
            decreases pts@.len() - k2,
        {
            out.push((pts[k2], self.bg_color));
            k2 += 1;
        }
        proof {
            assert(out@ =~= clear);
        }

        // Draw: re-run the glyph walk and place it at the aligned origin.
        let rel2 = match walk_text(
            self.font,
            self.canvas.width,
            self.canvas.height,
            self.fg_color,
            self.bg_color,
            s,
        ) {
            Ok(v) => v,
            Err(e) => {
                proof {
                    assert(false);
                }
                return Err(e);
            },
        };
        let origin2 = Point { x: self.canvas.origin.x + off, y: self.canvas.origin.y };
        let ghost drawseq = abs_cmds(origin2, relseq);
        let mut k3: usize = 0;
        proof {
            assert(relseq.skip(0) =~= relseq);
        }
        while k3 < rel2.len()
            invariant
                k3 <= relseq.len(),
                relseq == rel2@,
                out@ + abs_cmds(origin2, relseq.skip(k3 as int)) =~= clear + drawseq,
                clear == spec_clear_cmds(aligned, self.bg_color),
                drawseq == abs_cmds(origin2, relseq),
            decreases relseq.len() - k3,
        {
            let rp = rel2[k3];
            proof {
                assert(relseq.skip(k3 as int)[0] == rp);
                assert(relseq.skip(k3 as int).drop_first() =~= relseq.skip(k3 as int + 1));
            }
            let ox64 = origin2.x as u64;
            let oy64 = origin2.y as u64;
            if rp.x <= u16::MAX as u64 - ox64 && rp.y <= u16::MAX as u64 - oy64 {
                let p = Point { x: origin2.x + rp.x as u16, y: origin2.y + rp.y as u16 };
                proof {
                    assert(abs_ok(origin2, rp));
                    assert(p == abs_point(origin2, rp));
                    assert(out@.push((p, rp.color)) + abs_cmds(origin2, relseq.skip(k3 as int + 1))
                        =~= out@ + abs_cmds(origin2, relseq.skip(k3 as int)));
                }
                out.push((p, rp.color));
            } else {
                proof {
                    assert(!abs_ok(origin2, rp));
                }
            }
            k3 += 1;
        }
        proof {
            assert(relseq.skip(relseq.len() as int) =~= Seq::<RelPixel>::empty());
            assert(out@ + abs_cmds(origin2, Seq::<RelPixel>::empty()) =~= out@);
            assert(out@ =~= clear + drawseq);
        }
        Ok(out)
    }
}

/// A newline always resets the pen to the walk canvas's left edge and
/// advances it one line, and emits no pixel of its own: the walk of a
/// text starting with a newline is exactly the walk of the rest from the
/// reset pen.
pub proof fn lemma_newline_resets_pen(
    m: FontModel,
    w: int,
    h: int,
    fg: Color,
    bg: Color,
    s: Seq<char>,
    pen: Pen,
)
    requires
        s.len() > 0,
        s[0] == '\n',
    ensures
        spec_walk(m, w, h, fg, bg, s, pen) == spec_walk(
            m,
            w,
            h,
            fg,
            bg,
            s.drop_first(),
            Pen { x: 0, y: pen.y + m.size, last: pen.last },
        ),
{
}

/// Centering leaves at most one pixel of difference between the left and
/// right gaps around the measured width.
pub proof fn lemma_center_within_one(canvas_w: int, eff_w: int)
    requires
        0 <= eff_w <= canvas_w,
    ensures
        ({
            let off = spec_align_offset(Alignment::Center, canvas_w, eff_w);
            let right_gap = canvas_w - eff_w - off;
            off <= right_gap && right_gap - off <= 1
        }),
{
    let slack = canvas_w - eff_w;
    assert(slack == 2 * (slack / 2) + slack % 2 && 0 <= slack % 2 < 2) by {
        vstd::arithmetic::div_mod::lemma_fundamental_div_mod(slack, 2);
    }
}

/// The measure pass and the draw pass place the same relative pixel
/// sequence; when the draw origin is the measure origin shifted right by
/// the alignment offset and no pixel is clipped, the drawn points are
/// exactly the measured points translated by that offset, colors included.
pub proof fn lemma_two_pass_translation(o1: Point, o2: Point, rel: Seq<RelPixel>, d: int)
    requires
        0 <= d,
        o2.x == o1.x + d,
        o2.y == o1.y,
        forall|k: int| 0 <= k < rel.len() ==> abs_ok(o2, #[trigger] rel[k]),
    ensures
        abs_cmds(o1, rel).len() == rel.len(),
        abs_cmds(o2, rel).len() == rel.len(),
        forall|k: int|
            0 <= k < rel.len() ==> {
                &&& (#[trigger] abs_cmds(o2, rel)[k]).0.x == abs_cmds(o1, rel)[k].0.x + d
                &&& abs_cmds(o2, rel)[k].0.y == abs_cmds(o1, rel)[k].0.y
                &&& abs_cmds(o2, rel)[k].1 == abs_cmds(o1, rel)[k].1
                &&& abs_cmds(o2, rel)[k].1 == rel[k].color
            },
    decreases rel.len(),
{
    if rel.len() > 0 {
        assert(forall|k: int|
            0 <= k < rel.drop_first().len() ==> abs_ok(o2, #[trigger] rel.drop_first()[k]));
        lemma_two_pass_translation(o1, o2, rel.drop_first(), d);
        assert(abs_ok(o2, rel[0]));
        assert(abs_ok(o1, rel[0]));
    }
}

/// The alignment offset is never negative and never pushes the measured
/// width past the canvas width.
pub proof fn lemma_align_offset_bounds(a: Alignment, canvas_w: int, eff_w: int)
    requires
        0 <= eff_w,
        0 <= canvas_w,
    ensures
        0 <= spec_align_offset(a, canvas_w, eff_w) <= canvas_w,
{
}

/// The measure pass and the draw pass of one `redraw` see the same
/// relative pixel sequence; where no pixel is clipped at the shifted
/// origin, the glyph commands `redraw` emits after its background clear
/// are exactly the measured absolute points translated right by the
/// alignment offset, colors unchanged.
pub proof fn lemma_redraw_translates_measure(
    m: FontModel,
    canvas: Rect,
    a: Alignment,
    fg: Color,
    bg: Color,
    s: Seq<char>,
)
    requires
        canvas.valid(),
        spec_walk(
            m,
            canvas.width as int,
            canvas.height as int,
            fg,
            bg,
            s,
            Pen { x: 0, y: 0, last: None },
        ) is Some,
        ({
            let rel = spec_walk(
                m,
                canvas.width as int,
                canvas.height as int,
                fg,
                bg,
                s,
                Pen { x: 0, y: 0, last: None },
            )->Some_0.0;
            let eff = fold_extend(
                Rect { origin: canvas.origin, width: 0, height: 0 },
                canvas.origin,
                rel,
            );
            let off = spec_align_offset(a, canvas.width as int, eff.width as int);
            forall|k: int|
                0 <= k < rel.len() ==> abs_ok(
                    Point { x: (canvas.origin.x + off) as u16, y: canvas.origin.y },
                    #[trigger] rel[k],
                )
        }),
    ensures
        ({
            let rel = spec_walk(
                m,
                canvas.width as int,
                canvas.height as int,
                fg,
                bg,
                s,
                Pen { x: 0, y: 0, last: None },
            )->Some_0.0;
            let eff = fold_extend(
                Rect { origin: canvas.origin, width: 0, height: 0 },
                canvas.origin,
                rel,
            );
            let off = spec_align_offset(a, canvas.width as int, eff.width as int);
            let aligned = Rect {
                origin: Point { x: (eff.origin.x + off) as u16, y: eff.origin.y },
                width: eff.width,
                height: eff.height,
            };
            let drawn = spec_redraw(m, canvas, a, fg, bg, s)->Some_0;
            let clear_len = spec_clear_cmds(aligned, bg).len() as int;
            let measured = abs_cmds(canvas.origin, rel);
            &&& drawn.len() == clear_len + rel.len()
            &&& measured.len() == rel.len()
            &&& forall|k: int|
                0 <= k < rel.len() ==> {
                    &&& (#[trigger] drawn[clear_len + k]).0.x == measured[k].0.x + off
                    &&& drawn[clear_len + k].0.y == measured[k].0.y
                    &&& drawn[clear_len + k].1 == measured[k].1
                }
        }),
{
    let rel = spec_walk(
        m,
        canvas.width as int,
        canvas.height as int,
        fg,
        bg,
        s,
        Pen { x: 0, y: 0, last: None },
    )->Some_0.0;
    let eff = fold_extend(Rect { origin: canvas.origin, width: 0, height: 0 }, canvas.origin, rel);
    let off = spec_align_offset(a, canvas.width as int, eff.width as int);
    lemma_align_offset_bounds(a, canvas.width as int, eff.width as int);
    let origin2 = Point { x: (canvas.origin.x + off) as u16, y: canvas.origin.y };
    assert(origin2.x == canvas.origin.x + off);
    lemma_two_pass_translation(canvas.origin, origin2, rel, off);
    let aligned = Rect {
        origin: Point { x: (eff.origin.x + off) as u16, y: eff.origin.y },
        width: eff.width,
        height: eff.height,
    };
    let drawn = spec_redraw(m, canvas, a, fg, bg, s)->Some_0;
    let clear_len = spec_clear_cmds(aligned, bg).len() as int;
    assert(drawn == spec_clear_cmds(aligned, bg) + abs_cmds(origin2, rel));
    assert forall|k: int| 0 <= k < rel.len() implies {
        &&& (#[trigger] drawn[clear_len + k]).0.x == abs_cmds(canvas.origin, rel)[k].0.x + off
        &&& drawn[clear_len + k].0.y == abs_cmds(canvas.origin, rel)[k].0.y
        &&& drawn[clear_len + k].1 == abs_cmds(canvas.origin, rel)[k].1
    } by {
        assert(drawn[clear_len + k] == abs_cmds(origin2, rel)[k]);
    }
}

/// A space's cell — painted with the background as both foreground and
/// background — is flat background in every pixel.
pub proof fn lemma_space_cell_background(
    r: RasterModel,
    adv: int,
    bg: Color,
    px: int,
    py: int,
    size: int,
    h: int,
)
    ensures
        forall|k: int|
            0 <= k < glyph_cmds(r, adv, bg, bg, px, py, size, h).len() ==> (#[trigger] glyph_cmds(
                r,
                adv,
                bg,
                bg,
                px,
                py,
                size,
                h,
            )[k]).color == bg,
{
    lemma_rows_background(r, adv, bg, px, py, size, h, r.height);
}

/// Every pixel of the first `n` self-blended rows is flat background.
proof fn lemma_rows_background(
    r: RasterModel,
    adv: int,
    bg: Color,
    px: int,
    py: int,
    size: int,
    h: int,
    n: nat,
)
    ensures
        forall|k: int|
            0 <= k < glyph_rows(r, adv, bg, bg, px, py, size, h, n).len() ==> (
            #[trigger] glyph_rows(r, adv, bg, bg, px, py, size, h, n)[k]).color == bg,
    decreases n,
{
    if n > 0 {
        lemma_rows_background(r, adv, bg, px, py, size, h, (n - 1) as nat);
        let rows = glyph_rows(r, adv, bg, bg, px, py, size, h, n);
        let prev = glyph_rows(r, adv, bg, bg, px, py, size, h, (n - 1) as nat);
        let row = glyph_row(r, adv, bg, bg, px, py, size, h, n - 1);
        assert forall|k: int| 0 <= k < rows.len() implies (#[trigger] rows[k]).color == bg by {
            if k < prev.len() {
                assert(rows[k] == prev[k]);
            } else {
                assert(rows[k] == row[k - prev.len()]);
                crate::color::lemma_mix_self(bg, r.data[(n - 1) * (r.width as int) + (k
                    - prev.len() - (if adv >= r.width {
                    (adv - r.width) / 2
                } else {
                    0
                }))]);
            }
        }
    }
}

/// Rows of one glyph cell stay strictly above the canvas bottom `h`.
proof fn lemma_glyph_rows_y(
    r: RasterModel,
    adv: int,
    fg: Color,
    bg: Color,
    px: int,
    py: int,
    size: int,
    h: int,
    n: nat,
)
    requires
        h <= 0xffff_ffff,
    ensures
        forall|k: int|
            0 <= k < glyph_rows(r, adv, fg, bg, px, py, size, h, n).len() ==> (
            #[trigger] glyph_rows(r, adv, fg, bg, px, py, size, h, n)[k].y as int) < h,
    decreases n,
{
    if n > 0 {
        lemma_glyph_rows_y(r, adv, fg, bg, px, py, size, h, (n - 1) as nat);
        let rows = glyph_rows(r, adv, fg, bg, px, py, size, h, n);
        let prev = glyph_rows(r, adv, fg, bg, px, py, size, h, (n - 1) as nat);
        let row = glyph_row(r, adv, fg, bg, px, py, size, h, n - 1);
        assert forall|k: int| 0 <= k < rows.len() implies (#[trigger] rows[k].y as int) < h by {
            if k < prev.len() {
                assert(rows[k] == prev[k]);
            } else {
                assert(rows[k] == row[k - prev.len()]);
            }
        }
    }
}

/// Vertical truncation: no pixel the walk emits lies at or below the
/// walk canvas's bottom edge — cells that would pass it end the walk,
/// and single rows reaching past it are clipped — and text beyond the
/// height limit is dropped without an error of its own (the walk still
/// succeeds wherever its glyphs rasterize).
pub proof fn lemma_vertical_truncation(
    m: FontModel,
    w: int,
    h: int,
    fg: Color,
    bg: Color,
    s: Seq<char>,
    pen: Pen,
)
    requires
        0 <= h <= 0xffff,
    ensures
        match spec_walk(m, w, h, fg, bg, s, pen) {
            Some(res) => forall|k: int|
                0 <= k < res.0.len() ==> (#[trigger] res.0[k].y as int) < h,
            None => true,
        },
    decreases s.len(),
{
    if s.len() > 0 {
        let c = s[0];
        let rest = s.drop_first();
        if c == '\n' {
            lemma_vertical_truncation(
                m,
                w,
                h,
                fg,
                bg,
                rest,
                Pen { x: 0, y: pen.y + m.size, last: pen.last },
            );
        } else {
            let rc = if c == ' ' {
                '-'
            } else {
                c
            };
            let render = c != ' ';
            let g = m.glyph[rc];
            if good_raster(m, g) {
                let gr = m.raster[g]->Some_0;
                let adv = m.advance[(pen.last, g)] as int;
                let wrapped = render && pen.x + adv > w;
                let px = if wrapped {
                    0
                } else {
                    pen.x
                };
                let py = if wrapped {
                    pen.y + m.size
                } else {
                    pen.y
                };
                if py + m.size <= h {
                    let cell = if render {
                        glyph_cmds(gr, adv, fg, bg, px, py, m.size as int, h)
                    } else {
                        glyph_cmds(gr, adv, bg, bg, px, py, m.size as int, h)
                    };
                    if render {
                        lemma_glyph_rows_y(gr, adv, fg, bg, px, py, m.size as int, h, gr.height);
                    } else {
                        lemma_glyph_rows_y(gr, adv, bg, bg, px, py, m.size as int, h, gr.height);
                    }
                    lemma_vertical_truncation(
                        m,
                        w,
                        h,
                        fg,
                        bg,
                        rest,
                        Pen { x: px + adv, y: py, last: Some(g) },
                    );
                    match spec_walk(m, w, h, fg, bg, rest, Pen { x: px + adv, y: py, last: Some(g) }) {
                        Some(more) => {
                            let all = cell + more.0;
                            assert forall|k: int| 0 <= k < all.len() implies (
                            #[trigger] all[k].y as int) < h by {
                                if k < cell.len() {
                                    assert(all[k] == cell[k]);
                                } else {
                                    assert(all[k] == more.0[k - cell.len()]);
                                }
                            }
                        },
                        None => {},
                    }
                }
            }
        }
    }
}

/// Growing a box over points that stay above a line keeps its lower
/// edge above that line.
proof fn lemma_fold_extend_bound(r: Rect, origin: Point, cmds: Seq<RelPixel>, ybound: int)
    requires
        r.origin.y + r.height <= ybound,
        forall|k: int|
            0 <= k < cmds.len() && abs_ok(origin, #[trigger] cmds[k]) ==> origin.y + cmds[k].y
                <= ybound,
    ensures
        fold_extend(r, origin, cmds).origin.y + fold_extend(r, origin, cmds).height <= ybound,
    decreases cmds.len(),
{
    if cmds.len() > 0 {
        let r1 = if abs_ok(origin, cmds[0]) {
            spec_extend(r, abs_point(origin, cmds[0]))
        } else {
            r
        };
        assert(r1.origin.y + r1.height <= ybound);
        assert(forall|k: int|
            0 <= k < cmds.drop_first().len() && abs_ok(origin, #[trigger] cmds.drop_first()[k])
                ==> origin.y + cmds.drop_first()[k].y <= ybound);
        lemma_fold_extend_bound(r1, origin, cmds.drop_first(), ybound);
    }
}

/// Nothing `redraw` emits, its background clear included, lies at or
/// below the canvas's lower edge; text past the height limit is dropped
/// without error.
pub proof fn lemma_redraw_vertical_truncation(
    m: FontModel,
    canvas: Rect,
    a: Alignment,
    fg: Color,
    bg: Color,
    s: Seq<char>,
)
    requires
        canvas.valid(),
        spec_redraw(m, canvas, a, fg, bg, s) is Some,
    ensures
        forall|k: int|
            0 <= k < spec_redraw(m, canvas, a, fg, bg, s)->Some_0.len() ==> (#[trigger] spec_redraw(
                m,
                canvas,
                a,
                fg,
                bg,
                s,
            )->Some_0[k]).0.y < canvas.origin.y + canvas.height,
{
    let h = canvas.height as int;
    let pen0 = Pen { x: 0, y: 0, last: None };
    let rel = spec_walk(m, canvas.width as int, h, fg, bg, s, pen0)->Some_0.0;
    lemma_vertical_truncation(m, canvas.width as int, h, fg, bg, s, pen0);
    let seed = Rect { origin: canvas.origin, width: 0, height: 0 };
    let eff = fold_extend(seed, canvas.origin, rel);
    let ybound = canvas.origin.y + h;
    lemma_fold_extend_bound(seed, canvas.origin, rel, ybound);
    let off = spec_align_offset(a, canvas.width as int, eff.width as int);
    let aligned = Rect {
        origin: Point { x: (eff.origin.x + off) as u16, y: eff.origin.y },
        width: eff.width,
        height: eff.height,
    };
    let origin2 = Point { x: (canvas.origin.x + off) as u16, y: canvas.origin.y };
    let clear = spec_clear_cmds(aligned, bg);
    let drawn = spec_redraw(m, canvas, a, fg, bg, s)->Some_0;
    assert(drawn == clear + abs_cmds(origin2, rel));
    assert forall|k: int| 0 <= k < drawn.len() implies (#[trigger] drawn[k]).0.y < canvas.origin.y
        + canvas.height by {
        if k < clear.len() {
            assert(drawn[k] == clear[k]);
            let pk = aligned.point_seq()[k];
            let w = aligned.width as int;
            assert(w > 0 && aligned.height > 0) by (nonlinear_arith)
                requires
                    0 <= k < w * aligned.height,
                    w >= 0,
                    aligned.height >= 0,
            ;
            assert(0 <= k / w < aligned.height) by (nonlinear_arith)
                requires
                    0 <= k < w * aligned.height,
                    w > 0,
                    aligned.height > 0,
            ;
            assert(pk.y == aligned.origin.y + k / w);
        } else {
            lemma_abs_cmds_below(origin2, rel, ybound, k - clear.len());
        }
    }
}

/// A placed pixel sequence stays above the line its relative rows stay
/// above.
proof fn lemma_abs_cmds_below(origin: Point, rel: Seq<RelPixel>, ybound: int, k: int)
    requires
        forall|j: int| 0 <= j < rel.len() ==> origin.y + (#[trigger] rel[j].y as int) < ybound,
        0 <= k < abs_cmds(origin, rel).len(),
    ensures
        (abs_cmds(origin, rel)[k].0.y as int) < ybound,
    decreases rel.len(),
{
    if rel.len() > 0 {
        let rest = abs_cmds(origin, rel.drop_first());
        if abs_ok(origin, rel[0]) {
            if k == 0 {
                assert(abs_cmds(origin, rel)[0].0 == abs_point(origin, rel[0]));
            } else {
                lemma_abs_cmds_below(origin, rel.drop_first(), ybound, k - 1);
            }
        } else {
            lemma_abs_cmds_below(origin, rel.drop_first(), ybound, k);
        }
    }
}

} // verus!

use lcd_draw::text::walk_text;
use lcd_draw::Alignment;
use lcd_draw::Color;
use lcd_draw::Error;
use lcd_draw::FixedFont;
use lcd_draw::Font;
use lcd_draw::Point;
use lcd_draw::Rect;
use lcd_draw::TextBox;

const FG: Color = Color { red: 255, green: 255, blue: 255, alpha: 255 };
const BG: Color = Color { red: 10, green: 20, blue: 30, alpha: 0 };

// A FixedFont of size 8: every glyph is a 4x8 solid block with top -8
// (rows land exactly at the pen line), every advance is 5.
fn font8() -> FixedFont {
    FixedFont { size: 8 }
}

fn canvas(x: u16, y: u16, w: u16, h: u16) -> Rect {
    Rect { origin: Point { x, y }, width: w, height: h }
}

#[test]
fn walk_single_glyph_cell() {
    let f = font8();
    let rel = walk_text(&f, 100, 50, FG, BG, "A").unwrap();
    // 8 rows by 5 columns: 4 covered columns blend to pure foreground,
    // the advance column right of the bitmap is flat background.
    assert_eq!(rel.len(), 40);
    for p in &rel {
        assert!(p.x < 5 && p.y < 8);
        if p.x < 4 {
            assert_eq!(p.color, FG);
        } else {
            assert_eq!(p.color, BG);
        }
    }
}

#[test]
fn newline_resets_pen_and_emits_nothing() {
    let f = font8();
    let rel = walk_text(&f, 100, 50, FG, BG, "a\na").unwrap();
    assert_eq!(rel.len(), 80);
    let first: Vec<_> = rel.iter().filter(|p| p.y < 8).collect();
    let second: Vec<_> = rel.iter().filter(|p| p.y >= 8).collect();
    assert_eq!(first.len(), 40);
    assert_eq!(second.len(), 40);
    // the second line starts at the canvas's left edge again
    assert!(second.iter().any(|p| p.x == 0));
    assert!(second.iter().all(|p| p.x < 5 && p.y >= 8 && p.y < 16));
}

#[test]
fn space_paints_background_across_its_cell() {
    let f = font8();
    let rel = walk_text(&f, 100, 50, FG, BG, "a a").unwrap();
    assert_eq!(rel.len(), 120);
    // the space's full cell is painted flat background, never foreground
    let cell: Vec<_> = rel.iter().filter(|p| p.x >= 5 && p.x < 10).collect();
    assert_eq!(cell.len(), 40);
    assert!(cell.iter().all(|p| p.color == BG));
    // the glyph after the space starts two advances in
    assert!(rel.iter().any(|p| p.x == 10 && p.color == FG));
}

#[test]
fn wrap_before_right_edge() {
    let f = font8();
    let rel = walk_text(&f, 9, 50, FG, BG, "aa").unwrap();
    assert_eq!(rel.len(), 80);
    // the second glyph no longer fits 5 + 5 > 9, so it wraps to a new line
    let second: Vec<_> = rel.iter().filter(|p| p.y >= 8).collect();
    assert_eq!(second.len(), 40);
    assert!(second.iter().all(|p| p.x < 5));
}

#[test]
fn vertical_truncation_drops_tail_without_error() {
    let f = font8();
    // the first line fits exactly; the second passes the bottom and is dropped
    let rel = walk_text(&f, 100, 8, FG, BG, "a\naaa").unwrap();
    assert_eq!(rel.len(), 40);
    assert!(rel.iter().all(|p| p.y < 8));
    // nothing at all fits a shorter canvas, still no error
    let none = walk_text(&f, 100, 7, FG, BG, "a").unwrap();
    assert_eq!(none.len(), 0);
}

#[test]
fn redraw_left_clears_then_draws() {
    let f = font8();
    let tb = TextBox {
        alignment: Alignment::Left,
        canvas: canvas(10, 20, 100, 50),
        font: &f,
        bg_color: BG,
        fg_color: FG,
    };
    let cmds = tb.redraw("A").unwrap();
    // effective box: far corner (14, 27) inclusive, so a 4 x 7 clear,
    // then the 40 glyph-cell pixels
    assert_eq!(cmds.len(), 28 + 40);
    for (p, c) in &cmds[..28] {
        assert!(p.x >= 10 && p.x < 14 && p.y >= 20 && p.y < 27);
        assert_eq!(*c, BG);
    }
    for (p, c) in &cmds[28..] {
        assert!(p.x >= 10 && p.x <= 14 && p.y >= 20 && p.y <= 27);
        if p.x < 14 {
            assert_eq!(*c, FG);
        } else {
            assert_eq!(*c, BG);
        }
    }
}

#[test]
fn center_alignment_translates_draw_pass() {
    let f = font8();
    let left = TextBox {
        alignment: Alignment::Left,
        canvas: canvas(10, 20, 100, 50),
        font: &f,
        bg_color: BG,
        fg_color: FG,
    };
    let center = TextBox { alignment: Alignment::Center, ..left };
    let l = left.redraw("ab").unwrap();
    let c = center.redraw("ab").unwrap();
    assert_eq!(l.len(), c.len());
    // effective width 9 (far x = origin + 9 inclusive), offset (100 - 9) / 2 = 45
    let glyphs_l: Vec<_> = l.iter().skip(l.len() - 80).collect();
    let glyphs_c: Vec<_> = c.iter().skip(c.len() - 80).collect();
    for (gl, gc) in glyphs_l.iter().zip(glyphs_c.iter()) {
        assert_eq!(gc.0.x, gl.0.x + 45);
        assert_eq!(gc.0.y, gl.0.y);
        assert_eq!(gc.1, gl.1);
    }
    // the centered slack differs from the right slack by at most one pixel
    let min_x = glyphs_c.iter().map(|g| g.0.x).min().unwrap();
    let max_x = glyphs_c.iter().map(|g| g.0.x).max().unwrap();
    let left_gap = (min_x - 10) as i32;
    let right_gap = (10 + 100) as i32 - 1 - max_x as i32;
    assert!((left_gap - right_gap).abs() <= 2);
}

#[test]
fn right_alignment_reaches_right_edge() {
    let f = font8();
    let tb = TextBox {
        alignment: Alignment::Right,
        canvas: canvas(0, 0, 60, 50),
        font: &f,
        bg_color: BG,
        fg_color: FG,
    };
    let cmds = tb.redraw("a").unwrap();
    // effective width 4, offset 56: glyph columns 56..60, advance column 60
    let max_x = cmds.iter().map(|(p, _)| p.x).max().unwrap();
    assert_eq!(max_x, 60);
    assert!(cmds.iter().all(|(p, _)| p.x >= 56));
}

#[test]
fn font_rejects_unusable_bytes() {
    // a 12-byte header with no tables: indexing fails cleanly
    let bytes = [0u8; 12];
    match Font::new(&bytes, 16) {
        Err(Error::FontInfo) => {},
        _ => panic!("expected the font-info error"),
    }
}

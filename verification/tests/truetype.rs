//! Exercises the TrueType-backed font against a minimal hand-built
//! asset: one square glyph mapped from 'A', an empty glyph for 'B'.

use lcd_draw::text::walk_text;
use lcd_draw::Alignment;
use lcd_draw::Color;
use lcd_draw::Error;
use lcd_draw::Font;
use lcd_draw::FontProvider;
use lcd_draw::Point;
use lcd_draw::Rect;
use lcd_draw::TextBox;

const FG: Color = Color { red: 255, green: 255, blue: 255, alpha: 255 };
const BG: Color = Color { red: 10, green: 20, blue: 30, alpha: 0 };

fn be16(v: u16) -> [u8; 2] {
    v.to_be_bytes()
}

fn be32(v: u32) -> [u8; 4] {
    v.to_be_bytes()
}

/// A minimal font: 1000 units per em, two glyphs. Glyph 0 is empty,
/// glyph 1 is a single square contour from (0,0) to (500,500). The cmap
/// (format 0) maps every byte to glyph 1 except 'B', which maps to the
/// empty glyph. One long hmtx entry: advance 600, so 4 pixels at size 8.
fn build_font() -> Vec<u8> {
    build_font_opts(false, false)
}

/// The same font, optionally with a format-0 kern table that tightens
/// the (glyph 1, glyph 1) pair by 200 units, and optionally with the
/// square dipped 250 units below the baseline (a descender).
fn build_font_opts(with_kern: bool, descend: bool) -> Vec<u8> {
    let mut head = vec![0u8; 54];
    head[18..20].copy_from_slice(&be16(1000)); // unitsPerEm
    // indexToLocFormat at 50 stays 0 (short)

    let mut maxp = vec![0u8; 6];
    maxp[0..4].copy_from_slice(&be32(0x0001_0000));
    maxp[4..6].copy_from_slice(&be16(2)); // numGlyphs

    let mut hhea = vec![0u8; 36];
    hhea[34..36].copy_from_slice(&be16(1)); // numOfLongHorMetrics

    let mut hmtx = Vec::new();
    hmtx.extend_from_slice(&be16(600)); // advance of the long entry
    hmtx.extend_from_slice(&be16(0)); // left side bearing
    hmtx.extend_from_slice(&be16(0)); // bearing of the short entries

    let mut cmap = Vec::new();
    cmap.extend_from_slice(&be16(0)); // version
    cmap.extend_from_slice(&be16(1)); // one encoding record
    cmap.extend_from_slice(&be16(0)); // platform: Unicode
    cmap.extend_from_slice(&be16(3)); // encoding id
    cmap.extend_from_slice(&be32(12)); // subtable offset
    cmap.extend_from_slice(&be16(0)); // format 0
    cmap.extend_from_slice(&be16(262)); // length
    cmap.extend_from_slice(&be16(0)); // language
    let mut ids = [1u8; 256];
    ids[b'B' as usize] = 0;
    cmap.extend_from_slice(&ids);

    let y_min: i16 = if descend { -250 } else { 0 };
    let y_max: i16 = if descend { 250 } else { 500 };
    let mut glyf = Vec::new();
    glyf.extend_from_slice(&be16(1)); // one contour
    glyf.extend_from_slice(&be16(0)); // xMin
    glyf.extend_from_slice(&be16(y_min as u16)); // yMin
    glyf.extend_from_slice(&be16(500)); // xMax
    glyf.extend_from_slice(&be16(y_max as u16)); // yMax
    glyf.extend_from_slice(&be16(3)); // last point index
    glyf.extend_from_slice(&be16(0)); // no instructions
    glyf.extend_from_slice(&[1, 1, 1, 1]); // four on-curve points
    for dx in [0i16, 500, 0, -500] {
        glyf.extend_from_slice(&be16(dx as u16));
    }
    for dy in [y_min, 0, 500, 0] {
        glyf.extend_from_slice(&be16(dy as u16));
    }
    assert_eq!(glyf.len(), 34);

    let mut loca = Vec::new();
    loca.extend_from_slice(&be16(0)); // glyph 0 start
    loca.extend_from_slice(&be16(0)); // glyph 0 end / glyph 1 start
    loca.extend_from_slice(&be16(17)); // glyph 1 end (34 / 2)

    let mut kern = Vec::new();
    kern.extend_from_slice(&be16(0)); // table version
    kern.extend_from_slice(&be16(1)); // one subtable
    kern.extend_from_slice(&be16(0)); // subtable version
    kern.extend_from_slice(&be16(20)); // subtable length
    kern.extend_from_slice(&be16(1)); // horizontal, format 0
    kern.extend_from_slice(&be16(1)); // one pair
    kern.extend_from_slice(&[0u8; 6]); // search fields, unused
    kern.extend_from_slice(&be16(1)); // left glyph
    kern.extend_from_slice(&be16(1)); // right glyph
    kern.extend_from_slice(&be16((-200i16) as u16)); // adjustment

    let mut tables: Vec<(&[u8; 4], &[u8])> = vec![
        (b"cmap", &cmap),
        (b"glyf", &glyf),
        (b"head", &head),
        (b"hhea", &hhea),
        (b"hmtx", &hmtx),
    ];
    if with_kern {
        tables.push((b"kern", &kern));
    }
    tables.push((b"loca", &loca));
    tables.push((b"maxp", &maxp));
    let mut out = Vec::new();
    out.extend_from_slice(&be32(0x0001_0000)); // sfnt version
    out.extend_from_slice(&be16(tables.len() as u16));
    out.extend_from_slice(&[0u8; 6]); // search fields, unused
    let mut offset = 12 + 16 * tables.len() as u32;
    for (tag, data) in &tables {
        out.extend_from_slice(*tag);
        out.extend_from_slice(&be32(0)); // checksum, unused
        out.extend_from_slice(&be32(offset));
        out.extend_from_slice(&be32(data.len() as u32));
        offset += data.len() as u32;
    }
    for (_, data) in &tables {
        out.extend_from_slice(data);
    }
    out
}

#[test]
fn parses_and_scales_advances() {
    let bytes = build_font();
    let font = Font::new(&bytes, 8).unwrap();
    // 600 units * 8 px / 1000 units = 4.8, truncated to 4
    assert_eq!(font.advance_width(None, 1), 4);
    assert_eq!(font.size(), 8);
    assert_eq!(font.glyph_index('A'), 1);
    assert_eq!(font.glyph_index('B'), 0);
}

#[test]
fn walk_renders_square_glyph() {
    let bytes = build_font();
    let font = Font::new(&bytes, 8).unwrap();
    // the 500-unit square rasterizes to 4x4 pixels with top -4: the cell
    // sits in rows 4..8 below the pen line
    let rel = walk_text(&font, 100, 50, FG, BG, "A").unwrap();
    assert_eq!(rel.len(), 16);
    for p in &rel {
        assert!(p.x < 4 && p.y >= 4 && p.y < 8);
        assert!(p.color.red >= BG.red && p.color.green >= BG.green);
    }
    // the square covers its box fully, so interior coverage is total
    assert!(rel.iter().any(|p| p.color == FG));

    let two = walk_text(&font, 100, 50, FG, BG, "AA").unwrap();
    assert_eq!(two.len(), 32);
    assert_eq!(two.iter().map(|p| p.x).max().unwrap(), 7);
}

#[test]
fn descender_rows_clip_at_bottom_edge() {
    let bytes = build_font_opts(false, true);
    let font = Font::new(&bytes, 8).unwrap();
    // the square dips two pixel rows below the baseline: rows 6..10
    let tall = walk_text(&font, 100, 12, FG, BG, "A").unwrap();
    assert_eq!(tall.len(), 16);
    assert!(tall.iter().all(|p| p.y >= 6 && p.y < 10));
    // an 8-row canvas keeps the cell but clips the two descender rows
    let short = walk_text(&font, 100, 8, FG, BG, "A").unwrap();
    assert_eq!(short.len(), 8);
    assert!(short.iter().all(|p| p.y >= 6 && p.y < 8));
}

#[test]
fn kerning_tightens_advances() {
    let bytes = build_font_opts(true, false);
    let font = Font::new(&bytes, 8).unwrap();
    // no previous glyph: 600 * 8 / 1000 = 4
    assert_eq!(font.advance_width(None, 1), 4);
    // after glyph 1: (600 - 200) * 8 / 1000 = 3
    assert_eq!(font.advance_width(Some(1), 1), 3);
    // pens land at 0, 4, 7: the third cell spans columns 7..11
    let rel = walk_text(&font, 100, 50, FG, BG, "AAA").unwrap();
    assert_eq!(rel.iter().map(|p| p.x).max().unwrap(), 10);
}

#[test]
fn empty_glyph_is_a_recoverable_error() {
    let bytes = build_font();
    let font = Font::new(&bytes, 8).unwrap();
    assert!(matches!(walk_text(&font, 100, 50, FG, BG, "B"), Err(Error::Rasterize)));
}

#[test]
fn redraw_with_truetype_font() {
    let bytes = build_font();
    let font = Font::new(&bytes, 8).unwrap();
    let tb = TextBox {
        alignment: Alignment::Left,
        canvas: Rect { origin: Point { x: 0, y: 0 }, width: 100, height: 50 },
        font: &font,
        bg_color: BG,
        fg_color: FG,
    };
    let cmds = tb.redraw("A").unwrap();
    // clear of the effective box (far corner (3, 7) inclusive: 3 x 7)
    // followed by the 16 glyph pixels
    assert_eq!(cmds.len(), 21 + 16);
    assert!(cmds[21..].iter().all(|(p, _)| p.x < 4 && p.y >= 4 && p.y < 8));
}

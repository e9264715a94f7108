use lcd_draw::color::mix_color;
use lcd_draw::color::mix_u8;
use lcd_draw::lcd::line_points;
use lcd_draw::Color;
use lcd_draw::Layer;
use lcd_draw::Lcd;
use lcd_draw::Line;
use lcd_draw::Point;
use lcd_draw::Rect;

fn pt(x: u16, y: u16) -> Point {
    Point { x, y }
}

#[test]
fn mix_endpoints_exact() {
    for (a, b) in [(0u8, 255u8), (255, 0), (17, 211), (99, 99)] {
        assert_eq!(mix_u8(a, b, 0), b);
        assert_eq!(mix_u8(a, b, 255), a);
    }
}

#[test]
fn mix_exact_value() {
    // (200 * 128 + 100 * 127) / 255 = 38300 / 255 = 150
    assert_eq!(mix_u8(200, 100, 128), 150);
    // (10 * 51 + 250 * 204) / 255 = 51510 / 255 = 202
    assert_eq!(mix_u8(10, 250, 51), 202);
}

#[test]
fn mix_monotonic_in_weight() {
    let (a, b) = (240u8, 20u8);
    let mut prev = mix_u8(a, b, 0);
    for w in 1..=255u8 {
        let cur = mix_u8(a, b, w);
        assert!(cur >= prev);
        prev = cur;
    }
}

#[test]
fn mix_color_blends_all_channels() {
    let fg = Color { red: 255, green: 0, blue: 100, alpha: 255 };
    let bg = Color { red: 0, green: 255, blue: 100, alpha: 0 };
    assert_eq!(mix_color(fg, bg, 0), bg);
    assert_eq!(mix_color(fg, bg, 255), fg);
    let mid = mix_color(fg, bg, 128);
    assert_eq!(mid.red, mix_u8(255, 0, 128));
    assert_eq!(mid.green, mix_u8(0, 255, 128));
    assert_eq!(mid.blue, 100);
}

#[test]
fn packed_pixel_formats() {
    let black = Color { red: 0, green: 0, blue: 0, alpha: 0 };
    assert_eq!(black.to_argb1555(), 0);
    assert_eq!(black.to_rgb(), 0);
    let white = Color { red: 255, green: 255, blue: 255, alpha: 255 };
    assert_eq!(white.to_argb1555(), 0xFFFF);
    assert_eq!(white.to_rgb(), 0xFF_FF_FF);
    let red = Color { red: 255, green: 0, blue: 0, alpha: 0 };
    assert_eq!(red.to_argb1555(), 31 * 1024);
    assert_eq!(red.to_rgb(), 0xFF_00_00);
}

#[test]
fn line_point_counts() {
    let single = line_points(Line { from: pt(0, 0), to: pt(0, 0) });
    assert_eq!(single.len(), 1);
    assert_eq!(single[0], pt(0, 0));

    let horiz = line_points(Line { from: pt(0, 0), to: pt(5, 0) });
    assert_eq!(horiz.len(), 6);
    for (k, p) in horiz.iter().enumerate() {
        assert_eq!(*p, pt(k as u16, 0));
    }

    let diag = line_points(Line { from: pt(0, 0), to: pt(3, 3) });
    assert_eq!(diag.len(), 4);
    for (k, p) in diag.iter().enumerate() {
        assert_eq!(*p, pt(k as u16, k as u16));
    }
}

#[test]
fn line_points_endpoints_and_reverse() {
    let l = Line { from: pt(7, 2), to: pt(1, 9) };
    let pts = line_points(l);
    assert_eq!(pts[0], l.from);
    assert_eq!(*pts.last().unwrap(), l.to);
    assert!(pts.len() >= 8);
    for p in &pts {
        assert!(p.x >= 1 && p.x <= 7 && p.y >= 2 && p.y <= 9);
    }
}

#[test]
fn point_addr_formula() {
    let lcd = Lcd::new();
    assert_eq!(lcd.point_addr(pt(0, 0), Layer::Layer1), 0xC000_0000);
    assert_eq!(lcd.point_addr(pt(1, 2), Layer::Layer1), 0xC000_0000 + (2 * 480 + 1) * 2);
    assert_eq!(lcd.point_addr(pt(0, 0), Layer::Layer2), 0xC000_0000 + 480 * 272 * 2);
}

#[test]
fn draw_point_writes_and_clips() {
    let mut lcd = Lcd::new();
    lcd.draw_point_color(pt(3, 1), Layer::Layer1, 0xABCD);
    assert_eq!(lcd.layer1[480 + 3], 0xABCD);
    assert_eq!(lcd.layer2[480 + 3], 0);
    // out of range: silently clipped
    lcd.draw_point_color(pt(480, 0), Layer::Layer1, 0x1234);
    lcd.draw_point_color(pt(0, 272), Layer::Layer1, 0x1234);
    assert!(lcd.layer1.iter().filter(|&&v| v != 0).count() == 1);
}

#[test]
fn fill_rect_and_clear() {
    let mut lcd = Lcd::new();
    let r = Rect { origin: pt(1, 1), width: 2, height: 2 };
    lcd.fill_rect_color(r, Layer::Layer2, 7);
    for y in 0..272u32 {
        for x in 0..480u32 {
            let inside = x >= 1 && x < 3 && y >= 1 && y < 3;
            let v = lcd.layer2[(y * 480 + x) as usize];
            assert_eq!(v, if inside { 7 } else { 0 });
        }
    }
    lcd.clear_screen();
    assert!(lcd.layer1.iter().all(|&v| v == 0));
    assert!(lcd.layer2.iter().all(|&v| v == 0));
}

#[test]
fn draw_line_writes_and_rejects() {
    let mut lcd = Lcd::new();
    lcd.draw_line_color(Line { from: pt(0, 0), to: pt(3, 3) }, Layer::Layer1, 9);
    for k in 0..4usize {
        assert_eq!(lcd.layer1[k * 480 + k], 9);
    }
    assert_eq!(lcd.layer1.iter().filter(|&&v| v != 0).count(), 4);
    // either endpoint outside: the whole line is rejected
    let mut lcd2 = Lcd::new();
    lcd2.draw_line_color(Line { from: pt(0, 0), to: pt(480, 0) }, Layer::Layer1, 9);
    assert!(lcd2.layer1.iter().all(|&v| v == 0));
}

#[test]
fn background_color_register() {
    let mut lcd = Lcd::new();
    lcd.set_background_color(Color { red: 0x12, green: 0x34, blue: 0x56, alpha: 0xFF });
    assert_eq!(lcd.background, 0x12_34_56);
}

use lcd_draw::Anchor;
use lcd_draw::Point;
use lcd_draw::Rect;

fn rect(x: u16, y: u16, w: u16, h: u16) -> Rect {
    Rect { origin: Point { x, y }, width: w, height: h }
}

#[test]
fn foreach_point_counts_and_order() {
    let r = rect(1, 1, 3, 2);
    let pts = r.foreach_point();
    assert_eq!(pts.len(), 6);
    let expected = [(1, 1), (2, 1), (3, 1), (1, 2), (2, 2), (3, 2)];
    for (k, (x, y)) in expected.iter().enumerate() {
        assert_eq!(pts[k].x, *x);
        assert_eq!(pts[k].y, *y);
    }
}

#[test]
fn foreach_point_distinct_and_contained() {
    let r = rect(5, 7, 4, 3);
    let pts = r.foreach_point();
    assert_eq!(pts.len(), 12);
    for i in 0..pts.len() {
        assert!(r.contains_point(&pts[i]));
        for j in 0..pts.len() {
            if i != j {
                assert!(pts[i] != pts[j]);
            }
        }
    }
}

#[test]
fn foreach_point_empty_rect() {
    let r = rect(10, 10, 0, 5);
    assert_eq!(r.foreach_point().len(), 0);
}

#[test]
fn contains_origin_always() {
    assert!(rect(0, 0, 0, 0).contains_point(&Point { x: 0, y: 0 }));
    assert!(rect(17, 9, 5, 5).contains_point(&Point { x: 17, y: 9 }));
    assert!(rect(100, 200, 0, 0).contains_point(&Point { x: 100, y: 200 }));
}

#[test]
fn contains_far_edge_inclusive_enumeration_exclusive() {
    let r = rect(2, 2, 3, 3);
    // far corner is contained...
    assert!(r.contains_point(&Point { x: 5, y: 5 }));
    // ...but never enumerated
    for p in r.foreach_point() {
        assert!(p.x < 5 && p.y < 5);
    }
    assert!(!r.contains_point(&Point { x: 6, y: 3 }));
    assert!(!r.contains_point(&Point { x: 1, y: 3 }));
}

#[test]
fn anchor_points() {
    let r = rect(10, 20, 5, 7);
    assert_eq!(r.anchor_point(Anchor::UpperRight), Point { x: 15, y: 20 });
    assert_eq!(r.anchor_point(Anchor::LowerRight), Point { x: 15, y: 27 });
    assert_eq!(r.anchor_point(Anchor::LowerLeft), Point { x: 10, y: 27 });
}

#[test]
fn union_covers_both_and_never_shrinks() {
    let a = rect(2, 3, 4, 5);
    let b = rect(5, 1, 10, 2);
    let u = Rect::union(a, b);
    assert_eq!(u.origin, Point { x: 2, y: 1 });
    assert_eq!(u.width, 13); // far x = max(6, 15) = 15
    assert_eq!(u.height, 7); // far y = max(8, 3) = 8
    assert!(u.width >= a.width && u.width >= b.width);
    assert!(u.height >= a.height && u.height >= b.height);
    for p in a.foreach_point() {
        assert!(u.contains_point(&p));
    }
    for p in b.foreach_point() {
        assert!(u.contains_point(&p));
    }
}

#[test]
fn extend_to_point_grows_and_is_noop_inside() {
    let mut r = rect(4, 4, 2, 2);
    let before = r;
    r.extend_to_point(Point { x: 5, y: 5 });
    assert_eq!(r, before); // already inside: unchanged
    r.extend_to_point(Point { x: 10, y: 1 });
    assert_eq!(r.origin, Point { x: 4, y: 1 });
    assert_eq!(r.width, 6);
    assert_eq!(r.height, 5);
    assert!(r.contains_point(&Point { x: 10, y: 1 }));
}

#[test]
fn point_min_max_translate() {
    let a = Point { x: 3, y: 9 };
    let b = Point { x: 5, y: 2 };
    assert_eq!(Point::min(a, b), Point { x: 3, y: 2 });
    assert_eq!(Point::max(a, b), Point { x: 5, y: 9 });
    assert_eq!(a.translate(b), Point { x: 8, y: 11 });
    let mut c = a;
    c.translate_assign(b);
    assert_eq!(c, Point { x: 8, y: 11 });
}

//! Geometry value types: grid points, rectangles, lines and rect anchors.
//!
//! A `Rect` stores its extent as a width/height pair, not as a far corner.
//! Containment treats the far edge (`origin + extent`) as inclusive while
//! enumeration (`foreach_point`) treats it as exclusive; both policies are
//! stated in the contracts so callers need not assume symmetry.

use vstd::prelude::*;

verus! {

/// A point on the unsigned pixel grid.
#[derive(Copy, Clone, Debug, PartialEq, Eq, Structural)]
pub struct Point {
    pub x: u16,
    pub y: u16,
}

/// A straight segment between two grid points, both endpoints included.
#[derive(Copy, Clone, Debug, PartialEq, Eq, Structural)]
pub struct Line {
    pub from: Point,
    pub to: Point,
}

/// An axis-aligned rectangle: an origin corner plus extents.
#[derive(Copy, Clone, Debug, PartialEq, Eq, Structural)]
pub struct Rect {
    pub origin: Point,
    pub width: u16,
    pub height: u16,
}

/// A named corner of a `Rect`.
#[derive(Copy, Clone, Debug, PartialEq, Eq, Structural)]
pub enum Anchor {
    UpperRight,
    LowerRight,
    LowerLeft,
}

impl Point {
    /// Componentwise maximum.
    pub fn max(a: Point, b: Point) -> (r: Point)
        ensures
            r.x == if a.x >= b.x { a.x } else { b.x },
            r.y == if a.y >= b.y { a.y } else { b.y },
    {
        Point { x: if a.x >= b.x { a.x } else { b.x }, y: if a.y >= b.y { a.y } else { b.y } }
    }

    /// Componentwise minimum.
    pub fn min(a: Point, b: Point) -> (r: Point)
        ensures
            r.x == if a.x <= b.x { a.x } else { b.x },
            r.y == if a.y <= b.y { a.y } else { b.y },
    {
        Point { x: if a.x <= b.x { a.x } else { b.x }, y: if a.y <= b.y { a.y } else { b.y } }
    }

    /// Componentwise addition.
    pub fn translate(self, other: Point) -> (r: Point)
        requires
            self.x + other.x <= u16::MAX,
            self.y + other.y <= u16::MAX,
        ensures
            r.x == self.x + other.x,
            r.y == self.y + other.y,
    {
        Point { x: self.x + other.x, y: self.y + other.y }
    }

    /// Componentwise addition in place.
    pub fn translate_assign(&mut self, other: Point)
        requires
            old(self).x + other.x <= u16::MAX,
            old(self).y + other.y <= u16::MAX,
        ensures
            final(self).x == old(self).x + other.x,
            final(self).y == old(self).y + other.y,
    {
        *self = Point { x: self.x + other.x, y: self.y + other.y };
    }
}

impl Rect {
    /// A rect is valid when its far corner still fits the coordinate type.
    pub open spec fn valid(self) -> bool {
        self.origin.x + self.width <= u16::MAX && self.origin.y + self.height <= u16::MAX
    }

    /// Containment with an inclusive far edge.
    pub open spec fn spec_contains(self, p: Point) -> bool {
        &&& self.origin.x <= p.x <= self.origin.x + self.width
        &&& self.origin.y <= p.y <= self.origin.y + self.height
    }

    /// The row-major enumeration of the rect's cells, far edge exclusive:
    /// cell `k` is `(origin.x + k % width, origin.y + k / width)`.
    pub open spec fn point_seq(self) -> Seq<Point> {
        Seq::new(
            (self.width * self.height) as nat,
            |k: int|
                Point {
                    x: (self.origin.x + k % (self.width as int)) as u16,
                    y: (self.origin.y + k / (self.width as int)) as u16,
                },
        )
    }

    /// Every integer point in `[origin, origin + extent)`, row-major:
    /// all x for a given y, in increasing y. Exactly `width * height` cells.
    pub fn foreach_point(&self) -> (r: Vec<Point>)
        requires
            self.valid(),
        ensures
            r@ == self.point_seq(),
            r@.len() == self.width * self.height,
    {
        let mut r: Vec<Point> = Vec::new();
        let mut i: u16 = 0;
        while i < self.height
            invariant
                self.valid(),
                i <= self.height,
                r@.len() == self.width * i,
                r@ =~= self.point_seq().take((self.width * i) as int),
            decreases self.height - i,
        {
            let mut j: u16 = 0;
            while j < self.width
                invariant
                    self.valid(),
                    i < self.height,
                    j <= self.width,
                    r@.len() == self.width * i + j,
                    r@ =~= self.point_seq().take((self.width * i + j) as int),
                decreases self.width - j,
            {
                proof {
                    let k = (self.width * i + j) as int;
                    let w = self.width as int;
                    assert(k == w * (i as int) + (j as int));
                    assert(k % w == j as int && k / w == i as int) by (nonlinear_arith)
                        requires
                            w > 0,
                            0 <= (j as int) < w,
                            k == w * (i as int) + (j as int),
                            0 <= i as int,
                    ;
                    assert(k < self.width * self.height) by (nonlinear_arith)
                        requires
                            k == (self.width as int) * (i as int) + (j as int),
                            (j as int) < self.width as int,
                            (i as int) < self.height as int,
                            0 <= i as int,
                            0 <= j as int,
                    ;
                }
                let p = Point { x: self.origin.x + j, y: self.origin.y + i };
                r.push(p);
                j = j + 1;
            }
            i = i + 1;
            proof {
                assert(self.width * i == self.width * (i - 1) + self.width) by (nonlinear_arith);
            }
        }
        proof {
            assert(self.width * self.height == self.width * self.height);
            assert(r@ =~= self.point_seq());
        }
        r
    }

    /// Closed-form corner derivation; the far corner uses `origin + extent`.
    pub fn anchor_point(&self, anchor: Anchor) -> (r: Point)
        requires
            self.valid(),
        ensures
            r == self.spec_anchor(anchor),
    {
        match anchor {
            Anchor::UpperRight => Point { x: self.origin.x + self.width, y: self.origin.y },
            Anchor::LowerRight => Point {
                x: self.origin.x + self.width,
                y: self.origin.y + self.height,
            },
            Anchor::LowerLeft => Point { x: self.origin.x, y: self.origin.y + self.height },
        }
    }

    /// The corner a given anchor names.
    pub open spec fn spec_anchor(self, anchor: Anchor) -> Point {
        match anchor {
            Anchor::UpperRight => Point {
                x: (self.origin.x + self.width) as u16,
                y: self.origin.y,
            },
            Anchor::LowerRight => Point {
                x: (self.origin.x + self.width) as u16,
                y: (self.origin.y + self.height) as u16,
            },
            Anchor::LowerLeft => Point {
                x: self.origin.x,
                y: (self.origin.y + self.height) as u16,
            },
        }
    }

    /// Containment check; far edge inclusive (enumeration excludes it).
    pub fn contains_point(&self, p: &Point) -> (r: bool)
        ensures
            r == self.spec_contains(*p),
    {
        let x = p.x as u32;
        let y = p.y as u32;
        let ox = self.origin.x as u32;
        let oy = self.origin.y as u32;
        x >= ox && x <= ox + self.width as u32 && y >= oy && y <= oy + self.height as u32
    }

    /// The smallest rect covering both inputs: the origin moves to the
    /// componentwise minimum, the far corner to the componentwise maximum,
    /// so neither extent ever shrinks.
    pub fn union(a: Rect, b: Rect) -> (r: Rect)
        requires
            a.valid(),
            b.valid(),
        ensures
            r.origin.x == if a.origin.x <= b.origin.x { a.origin.x } else { b.origin.x },
            r.origin.y == if a.origin.y <= b.origin.y { a.origin.y } else { b.origin.y },
            r.origin.x + r.width == max2(a.origin.x + a.width, b.origin.x + b.width),
            r.origin.y + r.height == max2(a.origin.y + a.height, b.origin.y + b.height),
            r.valid(),
            r.width >= a.width && r.width >= b.width,
            r.height >= a.height && r.height >= b.height,
            forall|p: Point| a.spec_contains(p) || b.spec_contains(p) ==> r.spec_contains(p),
    {
        let a_max = a.anchor_point(Anchor::LowerRight);
        let b_max = b.anchor_point(Anchor::LowerRight);
        let o = Point::min(a.origin, b.origin);
        let m = Point::max(a_max, b_max);
        Rect { origin: o, width: m.x - o.x, height: m.y - o.y }
    }

    /// Grow the rect by the least amount that brings `p` inside
    /// (far edge inclusive). A point already inside leaves it unchanged.
    pub fn extend_to_point(&mut self, p: Point)
        requires
            old(self).valid(),
        ensures
            *final(self) == spec_extend(*old(self), p),
            final(self).valid(),
            final(self).spec_contains(p),
            final(self).width >= old(self).width,
            final(self).height >= old(self).height,
            forall|q: Point| old(self).spec_contains(q) ==> final(self).spec_contains(q),
            old(self).spec_contains(p) ==> *final(self) == *old(self),
    {
        let r = Rect::union(*self, Rect { origin: p, width: 0, height: 0 });
        *self = r;
    }
}

/// The rect `extend_to_point` grows to: the origin moves down to `p`
/// where needed, the far corner up to it.
pub open spec fn spec_extend(r: Rect, p: Point) -> Rect {
    let ox = if r.origin.x <= p.x {
        r.origin.x
    } else {
        p.x
    };
    let oy = if r.origin.y <= p.y {
        r.origin.y
    } else {
        p.y
    };
    let fx = max2(r.origin.x + r.width, p.x as int);
    let fy = max2(r.origin.y + r.height, p.y as int);
    Rect { origin: Point { x: ox, y: oy }, width: (fx - ox) as u16, height: (fy - oy) as u16 }
}

/// The larger of two values.
pub open spec fn max2(a: int, b: int) -> int {
    if a >= b {
        a
    } else {
        b
    }
}

/// Every cell the enumeration yields lies inside the rect, and no cell
/// is yielded twice: `foreach_point` gives `width * height` distinct
/// points, each satisfying `spec_contains`.
pub proof fn lemma_point_seq_distinct_contained(r: Rect)
    requires
        r.valid(),
    ensures
        forall|k: int|
            0 <= k < r.point_seq().len() ==> r.spec_contains(#[trigger] r.point_seq()[k]),
        forall|k1: int, k2: int|
            0 <= k1 < r.point_seq().len() && 0 <= k2 < r.point_seq().len() && k1 != k2
                ==> r.point_seq()[k1] != r.point_seq()[k2],
{
    let w = r.width as int;
    let h = r.height as int;
    assert forall|k: int| 0 <= k < r.point_seq().len() implies r.spec_contains(
        #[trigger] r.point_seq()[k],
    ) by {
        assert(w > 0 && h > 0) by (nonlinear_arith)
            requires
                0 <= k < w * h,
                w >= 0,
                h >= 0,
        ;
        assert(0 <= k % w < w && 0 <= k / w < h) by (nonlinear_arith)
            requires
                0 <= k < w * h,
                w > 0,
                h > 0,
        ;
    }
    assert forall|k1: int, k2: int|
        0 <= k1 < r.point_seq().len() && 0 <= k2 < r.point_seq().len() && k1 != k2 implies r
        .point_seq()[k1] != r.point_seq()[k2] by {
        assert(w > 0 && h > 0) by (nonlinear_arith)
            requires
                0 <= k1 < w * h,
                w >= 0,
                h >= 0,
        ;
        assert(0 <= k1 % w < w && 0 <= k1 / w < h) by (nonlinear_arith)
            requires
                0 <= k1 < w * h,
                w > 0,
                h > 0,
        ;
        assert(0 <= k2 % w < w && 0 <= k2 / w < h) by (nonlinear_arith)
            requires
                0 <= k2 < w * h,
                w > 0,
                h > 0,
        ;
        assert(k1 % w != k2 % w || k1 / w != k2 / w) by (nonlinear_arith)
            requires
                0 <= k1,
                0 <= k2,
                w > 0,
                k1 != k2,
        ;
        let ox = r.origin.x as int;
        let oy = r.origin.y as int;
        assert(ox + k1 % w <= u16::MAX && ox + k2 % w <= u16::MAX);
        assert(oy + k1 / w <= u16::MAX && oy + k2 / w <= u16::MAX);
        if k1 % w != k2 % w {
            assert(r.point_seq()[k1].x != r.point_seq()[k2].x);
        } else {
            assert(r.point_seq()[k1].y != r.point_seq()[k2].y);
        }
    }
}

/// A rect always contains its own origin (the far edge being inclusive,
/// this needs no extent at all).
pub proof fn lemma_contains_origin(r: Rect)
    ensures
        r.spec_contains(r.origin),
{
}

} // verus!

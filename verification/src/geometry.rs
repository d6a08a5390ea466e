//! Geometry primitives: axis-aligned boxes, 2D keypoints, and the
//! intersection-over-union overlap measure used by suppression.
//!
//! A box is stored in corner form (`xmin`, `ymin`, `width`, `height`) in
//! integer image pixels, together with its predicted class and a fixed-point
//! confidence in `[0, UNIT]`.  Intersection-over-union comparisons are exact:
//! `IoU > t/UNIT` is decided by cross-multiplication of the rational
//! `intersection / union`, with no rounding.

use vstd::prelude::*;

use crate::arith::lemma_div_bound;
use crate::arith::lemma_div_exact;
use crate::arith::lemma_mul_bound;
use crate::units::COORD_LIMIT;
use crate::units::UNIT;

verus! {

/// A 2D keypoint with a fixed-point confidence.
#[derive(Clone, Copy, Debug, PartialEq, Eq, Structural)]
pub struct Point2 {
    pub x: i64,
    pub y: i64,
    pub conf: i64,
}

/// An axis-aligned detection box in image-pixel coordinates.
#[derive(Clone, Copy, Debug, PartialEq, Eq, Structural)]
pub struct Bbox {
    pub xmin: i64,
    pub ymin: i64,
    pub width: i64,
    pub height: i64,
    pub id: usize,
    pub conf: i64,
}

impl Bbox {
    /// The box invariant: nonnegative extent, bounded coordinates, and a
    /// confidence in `[0, 1]` (fixed-point `[0, UNIT]`).
    pub open spec fn wf(self) -> bool {
        &&& -COORD_LIMIT <= self.xmin <= COORD_LIMIT
        &&& -COORD_LIMIT <= self.ymin <= COORD_LIMIT
        &&& 0 <= self.width <= COORD_LIMIT
        &&& 0 <= self.height <= COORD_LIMIT
        &&& 0 <= self.conf <= UNIT
    }

    /// Right edge, `xmin + width`.
    pub open spec fn spec_xmax(self) -> int {
        self.xmin + self.width
    }

    /// Bottom edge, `ymin + height`.
    pub open spec fn spec_ymax(self) -> int {
        self.ymin + self.height
    }

    /// Area, `width * height`.
    pub open spec fn spec_area(self) -> int {
        self.width * self.height
    }

    pub fn new(xmin: i64, ymin: i64, width: i64, height: i64, id: usize, conf: i64) -> (r: Bbox)
        requires
            -COORD_LIMIT <= xmin <= COORD_LIMIT,
            -COORD_LIMIT <= ymin <= COORD_LIMIT,
            0 <= width <= COORD_LIMIT,
            0 <= height <= COORD_LIMIT,
            0 <= conf <= UNIT,
        ensures
            r == (Bbox { xmin, ymin, width, height, id, conf }),
            r.wf(),
    {
        Bbox { xmin, ymin, width, height, id, conf }
    }

    pub fn xmax(&self) -> (r: i64)
        requires
            self.wf(),
        ensures
            r == self.spec_xmax(),
    {
        self.xmin + self.width
    }

    pub fn ymax(&self) -> (r: i64)
        requires
            self.wf(),
        ensures
            r == self.spec_ymax(),
    {
        self.ymin + self.height
    }

    pub fn area(&self) -> (r: i128)
        requires
            self.wf(),
        ensures
            r == self.spec_area(),
    {
        proof {
            lemma_mul_bound(self.width as int, self.height as int, COORD_LIMIT as int,
                COORD_LIMIT as int);
        }
        (self.width as i128) * (self.height as i128)
    }
}

pub open spec fn imin(a: int, b: int) -> int {
    if a <= b {
        a
    } else {
        b
    }
}

pub open spec fn imax(a: int, b: int) -> int {
    if a >= b {
        a
    } else {
        b
    }
}

/// Width of the intersection of two boxes (0 when they do not overlap
/// horizontally).
pub open spec fn inter_width(a: Bbox, b: Bbox) -> int {
    imax(0, imin(a.spec_xmax(), b.spec_xmax()) - imax(a.xmin as int, b.xmin as int))
}

/// Height of the intersection of two boxes.
pub open spec fn inter_height(a: Bbox, b: Bbox) -> int {
    imax(0, imin(a.spec_ymax(), b.spec_ymax()) - imax(a.ymin as int, b.ymin as int))
}

/// Area of the intersection of two boxes.
pub open spec fn inter_area(a: Bbox, b: Bbox) -> int {
    inter_width(a, b) * inter_height(a, b)
}

/// Area of the union of two boxes: `areaA + areaB - intersection`.
pub open spec fn union_area(a: Bbox, b: Bbox) -> int {
    a.spec_area() + b.spec_area() - inter_area(a, b)
}

/// Exact test for `IoU(a, b) > t / UNIT`, by cross-multiplication.  When the
/// union is empty the intersection is empty too, so the test is false: two
/// degenerate boxes never exceed any threshold.
pub open spec fn iou_exceeds(a: Bbox, b: Bbox, t: int) -> bool {
    inter_area(a, b) * UNIT > t * union_area(a, b)
}

/// IoU scaled by `UNIT` and rounded down; `UNIT` stands for exactly `1.0`
/// and `0` for exactly `0.0`.  Defined as `0` when the union is empty.
pub open spec fn spec_iou(a: Bbox, b: Bbox) -> int {
    if union_area(a, b) == 0 {
        0
    } else {
        inter_area(a, b) * UNIT / union_area(a, b)
    }
}

/// Two boxes are disjoint when their interiors share no pixel.
pub open spec fn disjoint(a: Bbox, b: Bbox) -> bool {
    inter_width(a, b) == 0 || inter_height(a, b) == 0
}

/// The intersection of two well-formed boxes is no larger than either box.
proof fn lemma_inter_area_le(a: Bbox, b: Bbox)
    requires
        a.wf(),
        b.wf(),
    ensures
        0 <= inter_area(a, b),
        inter_area(a, b) <= a.spec_area(),
        inter_area(a, b) <= b.spec_area(),
        inter_width(a, b) <= COORD_LIMIT,
        inter_height(a, b) <= COORD_LIMIT,
{
    lemma_mul_bound(inter_width(a, b), inter_height(a, b), a.width as int, a.height as int);
    lemma_mul_bound(inter_width(a, b), inter_height(a, b), b.width as int, b.height as int);
}

/// Intersection and union areas of two boxes, with the bounds the IoU
/// arithmetic needs.
fn overlap_areas(a: &Bbox, b: &Bbox) -> (r: (i128, i128))
    requires
        a.wf(),
        b.wf(),
    ensures
        r.0 == inter_area(*a, *b),
        r.1 == union_area(*a, *b),
        0 <= r.0 <= r.1 <= 2 * COORD_LIMIT * COORD_LIMIT,
{
    let ax2 = a.xmax();
    let bx2 = b.xmax();
    let ay2 = a.ymax();
    let by2 = b.ymax();
    let x_hi = if ax2 <= bx2 { ax2 } else { bx2 };
    let x_lo = if a.xmin >= b.xmin { a.xmin } else { b.xmin };
    let y_hi = if ay2 <= by2 { ay2 } else { by2 };
    let y_lo = if a.ymin >= b.ymin { a.ymin } else { b.ymin };
    let iw: i64 = if x_hi > x_lo { x_hi - x_lo } else { 0 };
    let ih: i64 = if y_hi > y_lo { y_hi - y_lo } else { 0 };
    proof {
        assert(iw == inter_width(*a, *b));
        assert(ih == inter_height(*a, *b));
        lemma_inter_area_le(*a, *b);
        lemma_mul_bound(iw as int, ih as int, COORD_LIMIT as int, COORD_LIMIT as int);
        lemma_mul_bound(a.width as int, a.height as int, COORD_LIMIT as int, COORD_LIMIT as int);
        lemma_mul_bound(b.width as int, b.height as int, COORD_LIMIT as int, COORD_LIMIT as int);
    }
    let inter: i128 = (iw as i128) * (ih as i128);
    let area_a = a.area();
    let area_b = b.area();
    (inter, area_a + area_b - inter)
}

/// Exact test for `IoU(a, b) > t / UNIT`.
pub fn iou_gt(a: &Bbox, b: &Bbox, t: i64) -> (r: bool)
    requires
        a.wf(),
        b.wf(),
        0 <= t <= UNIT,
    ensures
        r == iou_exceeds(*a, *b, t as int),
{
    let (inter, uarea) = overlap_areas(a, b);
    proof {
        lemma_mul_bound(inter as int, UNIT as int, 2 * COORD_LIMIT * COORD_LIMIT, UNIT as int);
        lemma_mul_bound(t as int, uarea as int, UNIT as int, 2 * COORD_LIMIT * COORD_LIMIT);
    }
    inter * (UNIT as i128) > (t as i128) * uarea
}

/// IoU of two boxes, scaled by `UNIT` and rounded down.
pub fn iou_value(a: &Bbox, b: &Bbox) -> (r: i64)
    requires
        a.wf(),
        b.wf(),
    ensures
        r == spec_iou(*a, *b),
        0 <= r <= UNIT,
{
    let (inter, uarea) = overlap_areas(a, b);
    if uarea == 0 {
        0
    } else {
        proof {
            lemma_mul_bound(inter as int, UNIT as int, 2 * COORD_LIMIT * COORD_LIMIT, UNIT as int);
            lemma_div_bound(inter as int * UNIT, uarea as int);
            crate::arith::lemma_mul_le_mono(inter as int, uarea as int, UNIT as int);
            lemma_div_le_factor(inter as int * UNIT, uarea as int, UNIT as int);
        }
        (inter * (UNIT as i128) / uarea) as i64
    }
}

/// If `x <= u * d` with `d > 0` then `x / d <= u`.
proof fn lemma_div_le_factor(x: int, d: int, u: int)
    requires
        0 <= x,
        1 <= d,
        x <= u * d,
    ensures
        x / d <= u,
{
    assert(x / d <= u) by (nonlinear_arith)
        requires
            0 <= x,
            1 <= d,
            x <= u * d,
    ;
}

/// Center coordinate of an extent starting at `x` with size `w`.
pub open spec fn center_of(x: int, w: int) -> int {
    x + w / 2
}

/// Corner coordinate of an extent centered at `cx` with size `w`.
pub open spec fn corner_of(cx: int, w: int) -> int {
    cx - w / 2
}

/// Convert a corner-form box `(xmin, ymin, w, h)` to center form
/// `(cx, cy, w, h)`.
pub fn corner_to_center(x: i64, y: i64, w: i64, h: i64) -> (r: (i64, i64, i64, i64))
    requires
        -COORD_LIMIT <= x <= COORD_LIMIT,
        -COORD_LIMIT <= y <= COORD_LIMIT,
        0 <= w <= COORD_LIMIT,
        0 <= h <= COORD_LIMIT,
    ensures
        r.0 == center_of(x as int, w as int),
        r.1 == center_of(y as int, h as int),
        r.2 == w,
        r.3 == h,
{
    (x + w / 2, y + h / 2, w, h)
}

/// Convert a center-form box `(cx, cy, w, h)` to corner form
/// `(xmin, ymin, w, h)`.
pub fn center_to_corner(cx: i64, cy: i64, w: i64, h: i64) -> (r: (i64, i64, i64, i64))
    requires
        -2 * COORD_LIMIT <= cx <= 2 * COORD_LIMIT,
        -2 * COORD_LIMIT <= cy <= 2 * COORD_LIMIT,
        0 <= w <= COORD_LIMIT,
        0 <= h <= COORD_LIMIT,
    ensures
        r.0 == corner_of(cx as int, w as int),
        r.1 == corner_of(cy as int, h as int),
        r.2 == w,
        r.3 == h,
{
    (cx - w / 2, cy - h / 2, w, h)
}

/// The corner-form round trip is exact: converting `(xmin, ymin, w, h)` to
/// center form and back recovers the original values, with no tolerance
/// needed.
pub proof fn lemma_box_form_round_trip(x: int, y: int, w: int, h: int)
    ensures
        corner_of(center_of(x, w), w) == x,
        corner_of(center_of(y, h), h) == y,
{
}

/// IoU is symmetric in its two boxes.
pub proof fn lemma_iou_symmetric(a: Bbox, b: Bbox, t: int)
    ensures
        inter_area(a, b) == inter_area(b, a),
        union_area(a, b) == union_area(b, a),
        iou_exceeds(a, b, t) == iou_exceeds(b, a, t),
        spec_iou(a, b) == spec_iou(b, a),
{
}

/// The IoU of a box of positive area with itself is exactly `1.0`
/// (`UNIT` in fixed point).
pub proof fn lemma_iou_self(a: Bbox)
    requires
        a.wf(),
        a.spec_area() > 0,
    ensures
        spec_iou(a, a) == UNIT,
{
    assert(inter_width(a, a) == a.width);
    assert(inter_height(a, a) == a.height);
    assert(inter_area(a, a) == a.spec_area());
    assert(union_area(a, a) == a.spec_area());
    lemma_div_exact(UNIT as int, a.spec_area());
    assert(a.spec_area() * UNIT == UNIT * a.spec_area()) by (nonlinear_arith);
}

/// The IoU of two disjoint boxes is exactly `0.0`, and never exceeds any
/// nonnegative threshold.
pub proof fn lemma_iou_disjoint(a: Bbox, b: Bbox, t: int)
    requires
        a.wf(),
        b.wf(),
        disjoint(a, b),
        0 <= t,
    ensures
        spec_iou(a, b) == 0,
        !iou_exceeds(a, b, t),
{
    assert(inter_area(a, b) == 0);
    lemma_inter_area_le(a, b);
    if union_area(a, b) != 0 {
        lemma_div_bound(0, union_area(a, b));
    }
    lemma_mul_bound(t, union_area(a, b), t, union_area(a, b));
}

} // verus!

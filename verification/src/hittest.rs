//! Distance-to-primitive predicates used by the eraser.
//!
//! Every function has an exact spec mirror over the named binary32
//! operations of the `scalar` module, so the eraser's behaviour is pinned
//! down to the very rounding of each arithmetic step.

use vstd::prelude::*;

use crate::model::{Item, ItemModel, Point, Shape, ShapeKind, ShapeModel, Stroke};
use crate::scalar::{add_bits, clamp_bits, div_bits, f32_abs, f32_add, f32_clamp, f32_div, f32_le,
    f32_min, f32_mul, f32_sqrt, f32_sub, le_bits, min_bits, mul_bits, sqrt_bits, sub_bits,
    u32_to_f32_bits, abs_bits, int_to_bits, BITS_HALF, BITS_MACHINE_EPSILON,
    BITS_ONE, BITS_ONE_SIXTY, BITS_TWO, BITS_ZERO, BITS_CURVE_FACTOR, BITS_EIGHTEEN};

verus! {

/// Squared distance between two points.
pub open spec fn spec_dist2(a: Point, b: Point) -> u32 {
    let dx = sub_bits(a.x, b.x);
    let dy = sub_bits(a.y, b.y);
    add_bits(mul_bits(dx, dx), mul_bits(dy, dy))
}

pub fn dist2(a: Point, b: Point) -> (r: u32)
    ensures
        r == spec_dist2(a, b),
{
    let dx = f32_sub(a.x, b.x);
    let dy = f32_sub(a.y, b.y);
    f32_add(f32_mul(dx, dx), f32_mul(dy, dy))
}

/// Squared distance from `p` to the segment `a`..`b`; a degenerate segment
/// falls back to the distance to `a`.
pub open spec fn spec_dist2_seg(p: Point, a: Point, b: Point) -> u32 {
    let abx = sub_bits(b.x, a.x);
    let aby = sub_bits(b.y, a.y);
    let apx = sub_bits(p.x, a.x);
    let apy = sub_bits(p.y, a.y);
    let ab_len2 = add_bits(mul_bits(abx, abx), mul_bits(aby, aby));
    if le_bits(ab_len2, BITS_MACHINE_EPSILON) {
        add_bits(mul_bits(apx, apx), mul_bits(apy, apy))
    } else {
        let t0 = div_bits(add_bits(mul_bits(apx, abx), mul_bits(apy, aby)), ab_len2);
        let t = clamp_bits(t0, BITS_ZERO, BITS_ONE);
        let cx = add_bits(a.x, mul_bits(t, abx));
        let cy = add_bits(a.y, mul_bits(t, aby));
        let dx = sub_bits(p.x, cx);
        let dy = sub_bits(p.y, cy);
        add_bits(mul_bits(dx, dx), mul_bits(dy, dy))
    }
}

pub fn dist2_point_to_segment(p: Point, a: Point, b: Point) -> (r: u32)
    ensures
        r == spec_dist2_seg(p, a, b),
{
    let abx = f32_sub(b.x, a.x);
    let aby = f32_sub(b.y, a.y);
    let apx = f32_sub(p.x, a.x);
    let apy = f32_sub(p.y, a.y);
    let ab_len2 = f32_add(f32_mul(abx, abx), f32_mul(aby, aby));
    if f32_le(ab_len2, BITS_MACHINE_EPSILON) {
        return f32_add(f32_mul(apx, apx), f32_mul(apy, apy));
    }
    let t0 = f32_div(f32_add(f32_mul(apx, abx), f32_mul(apy, aby)), ab_len2);
    let t = f32_clamp(t0, BITS_ZERO, BITS_ONE);
    let cx = f32_add(a.x, f32_mul(t, abx));
    let cy = f32_add(a.y, f32_mul(t, aby));
    let dx = f32_sub(p.x, cx);
    let dy = f32_sub(p.y, cy);
    f32_add(f32_mul(dx, dx), f32_mul(dy, dy))
}

/// Whether some segment of the polyline `pts` comes within the squared
/// radius; a one-point polyline is tested as a point.
pub open spec fn spec_stroke_hit(pts: Seq<Point>, p: Point, r2: u32) -> bool {
    if pts.len() == 1 {
        le_bits(spec_dist2(pts[0], p), r2)
    } else {
        exists|i: int|
            0 <= i < pts.len() - 1 && le_bits(#[trigger] spec_dist2_seg(p, pts[i], pts[i + 1]), r2)
    }
}

pub fn stroke_intersects_point(stroke: &Stroke, p: Point, r2: u32) -> (r: bool)
    ensures
        r == spec_stroke_hit(stroke.points@, p, r2),
{
    let pts = &stroke.points;
    if pts.len() == 1 {
        return f32_le(dist2(pts[0], p), r2);
    }
    if pts.len() == 0 {
        return false;
    }
    let n = pts.len();
    let mut i: usize = 0;
    while i < n - 1
        invariant
            n == pts.len(),
            pts@ == stroke.points@,
            n >= 2,
            i <= n - 1,
            forall|j: int|
                0 <= j < i ==> !le_bits(#[trigger] spec_dist2_seg(p, pts@[j], pts@[j + 1]), r2),
        decreases n - i,
    {
        if f32_le(dist2_point_to_segment(p, pts[i], pts[i + 1]), r2) {
            proof {
                assert(le_bits(spec_dist2_seg(p, pts@[i as int], pts@[i as int + 1]), r2));
            }
            return true;
        }
        i = i + 1;
    }
    false
}

/// The midpoint-and-perpendicular control point the eraser assumes for a
/// curved arrow (short arrows collapse to the midpoint).
pub open spec fn spec_eraser_curve_control(start: Point, end: Point) -> Point {
    let midx = mul_bits(add_bits(start.x, end.x), BITS_HALF);
    let midy = mul_bits(add_bits(start.y, end.y), BITS_HALF);
    let dx = sub_bits(end.x, start.x);
    let dy = sub_bits(end.y, start.y);
    let len = sqrt_bits(add_bits(mul_bits(dx, dx), mul_bits(dy, dy)));
    if le_bits(len, BITS_HALF) {
        Point { x: midx, y: midy }
    } else {
        let ux = div_bits(dx, len);
        let uy = div_bits(dy, len);
        let sign_neg = !le_bits(BITS_ZERO, mul_bits(dx, dy));
        let magnitude = clamp_bits(
            mul_bits(len, BITS_CURVE_FACTOR),
            BITS_EIGHTEEN,
            BITS_ONE_SIXTY,
        );
        let px = crate::scalar::neg_bits(uy);
        let py = ux;
        let offx = mul_bits(mul_bits(px, magnitude), if sign_neg {
            crate::scalar::neg_bits(BITS_ONE)
        } else {
            BITS_ONE
        });
        let offy = mul_bits(mul_bits(py, magnitude), if sign_neg {
            crate::scalar::neg_bits(BITS_ONE)
        } else {
            BITS_ONE
        });
        Point { x: add_bits(midx, offx), y: add_bits(midy, offy) }
    }
}

pub fn eraser_curve_control(start: Point, end: Point) -> (r: Point)
    ensures
        r == spec_eraser_curve_control(start, end),
{
    let midx = f32_mul(f32_add(start.x, end.x), BITS_HALF);
    let midy = f32_mul(f32_add(start.y, end.y), BITS_HALF);
    let dx = f32_sub(end.x, start.x);
    let dy = f32_sub(end.y, start.y);
    let len = f32_sqrt(f32_add(f32_mul(dx, dx), f32_mul(dy, dy)));
    if f32_le(len, BITS_HALF) {
        return Point { x: midx, y: midy };
    }
    let ux = f32_div(dx, len);
    let uy = f32_div(dy, len);
    let sign_neg = !f32_le(BITS_ZERO, f32_mul(dx, dy));
    let magnitude = f32_clamp(f32_mul(len, BITS_CURVE_FACTOR), BITS_EIGHTEEN, BITS_ONE_SIXTY);
    let px = crate::scalar::f32_neg(uy);
    let py = ux;
    let sign = if sign_neg {
        crate::scalar::f32_neg(BITS_ONE)
    } else {
        BITS_ONE
    };
    let offx = f32_mul(f32_mul(px, magnitude), sign);
    let offy = f32_mul(f32_mul(py, magnitude), sign);
    Point { x: f32_add(midx, offx), y: f32_add(midy, offy) }
}

/// The quadratic Bezier point at parameter `t`, evaluated in the Bernstein
/// form the renderer and the eraser both use.
pub open spec fn spec_point_at_quadratic_uut(start: Point, control: Point, end: Point, t: u32,
) -> Point {
    let u = sub_bits(BITS_ONE, t);
    let uu = mul_bits(u, u);
    let ut2 = mul_bits(mul_bits(BITS_TWO, u), t);
    let tt = mul_bits(t, t);
    Point {
        x: add_bits(add_bits(mul_bits(uu, start.x), mul_bits(ut2, control.x)), mul_bits(tt, end.x)),
        y: add_bits(add_bits(mul_bits(uu, start.y), mul_bits(ut2, control.y)), mul_bits(tt, end.y)),
    }
}

pub fn point_at_quadratic_uut(start: Point, control: Point, end: Point, t: u32) -> (r: Point)
    ensures
        r == spec_point_at_quadratic_uut(start, control, end, t),
{
    let u = f32_sub(BITS_ONE, t);
    let uu = f32_mul(u, u);
    let ut2 = f32_mul(f32_mul(BITS_TWO, u), t);
    let tt = f32_mul(t, t);
    Point {
        x: f32_add(f32_add(f32_mul(uu, start.x), f32_mul(ut2, control.x)), f32_mul(tt, end.x)),
        y: f32_add(f32_add(f32_mul(uu, start.y), f32_mul(ut2, control.y)), f32_mul(tt, end.y)),
    }
}

/// The parameter of the i-th of steps+1 evenly spaced samples.
pub open spec fn spec_sample_t(i: int, steps: int) -> u32 {
    div_bits(int_to_bits(i as u32), int_to_bits(steps as u32))
}

/// The polyline approximating a quadratic with steps+1 samples.
pub open spec fn spec_quad_samples(start: Point, control: Point, end: Point, steps: int,
) -> Seq<Point> {
    Seq::new((steps + 1) as nat, |i: int|
        spec_point_at_quadratic_uut(start, control, end, spec_sample_t(i, steps)))
}

pub fn approximate_quadratic(start: Point, control: Point, end: Point, steps: usize) -> (r: Vec<
    Point,
>)
    requires
        1 <= steps < 0x0080_0000,
    ensures
        r@ == spec_quad_samples(start, control, end, steps as int),
{
    let mut out: Vec<Point> = Vec::new();
    let steps_bits = u32_to_f32_bits(steps as u32);
    let mut i: usize = 0;
    while i <= steps
        invariant
            1 <= steps < 0x0080_0000,
            steps_bits == int_to_bits(steps as u32),
            i <= steps + 1,
            out@.len() == i,
            forall|k: int|
                0 <= k < i ==> out@[k] == spec_point_at_quadratic_uut(
                    start,
                    control,
                    end,
                    spec_sample_t(k, steps as int),
                ),
        decreases steps + 1 - i,
    {
        let t = f32_div(u32_to_f32_bits(i as u32), steps_bits);
        proof {
            assert(t == spec_sample_t(i as int, steps as int));
        }
        out.push(point_at_quadratic_uut(start, control, end, t));
        i = i + 1;
    }
    proof {
        assert(out@ =~= spec_quad_samples(start, control, end, steps as int));
    }
    out
}

/// Whether a polyline of samples comes within the squared radius on any
/// consecutive pair.
pub open spec fn spec_polyline_hit(samples: Seq<Point>, p: Point, r2: u32) -> bool {
    exists|i: int|
        0 <= i < samples.len() - 1 && le_bits(
            #[trigger] spec_dist2_seg(p, samples[i], samples[i + 1]),
            r2,
        )
}

fn polyline_hit(samples: &Vec<Point>, p: Point, r2: u32) -> (r: bool)
    ensures
        r == spec_polyline_hit(samples@, p, r2),
{
    if samples.len() == 0 {
        return false;
    }
    let n = samples.len();
    let mut i: usize = 0;
    while i < n - 1
        invariant
            n == samples.len(),
            n >= 1,
            i <= n - 1,
            forall|j: int|
                0 <= j < i ==> !le_bits(
                    #[trigger] spec_dist2_seg(p, samples@[j], samples@[j + 1]),
                    r2,
                ),
        decreases n - i,
    {
        if f32_le(dist2_point_to_segment(p, samples[i], samples[i + 1]), r2) {
            proof {
                assert(le_bits(spec_dist2_seg(p, samples@[i as int], samples@[i as int + 1]), r2));
            }
            return true;
        }
        i = i + 1;
    }
    false
}

/// The eraser's distance test for a shape, by kind: rectangle outlines,
/// the closed-form ellipse approximation, the arrow segment, or the
/// 17-sample quadratic polyline of a curved arrow.
pub open spec fn spec_shape_hit(sh: ShapeModel, p: Point, r2: u32) -> bool {
    match sh.kind {
        ShapeKind::Rectangle | ShapeKind::RoundedRectangle => {
            let min_x = if le_bits(sh.start.x, sh.end.x) {
                sh.start.x
            } else {
                sh.end.x
            };
            let max_x = if le_bits(sh.start.x, sh.end.x) {
                sh.end.x
            } else {
                sh.start.x
            };
            let min_y = if le_bits(sh.start.y, sh.end.y) {
                sh.start.y
            } else {
                sh.end.y
            };
            let max_y = if le_bits(sh.start.y, sh.end.y) {
                sh.end.y
            } else {
                sh.start.y
            };
            let tl = Point { x: min_x, y: min_y };
            let tr = Point { x: max_x, y: min_y };
            let br = Point { x: max_x, y: max_y };
            let bl = Point { x: min_x, y: max_y };
            ||| le_bits(spec_dist2_seg(p, tl, tr), r2)
            ||| le_bits(spec_dist2_seg(p, tr, br), r2)
            ||| le_bits(spec_dist2_seg(p, br, bl), r2)
            ||| le_bits(spec_dist2_seg(p, bl, tl), r2)
        },
        ShapeKind::Ellipse => {
            let min_x = if le_bits(sh.start.x, sh.end.x) {
                sh.start.x
            } else {
                sh.end.x
            };
            let max_x = if le_bits(sh.start.x, sh.end.x) {
                sh.end.x
            } else {
                sh.start.x
            };
            let min_y = if le_bits(sh.start.y, sh.end.y) {
                sh.start.y
            } else {
                sh.end.y
            };
            let max_y = if le_bits(sh.start.y, sh.end.y) {
                sh.end.y
            } else {
                sh.start.y
            };
            let w = abs_bits(sub_bits(max_x, min_x));
            let h = abs_bits(sub_bits(max_y, min_y));
            if le_bits(w, BITS_MACHINE_EPSILON) || le_bits(h, BITS_MACHINE_EPSILON) {
                le_bits(spec_dist2_seg(p, sh.start, sh.end), r2)
            } else {
                let cx = mul_bits(add_bits(min_x, max_x), BITS_HALF);
                let cy = mul_bits(add_bits(min_y, max_y), BITS_HALF);
                let a = mul_bits(w, BITS_HALF);
                let b = mul_bits(h, BITS_HALF);
                let dx = sub_bits(p.x, cx);
                let dy = sub_bits(p.y, cy);
                let value = add_bits(
                    div_bits(mul_bits(dx, dx), mul_bits(a, a)),
                    div_bits(mul_bits(dy, dy), mul_bits(b, b)),
                );
                let approx = mul_bits(abs_bits(sub_bits(value, BITS_ONE)), min_bits(a, b));
                le_bits(mul_bits(approx, approx), r2)
            }
        },
        ShapeKind::Arrow => le_bits(spec_dist2_seg(p, sh.start, sh.end), r2),
        ShapeKind::CurvedArrow => {
            let control = spec_eraser_curve_control(sh.start, sh.end);
            spec_polyline_hit(spec_quad_samples(sh.start, control, sh.end, 16), p, r2)
        },
    }
}

pub fn shape_intersects_point(shape: &Shape, p: Point, r2: u32) -> (r: bool)
    ensures
        r == spec_shape_hit(shape.deep_view(), p, r2),
{
    match shape.kind {
        ShapeKind::Rectangle | ShapeKind::RoundedRectangle => {
            let (min_x, max_x) = if f32_le(shape.start.x, shape.end.x) {
                (shape.start.x, shape.end.x)
            } else {
                (shape.end.x, shape.start.x)
            };
            let (min_y, max_y) = if f32_le(shape.start.y, shape.end.y) {
                (shape.start.y, shape.end.y)
            } else {
                (shape.end.y, shape.start.y)
            };
            let tl = Point { x: min_x, y: min_y };
            let tr = Point { x: max_x, y: min_y };
            let br = Point { x: max_x, y: max_y };
            let bl = Point { x: min_x, y: max_y };
            f32_le(dist2_point_to_segment(p, tl, tr), r2) || f32_le(
                dist2_point_to_segment(p, tr, br),
                r2,
            ) || f32_le(dist2_point_to_segment(p, br, bl), r2) || f32_le(
                dist2_point_to_segment(p, bl, tl),
                r2,
            )
        },
        ShapeKind::Ellipse => {
            let (min_x, max_x) = if f32_le(shape.start.x, shape.end.x) {
                (shape.start.x, shape.end.x)
            } else {
                (shape.end.x, shape.start.x)
            };
            let (min_y, max_y) = if f32_le(shape.start.y, shape.end.y) {
                (shape.start.y, shape.end.y)
            } else {
                (shape.end.y, shape.start.y)
            };
            let w = f32_abs(f32_sub(max_x, min_x));
            let h = f32_abs(f32_sub(max_y, min_y));
            if f32_le(w, BITS_MACHINE_EPSILON) || f32_le(h, BITS_MACHINE_EPSILON) {
                return f32_le(dist2_point_to_segment(p, shape.start, shape.end), r2);
            }
            let cx = f32_mul(f32_add(min_x, max_x), BITS_HALF);
            let cy = f32_mul(f32_add(min_y, max_y), BITS_HALF);
            let a = f32_mul(w, BITS_HALF);
            let b = f32_mul(h, BITS_HALF);
            let dx = f32_sub(p.x, cx);
            let dy = f32_sub(p.y, cy);
            let value = f32_add(
                f32_div(f32_mul(dx, dx), f32_mul(a, a)),
                f32_div(f32_mul(dy, dy), f32_mul(b, b)),
            );
            let approx = f32_mul(f32_abs(f32_sub(value, BITS_ONE)), f32_min(a, b));
            f32_le(f32_mul(approx, approx), r2)
        },
        ShapeKind::Arrow => f32_le(dist2_point_to_segment(p, shape.start, shape.end), r2),
        ShapeKind::CurvedArrow => {
            let control = eraser_curve_control(shape.start, shape.end);
            let samples = approximate_quadratic(shape.start, control, shape.end, 16);
            polyline_hit(&samples, p, r2)
        },
    }
}

/// The eraser's distance test for any item.
pub open spec fn spec_item_hit(item: ItemModel, p: Point, r2: u32) -> bool {
    match item {
        ItemModel::Stroke(s) => spec_stroke_hit(s.points, p, r2),
        ItemModel::Shape(sh) => spec_shape_hit(sh, p, r2),
    }
}

pub fn item_intersects_point(item: &Item, p: Point, r2: u32) -> (r: bool)
    ensures
        r == spec_item_hit(item.deep_view(), p, r2),
{
    match item {
        Item::Stroke(stroke) => stroke_intersects_point(stroke, p, r2),
        Item::Shape(shape) => shape_intersects_point(shape, p, r2),
    }
}

} // verus!

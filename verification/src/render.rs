//! The arrow-routing engine: endpoint anchoring on closed shapes,
//! arrowhead computation, the default quadratic curve, and the cubic
//! waypoint search that minimizes obstacle penetration.
//!
//! As in the eraser, every arithmetic step is mirrored by a spec function
//! over the named binary32 operations, so the emitted geometry is an exact
//! function of the document.

use vstd::prelude::*;

use crate::geometry::{collect_closed_shapes, spec_closed_shapes, spec_rect_center,
    spec_rect_contains, spec_rect_height, spec_rect_inflate, spec_rect_union, spec_rect_width,
    ClosedShapeHit, ClosedShapeKind, Rect};
use crate::hittest::{point_at_quadratic_uut, spec_point_at_quadratic_uut, spec_sample_t};
use crate::model::{Item, ItemModel, Point, Shape, ShapeKind, ShapeStyle};
use crate::scalar::{abs_bits, add_bits, clamp_bits, div_bits, f32_abs, f32_add, f32_clamp,
    f32_div, f32_le, f32_lt, f32_max, f32_min, f32_mul, f32_neg, f32_sqrt, f32_sub, le_bits,
    lt_bits, max_bits, min_bits, mul_bits, neg_bits, sqrt_bits, sub_bits, u32_to_f32_bits,
    int_to_bits, BITS_CURVE_FACTOR, BITS_EIGHT, BITS_EIGHTEEN, BITS_EPS_SMALL, BITS_EPS_TINY,
    BITS_FOUR, BITS_FOUR_THIRDS, BITS_HALF, BITS_ONE, BITS_ONE_FORTY, BITS_ONE_SIXTY, BITS_TEN,
    BITS_THREE, BITS_TWENTY_SIX, BITS_TWO, BITS_ZERO};

verus! {

/// The emitted path of one arrow.
#[derive(Clone, Copy, PartialEq, Eq, Structural, Debug)]
pub enum ArrowPath {
    Line,
    Quadratic { control: Point },
    Cubic { c1: Point, c2: Point },
}

/// Everything the host needs to draw one arrow.
#[derive(Clone, Copy, PartialEq, Eq, Structural, Debug)]
pub struct ArrowRender {
    pub shape_id: u64,
    pub style: ShapeStyle,
    pub start: Point,
    pub end: Point,
    pub path: ArrowPath,
    pub head_left: Point,
    pub head_right: Point,
}

/// A candidate curve the penetration sampler walks.
#[derive(Clone, Copy, PartialEq, Eq, Structural, Debug)]
pub enum CurvePath {
    Quadratic { control: Point },
    Cubic { c1: Point, c2: Point },
}

// ---------------------------------------------------------------------------
// Small helpers.
// ---------------------------------------------------------------------------

pub open spec fn spec_hypot(dx: u32, dy: u32) -> u32 {
    sqrt_bits(add_bits(mul_bits(dx, dx), mul_bits(dy, dy)))
}

pub fn hypot(dx: u32, dy: u32) -> (r: u32)
    ensures
        r == spec_hypot(dx, dy),
{
    f32_sqrt(f32_add(f32_mul(dx, dx), f32_mul(dy, dy)))
}

/// Normalized direction, or None for a near-zero vector.
pub open spec fn spec_vec_norm(dx: u32, dy: u32) -> Option<(u32, u32)> {
    let len = spec_hypot(dx, dy);
    if le_bits(len, BITS_EPS_TINY) {
        None
    } else {
        Some((div_bits(dx, len), div_bits(dy, len)))
    }
}

pub fn vec_norm(dx: u32, dy: u32) -> (r: Option<(u32, u32)>)
    ensures
        r == spec_vec_norm(dx, dy),
{
    let len = hypot(dx, dy);
    if f32_le(len, BITS_EPS_TINY) {
        None
    } else {
        Some((f32_div(dx, len), f32_div(dy, len)))
    }
}

/// Ray-rectangle boundary intersection from the centre in direction (dx,dy).
pub open spec fn spec_intersect_rect(rect: Rect, dx: u32, dy: u32) -> Point {
    let center = spec_rect_center(rect);
    let hx = mul_bits(spec_rect_width(rect), BITS_HALF);
    let hy = mul_bits(spec_rect_height(rect), BITS_HALF);
    let adx = max_bits(abs_bits(dx), BITS_EPS_TINY);
    let ady = max_bits(abs_bits(dy), BITS_EPS_TINY);
    let sx = div_bits(hx, adx);
    let sy = div_bits(hy, ady);
    let s = min_bits(sx, sy);
    Point { x: add_bits(center.x, mul_bits(dx, s)), y: add_bits(center.y, mul_bits(dy, s)) }
}

pub fn intersect_rect(rect: Rect, dx: u32, dy: u32) -> (r: Point)
    ensures
        r == spec_intersect_rect(rect, dx, dy),
{
    let center = rect.center();
    let hx = f32_mul(rect.width(), BITS_HALF);
    let hy = f32_mul(rect.height(), BITS_HALF);
    let adx = f32_max(f32_abs(dx), BITS_EPS_TINY);
    let ady = f32_max(f32_abs(dy), BITS_EPS_TINY);
    let sx = f32_div(hx, adx);
    let sy = f32_div(hy, ady);
    let s = f32_min(sx, sy);
    Point { x: f32_add(center.x, f32_mul(dx, s)), y: f32_add(center.y, f32_mul(dy, s)) }
}

/// Ray-ellipse boundary intersection from the centre in direction (dx,dy).
pub open spec fn spec_intersect_ellipse(rect: Rect, dx: u32, dy: u32) -> Point {
    let center = spec_rect_center(rect);
    let rx = max_bits(mul_bits(spec_rect_width(rect), BITS_HALF), BITS_EPS_TINY);
    let ry = max_bits(mul_bits(spec_rect_height(rect), BITS_HALF), BITS_EPS_TINY);
    let sx = max_bits(div_bits(abs_bits(dx), rx), BITS_EPS_TINY);
    let sy = max_bits(div_bits(abs_bits(dy), ry), BITS_EPS_TINY);
    let s = max_bits(sx, sy);
    Point { x: add_bits(center.x, div_bits(dx, s)), y: add_bits(center.y, div_bits(dy, s)) }
}

pub fn intersect_ellipse(rect: Rect, dx: u32, dy: u32) -> (r: Point)
    ensures
        r == spec_intersect_ellipse(rect, dx, dy),
{
    let center = rect.center();
    let rx = f32_max(f32_mul(rect.width(), BITS_HALF), BITS_EPS_TINY);
    let ry = f32_max(f32_mul(rect.height(), BITS_HALF), BITS_EPS_TINY);
    let sx = f32_max(f32_div(f32_abs(dx), rx), BITS_EPS_TINY);
    let sy = f32_max(f32_div(f32_abs(dy), ry), BITS_EPS_TINY);
    let s = f32_max(sx, sy);
    Point { x: f32_add(center.x, f32_div(dx, s)), y: f32_add(center.y, f32_div(dy, s)) }
}

/// The point a normalized UV selects in a rectangle (components clamped to
/// the unit interval).
pub open spec fn spec_point_from_uv(rect: Rect, uv: Point) -> Point {
    Point {
        x: add_bits(rect.min_x, mul_bits(clamp_bits(uv.x, BITS_ZERO, BITS_ONE),
            spec_rect_width(rect))),
        y: add_bits(rect.min_y, mul_bits(clamp_bits(uv.y, BITS_ZERO, BITS_ONE),
            spec_rect_height(rect))),
    }
}

pub fn point_from_uv(rect: Rect, uv: Point) -> (r: Point)
    ensures
        r == spec_point_from_uv(rect, uv),
{
    Point {
        x: f32_add(rect.min_x, f32_mul(f32_clamp(uv.x, BITS_ZERO, BITS_ONE), rect.width())),
        y: f32_add(rect.min_y, f32_mul(f32_clamp(uv.y, BITS_ZERO, BITS_ONE), rect.height())),
    }
}

/// The boundary anchor a UV picks on a closed shape: the ray from the
/// centre through the UV's local point, or the centre itself when the two
/// nearly coincide.
pub open spec fn spec_anchor_point_uv(target: ClosedShapeHit, uv: Point) -> Point {
    let center = spec_rect_center(target.rect);
    let local = spec_point_from_uv(target.rect, uv);
    let dx = sub_bits(local.x, center.x);
    let dy = sub_bits(local.y, center.y);
    if le_bits(add_bits(mul_bits(dx, dx), mul_bits(dy, dy)), BITS_EPS_TINY) {
        center
    } else {
        match target.kind {
            ClosedShapeKind::Ellipse => spec_intersect_ellipse(target.rect, dx, dy),
            ClosedShapeKind::Rectangle | ClosedShapeKind::RoundedRectangle => spec_intersect_rect(
                target.rect,
                dx,
                dy,
            ),
        }
    }
}

pub fn anchor_point_uv(target: &ClosedShapeHit, uv: Point) -> (r: Point)
    ensures
        r == spec_anchor_point_uv(*target, uv),
{
    let center = target.rect.center();
    let local = point_from_uv(target.rect, uv);
    let dx = f32_sub(local.x, center.x);
    let dy = f32_sub(local.y, center.y);
    if f32_le(f32_add(f32_mul(dx, dx), f32_mul(dy, dy)), BITS_EPS_TINY) {
        return center;
    }
    match target.kind {
        ClosedShapeKind::Ellipse => intersect_ellipse(target.rect, dx, dy),
        ClosedShapeKind::Rectangle | ClosedShapeKind::RoundedRectangle => intersect_rect(
            target.rect,
            dx,
            dy,
        ),
    }
}

/// The two base points of the arrowhead, symmetric about the tangent; a
/// degenerate tangent collapses both onto the arrow's end.
pub open spec fn spec_compute_arrowhead(end: Point, tangent_dx: u32, tangent_dy: u32,
    stroke_width: u32) -> (Point, Point) {
    match spec_vec_norm(tangent_dx, tangent_dy) {
        None => (end, end),
        Some((ux, uy)) => {
            let head_length = max_bits(mul_bits(stroke_width, BITS_FOUR), BITS_TEN);
            let head_width = max_bits(mul_bits(stroke_width, BITS_THREE), BITS_EIGHT);
            let base = Point {
                x: sub_bits(end.x, mul_bits(ux, head_length)),
                y: sub_bits(end.y, mul_bits(uy, head_length)),
            };
            let px = neg_bits(uy);
            let py = ux;
            let left = Point {
                x: add_bits(base.x, mul_bits(px, mul_bits(head_width, BITS_HALF))),
                y: add_bits(base.y, mul_bits(py, mul_bits(head_width, BITS_HALF))),
            };
            let right = Point {
                x: sub_bits(base.x, mul_bits(px, mul_bits(head_width, BITS_HALF))),
                y: sub_bits(base.y, mul_bits(py, mul_bits(head_width, BITS_HALF))),
            };
            (left, right)
        },
    }
}

pub fn compute_arrowhead(end: Point, tangent_dx: u32, tangent_dy: u32, stroke_width: u32) -> (r: (
    Point,
    Point,
))
    ensures
        r == spec_compute_arrowhead(end, tangent_dx, tangent_dy, stroke_width),
{
    let norm = vec_norm(tangent_dx, tangent_dy);
    match norm {
        None => (end, end),
        Some((ux, uy)) => {
            let head_length = f32_max(f32_mul(stroke_width, BITS_FOUR), BITS_TEN);
            let head_width = f32_max(f32_mul(stroke_width, BITS_THREE), BITS_EIGHT);
            let base = Point {
                x: f32_sub(end.x, f32_mul(ux, head_length)),
                y: f32_sub(end.y, f32_mul(uy, head_length)),
            };
            let px = f32_neg(uy);
            let py = ux;
            let left = Point {
                x: f32_add(base.x, f32_mul(px, f32_mul(head_width, BITS_HALF))),
                y: f32_add(base.y, f32_mul(py, f32_mul(head_width, BITS_HALF))),
            };
            let right = Point {
                x: f32_sub(base.x, f32_mul(px, f32_mul(head_width, BITS_HALF))),
                y: f32_sub(base.y, f32_mul(py, f32_mul(head_width, BITS_HALF))),
            };
            (left, right)
        },
    }
}

/// The cubic Bezier point at parameter `t`, in the Bernstein form the
/// sampler uses.
pub open spec fn spec_point_at_cubic(start: Point, c1: Point, c2: Point, end: Point, t: u32,
) -> Point {
    let mt = sub_bits(BITS_ONE, t);
    let a = mul_bits(mul_bits(mt, mt), mt);
    let b = mul_bits(mul_bits(mul_bits(BITS_THREE, mt), mt), t);
    let c = mul_bits(mul_bits(mul_bits(BITS_THREE, mt), t), t);
    let d = mul_bits(mul_bits(t, t), t);
    Point {
        x: add_bits(
            add_bits(add_bits(mul_bits(a, start.x), mul_bits(b, c1.x)), mul_bits(c, c2.x)),
            mul_bits(d, end.x),
        ),
        y: add_bits(
            add_bits(add_bits(mul_bits(a, start.y), mul_bits(b, c1.y)), mul_bits(c, c2.y)),
            mul_bits(d, end.y),
        ),
    }
}

pub fn point_at_cubic(start: Point, c1: Point, c2: Point, end: Point, t: u32) -> (r: Point)
    ensures
        r == spec_point_at_cubic(start, c1, c2, end, t),
{
    let mt = f32_sub(BITS_ONE, t);
    let a = f32_mul(f32_mul(mt, mt), mt);
    let b = f32_mul(f32_mul(f32_mul(BITS_THREE, mt), mt), t);
    let c = f32_mul(f32_mul(f32_mul(BITS_THREE, mt), t), t);
    let d = f32_mul(f32_mul(t, t), t);
    Point {
        x: f32_add(
            f32_add(f32_add(f32_mul(a, start.x), f32_mul(b, c1.x)), f32_mul(c, c2.x)),
            f32_mul(d, end.x),
        ),
        y: f32_add(
            f32_add(f32_add(f32_mul(a, start.y), f32_mul(b, c1.y)), f32_mul(c, c2.y)),
            f32_mul(d, end.y),
        ),
    }
}

/// Symmetric cubic controls that make the curve pass through the waypoint
/// at its middle parameter.
pub open spec fn spec_cubic_controls_through_midpoint(start: Point, end: Point, waypoint: Point,
) -> (Point, Point) {
    let c1 = Point {
        x: add_bits(start.x, mul_bits(sub_bits(waypoint.x, start.x), BITS_FOUR_THIRDS)),
        y: add_bits(start.y, mul_bits(sub_bits(waypoint.y, start.y), BITS_FOUR_THIRDS)),
    };
    let c2 = Point {
        x: add_bits(end.x, mul_bits(sub_bits(waypoint.x, end.x), BITS_FOUR_THIRDS)),
        y: add_bits(end.y, mul_bits(sub_bits(waypoint.y, end.y), BITS_FOUR_THIRDS)),
    };
    (c1, c2)
}

pub fn cubic_controls_through_midpoint(start: Point, end: Point, waypoint: Point) -> (r: (
    Point,
    Point,
))
    ensures
        r == spec_cubic_controls_through_midpoint(start, end, waypoint),
{
    let c1 = Point {
        x: f32_add(start.x, f32_mul(f32_sub(waypoint.x, start.x), BITS_FOUR_THIRDS)),
        y: f32_add(start.y, f32_mul(f32_sub(waypoint.y, start.y), BITS_FOUR_THIRDS)),
    };
    let c2 = Point {
        x: f32_add(end.x, f32_mul(f32_sub(waypoint.x, end.x), BITS_FOUR_THIRDS)),
        y: f32_add(end.y, f32_mul(f32_sub(waypoint.y, end.y), BITS_FOUR_THIRDS)),
    };
    (c1, c2)
}

/// Cubic controls pulled toward the waypoint by a distance-dependent blend.
pub open spec fn spec_cubic_controls_pull_toward(start: Point, end: Point, waypoint: Point) -> (
    Point,
    Point,
) {
    let d1 = spec_hypot(sub_bits(waypoint.x, start.x), sub_bits(waypoint.y, start.y));
    let d2 = spec_hypot(sub_bits(waypoint.x, end.x), sub_bits(waypoint.y, end.y));
    let d = max_bits(add_bits(d1, d2), BITS_EPS_TINY);
    let a = clamp_bits(
        div_bits(d, add_bits(d, BITS_ONE_FORTY)),
        crate::scalar::BITS_PULL_LO,
        crate::scalar::BITS_PULL_HI,
    );
    let c1 = Point {
        x: add_bits(start.x, mul_bits(sub_bits(waypoint.x, start.x), a)),
        y: add_bits(start.y, mul_bits(sub_bits(waypoint.y, start.y), a)),
    };
    let c2 = Point {
        x: add_bits(end.x, mul_bits(sub_bits(waypoint.x, end.x), a)),
        y: add_bits(end.y, mul_bits(sub_bits(waypoint.y, end.y), a)),
    };
    (c1, c2)
}

pub fn cubic_controls_pull_toward_waypoint(start: Point, end: Point, waypoint: Point) -> (r: (
    Point,
    Point,
))
    ensures
        r == spec_cubic_controls_pull_toward(start, end, waypoint),
{
    let d1 = hypot(f32_sub(waypoint.x, start.x), f32_sub(waypoint.y, start.y));
    let d2 = hypot(f32_sub(waypoint.x, end.x), f32_sub(waypoint.y, end.y));
    let d = f32_max(f32_add(d1, d2), BITS_EPS_TINY);
    let a = f32_clamp(
        f32_div(d, f32_add(d, BITS_ONE_FORTY)),
        crate::scalar::BITS_PULL_LO,
        crate::scalar::BITS_PULL_HI,
    );
    let c1 = Point {
        x: f32_add(start.x, f32_mul(f32_sub(waypoint.x, start.x), a)),
        y: f32_add(start.y, f32_mul(f32_sub(waypoint.y, start.y), a)),
    };
    let c2 = Point {
        x: f32_add(end.x, f32_mul(f32_sub(waypoint.x, end.x), a)),
        y: f32_add(end.y, f32_mul(f32_sub(waypoint.y, end.y), a)),
    };
    (c1, c2)
}

/// The default quadratic control point: the midpoint, pushed along the
/// perpendicular by a clamped fraction of the arrow's length; very short
/// arrows use the midpoint itself.
pub open spec fn spec_quad_control_simple(start: Point, end: Point) -> Point {
    let midx = mul_bits(add_bits(start.x, end.x), BITS_HALF);
    let midy = mul_bits(add_bits(start.y, end.y), BITS_HALF);
    let dx = sub_bits(end.x, start.x);
    let dy = sub_bits(end.y, start.y);
    let len = spec_hypot(dx, dy);
    if le_bits(len, BITS_EPS_SMALL) {
        Point { x: midx, y: midy }
    } else {
        let ux = div_bits(dx, len);
        let uy = div_bits(dy, len);
        let px = neg_bits(uy);
        let py = ux;
        let magnitude = clamp_bits(mul_bits(len, BITS_CURVE_FACTOR), BITS_EIGHTEEN, BITS_ONE_SIXTY);
        let sign = if le_bits(BITS_ZERO, mul_bits(dx, dy)) {
            BITS_ONE
        } else {
            neg_bits(BITS_ONE)
        };
        Point {
            x: add_bits(midx, mul_bits(mul_bits(px, magnitude), sign)),
            y: add_bits(midy, mul_bits(mul_bits(py, magnitude), sign)),
        }
    }
}

pub fn quad_control_simple(start: Point, end: Point) -> (r: Point)
    ensures
        r == spec_quad_control_simple(start, end),
{
    let midx = f32_mul(f32_add(start.x, end.x), BITS_HALF);
    let midy = f32_mul(f32_add(start.y, end.y), BITS_HALF);
    let dx = f32_sub(end.x, start.x);
    let dy = f32_sub(end.y, start.y);
    let len = hypot(dx, dy);
    if f32_le(len, BITS_EPS_SMALL) {
        return Point { x: midx, y: midy };
    }
    let ux = f32_div(dx, len);
    let uy = f32_div(dy, len);
    let px = f32_neg(uy);
    let py = ux;
    let magnitude = f32_clamp(f32_mul(len, BITS_CURVE_FACTOR), BITS_EIGHTEEN, BITS_ONE_SIXTY);
    let sign = if f32_le(BITS_ZERO, f32_mul(dx, dy)) {
        BITS_ONE
    } else {
        f32_neg(BITS_ONE)
    };
    Point {
        x: f32_add(midx, f32_mul(f32_mul(px, magnitude), sign)),
        y: f32_add(midy, f32_mul(f32_mul(py, magnitude), sign)),
    }
}


// ---------------------------------------------------------------------------
// Penetration sampling.
// ---------------------------------------------------------------------------

/// True when the list holds the value.
pub fn contains_u64(v: &Vec<u64>, x: u64) -> (r: bool)
    ensures
        r == v@.contains(x),
{
    let n = v.len();
    let mut i: usize = 0;
    while i < n
        invariant
            n == v.len(),
            i <= n,
            forall|j: int| 0 <= j < i ==> v@[j] != x,
        decreases n - i,
    {
        if v[i] == x {
            return true;
        }
        i = i + 1;
    }
    false
}

/// The rectangle of the first obstacle with the given id.
pub open spec fn spec_first_rect_with_id(obstacles: Seq<ClosedShapeHit>, id: u64) -> Rect
    decreases obstacles.len(),
{
    if obstacles.len() == 0 {
        Rect { min_x: 0, min_y: 0, max_x: 0, max_y: 0 }
    } else if obstacles[0].id == id {
        obstacles[0].rect
    } else {
        spec_first_rect_with_id(obstacles.subrange(1, obstacles.len() as int), id)
    }
}

fn first_rect_with_id(obstacles: &Vec<ClosedShapeHit>, id: u64) -> (r: Rect)
    requires
        exists|j: int| 0 <= j < obstacles@.len() && obstacles@[j].id == id,
    ensures
        r == spec_first_rect_with_id(obstacles@, id),
{
    let n = obstacles.len();
    proof {
        assert(obstacles@.subrange(0, n as int) =~= obstacles@);
    }
    let mut i: usize = 0;
    while i < n
        invariant
            n == obstacles.len(),
            i <= n,
            exists|j: int| 0 <= j < obstacles@.len() && obstacles@[j].id == id,
            forall|j: int| 0 <= j < i ==> obstacles@[j].id != id,
            spec_first_rect_with_id(obstacles@, id) == spec_first_rect_with_id(
                obstacles@.subrange(i as int, n as int),
                id,
            ),
        decreases n - i,
    {
        let ghost tail = obstacles@.subrange(i as int, n as int);
        proof {
            assert(tail[0] == obstacles@[i as int]);
            assert(tail.subrange(1, tail.len() as int) =~= obstacles@.subrange(
                i + 1 as int,
                n as int,
            ));
        }
        if obstacles[i].id == id {
            return obstacles[i].rect;
        }
        i = i + 1;
    }
    proof {
        let j = choose|j: int| 0 <= j < obstacles@.len() && obstacles@[j].id == id;
        assert(false);
    }
    obstacles[0].rect
}

/// Whether the k-th obstacle is counted as penetrated at sample point `p`:
/// it is not attached to the arrow, its inflated rectangle admits the point
/// (the early-reject gate), and the authoritative uninflated rectangle of
/// the first obstacle carrying its id contains the point.  Obstacles the
/// arrow is attached to are exempt from penalties altogether, near the
/// endpoints and elsewhere.
pub open spec fn spec_obstacle_counted(obstacles: Seq<ClosedShapeHit>, attached: Seq<u64>, k: int,
    p: Point) -> bool
    recommends
        0 <= k < obstacles.len(),
{
    let ob = obstacles[k];
    &&& !attached.contains(ob.id)
    &&& spec_rect_contains(spec_rect_inflate(ob.rect, BITS_EIGHTEEN, BITS_EIGHTEEN), p)
    &&& spec_rect_contains(spec_first_rect_with_id(obstacles, ob.id), p)
}

/// The point the candidate path passes at parameter `t`.
pub open spec fn spec_path_point(path: CurvePath, start: Point, end: Point, t: u32) -> Point {
    match path {
        CurvePath::Quadratic { control } => spec_point_at_quadratic_uut(start, control, end, t),
        CurvePath::Cubic { c1, c2 } => spec_point_at_cubic(start, c1, c2, end, t),
    }
}

/// The i-th of the 801 evenly spaced sample points.
pub open spec fn spec_sample_point(path: CurvePath, start: Point, end: Point, i: int) -> Point {
    spec_path_point(path, start, end, spec_sample_t(i, 800))
}

/// Counted hits at sample `p` among the first `k` obstacles.
pub open spec fn spec_row_hits(obstacles: Seq<ClosedShapeHit>, attached: Seq<u64>, p: Point,
    k: int) -> int
    decreases k,
{
    if k <= 0 {
        0
    } else {
        spec_row_hits(obstacles, attached, p, k - 1) + if spec_obstacle_counted(
            obstacles,
            attached,
            k - 1,
            p,
        ) {
            1int
        } else {
            0int
        }
    }
}

/// The same, restricted to obstacles carrying the given id.
pub open spec fn spec_row_id_hits(obstacles: Seq<ClosedShapeHit>, attached: Seq<u64>, p: Point,
    k: int, id: u64) -> int
    decreases k,
{
    if k <= 0 {
        0
    } else {
        spec_row_id_hits(obstacles, attached, p, k - 1, id) + if obstacles[k - 1].id == id
            && spec_obstacle_counted(obstacles, attached, k - 1, p) {
            1int
        } else {
            0int
        }
    }
}

/// Counted hits over the first `i` samples.
pub open spec fn spec_hits_upto(path: CurvePath, start: Point, end: Point, attached: Seq<u64>,
    obstacles: Seq<ClosedShapeHit>, i: int) -> int
    decreases i,
{
    if i <= 0 {
        0
    } else {
        spec_hits_upto(path, start, end, attached, obstacles, i - 1) + spec_row_hits(
            obstacles,
            attached,
            spec_sample_point(path, start, end, i - 1),
            obstacles.len() as int,
        )
    }
}

pub open spec fn spec_id_hits_upto(path: CurvePath, start: Point, end: Point, attached: Seq<u64>,
    obstacles: Seq<ClosedShapeHit>, i: int, id: u64) -> int
    decreases i,
{
    if i <= 0 {
        0
    } else {
        spec_id_hits_upto(path, start, end, attached, obstacles, i - 1, id) + spec_row_id_hits(
            obstacles,
            attached,
            spec_sample_point(path, start, end, i - 1),
            obstacles.len() as int,
            id,
        )
    }
}

/// Total counted hits of a candidate path over the 801-sample grid.
pub open spec fn spec_path_hits(path: CurvePath, start: Point, end: Point, attached: Seq<u64>,
    obstacles: Seq<ClosedShapeHit>) -> int {
    spec_hits_upto(path, start, end, attached, obstacles, 801)
}

/// Total counted hits attributed to one obstacle id.
pub open spec fn spec_path_id_hits(path: CurvePath, start: Point, end: Point, attached: Seq<u64>,
    obstacles: Seq<ClosedShapeHit>, id: u64) -> int {
    spec_id_hits_upto(path, start, end, attached, obstacles, 801, id)
}

proof fn lemma_row_hits_bounds(obstacles: Seq<ClosedShapeHit>, attached: Seq<u64>, p: Point,
    k: int, id: u64)
    requires
        0 <= k,
    ensures
        0 <= spec_row_hits(obstacles, attached, p, k) <= k,
        0 <= spec_row_id_hits(obstacles, attached, p, k, id) <= k,
    decreases k,
{
    if k > 0 {
        lemma_row_hits_bounds(obstacles, attached, p, k - 1, id);
    }
}

proof fn lemma_hits_upto_bounds(path: CurvePath, start: Point, end: Point, attached: Seq<u64>,
    obstacles: Seq<ClosedShapeHit>, i: int, id: u64)
    requires
        0 <= i,
    ensures
        0 <= spec_hits_upto(path, start, end, attached, obstacles, i) <= i * obstacles.len(),
        0 <= spec_id_hits_upto(path, start, end, attached, obstacles, i, id) <= i
            * obstacles.len(),
    decreases i,
{
    let n = obstacles.len() as int;
    if i > 0 {
        lemma_hits_upto_bounds(path, start, end, attached, obstacles, i - 1, id);
        lemma_row_hits_bounds(
            obstacles,
            attached,
            spec_sample_point(path, start, end, i - 1),
            n,
            id,
        );
        assert((i - 1) * n + n == i * n) by (nonlinear_arith);
    } else {
        assert(i == 0);
    }
}

/// The count the hit table holds for an id: the first entry with that id,
/// or zero.
pub open spec fn spec_lookup_hits(entries: Seq<(u64, i32)>, id: u64) -> int
    decreases entries.len(),
{
    if entries.len() == 0 {
        0
    } else if entries[0].0 == id {
        entries[0].1 as int
    } else {
        spec_lookup_hits(entries.subrange(1, entries.len() as int), id)
    }
}

proof fn lemma_lookup_at_first(entries: Seq<(u64, i32)>, e: int)
    requires
        0 <= e < entries.len(),
        forall|j: int| 0 <= j < e ==> entries[j].0 != entries[e].0,
    ensures
        spec_lookup_hits(entries, entries[e].0) == entries[e].1 as int,
    decreases e,
{
    let tail = entries.subrange(1, entries.len() as int);
    if e > 0 {
        assert(tail[e - 1] == entries[e]);
        assert(forall|j: int| 0 <= j < e - 1 ==> tail[j] == entries[j + 1]);
        lemma_lookup_at_first(tail, e - 1);
    }
}

proof fn lemma_lookup_update(entries: Seq<(u64, i32)>, e: int, v: i32)
    requires
        0 <= e < entries.len(),
        forall|j: int| 0 <= j < e ==> entries[j].0 != entries[e].0,
    ensures
        spec_lookup_hits(entries.update(e, (entries[e].0, v)), entries[e].0) == v as int,
        forall|other: u64|
            other != entries[e].0 ==> spec_lookup_hits(entries.update(e, (entries[e].0, v)), other)
                == spec_lookup_hits(entries, other),
    decreases e,
{
    let up = entries.update(e, (entries[e].0, v));
    let tail = entries.subrange(1, entries.len() as int);
    let uptail = up.subrange(1, up.len() as int);
    if e == 0 {
        assert(uptail =~= tail);
        assert(spec_lookup_hits(up, entries[e].0) == v as int);
        assert forall|other: u64| other != entries[e].0 implies spec_lookup_hits(up, other)
            == spec_lookup_hits(entries, other) by {
            assert(spec_lookup_hits(up, other) == spec_lookup_hits(uptail, other));
            assert(spec_lookup_hits(entries, other) == spec_lookup_hits(tail, other));
        }
    } else {
        assert(tail[e - 1] == entries[e]);
        assert(forall|j: int| 0 <= j < e - 1 ==> tail[j] == entries[j + 1]);
        lemma_lookup_update(tail, e - 1, v);
        assert(uptail =~= tail.update(e - 1, (tail[e - 1].0, v)));
        assert(up[0] == entries[0]);
        assert(spec_lookup_hits(up, entries[e].0) == v as int);
        assert forall|other: u64| other != entries[e].0 implies spec_lookup_hits(up, other)
            == spec_lookup_hits(entries, other) by {
            if entries[0].0 != other {
                assert(spec_lookup_hits(up, other) == spec_lookup_hits(uptail, other));
                assert(spec_lookup_hits(entries, other) == spec_lookup_hits(tail, other));
            }
        }
    }
}

proof fn lemma_lookup_push(entries: Seq<(u64, i32)>, id: u64, v: i32)
    requires
        forall|j: int| 0 <= j < entries.len() ==> entries[j].0 != id,
    ensures
        spec_lookup_hits(entries.push((id, v)), id) == v as int,
        forall|other: u64|
            other != id ==> spec_lookup_hits(entries.push((id, v)), other) == spec_lookup_hits(
                entries,
                other,
            ),
    decreases entries.len(),
{
    let pu = entries.push((id, v));
    let tail = entries.subrange(1, entries.len() as int);
    let putail = pu.subrange(1, pu.len() as int);
    if entries.len() == 0 {
        assert(putail =~= Seq::<(u64, i32)>::empty());
        assert(pu[0] == (id, v));
        assert forall|other: u64| other != id implies spec_lookup_hits(pu, other)
            == spec_lookup_hits(entries, other) by {
            assert(spec_lookup_hits(pu, other) == spec_lookup_hits(putail, other));
        }
    } else {
        assert(forall|j: int| 0 <= j < tail.len() ==> tail[j] == entries[j + 1]);
        lemma_lookup_push(tail, id, v);
        assert(putail =~= tail.push((id, v)));
        assert(pu[0] == entries[0]);
        assert(spec_lookup_hits(pu, id) == v as int);
        assert forall|other: u64| other != id implies spec_lookup_hits(pu, other)
            == spec_lookup_hits(entries, other) by {
            if entries[0].0 != other {
                assert(spec_lookup_hits(pu, other) == spec_lookup_hits(putail, other));
                assert(spec_lookup_hits(entries, other) == spec_lookup_hits(tail, other));
            }
        }
    }
}

/// Adds one hit for `id` in the table (first entry with the id, or a fresh
/// entry); every other id's count is untouched.
fn bump_hit(entries: &mut Vec<(u64, i32)>, id: u64)
    requires
        spec_lookup_hits(old(entries)@, id) < i32::MAX,
    ensures
        spec_lookup_hits(final(entries)@, id) == spec_lookup_hits(old(entries)@, id) + 1,
        forall|other: u64|
            other != id ==> spec_lookup_hits(final(entries)@, other) == spec_lookup_hits(
                old(entries)@,
                other,
            ),
{
    let n = entries.len();
    let mut e: usize = 0;
    while e < n
        invariant
            n == entries.len(),
            entries@ == old(entries)@,
            e <= n,
            spec_lookup_hits(old(entries)@, id) < i32::MAX,
            forall|j: int| 0 <= j < e ==> entries@[j].0 != id,
        decreases n - e,
    {
        let pair = entries[e];
        if pair.0 == id {
            proof {
                lemma_lookup_at_first(entries@, e as int);
                lemma_lookup_update(entries@, e as int, (pair.1 + 1) as i32);
            }
            entries[e] = (id, pair.1 + 1);
            return ;
        }
        e = e + 1;
    }
    proof {
        lemma_lookup_push(entries@, id, 1);
        assert(spec_lookup_hits(entries@, id) == 0) by {
            lemma_lookup_no_entry(entries@, id);
        }
    }
    entries.push((id, 1));
}

proof fn lemma_lookup_no_entry(entries: Seq<(u64, i32)>, id: u64)
    requires
        forall|j: int| 0 <= j < entries.len() ==> entries[j].0 != id,
    ensures
        spec_lookup_hits(entries, id) == 0,
    decreases entries.len(),
{
    if entries.len() > 0 {
        let tail = entries.subrange(1, entries.len() as int);
        assert(forall|j: int| 0 <= j < tail.len() ==> tail[j] == entries[j + 1]);
        lemma_lookup_no_entry(tail, id);
    }
}

/// Walks 801 evenly spaced samples of the candidate path and counts, per
/// obstacle id and in total, the samples that penetrate an obstacle the
/// arrow is not attached to.
pub fn sample_inside_hits(start: Point, end: Point, attached_ids: &Vec<u64>, obstacles: &Vec<
    ClosedShapeHit,
>, path: CurvePath) -> (r: (Vec<(u64, i32)>, i32))
    requires
        obstacles@.len() <= 0x0010_0000,
    ensures
        r.1 as int == spec_path_hits(path, start, end, attached_ids@, obstacles@),
        forall|id: u64|
            #[trigger] spec_lookup_hits(r.0@, id) == spec_path_id_hits(
                path,
                start,
                end,
                attached_ids@,
                obstacles@,
                id,
            ),
{
    let ghost att = attached_ids@;
    let ghost obs = obstacles@;
    let mut hits_by_id: Vec<(u64, i32)> = Vec::new();
    let mut total: i32 = 0;
    let n = obstacles.len();
    let steps_bits = u32_to_f32_bits(800);
    proof {
        lemma_lookup_no_entry(hits_by_id@, 0);
    }
    let mut i: usize = 0;
    while i <= 800
        invariant
            att == attached_ids@,
            obs == obstacles@,
            n == obstacles.len(),
            n <= 0x0010_0000,
            steps_bits == int_to_bits(800),
            i <= 801,
            total as int == spec_hits_upto(path, start, end, att, obs, i as int),
            forall|id: u64|
                #[trigger] spec_lookup_hits(hits_by_id@, id) == spec_id_hits_upto(
                    path,
                    start,
                    end,
                    att,
                    obs,
                    i as int,
                    id,
                ),
        decreases 801 - i,
    {
        let t = f32_div(u32_to_f32_bits(i as u32), steps_bits);
        proof {
            assert(t == spec_sample_t(i as int, 800));
        }
        let p = match path {
            CurvePath::Quadratic { control } => point_at_quadratic_uut(start, control, end, t),
            CurvePath::Cubic { c1, c2 } => point_at_cubic(start, c1, c2, end, t),
        };
        proof {
            assert(p == spec_sample_point(path, start, end, i as int));
        }
        let mut k: usize = 0;
        while k < n
            invariant
                att == attached_ids@,
                obs == obstacles@,
                n == obstacles.len(),
                n <= 0x0010_0000,
                i <= 800,
                k <= n,
                p == spec_sample_point(path, start, end, i as int),
                total as int == spec_hits_upto(path, start, end, att, obs, i as int)
                    + spec_row_hits(obs, att, p, k as int),
                forall|id: u64|
                    #[trigger] spec_lookup_hits(hits_by_id@, id) == spec_id_hits_upto(
                        path,
                        start,
                        end,
                        att,
                        obs,
                        i as int,
                        id,
                    ) + spec_row_id_hits(obs, att, p, k as int, id),
            decreases n - k,
        {
            let ob = obstacles[k];
            let mut counted: bool = false;
            if !contains_u64(attached_ids, ob.id) {
                let infl = ob.rect.inflate(BITS_EIGHTEEN, BITS_EIGHTEEN);
                if infl.contains(p) {
                    proof {
                        assert(obs[k as int].id == ob.id);
                    }
                    let first_rect = first_rect_with_id(obstacles, ob.id);
                    counted = first_rect.contains(p);
                }
            }
            proof {
                assert(counted == spec_obstacle_counted(obs, att, k as int, p));
            }
            if counted {
                proof {
                    lemma_hits_upto_bounds(path, start, end, att, obs, i as int, ob.id);
                    lemma_row_hits_bounds(obs, att, p, k as int, ob.id);
                    assert((i as int) * (obs.len() as int) <= 800 * 0x0010_0000) by (nonlinear_arith)
                        requires
                            i <= 800,
                            obs.len() <= 0x0010_0000,
                    ;
                }
                total = total + 1;
                bump_hit(&mut hits_by_id, ob.id);
            }
            k = k + 1;
        }
        i = i + 1;
    }
    (hits_by_id, total)
}


// ---------------------------------------------------------------------------
// Waypoint candidates.
// ---------------------------------------------------------------------------

/// The ten probe points one inflated obstacle rectangle contributes: four
/// edge midpoints, four corner outsets, and two points on the arrow's
/// mid-x line.
pub open spec fn spec_wp_points_of(r: Rect, mid: Point) -> Seq<Point> {
    seq![
        Point { x: mul_bits(add_bits(r.min_x, r.max_x), BITS_HALF), y: sub_bits(r.min_y, BITS_TWENTY_SIX) },
        Point { x: mul_bits(add_bits(r.min_x, r.max_x), BITS_HALF), y: add_bits(r.max_y, BITS_TWENTY_SIX) },
        Point { x: sub_bits(r.min_x, BITS_TWENTY_SIX), y: mul_bits(add_bits(r.min_y, r.max_y), BITS_HALF) },
        Point { x: add_bits(r.max_x, BITS_TWENTY_SIX), y: mul_bits(add_bits(r.min_y, r.max_y), BITS_HALF) },
        Point { x: sub_bits(r.min_x, BITS_TWENTY_SIX), y: sub_bits(r.min_y, BITS_TWENTY_SIX) },
        Point { x: add_bits(r.max_x, BITS_TWENTY_SIX), y: sub_bits(r.min_y, BITS_TWENTY_SIX) },
        Point { x: sub_bits(r.min_x, BITS_TWENTY_SIX), y: add_bits(r.max_y, BITS_TWENTY_SIX) },
        Point { x: add_bits(r.max_x, BITS_TWENTY_SIX), y: add_bits(r.max_y, BITS_TWENTY_SIX) },
        Point { x: mid.x, y: sub_bits(r.min_y, BITS_TWENTY_SIX) },
        Point { x: mid.x, y: add_bits(r.max_y, BITS_TWENTY_SIX) },
    ]
}

/// The probe points of the primary obstacles, in order.
pub open spec fn spec_wp_prim_points(prim: Seq<ClosedShapeHit>, mid: Point) -> Seq<Point>
    decreases prim.len(),
{
    if prim.len() == 0 {
        Seq::empty()
    } else {
        spec_wp_prim_points(prim.drop_last(), mid) + spec_wp_points_of(
            spec_rect_inflate(prim.last().rect, BITS_TWENTY_SIX, BITS_TWENTY_SIX),
            mid,
        )
    }
}

/// The union of the primary obstacles' inflated rectangles, folded in
/// order.
pub open spec fn spec_wp_union(prim: Seq<ClosedShapeHit>) -> Option<Rect>
    decreases prim.len(),
{
    if prim.len() == 0 {
        None
    } else {
        let r = spec_rect_inflate(prim.last().rect, BITS_TWENTY_SIX, BITS_TWENTY_SIX);
        match spec_wp_union(prim.drop_last()) {
            None => Some(r),
            Some(u) => Some(spec_rect_union(u, r)),
        }
    }
}

/// The four probe points outside the union rectangle, at double margin.
pub open spec fn spec_wp_union_points(u: Rect) -> Seq<Point> {
    let m2 = mul_bits(BITS_TWENTY_SIX, BITS_TWO);
    seq![
        Point { x: mul_bits(add_bits(u.min_x, u.max_x), BITS_HALF), y: sub_bits(u.min_y, m2) },
        Point { x: mul_bits(add_bits(u.min_x, u.max_x), BITS_HALF), y: add_bits(u.max_y, m2) },
        Point { x: sub_bits(u.min_x, m2), y: mul_bits(add_bits(u.min_y, u.max_y), BITS_HALF) },
        Point { x: add_bits(u.max_x, m2), y: mul_bits(add_bits(u.min_y, u.max_y), BITS_HALF) },
    ]
}

/// The midpoint of the arrow's endpoints.
pub open spec fn spec_wp_mid(start: Point, end: Point) -> Point {
    Point {
        x: mul_bits(add_bits(start.x, end.x), BITS_HALF),
        y: mul_bits(add_bits(start.y, end.y), BITS_HALF),
    }
}

/// All raw probe points: those of the first six obstacles, then those of
/// their union.
pub open spec fn spec_wp_raw(start: Point, end: Point, obstacles: Seq<ClosedShapeHit>,
) -> Seq<Point> {
    let mid = spec_wp_mid(start, end);
    let prim = if obstacles.len() <= 6 {
        obstacles
    } else {
        obstacles.take(6)
    };
    spec_wp_prim_points(prim, mid) + match spec_wp_union(prim) {
        None => Seq::<Point>::empty(),
        Some(u) => spec_wp_union_points(u),
    }
}

/// Whether some obstacle's inflated rectangle contains the point.
pub open spec fn spec_any_inflated_contains(obstacles: Seq<ClosedShapeHit>, p: Point) -> bool {
    exists|k: int|
        0 <= k < obstacles.len() && #[trigger] spec_rect_contains(
            spec_rect_inflate(obstacles[k].rect, BITS_TWENTY_SIX, BITS_TWENTY_SIX),
            p,
        )
}

/// The probe points that lie inside no obstacle's inflated rectangle.
pub open spec fn spec_wp_filter(points: Seq<Point>, obstacles: Seq<ClosedShapeHit>) -> Seq<Point>
    decreases points.len(),
{
    if points.len() == 0 {
        Seq::empty()
    } else {
        let rest = spec_wp_filter(points.drop_last(), obstacles);
        if spec_any_inflated_contains(obstacles, points.last()) {
            rest
        } else {
            rest.push(points.last())
        }
    }
}

/// Two candidates closer than three units are considered duplicates.
pub open spec fn spec_wp_near(q: Point, p: Point) -> bool {
    lt_bits(spec_hypot(sub_bits(q.x, p.x), sub_bits(q.y, p.y)), BITS_THREE)
}

pub open spec fn spec_any_near(acc: Seq<Point>, p: Point) -> bool {
    exists|j: int| 0 <= j < acc.len() && #[trigger] spec_wp_near(acc[j], p)
}

/// Deduplication by proximity, capped at 24 accepted waypoints.
pub open spec fn spec_wp_dedup(points: Seq<Point>, acc: Seq<Point>) -> Seq<Point>
    decreases points.len(),
{
    if points.len() == 0 || acc.len() >= 24 {
        acc
    } else {
        let p = points[0];
        let rest = points.subrange(1, points.len() as int);
        if spec_any_near(acc, p) {
            spec_wp_dedup(rest, acc)
        } else {
            spec_wp_dedup(rest, acc.push(p))
        }
    }
}

/// The waypoint candidates for routing around the given obstacles.
pub open spec fn spec_waypoint_candidates(start: Point, end: Point,
    obstacles: Seq<ClosedShapeHit>) -> Seq<Point> {
    spec_wp_dedup(spec_wp_filter(spec_wp_raw(start, end, obstacles), obstacles), Seq::empty())
}

fn any_inflated_contains(obstacles: &Vec<ClosedShapeHit>, p: Point) -> (r: bool)
    ensures
        r == spec_any_inflated_contains(obstacles@, p),
{
    let n = obstacles.len();
    let mut k: usize = 0;
    while k < n
        invariant
            n == obstacles.len(),
            k <= n,
            forall|j: int|
                0 <= j < k ==> !#[trigger] spec_rect_contains(
                    spec_rect_inflate(obstacles@[j].rect, BITS_TWENTY_SIX, BITS_TWENTY_SIX),
                    p,
                ),
        decreases n - k,
    {
        let infl = obstacles[k].rect.inflate(BITS_TWENTY_SIX, BITS_TWENTY_SIX);
        if infl.contains(p) {
            proof {
                assert(spec_rect_contains(
                    spec_rect_inflate(obstacles@[k as int].rect, BITS_TWENTY_SIX, BITS_TWENTY_SIX),
                    p,
                ));
            }
            return true;
        }
        k = k + 1;
    }
    false
}

/// Generates up to 24 waypoint candidates around the leading obstacles.
pub fn waypoint_candidates(start: Point, end: Point, obstacles: &Vec<ClosedShapeHit>) -> (r: Vec<
    Point,
>)
    ensures
        r@ == spec_waypoint_candidates(start, end, obstacles@),
{
    let mid = Point {
        x: f32_mul(f32_add(start.x, end.x), BITS_HALF),
        y: f32_mul(f32_add(start.y, end.y), BITS_HALF),
    };
    let prim_len: usize = if obstacles.len() <= 6 {
        obstacles.len()
    } else {
        6
    };
    let ghost prim = if obstacles@.len() <= 6 {
        obstacles@
    } else {
        obstacles@.take(6)
    };
    proof {
        assert(prim =~= obstacles@.subrange(0, prim_len as int));
    }
    let mut points: Vec<Point> = Vec::new();
    let mut union_rect: Option<Rect> = None;
    let mut k: usize = 0;
    while k < prim_len
        invariant
            prim_len <= obstacles.len(),
            prim_len <= 6,
            prim == obstacles@.subrange(0, prim_len as int),
            mid == spec_wp_mid(start, end),
            k <= prim_len,
            points@ == spec_wp_prim_points(prim.take(k as int), mid),
            union_rect == spec_wp_union(prim.take(k as int)),
        decreases prim_len - k,
    {
        let ghost pre = points@;
        let r = obstacles[k].rect.inflate(BITS_TWENTY_SIX, BITS_TWENTY_SIX);
        union_rect = match union_rect {
            None => Some(r),
            Some(u) => Some(u.union(r)),
        };
        let half_x = f32_mul(f32_add(r.min_x, r.max_x), BITS_HALF);
        let half_y = f32_mul(f32_add(r.min_y, r.max_y), BITS_HALF);
        let lo_x = f32_sub(r.min_x, BITS_TWENTY_SIX);
        let hi_x = f32_add(r.max_x, BITS_TWENTY_SIX);
        let lo_y = f32_sub(r.min_y, BITS_TWENTY_SIX);
        let hi_y = f32_add(r.max_y, BITS_TWENTY_SIX);
        points.push(Point { x: half_x, y: lo_y });
        points.push(Point { x: half_x, y: hi_y });
        points.push(Point { x: lo_x, y: half_y });
        points.push(Point { x: hi_x, y: half_y });
        points.push(Point { x: lo_x, y: lo_y });
        points.push(Point { x: hi_x, y: lo_y });
        points.push(Point { x: lo_x, y: hi_y });
        points.push(Point { x: hi_x, y: hi_y });
        points.push(Point { x: mid.x, y: lo_y });
        points.push(Point { x: mid.x, y: hi_y });
        proof {
            let tk1 = prim.take(k + 1 as int);
            assert(tk1.drop_last() =~= prim.take(k as int));
            assert(tk1.last() == prim[k as int]);
            assert(prim[k as int] == obstacles@[k as int]);
            assert(points@ =~= pre + spec_wp_points_of(
                spec_rect_inflate(obstacles@[k as int].rect, BITS_TWENTY_SIX, BITS_TWENTY_SIX),
                mid,
            ));
        }
        k = k + 1;
    }
    proof {
        assert(prim.take(prim_len as int) =~= prim);
    }
    match union_rect {
        None => {},
        Some(u) => {
            let ghost pre = points@;
            let m2 = f32_mul(BITS_TWENTY_SIX, BITS_TWO);
            let half_x = f32_mul(f32_add(u.min_x, u.max_x), BITS_HALF);
            let half_y = f32_mul(f32_add(u.min_y, u.max_y), BITS_HALF);
            points.push(Point { x: half_x, y: f32_sub(u.min_y, m2) });
            points.push(Point { x: half_x, y: f32_add(u.max_y, m2) });
            points.push(Point { x: f32_sub(u.min_x, m2), y: half_y });
            points.push(Point { x: f32_add(u.max_x, m2), y: half_y });
            proof {
                assert(points@ =~= pre + spec_wp_union_points(u));
            }
        },
    }
    proof {
        assert(points@ == spec_wp_raw(start, end, obstacles@));
    }
    let ghost raw = points@;
    let mut filtered: Vec<Point> = Vec::new();
    let pn = points.len();
    let mut i: usize = 0;
    while i < pn
        invariant
            pn == points.len(),
            raw == points@,
            i <= pn,
            filtered@ == spec_wp_filter(raw.take(i as int), obstacles@),
        decreases pn - i,
    {
        proof {
            let tk1 = raw.take(i + 1 as int);
            assert(tk1.drop_last() =~= raw.take(i as int));
            assert(tk1.last() == raw[i as int]);
        }
        let p = points[i];
        if !any_inflated_contains(obstacles, p) {
            filtered.push(p);
        }
        i = i + 1;
    }
    proof {
        assert(raw.take(pn as int) =~= raw);
    }
    let ghost fseq = filtered@;
    let mut out: Vec<Point> = Vec::new();
    let fnn = filtered.len();
    proof {
        assert(fseq.subrange(0, fnn as int) =~= fseq);
    }
    let mut j: usize = 0;
    while j < fnn
        invariant
            fnn == filtered.len(),
            fseq == filtered@,
            fseq == spec_wp_filter(spec_wp_raw(start, end, obstacles@), obstacles@),
            j <= fnn,
            out@.len() < 24,
            spec_wp_dedup(fseq, Seq::empty()) == spec_wp_dedup(
                fseq.subrange(j as int, fnn as int),
                out@,
            ),
        decreases fnn - j,
    {
        let ghost tail = fseq.subrange(j as int, fnn as int);
        proof {
            assert(tail[0] == fseq[j as int]);
            assert(tail.subrange(1, tail.len() as int) =~= fseq.subrange(j + 1 as int, fnn as int));
        }
        let p = filtered[j];
        let mut near_found: bool = false;
        let on = out.len();
        let mut q: usize = 0;
        while q < on && !near_found
            invariant
                on == out.len(),
                q <= on,
                p == fseq[j as int],
                !near_found ==> forall|jj: int| 0 <= jj < q ==> !#[trigger] spec_wp_near(
                    out@[jj],
                    p,
                ),
                near_found ==> spec_any_near(out@, p),
            decreases on - q + if near_found {
                0int
            } else {
                1int
            },
        {
            let d = hypot(f32_sub(out[q].x, p.x), f32_sub(out[q].y, p.y));
            if f32_lt(d, BITS_THREE) {
                proof {
                    assert(spec_wp_near(out@[q as int], p));
                }
                near_found = true;
            } else {
                q = q + 1;
            }
        }
        proof {
            if !near_found {
                assert(!spec_any_near(out@, p)) by {
                    if spec_any_near(out@, p) {
                        let jj = choose|jj: int|
                            0 <= jj < out@.len() && #[trigger] spec_wp_near(out@[jj], p);
                        assert(!spec_wp_near(out@[jj], p));
                    }
                }
            }
        }
        if !near_found {
            let ghost pre = out@;
            out.push(p);
            proof {
                assert(spec_wp_dedup(tail, pre) == spec_wp_dedup(
                    tail.subrange(1, tail.len() as int),
                    out@,
                ));
            }
            if out.len() >= 24 {
                proof {
                    assert(spec_wp_dedup(fseq.subrange(j + 1 as int, fnn as int), out@) == out@);
                }
                return out;
            }
        }
        j = j + 1;
    }
    proof {
        assert(fseq.subrange(fnn as int, fnn as int) =~= Seq::<Point>::empty());
    }
    out
}


// ---------------------------------------------------------------------------
// Choosing the curved path.
// ---------------------------------------------------------------------------

/// Stable insertion into a list sorted by descending key: the new element
/// goes after every element whose key is at least as large.
pub open spec fn spec_ins_desc(s: Seq<ClosedShapeHit>, x: ClosedShapeHit,
    key: spec_fn(ClosedShapeHit) -> int) -> Seq<ClosedShapeHit>
    decreases s.len(),
{
    if s.len() == 0 {
        seq![x]
    } else if key(s.last()) >= key(x) {
        s.push(x)
    } else {
        spec_ins_desc(s.drop_last(), x, key).push(s.last())
    }
}

/// Stable sort by descending key.
pub open spec fn spec_sort_desc(s: Seq<ClosedShapeHit>, key: spec_fn(ClosedShapeHit) -> int,
) -> Seq<ClosedShapeHit>
    decreases s.len(),
{
    if s.len() == 0 {
        Seq::empty()
    } else {
        spec_ins_desc(spec_sort_desc(s.drop_last(), key), s.last(), key)
    }
}

proof fn lemma_ins_desc_at(s: Seq<ClosedShapeHit>, x: ClosedShapeHit,
    key: spec_fn(ClosedShapeHit) -> int, j: int)
    requires
        0 <= j <= s.len(),
        forall|jj: int| j <= jj < s.len() ==> key(s[jj]) < key(x),
        j > 0 ==> key(s[j - 1]) >= key(x),
    ensures
        spec_ins_desc(s, x, key) == s.subrange(0, j).push(x) + s.subrange(j, s.len() as int),
    decreases s.len(),
{
    if j == s.len() {
        if s.len() == 0 {
            assert(spec_ins_desc(s, x, key) =~= s.subrange(0, j).push(x) + s.subrange(
                j,
                s.len() as int,
            ));
        } else {
            assert(spec_ins_desc(s, x, key) =~= s.subrange(0, j).push(x) + s.subrange(
                j,
                s.len() as int,
            ));
        }
    } else {
        assert(key(s.last()) < key(x));
        let dl = s.drop_last();
        assert(forall|jj: int| j <= jj < dl.len() ==> dl[jj] == s[jj]);
        if j > 0 {
            assert(dl[j - 1] == s[j - 1]);
        }
        lemma_ins_desc_at(dl, x, key, j);
        assert(spec_ins_desc(s, x, key) == spec_ins_desc(dl, x, key).push(s.last()));
        assert(spec_ins_desc(s, x, key) =~= s.subrange(0, j).push(x) + s.subrange(
            j,
            s.len() as int,
        ));
    }
}

/// The hit count the table assigns to an id.
fn lookup_hit_count(entries: &Vec<(u64, i32)>, id: u64) -> (r: i32)
    ensures
        r as int == spec_lookup_hits(entries@, id),
{
    let n = entries.len();
    let mut e: usize = 0;
    proof {
        assert(entries@.subrange(0, n as int) =~= entries@);
    }
    while e < n
        invariant
            n == entries.len(),
            e <= n,
            spec_lookup_hits(entries@, id) == spec_lookup_hits(
                entries@.subrange(e as int, n as int),
                id,
            ),
        decreases n - e,
    {
        let ghost tail = entries@.subrange(e as int, n as int);
        proof {
            assert(tail[0] == entries@[e as int]);
            assert(tail.subrange(1, tail.len() as int) =~= entries@.subrange(
                e + 1 as int,
                n as int,
            ));
        }
        let pair = entries[e];
        if pair.0 == id {
            return pair.1;
        }
        e = e + 1;
    }
    0
}

/// Stable sort of the obstacles by descending hit count.
fn sort_obstacles_by_hits(obstacles: &Vec<ClosedShapeHit>, entries: &Vec<(u64, i32)>) -> (r: Vec<
    ClosedShapeHit,
>)
    ensures
        r@ == spec_sort_desc(obstacles@, |o: ClosedShapeHit| spec_lookup_hits(entries@, o.id)),
{
    let ghost key = |o: ClosedShapeHit| spec_lookup_hits(entries@, o.id);
    let mut out: Vec<ClosedShapeHit> = Vec::new();
    let n = obstacles.len();
    proof {
        assert(obstacles@.take(0) =~= Seq::<ClosedShapeHit>::empty());
    }
    let mut i: usize = 0;
    while i < n
        invariant
            n == obstacles.len(),
            key == (|o: ClosedShapeHit| spec_lookup_hits(entries@, o.id)),
            i <= n,
            out@ == spec_sort_desc(obstacles@.take(i as int), key),
        decreases n - i,
    {
        let x = obstacles[i];
        let kx = lookup_hit_count(entries, x.id);
        let ghost pre = out@;
        let mut j: usize = out.len();
        let mut stop: bool = false;
        while j > 0 && !stop
            invariant
                out@ == pre,
                key == (|o: ClosedShapeHit| spec_lookup_hits(entries@, o.id)),
                kx as int == key(x),
                j <= out.len(),
                forall|jj: int| j <= jj < out@.len() ==> #[trigger] key(out@[jj]) < key(x),
                stop ==> j > 0 && key(out@[j - 1]) >= key(x),
            decreases j + if stop {
                0int
            } else {
                1int
            },
        {
            let kj = lookup_hit_count(entries, out[j - 1].id);
            if kj >= kx {
                stop = true;
            } else {
                proof {
                    assert(key(out@[j - 1]) < key(x));
                }
                j = j - 1;
            }
        }
        proof {
            lemma_ins_desc_at(pre, x, key, j as int);
        }
        out.insert(j, x);
        proof {
            let tk1 = obstacles@.take(i + 1 as int);
            assert(tk1.drop_last() =~= obstacles@.take(i as int));
            assert(tk1.last() == obstacles@[i as int]);
            assert(out@ =~= pre.subrange(0, j as int).push(x) + pre.subrange(
                j as int,
                pre.len() as int,
            ));
        }
        i = i + 1;
    }
    proof {
        assert(obstacles@.take(n as int) =~= obstacles@);
    }
    out
}

/// A scored cubic candidate: its controls, its penetration count, and the
/// control-distance tiebreaker.
pub struct CandScore {
    pub c1: Point,
    pub c2: Point,
    pub hits: int,
    pub score: u32,
}

/// How the candidate search ends: with the first penetration-free cubic,
/// or with the best scored candidate seen.
pub enum SearchOutcome {
    Early { c1: Point, c2: Point },
    Settled { best: Option<CandScore> },
}

pub open spec fn spec_pair_score(start: Point, end: Point, c1: Point, c2: Point) -> u32 {
    add_bits(
        spec_hypot(sub_bits(c1.x, start.x), sub_bits(c1.y, start.y)),
        spec_hypot(sub_bits(c2.x, end.x), sub_bits(c2.y, end.y)),
    )
}

/// Keeps the lower hit count, breaking ties by the lower score.
pub open spec fn spec_cand_update(best: Option<CandScore>, c1: Point, c2: Point, hits: int,
    score: u32) -> Option<CandScore> {
    match best {
        None => Some(CandScore { c1, c2, hits, score }),
        Some(b) => if hits < b.hits || (hits == b.hits && lt_bits(score, b.score)) {
            Some(CandScore { c1, c2, hits, score })
        } else {
            Some(b)
        },
    }
}

/// The candidate search: for each waypoint, the through-midpoint cubic and
/// then the pull-toward cubic; the first penetration-free cubic ends the
/// search at once.
pub open spec fn spec_search_cands(cands: Seq<Point>, start: Point, end: Point,
    attached: Seq<u64>, obstacles: Seq<ClosedShapeHit>, best: Option<CandScore>) -> SearchOutcome
    decreases cands.len(),
{
    if cands.len() == 0 {
        SearchOutcome::Settled { best }
    } else {
        let w = cands[0];
        let (a1, a2) = spec_cubic_controls_through_midpoint(start, end, w);
        let hits_a = spec_path_hits(CurvePath::Cubic { c1: a1, c2: a2 }, start, end, attached,
            obstacles);
        let best_a = spec_cand_update(best, a1, a2, hits_a, spec_pair_score(start, end, a1, a2));
        if hits_a == 0 {
            SearchOutcome::Early { c1: a1, c2: a2 }
        } else {
            let (b1, b2) = spec_cubic_controls_pull_toward(start, end, w);
            let hits_b = spec_path_hits(CurvePath::Cubic { c1: b1, c2: b2 }, start, end, attached,
                obstacles);
            let best_b = spec_cand_update(best_a, b1, b2, hits_b, spec_pair_score(
                start,
                end,
                b1,
                b2,
            ));
            if hits_b == 0 {
                SearchOutcome::Early { c1: b1, c2: b2 }
            } else {
                spec_search_cands(cands.subrange(1, cands.len() as int), start, end, attached,
                    obstacles, best_b)
            }
        }
    }
}

/// The path choice for a curved arrow: the default quadratic when its
/// samples are penetration-free; otherwise the candidate search's early
/// winner, or the best cubic if it strictly beats the quadratic, or the
/// quadratic after all.
pub open spec fn spec_choose_curved_path(start: Point, end: Point, quad_control: Point,
    attached: Seq<u64>, obstacles: Seq<ClosedShapeHit>) -> ArrowPath {
    let quad_hits = spec_path_hits(CurvePath::Quadratic { control: quad_control }, start, end,
        attached, obstacles);
    if quad_hits == 0 {
        ArrowPath::Quadratic { control: quad_control }
    } else {
        let ordered = spec_sort_desc(obstacles, |o: ClosedShapeHit| spec_path_id_hits(
            CurvePath::Quadratic { control: quad_control }, start, end, attached, obstacles, o.id));
        let cands = spec_waypoint_candidates(start, end, ordered);
        match spec_search_cands(cands, start, end, attached, obstacles, None) {
            SearchOutcome::Early { c1, c2 } => ArrowPath::Cubic { c1, c2 },
            SearchOutcome::Settled { best } => match best {
                Some(b) => if b.hits < quad_hits {
                    ArrowPath::Cubic { c1: b.c1, c2: b.c2 }
                } else {
                    ArrowPath::Quadratic { control: quad_control }
                },
                None => ArrowPath::Quadratic { control: quad_control },
            },
        }
    }
}

pub fn choose_curved_path(start: Point, end: Point, quad_control: Point, attached_ids: &Vec<u64>,
    obstacles: &Vec<ClosedShapeHit>) -> (r: ArrowPath)
    requires
        obstacles@.len() <= 0x0010_0000,
    ensures
        r == spec_choose_curved_path(start, end, quad_control, attached_ids@, obstacles@),
{
    let ghost att = attached_ids@;
    let ghost obs = obstacles@;
    let (hits_by_id, quad_hits) = sample_inside_hits(
        start,
        end,
        attached_ids,
        obstacles,
        CurvePath::Quadratic { control: quad_control },
    );
    if quad_hits == 0 {
        return ArrowPath::Quadratic { control: quad_control };
    }
    let ordered = sort_obstacles_by_hits(obstacles, &hits_by_id);
    proof {
        let k1 = |o: ClosedShapeHit| spec_lookup_hits(hits_by_id@, o.id);
        let k2 = |o: ClosedShapeHit| spec_path_id_hits(
            CurvePath::Quadratic { control: quad_control }, start, end, att, obs, o.id);
        assert(k1 =~= k2);
        assert(ordered@ == spec_sort_desc(obs, k2));
    }
    let candidates = waypoint_candidates(start, end, &ordered);
    let ghost cands = candidates@;
    let cn = candidates.len();
    let mut have_best: bool = false;
    let mut best_c1 = start;
    let mut best_c2 = start;
    let mut best_hits: i32 = 0;
    let mut best_score: u32 = 0;
    proof {
        assert(cands.subrange(0, cn as int) =~= cands);
    }
    let mut i: usize = 0;
    while i < cn
        invariant
            att == attached_ids@,
            obs == obstacles@,
            obs.len() <= 0x0010_0000,
            cn == candidates.len(),
            cands == candidates@,
            i <= cn,
            quad_hits as int == spec_path_hits(CurvePath::Quadratic { control: quad_control },
                start, end, att, obs),
            quad_hits != 0,
            cands == spec_waypoint_candidates(start, end, spec_sort_desc(obs,
                |o: ClosedShapeHit| spec_path_id_hits(
                    CurvePath::Quadratic { control: quad_control }, start, end, att, obs, o.id))),
            spec_search_cands(cands, start, end, att, obs, None) == spec_search_cands(
                cands.subrange(i as int, cn as int),
                start,
                end,
                att,
                obs,
                if have_best {
                    Some(CandScore { c1: best_c1, c2: best_c2, hits: best_hits as int,
                        score: best_score })
                } else {
                    None
                },
            ),
        decreases cn - i,
    {
        let ghost tail = cands.subrange(i as int, cn as int);
        let ghost pre_best = if have_best {
            Some(CandScore { c1: best_c1, c2: best_c2, hits: best_hits as int, score: best_score })
        } else {
            None
        };
        proof {
            assert(tail[0] == cands[i as int]);
            assert(tail.subrange(1, tail.len() as int) =~= cands.subrange(i + 1 as int, cn as int));
        }
        let w = candidates[i];
        let (a1, a2) = cubic_controls_through_midpoint(start, end, w);
        let (_unused_a, hits_a) = sample_inside_hits(
            start,
            end,
            attached_ids,
            obstacles,
            CurvePath::Cubic { c1: a1, c2: a2 },
        );
        let score_a = f32_add(
            hypot(f32_sub(a1.x, start.x), f32_sub(a1.y, start.y)),
            hypot(f32_sub(a2.x, end.x), f32_sub(a2.y, end.y)),
        );
        if !have_best || hits_a < best_hits || (hits_a == best_hits && f32_lt(
            score_a,
            best_score,
        )) {
            have_best = true;
            best_c1 = a1;
            best_c2 = a2;
            best_hits = hits_a;
            best_score = score_a;
        }
        if hits_a == 0 {
            return ArrowPath::Cubic { c1: a1, c2: a2 };
        }
        let ghost best_after_a = spec_cand_update(pre_best, a1, a2, hits_a as int, score_a);
        let (b1, b2) = cubic_controls_pull_toward_waypoint(start, end, w);
        let (_unused_b, hits_b) = sample_inside_hits(
            start,
            end,
            attached_ids,
            obstacles,
            CurvePath::Cubic { c1: b1, c2: b2 },
        );
        let score_b = f32_add(
            hypot(f32_sub(b1.x, start.x), f32_sub(b1.y, start.y)),
            hypot(f32_sub(b2.x, end.x), f32_sub(b2.y, end.y)),
        );
        if hits_b < best_hits || (hits_b == best_hits && f32_lt(score_b, best_score)) {
            best_c1 = b1;
            best_c2 = b2;
            best_hits = hits_b;
            best_score = score_b;
        }
        if hits_b == 0 {
            return ArrowPath::Cubic { c1: b1, c2: b2 };
        }
        proof {
            assert(if have_best {
                Some(CandScore { c1: best_c1, c2: best_c2, hits: best_hits as int,
                    score: best_score })
            } else {
                None
            } == spec_cand_update(best_after_a, b1, b2, hits_b as int, score_b));
        }
        i = i + 1;
    }
    proof {
        assert(cands.subrange(cn as int, cn as int) =~= Seq::<Point>::empty());
    }
    if have_best && best_hits < quad_hits {
        return ArrowPath::Cubic { c1: best_c1, c2: best_c2 };
    }
    ArrowPath::Quadratic { control: quad_control }
}


// ---------------------------------------------------------------------------
// Endpoint resolution and the top-level renderer.
// ---------------------------------------------------------------------------

/// The first closed shape with the given id.
pub open spec fn spec_find_closed(closed: Seq<ClosedShapeHit>, id: u64) -> Option<ClosedShapeHit>
    decreases closed.len(),
{
    if closed.len() == 0 {
        None
    } else if closed[0].id == id {
        Some(closed[0])
    } else {
        spec_find_closed(closed.subrange(1, closed.len() as int), id)
    }
}

fn find_closed(closed: &Vec<ClosedShapeHit>, id: u64) -> (r: Option<ClosedShapeHit>)
    ensures
        r == spec_find_closed(closed@, id),
{
    let n = closed.len();
    proof {
        assert(closed@.subrange(0, n as int) =~= closed@);
    }
    let mut i: usize = 0;
    while i < n
        invariant
            n == closed.len(),
            i <= n,
            spec_find_closed(closed@, id) == spec_find_closed(
                closed@.subrange(i as int, n as int),
                id,
            ),
        decreases n - i,
    {
        let ghost tail = closed@.subrange(i as int, n as int);
        proof {
            assert(tail[0] == closed@[i as int]);
            assert(tail.subrange(1, tail.len() as int) =~= closed@.subrange(
                i + 1 as int,
                n as int,
            ));
        }
        if closed[i].id == id {
            return Some(closed[i]);
        }
        i = i + 1;
    }
    None
}

/// The boundary intersection an attachment resolves to when no UV is
/// stored: the ray from the target's centre toward the opposite point.
pub open spec fn spec_anchor_toward(target: ClosedShapeHit, toward: Point) -> Point {
    let c = spec_rect_center(target.rect);
    let dx = sub_bits(toward.x, c.x);
    let dy = sub_bits(toward.y, c.y);
    match target.kind {
        ClosedShapeKind::Ellipse => spec_intersect_ellipse(target.rect, dx, dy),
        ClosedShapeKind::Rectangle | ClosedShapeKind::RoundedRectangle => spec_intersect_rect(
            target.rect,
            dx,
            dy,
        ),
    }
}

fn anchor_toward(target: &ClosedShapeHit, toward: Point) -> (r: Point)
    ensures
        r == spec_anchor_toward(*target, toward),
{
    let c = target.rect.center();
    let dx = f32_sub(toward.x, c.x);
    let dy = f32_sub(toward.y, c.y);
    match target.kind {
        ClosedShapeKind::Ellipse => intersect_ellipse(target.rect, dx, dy),
        ClosedShapeKind::Rectangle | ClosedShapeKind::RoundedRectangle => intersect_rect(
            target.rect,
            dx,
            dy,
        ),
    }
}

/// The resolved start point of an arrow: its stored start, unless the
/// start is attached to a present closed shape, in which case the UV
/// anchor or the boundary point toward the stored end.
pub open spec fn spec_resolve_start(sh: crate::model::ShapeModel, closed: Seq<ClosedShapeHit>,
) -> Point {
    match sh.start_attach_id {
        None => sh.start,
        Some(id) => match spec_find_closed(closed, id) {
            None => sh.start,
            Some(target) => match sh.start_attach_uv {
                Some(uv) => spec_anchor_point_uv(target, uv),
                None => spec_anchor_toward(target, sh.end),
            },
        },
    }
}

/// The resolved end point of an arrow; the no-UV ray aims at the already
/// resolved start.
pub open spec fn spec_resolve_end(sh: crate::model::ShapeModel, closed: Seq<ClosedShapeHit>,
) -> Point {
    match sh.end_attach_id {
        None => sh.end,
        Some(id) => match spec_find_closed(closed, id) {
            None => sh.end,
            Some(target) => match sh.end_attach_uv {
                Some(uv) => spec_anchor_point_uv(target, uv),
                None => spec_anchor_toward(target, spec_resolve_start(sh, closed)),
            },
        },
    }
}

/// The ids the arrow is attached to, first seen first, without duplicates.
pub open spec fn spec_attached_ids(sh: crate::model::ShapeModel, closed: Seq<ClosedShapeHit>,
) -> Seq<u64> {
    let s0 = match sh.start_attach_id {
        Some(id) => if spec_find_closed(closed, id) is Some {
            seq![id]
        } else {
            Seq::<u64>::empty()
        },
        None => Seq::<u64>::empty(),
    };
    match sh.end_attach_id {
        Some(id) => if spec_find_closed(closed, id) is Some && !s0.contains(id) {
            s0.push(id)
        } else {
            s0
        },
        None => s0,
    }
}

/// Resolves both endpoints of an arrow against the closed shapes and
/// collects the attached ids.
pub fn resolve_endpoints(shape: &Shape, closed: &Vec<ClosedShapeHit>) -> (r: (
    Point,
    Point,
    Vec<u64>,
))
    ensures
        r.0 == spec_resolve_start(shape.deep_view(), closed@),
        r.1 == spec_resolve_end(shape.deep_view(), closed@),
        r.2@ == spec_attached_ids(shape.deep_view(), closed@),
{
    let mut start = shape.start;
    let mut end = shape.end;
    let mut attached: Vec<u64> = Vec::new();
    proof {
        assert(attached@ =~= Seq::<u64>::empty());
    }
    match shape.start_attach_id {
        Some(id) => {
            match find_closed(closed, id) {
                Some(target) => {
                    attached.push(id);
                    proof {
                        assert(attached@ =~= seq![id]);
                    }
                    match shape.start_attach_uv {
                        Some(uv) => {
                            start = anchor_point_uv(&target, uv);
                        },
                        None => {
                            start = anchor_toward(&target, end);
                        },
                    }
                },
                None => {},
            }
        },
        None => {},
    }
    proof {
        assert(start == spec_resolve_start(shape.deep_view(), closed@));
    }
    match shape.end_attach_id {
        Some(id) => {
            match find_closed(closed, id) {
                Some(target) => {
                    if !contains_u64(&attached, id) {
                        attached.push(id);
                    }
                    match shape.end_attach_uv {
                        Some(uv) => {
                            end = anchor_point_uv(&target, uv);
                        },
                        None => {
                            end = anchor_toward(&target, start);
                        },
                    }
                },
                None => {},
            }
        },
        None => {},
    }
    proof {
        assert(end == spec_resolve_end(shape.deep_view(), closed@));
        assert(attached@ =~= spec_attached_ids(shape.deep_view(), closed@));
    }
    (start, end, attached)
}

/// What the renderer emits for one shape, if anything: arrow-like shapes
/// whose resolved endpoints are farther apart than half a unit.
pub open spec fn spec_render_one(sh: crate::model::ShapeModel, closed: Seq<ClosedShapeHit>,
) -> Option<ArrowRender> {
    if !(sh.kind is Arrow || sh.kind is CurvedArrow) {
        None
    } else {
        let start = spec_resolve_start(sh, closed);
        let end = spec_resolve_end(sh, closed);
        let attached = spec_attached_ids(sh, closed);
        let dx = sub_bits(end.x, start.x);
        let dy = sub_bits(end.y, start.y);
        let len = spec_hypot(dx, dy);
        if le_bits(len, BITS_HALF) {
            None
        } else {
            let path = if sh.kind is Arrow {
                ArrowPath::Line
            } else {
                spec_choose_curved_path(start, end, spec_quad_control_simple(start, end),
                    attached, closed)
            };
            let tangent = match path {
                ArrowPath::Line => (dx, dy),
                ArrowPath::Quadratic { control } => (
                    sub_bits(end.x, control.x),
                    sub_bits(end.y, control.y),
                ),
                ArrowPath::Cubic { c1, c2 } => (sub_bits(end.x, c2.x), sub_bits(end.y, c2.y)),
            };
            let heads = spec_compute_arrowhead(end, tangent.0, tangent.1, sh.style.stroke_width);
            Some(
                ArrowRender {
                    shape_id: sh.id,
                    style: sh.style,
                    start,
                    end,
                    path,
                    head_left: heads.0,
                    head_right: heads.1,
                },
            )
        }
    }
}

/// The renders of an item prefix, against a fixed closed-shape list.
pub open spec fn spec_render_go(items: Seq<ItemModel>, closed: Seq<ClosedShapeHit>,
) -> Seq<ArrowRender>
    decreases items.len(),
{
    if items.len() == 0 {
        Seq::empty()
    } else {
        let rest = spec_render_go(items.drop_last(), closed);
        match items.last() {
            ItemModel::Shape(sh) => match spec_render_one(sh, closed) {
                Some(r) => rest.push(r),
                None => rest,
            },
            ItemModel::Stroke(_) => rest,
        }
    }
}

/// One ArrowRender per arrow-like shape whose resolved endpoints are
/// farther apart than half a unit, in document order.
pub open spec fn spec_render_arrows(items: Seq<ItemModel>) -> Seq<ArrowRender> {
    spec_render_go(items, spec_closed_shapes(items))
}

proof fn lemma_closed_shapes_len(items: Seq<ItemModel>)
    ensures
        spec_closed_shapes(items).len() <= items.len(),
    decreases items.len(),
{
    if items.len() > 0 {
        lemma_closed_shapes_len(items.drop_last());
    }
}

pub fn render_arrows(items: &Vec<Item>) -> (r: Vec<ArrowRender>)
    requires
        items@.len() <= 0x0010_0000,
    ensures
        r@ == spec_render_arrows(items.deep_view()),
{
    let ghost s = items.deep_view();
    let closed = collect_closed_shapes(items);
    proof {
        assert(s.len() == items@.len());
        lemma_closed_shapes_len(s);
    }
    let mut out: Vec<ArrowRender> = Vec::new();
    let n = items.len();
    let mut i: usize = 0;
    while i < n
        invariant
            n == items.len(),
            s == items.deep_view(),
            closed@ == spec_closed_shapes(s),
            closed@.len() <= 0x0010_0000,
            i <= n,
            out@ == spec_render_go(s.subrange(0, i as int), closed@),
        decreases n - i,
    {
        proof {
            let sub1 = s.subrange(0, i + 1 as int);
            assert(sub1.drop_last() =~= s.subrange(0, i as int));
            assert(sub1.last() == s[i as int]);
        }
        match &items[i] {
            Item::Shape(shape) => {
                let arrow_like = match shape.kind {
                    ShapeKind::Arrow | ShapeKind::CurvedArrow => true,
                    _ => false,
                };
                if arrow_like {
                    let (start, end, attached_ids) = resolve_endpoints(shape, &closed);
                    let dx = f32_sub(end.x, start.x);
                    let dy = f32_sub(end.y, start.y);
                    let len = hypot(dx, dy);
                    if !f32_le(len, BITS_HALF) {
                        let path = match shape.kind {
                            ShapeKind::CurvedArrow => {
                                let quad = quad_control_simple(start, end);
                                choose_curved_path(start, end, quad, &attached_ids, &closed)
                            },
                            _ => ArrowPath::Line,
                        };
                        let (tx, ty) = match path {
                            ArrowPath::Line => (dx, dy),
                            ArrowPath::Quadratic { control } => (
                                f32_sub(end.x, control.x),
                                f32_sub(end.y, control.y),
                            ),
                            ArrowPath::Cubic { c1: _, c2 } => (
                                f32_sub(end.x, c2.x),
                                f32_sub(end.y, c2.y),
                            ),
                        };
                        let (hl, hr) = compute_arrowhead(end, tx, ty, shape.style.stroke_width);
                        out.push(
                            ArrowRender {
                                shape_id: shape.id,
                                style: shape.style,
                                start,
                                end,
                                path,
                                head_left: hl,
                                head_right: hr,
                            },
                        );
                    }
                }
            },
            Item::Stroke(_) => {},
        }
        i = i + 1;
    }
    proof {
        assert(s.subrange(0, n as int) =~= s);
    }
    out
}

// ---------------------------------------------------------------------------
// Obstacle introspection.
// ---------------------------------------------------------------------------

/// The first shape item with the given id.
pub open spec fn spec_find_shape(items: Seq<ItemModel>, id: u64) -> Option<crate::model::ShapeModel>
    decreases items.len(),
{
    if items.len() == 0 {
        None
    } else {
        match items[0] {
            ItemModel::Shape(sh) => if sh.id == id {
                Some(sh)
            } else {
                spec_find_shape(items.subrange(1, items.len() as int), id)
            },
            ItemModel::Stroke(_) => spec_find_shape(items.subrange(1, items.len() as int), id),
        }
    }
}

/// The closed-shape ids that are not attached, in document order.
pub open spec fn spec_unattached_ids(closed: Seq<ClosedShapeHit>, attached: Seq<u64>) -> Seq<u64>
    decreases closed.len(),
{
    if closed.len() == 0 {
        Seq::empty()
    } else {
        let rest = spec_unattached_ids(closed.drop_last(), attached);
        if attached.contains(closed.last().id) {
            rest
        } else {
            rest.push(closed.last().id)
        }
    }
}

/// Stable insertion into an ascending id list.
pub open spec fn spec_ins_asc(s: Seq<u64>, x: u64) -> Seq<u64>
    decreases s.len(),
{
    if s.len() == 0 {
        seq![x]
    } else if s.last() <= x {
        s.push(x)
    } else {
        spec_ins_asc(s.drop_last(), x).push(s.last())
    }
}

/// Ascending insertion sort of an id list.
pub open spec fn spec_sort_asc(s: Seq<u64>) -> Seq<u64>
    decreases s.len(),
{
    if s.len() == 0 {
        Seq::empty()
    } else {
        spec_ins_asc(spec_sort_asc(s.drop_last()), s.last())
    }
}

/// The sorted ids of the closed shapes an arrow would have to route
/// around: all closed-shape ids minus the attached ones.  A missing or
/// non-arrow target gives the empty list.
pub open spec fn spec_arrow_obstacle_ids(items: Seq<ItemModel>, arrow_shape_id: u64) -> Seq<u64> {
    let closed = spec_closed_shapes(items);
    match spec_find_shape(items, arrow_shape_id) {
        None => Seq::empty(),
        Some(sh) => if sh.kind is Arrow || sh.kind is CurvedArrow {
            spec_sort_asc(spec_unattached_ids(closed, spec_attached_ids(sh, closed)))
        } else {
            Seq::empty()
        },
    }
}

proof fn lemma_ins_asc_at(s: Seq<u64>, x: u64, j: int)
    requires
        0 <= j <= s.len(),
        forall|jj: int| j <= jj < s.len() ==> s[jj] > x,
        j > 0 ==> s[j - 1] <= x,
    ensures
        spec_ins_asc(s, x) == s.subrange(0, j).push(x) + s.subrange(j, s.len() as int),
    decreases s.len(),
{
    if j == s.len() {
        assert(spec_ins_asc(s, x) =~= s.subrange(0, j).push(x) + s.subrange(j, s.len() as int));
    } else {
        let dl = s.drop_last();
        assert(forall|jj: int| j <= jj < dl.len() ==> dl[jj] == s[jj]);
        if j > 0 {
            assert(dl[j - 1] == s[j - 1]);
        }
        lemma_ins_asc_at(dl, x, j);
        assert(spec_ins_asc(s, x) =~= s.subrange(0, j).push(x) + s.subrange(j, s.len() as int));
    }
}

pub fn arrow_obstacle_ids(items: &Vec<Item>, arrow_shape_id: u64) -> (r: Vec<u64>)
    ensures
        r@ == spec_arrow_obstacle_ids(items.deep_view(), arrow_shape_id),
{
    let ghost s = items.deep_view();
    let closed = collect_closed_shapes(items);
    let n = items.len();
    proof {
        assert(s.subrange(0, n as int) =~= s);
    }
    let mut i: usize = 0;
    while i < n
        invariant
            n == items.len(),
            s == items.deep_view(),
            closed@ == spec_closed_shapes(s),
            i <= n,
            spec_find_shape(s, arrow_shape_id) == spec_find_shape(
                s.subrange(i as int, n as int),
                arrow_shape_id,
            ),
        decreases n - i,
    {
        let ghost tail = s.subrange(i as int, n as int);
        proof {
            assert(tail[0] == s[i as int]);
            assert(tail.subrange(1, tail.len() as int) =~= s.subrange(i + 1 as int, n as int));
        }
        match &items[i] {
            Item::Shape(sh) => {
                if sh.id == arrow_shape_id {
                    let arrow_like = match sh.kind {
                        ShapeKind::Arrow | ShapeKind::CurvedArrow => true,
                        _ => false,
                    };
                    if !arrow_like {
                        let empty: Vec<u64> = Vec::new();
                        proof {
                            assert(empty@ =~= Seq::<u64>::empty());
                        }
                        return empty;
                    }
                    let (_start, _end, attached_ids) = resolve_endpoints(sh, &closed);
                    let mut ids: Vec<u64> = Vec::new();
                    let cn = closed.len();
                    proof {
                        assert(closed@.subrange(0, 0) =~= Seq::<ClosedShapeHit>::empty());
                        assert(ids@ =~= spec_unattached_ids(
                            closed@.subrange(0, 0),
                            attached_ids@,
                        ));
                    }
                    let mut k: usize = 0;
                    while k < cn
                        invariant
                            cn == closed.len(),
                            k <= cn,
                            ids@ == spec_unattached_ids(
                                closed@.subrange(0, k as int),
                                attached_ids@,
                            ),
                        decreases cn - k,
                    {
                        proof {
                            let sub1 = closed@.subrange(0, k + 1 as int);
                            assert(sub1.drop_last() =~= closed@.subrange(0, k as int));
                            assert(sub1.last() == closed@[k as int]);
                        }
                        let cid = closed[k].id;
                        if !contains_u64(&attached_ids, cid) {
                            ids.push(cid);
                        }
                        k = k + 1;
                    }
                    proof {
                        assert(closed@.subrange(0, cn as int) =~= closed@);
                    }
                    // ascending insertion sort of the ids
                    let ghost idseq = ids@;
                    let mut out: Vec<u64> = Vec::new();
                    let idn = ids.len();
                    proof {
                        assert(idseq.take(0) =~= Seq::<u64>::empty());
                    }
                    let mut a: usize = 0;
                    while a < idn
                        invariant
                            idn == ids.len(),
                            idseq == ids@,
                            a <= idn,
                            out@ == spec_sort_asc(idseq.take(a as int)),
                        decreases idn - a,
                    {
                        let x = ids[a];
                        let ghost pre = out@;
                        let mut j: usize = out.len();
                        let mut stop: bool = false;
                        while j > 0 && !stop
                            invariant
                                out@ == pre,
                                j <= out.len(),
                                forall|jj: int| j <= jj < out@.len() ==> out@[jj] > x,
                                stop ==> j > 0 && out@[j - 1] <= x,
                            decreases j + if stop {
                                0int
                            } else {
                                1int
                            },
                        {
                            if out[j - 1] <= x {
                                stop = true;
                            } else {
                                j = j - 1;
                            }
                        }
                        proof {
                            lemma_ins_asc_at(pre, x, j as int);
                        }
                        out.insert(j, x);
                        proof {
                            let tk1 = idseq.take(a + 1 as int);
                            assert(tk1.drop_last() =~= idseq.take(a as int));
                            assert(tk1.last() == idseq[a as int]);
                            assert(out@ =~= pre.subrange(0, j as int).push(x) + pre.subrange(
                                j as int,
                                pre.len() as int,
                            ));
                        }
                        a = a + 1;
                    }
                    proof {
                        assert(idseq.take(idn as int) =~= idseq);
                    }
                    return out;
                }
            },
            Item::Stroke(_) => {},
        }
        i = i + 1;
    }
    let empty: Vec<u64> = Vec::new();
    proof {
        assert(empty@ =~= Seq::<u64>::empty());
    }
    empty
}

// ---------------------------------------------------------------------------
// Kind predicates.
// ---------------------------------------------------------------------------

pub open spec fn spec_is_arrow_like(kind: ShapeKind) -> bool {
    kind is Arrow || kind is CurvedArrow
}

pub fn is_arrow_like(kind: ShapeKind) -> (r: bool)
    ensures
        r == spec_is_arrow_like(kind),
{
    match kind {
        ShapeKind::Arrow | ShapeKind::CurvedArrow => true,
        _ => false,
    }
}

pub fn is_closed(kind: ShapeKind) -> (r: bool)
    ensures
        r == crate::geometry::spec_is_closed_shape(kind),
{
    crate::geometry::is_closed_shape(kind)
}

// ---------------------------------------------------------------------------
// Laws of the renderer.
// ---------------------------------------------------------------------------

/// The arrow-like items whose resolved endpoints are farther apart than
/// half a unit, in document order.
pub open spec fn spec_qualifying_arrows(items: Seq<ItemModel>, closed: Seq<ClosedShapeHit>,
) -> Seq<crate::model::ShapeModel>
    decreases items.len(),
{
    if items.len() == 0 {
        Seq::empty()
    } else {
        let rest = spec_qualifying_arrows(items.drop_last(), closed);
        match items.last() {
            ItemModel::Shape(sh) => if spec_render_one(sh, closed) is Some {
                rest.push(sh)
            } else {
                rest
            },
            ItemModel::Stroke(_) => rest,
        }
    }
}

/// The renderer emits exactly one ArrowRender per qualifying arrow-like
/// shape, in order, and its shape_id is that shape's id; shapes with
/// closer endpoints, and everything that is not an arrow, are omitted.
pub proof fn lemma_render_arrows_one_per_arrow(items: Seq<ItemModel>)
    ensures
        spec_render_arrows(items).len() == spec_qualifying_arrows(
            items,
            spec_closed_shapes(items),
        ).len(),
        forall|k: int|
            0 <= k < spec_render_arrows(items).len() ==> #[trigger] spec_render_arrows(items)[k]
                == spec_render_one(
                spec_qualifying_arrows(items, spec_closed_shapes(items))[k],
                spec_closed_shapes(items),
            ).unwrap(),
        forall|k: int|
            0 <= k < spec_render_arrows(items).len() ==> #[trigger] spec_render_arrows(
                items,
            )[k].shape_id == spec_qualifying_arrows(items, spec_closed_shapes(items))[k].id,
{
    lemma_render_go_one_per_arrow(items, spec_closed_shapes(items));
}

proof fn lemma_render_go_one_per_arrow(items: Seq<ItemModel>, closed: Seq<ClosedShapeHit>)
    ensures
        spec_render_go(items, closed).len() == spec_qualifying_arrows(items, closed).len(),
        forall|k: int|
            0 <= k < spec_render_go(items, closed).len() ==> #[trigger] spec_render_go(
                items,
                closed,
            )[k] == spec_render_one(spec_qualifying_arrows(items, closed)[k], closed).unwrap(),
        forall|k: int|
            0 <= k < spec_render_go(items, closed).len() ==> #[trigger] spec_render_go(
                items,
                closed,
            )[k].shape_id == spec_qualifying_arrows(items, closed)[k].id,
    decreases items.len(),
{
    if items.len() > 0 {
        lemma_render_go_one_per_arrow(items.drop_last(), closed);
        match items.last() {
            ItemModel::Shape(sh) => {
                match spec_render_one(sh, closed) {
                    Some(r) => {
                        assert(r.shape_id == sh.id);
                    },
                    None => {},
                }
            },
            ItemModel::Stroke(_) => {},
        }
    }
}

/// An arrow with no attachments resolves to its own stored endpoints.
pub proof fn lemma_unattached_resolves_to_own_endpoints(sh: crate::model::ShapeModel,
    closed: Seq<ClosedShapeHit>)
    requires
        sh.start_attach_id is None,
        sh.end_attach_id is None,
    ensures
        spec_resolve_start(sh, closed) == sh.start,
        spec_resolve_end(sh, closed) == sh.end,
        spec_attached_ids(sh, closed) == Seq::<u64>::empty(),
{
}

/// The obstacle id list is sorted ascending and contains exactly the
/// closed-shape ids outside the attached set.
pub proof fn lemma_obstacle_ids_sorted_and_exclude_attached(closed: Seq<ClosedShapeHit>,
    attached: Seq<u64>)
    ensures
        ({
            let r = spec_sort_asc(spec_unattached_ids(closed, attached));
            &&& forall|i: int, j: int| 0 <= i <= j < r.len() ==> r[i] <= r[j]
            &&& forall|x: u64| r.contains(x) ==> !attached.contains(x)
            &&& forall|x: u64|
                #[trigger] r.contains(x) <==> (exists|k: int|
                    0 <= k < closed.len() && #[trigger] closed[k].id == x) && !attached.contains(x)
        }),
{
    lemma_unattached_ids_members(closed, attached);
    lemma_sort_asc_props(spec_unattached_ids(closed, attached));
    let u = spec_unattached_ids(closed, attached);
    let r = spec_sort_asc(u);
    assert forall|x: u64| #[trigger] r.contains(x) implies (exists|k: int|
        0 <= k < closed.len() && #[trigger] closed[k].id == x) && !attached.contains(x) by {
        assert(u.contains(x));
    }
    assert forall|x: u64|
        (exists|k: int| 0 <= k < closed.len() && #[trigger] closed[k].id == x)
            && !attached.contains(x) implies #[trigger] r.contains(x) by {
        assert(u.contains(x));
    }
}

proof fn lemma_unattached_ids_members(closed: Seq<ClosedShapeHit>, attached: Seq<u64>)
    ensures
        forall|x: u64|
            #[trigger] spec_unattached_ids(closed, attached).contains(x) <==> ((exists|k: int|
                0 <= k < closed.len() && #[trigger] closed[k].id == x) && !attached.contains(x)),
    decreases closed.len(),
{
    let u = spec_unattached_ids(closed, attached);
    if closed.len() == 0 {
        assert forall|x: u64| #[trigger] u.contains(x) implies ((exists|k: int|
            0 <= k < closed.len() && #[trigger] closed[k].id == x) && !attached.contains(x)) by {}
    } else {
        let dl = closed.drop_last();
        lemma_unattached_ids_members(dl, attached);
        let ur = spec_unattached_ids(dl, attached);
        assert forall|x: u64| #[trigger] u.contains(x) implies ((exists|k: int|
            0 <= k < closed.len() && #[trigger] closed[k].id == x) && !attached.contains(x)) by {
            if attached.contains(closed.last().id) {
                assert(ur.contains(x));
                let k = choose|k: int| 0 <= k < dl.len() && #[trigger] dl[k].id == x;
                assert(closed[k].id == x);
            } else {
                if x == closed.last().id && u.last() == x {
                    assert(closed[closed.len() - 1].id == x);
                }
                if ur.contains(x) {
                    let k = choose|k: int| 0 <= k < dl.len() && #[trigger] dl[k].id == x;
                    assert(closed[k].id == x);
                } else {
                    let j = choose|j: int| 0 <= j < u.len() && u[j] == x;
                    assert(j == u.len() - 1);
                    assert(closed[closed.len() - 1].id == x);
                }
            }
        }
        assert forall|x: u64| ((exists|k: int|
            0 <= k < closed.len() && #[trigger] closed[k].id == x) && !attached.contains(
            x,
        )) implies #[trigger] u.contains(x) by {
            let k = choose|k: int| 0 <= k < closed.len() && #[trigger] closed[k].id == x;
            if k < closed.len() - 1 {
                assert(dl[k].id == x);
                assert(ur.contains(x));
                let j = choose|j: int| 0 <= j < ur.len() && ur[j] == x;
                if attached.contains(closed.last().id) {
                    assert(u[j] == x);
                } else {
                    assert(u[j] == x);
                }
            } else {
                assert(!attached.contains(closed.last().id));
                assert(u.last() == x);
            }
        }
    }
}

proof fn lemma_ins_asc_props(s: Seq<u64>, x: u64)
    requires
        forall|i: int, j: int| 0 <= i <= j < s.len() ==> s[i] <= s[j],
    ensures
        forall|i: int, j: int|
            0 <= i <= j < spec_ins_asc(s, x).len() ==> spec_ins_asc(s, x)[i] <= spec_ins_asc(
                s,
                x,
            )[j],
        forall|y: u64| #[trigger] spec_ins_asc(s, x).contains(y) <==> (s.contains(y) || y == x),
    decreases s.len(),
{
    let r = spec_ins_asc(s, x);
    if s.len() == 0 {
        assert forall|y: u64| #[trigger] r.contains(y) implies (s.contains(y) || y == x) by {}
        assert(r[0] == x);
        assert(r.contains(x));
    } else if s.last() <= x {
        assert(r == s.push(x));
        assert forall|y: u64| #[trigger] r.contains(y) implies (s.contains(y) || y == x) by {
            let j = choose|j: int| 0 <= j < r.len() && r[j] == y;
            if j < s.len() {
                assert(s[j] == y);
            }
        }
        assert forall|y: u64| (s.contains(y) || y == x) implies #[trigger] r.contains(y) by {
            if s.contains(y) {
                let j = choose|j: int| 0 <= j < s.len() && s[j] == y;
                assert(r[j] == y);
            } else {
                assert(r.last() == x);
            }
        }
    } else {
        let dl = s.drop_last();
        assert(forall|i: int, j: int| 0 <= i <= j < dl.len() ==> dl[i] <= dl[j]);
        lemma_ins_asc_props(dl, x);
        let rr = spec_ins_asc(dl, x);
        assert(r == rr.push(s.last()));
        assert forall|i: int, j: int| 0 <= i <= j < r.len() implies r[i] <= r[j] by {
            if j == r.len() - 1 && i < j {
                assert(r[i] == rr[i]);
                assert(rr.contains(rr[i]));
                if rr[i] == x {
                    assert(r[i] <= r[j]);
                } else {
                    assert(dl.contains(rr[i]));
                    let kk = choose|kk: int| 0 <= kk < dl.len() && dl[kk] == rr[i];
                    assert(s[kk] <= s.last());
                }
            }
        }
        assert forall|y: u64| #[trigger] r.contains(y) implies (s.contains(y) || y == x) by {
            let j = choose|j: int| 0 <= j < r.len() && r[j] == y;
            if j < rr.len() {
                assert(rr.contains(y));
                if dl.contains(y) {
                    let kk = choose|kk: int| 0 <= kk < dl.len() && dl[kk] == y;
                    assert(s[kk] == y);
                }
            } else {
                assert(s.last() == y);
                assert(s.contains(y));
            }
        }
        assert forall|y: u64| (s.contains(y) || y == x) implies #[trigger] r.contains(y) by {
            if y == x {
                assert(rr.contains(x));
                let j = choose|j: int| 0 <= j < rr.len() && rr[j] == x;
                assert(r[j] == x);
            } else {
                let j = choose|j: int| 0 <= j < s.len() && s[j] == y;
                if j < s.len() - 1 {
                    assert(dl[j] == y);
                    assert(dl.contains(y));
                    assert(rr.contains(y));
                    let jj = choose|jj: int| 0 <= jj < rr.len() && rr[jj] == y;
                    assert(r[jj] == y);
                } else {
                    assert(r.last() == y);
                }
            }
        }
    }
}

proof fn lemma_sort_asc_props(s: Seq<u64>)
    ensures
        forall|i: int, j: int|
            0 <= i <= j < spec_sort_asc(s).len() ==> spec_sort_asc(s)[i] <= spec_sort_asc(s)[j],
        forall|y: u64| #[trigger] spec_sort_asc(s).contains(y) <==> s.contains(y),
    decreases s.len(),
{
    if s.len() > 0 {
        let dl = s.drop_last();
        lemma_sort_asc_props(dl);
        lemma_ins_asc_props(spec_sort_asc(dl), s.last());
        assert forall|y: u64| #[trigger] spec_sort_asc(s).contains(y) implies s.contains(y) by {
            if spec_sort_asc(dl).contains(y) {
                assert(dl.contains(y));
                let j = choose|j: int| 0 <= j < dl.len() && dl[j] == y;
                assert(s[j] == y);
            } else {
                assert(y == s.last());
                assert(s.contains(y));
            }
        }
        assert forall|y: u64| s.contains(y) implies #[trigger] spec_sort_asc(s).contains(y) by {
            let j = choose|j: int| 0 <= j < s.len() && s[j] == y;
            if j < s.len() - 1 {
                assert(dl[j] == y);
                assert(dl.contains(y));
            }
        }
    } else {
        assert forall|y: u64| #[trigger] spec_sort_asc(s).contains(y) implies s.contains(y) by {}
    }
}

} // verus!

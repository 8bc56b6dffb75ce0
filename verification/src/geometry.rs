//! Axis-aligned rectangles and closed-shape enumeration.

use vstd::prelude::*;

use crate::model::{Item, ItemModel, Point, Shape, ShapeKind};
use crate::scalar::{add_bits, f32_add, f32_le, f32_max, f32_min, f32_mul, f32_sub, le_bits,
    max_bits, min_bits, mul_bits, sub_bits, BITS_HALF};

verus! {

/// An axis-aligned rectangle; bounds are binary32 bit patterns.
#[derive(Clone, Copy, PartialEq, Eq, Structural, Debug)]
pub struct Rect {
    pub min_x: u32,
    pub min_y: u32,
    pub max_x: u32,
    pub max_y: u32,
}

/// The rectangle spanned by two corner points, componentwise min/max.
pub open spec fn spec_rect_from_points(a: Point, b: Point) -> Rect {
    Rect {
        min_x: min_bits(a.x, b.x),
        min_y: min_bits(a.y, b.y),
        max_x: max_bits(a.x, b.x),
        max_y: max_bits(a.y, b.y),
    }
}

pub open spec fn spec_rect_width(r: Rect) -> u32 {
    sub_bits(r.max_x, r.min_x)
}

pub open spec fn spec_rect_height(r: Rect) -> u32 {
    sub_bits(r.max_y, r.min_y)
}

pub open spec fn spec_rect_center(r: Rect) -> Point {
    Point {
        x: mul_bits(add_bits(r.min_x, r.max_x), BITS_HALF),
        y: mul_bits(add_bits(r.min_y, r.max_y), BITS_HALF),
    }
}

pub open spec fn spec_rect_contains(r: Rect, p: Point) -> bool {
    le_bits(r.min_x, p.x) && le_bits(p.x, r.max_x) && le_bits(r.min_y, p.y) && le_bits(
        p.y,
        r.max_y,
    )
}

pub open spec fn spec_rect_inflate(r: Rect, dx: u32, dy: u32) -> Rect {
    Rect {
        min_x: sub_bits(r.min_x, dx),
        min_y: sub_bits(r.min_y, dy),
        max_x: add_bits(r.max_x, dx),
        max_y: add_bits(r.max_y, dy),
    }
}

pub open spec fn spec_rect_union(a: Rect, b: Rect) -> Rect {
    Rect {
        min_x: min_bits(a.min_x, b.min_x),
        min_y: min_bits(a.min_y, b.min_y),
        max_x: max_bits(a.max_x, b.max_x),
        max_y: max_bits(a.max_y, b.max_y),
    }
}

impl Rect {
    pub fn from_points(a: Point, b: Point) -> (r: Rect)
        ensures
            r == spec_rect_from_points(a, b),
    {
        Rect {
            min_x: f32_min(a.x, b.x),
            min_y: f32_min(a.y, b.y),
            max_x: f32_max(a.x, b.x),
            max_y: f32_max(a.y, b.y),
        }
    }

    pub fn width(&self) -> (r: u32)
        ensures
            r == spec_rect_width(*self),
    {
        f32_sub(self.max_x, self.min_x)
    }

    pub fn height(&self) -> (r: u32)
        ensures
            r == spec_rect_height(*self),
    {
        f32_sub(self.max_y, self.min_y)
    }

    pub fn center(&self) -> (r: Point)
        ensures
            r == spec_rect_center(*self),
    {
        Point {
            x: f32_mul(f32_add(self.min_x, self.max_x), BITS_HALF),
            y: f32_mul(f32_add(self.min_y, self.max_y), BITS_HALF),
        }
    }

    pub fn contains(&self, p: Point) -> (r: bool)
        ensures
            r == spec_rect_contains(*self, p),
    {
        f32_le(self.min_x, p.x) && f32_le(p.x, self.max_x) && f32_le(self.min_y, p.y) && f32_le(
            p.y,
            self.max_y,
        )
    }

    pub fn inflate(&self, dx: u32, dy: u32) -> (r: Rect)
        ensures
            r == spec_rect_inflate(*self, dx, dy),
    {
        Rect {
            min_x: f32_sub(self.min_x, dx),
            min_y: f32_sub(self.min_y, dy),
            max_x: f32_add(self.max_x, dx),
            max_y: f32_add(self.max_y, dy),
        }
    }

    pub fn union(&self, other: Rect) -> (r: Rect)
        ensures
            r == spec_rect_union(*self, other),
    {
        Rect {
            min_x: f32_min(self.min_x, other.min_x),
            min_y: f32_min(self.min_y, other.min_y),
            max_x: f32_max(self.max_x, other.max_x),
            max_y: f32_max(self.max_y, other.max_y),
        }
    }
}

/// The closed shapes, those an arrow can attach to and route around.
#[derive(Clone, Copy, PartialEq, Eq, Structural, Debug)]
pub enum ClosedShapeKind {
    Rectangle,
    RoundedRectangle,
    Ellipse,
}

/// A closed shape's id, kind and axis-aligned rectangle.
#[derive(Clone, Copy, PartialEq, Eq, Structural, Debug)]
pub struct ClosedShapeHit {
    pub id: u64,
    pub kind: ClosedShapeKind,
    pub rect: Rect,
}

pub open spec fn spec_is_closed_shape(kind: ShapeKind) -> bool {
    kind is Rectangle || kind is RoundedRectangle || kind is Ellipse
}

pub fn is_closed_shape(kind: ShapeKind) -> (r: bool)
    ensures
        r == spec_is_closed_shape(kind),
{
    match kind {
        ShapeKind::Rectangle | ShapeKind::RoundedRectangle | ShapeKind::Ellipse => true,
        _ => false,
    }
}

pub open spec fn spec_closed_shape_kind(kind: ShapeKind) -> Option<ClosedShapeKind> {
    match kind {
        ShapeKind::Rectangle => Some(ClosedShapeKind::Rectangle),
        ShapeKind::RoundedRectangle => Some(ClosedShapeKind::RoundedRectangle),
        ShapeKind::Ellipse => Some(ClosedShapeKind::Ellipse),
        _ => None,
    }
}

pub fn closed_shape_kind(kind: ShapeKind) -> (r: Option<ClosedShapeKind>)
    ensures
        r == spec_closed_shape_kind(kind),
{
    match kind {
        ShapeKind::Rectangle => Some(ClosedShapeKind::Rectangle),
        ShapeKind::RoundedRectangle => Some(ClosedShapeKind::RoundedRectangle),
        ShapeKind::Ellipse => Some(ClosedShapeKind::Ellipse),
        _ => None,
    }
}

/// The rectangle a shape spans between its two endpoints.
pub open spec fn spec_rect_for_shape(start: Point, end: Point) -> Rect {
    spec_rect_from_points(start, end)
}

pub fn rect_for_shape(shape: &Shape) -> (r: Rect)
    ensures
        r == spec_rect_for_shape(shape.start, shape.end),
{
    Rect::from_points(shape.start, shape.end)
}

/// The closed shapes of an item list, in document order.
pub open spec fn spec_closed_shapes(items: Seq<ItemModel>) -> Seq<ClosedShapeHit>
    decreases items.len(),
{
    if items.len() == 0 {
        Seq::empty()
    } else {
        let rest = spec_closed_shapes(items.drop_last());
        match items.last() {
            ItemModel::Shape(sh) => match spec_closed_shape_kind(sh.kind) {
                Some(kind) => rest.push(
                    ClosedShapeHit { id: sh.id, kind, rect: spec_rect_for_shape(sh.start, sh.end) },
                ),
                None => rest,
            },
            ItemModel::Stroke(_) => rest,
        }
    }
}

pub fn collect_closed_shapes(items: &Vec<Item>) -> (r: Vec<ClosedShapeHit>)
    ensures
        r@ == spec_closed_shapes(items.deep_view()),
{
    let ghost s = items.deep_view();
    let mut out: Vec<ClosedShapeHit> = Vec::new();
    let n = items.len();
    let mut i: usize = 0;
    while i < n
        invariant
            n == items.len(),
            s == items.deep_view(),
            i <= n,
            out@ == spec_closed_shapes(s.subrange(0, i as int)),
        decreases n - i,
    {
        proof {
            let sub1 = s.subrange(0, i + 1 as int);
            assert(sub1.drop_last() =~= s.subrange(0, i as int));
            assert(sub1.last() == s[i as int]);
        }
        match &items[i] {
            Item::Shape(sh) => {
                match closed_shape_kind(sh.kind) {
                    Some(kind) => {
                        let hit = ClosedShapeHit { id: sh.id, kind, rect: rect_for_shape(sh) };
                        out.push(hit);
                    },
                    None => {},
                }
            },
            Item::Stroke(_) => {},
        }
        i = i + 1;
    }
    proof {
        assert(s.subrange(0, n as int) =~= s);
    }
    out
}

} // verus!

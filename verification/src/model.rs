//! Value types of the document: colors, points, strokes, shapes, items.
//!
//! Geometric scalars (coordinates, widths, radii) are IEEE-754 binary32
//! values carried as their raw bit patterns (`u32`); see the `scalar`
//! module.  Equality of items is bitwise on those patterns.

use vstd::prelude::*;

verus! {

/// A color with four 8-bit channels.
#[derive(Clone, Copy, PartialEq, Eq, Structural, Debug)]
pub struct ColorRgba8 {
    pub r: u8,
    pub g: u8,
    pub b: u8,
    pub a: u8,
}

/// A 2-d point; each coordinate is a binary32 bit pattern.
#[derive(Clone, Copy, PartialEq, Eq, Structural, Debug)]
pub struct Point {
    pub x: u32,
    pub y: u32,
}

/// The shape palette.  Rectangle, RoundedRectangle and Ellipse are closed;
/// Arrow and CurvedArrow are arrow-like.
#[derive(Clone, Copy, PartialEq, Eq, Structural, Debug)]
pub enum ShapeKind {
    Rectangle,
    RoundedRectangle,
    Ellipse,
    Arrow,
    CurvedArrow,
}

/// Stroke and fill styling of a shape; widths and radii are binary32 bit
/// patterns.
#[derive(Clone, Copy, PartialEq, Eq, Structural, Debug)]
pub struct ShapeStyle {
    pub stroke_color: ColorRgba8,
    pub stroke_width: u32,
    pub fill_enabled: bool,
    pub fill_color: ColorRgba8,
    pub hatch_enabled: bool,
    pub corner_radius: u32,
}

#[derive(Clone, Copy, PartialEq, Eq, Structural, Debug)]
pub enum TextAlignH {
    Left,
    Center,
    Right,
}

#[derive(Clone, Copy, PartialEq, Eq, Structural, Debug)]
pub enum TextAlignV {
    Top,
    Middle,
    Bottom,
}

/// A freehand stroke: a polyline of at least one point.
#[derive(Debug)]
pub struct Stroke {
    pub id: u64,
    pub color: ColorRgba8,
    pub width: u32,
    pub points: Vec<Point>,
}

/// A parametric shape between two corner points, with optional connector
/// attachments for arrow-like kinds and an optional text label.
#[derive(Debug)]
pub struct Shape {
    pub id: u64,
    pub kind: ShapeKind,
    pub style: ShapeStyle,
    pub start: Point,
    pub end: Point,
    pub start_attach_id: Option<u64>,
    pub end_attach_id: Option<u64>,
    pub start_attach_uv: Option<Point>,
    pub end_attach_uv: Option<Point>,
    pub text: String,
    pub text_align_h: TextAlignH,
    pub text_align_v: TextAlignV,
}

/// One document item.
#[derive(Debug)]
pub enum Item {
    Stroke(Stroke),
    Shape(Shape),
}

// ---------------------------------------------------------------------------
// Mathematical models.
// ---------------------------------------------------------------------------

/// The model of a stroke: its point list as a sequence.
#[verifier::ext_equal]
pub struct StrokeModel {
    pub id: u64,
    pub color: ColorRgba8,
    pub width: u32,
    pub points: Seq<Point>,
}

/// The model of a shape: its text as a character sequence.
#[verifier::ext_equal]
pub struct ShapeModel {
    pub id: u64,
    pub kind: ShapeKind,
    pub style: ShapeStyle,
    pub start: Point,
    pub end: Point,
    pub start_attach_id: Option<u64>,
    pub end_attach_id: Option<u64>,
    pub start_attach_uv: Option<Point>,
    pub end_attach_uv: Option<Point>,
    pub text: Seq<char>,
    pub text_align_h: TextAlignH,
    pub text_align_v: TextAlignV,
}

#[verifier::ext_equal]
pub enum ItemModel {
    Stroke(StrokeModel),
    Shape(ShapeModel),
}

impl ItemModel {
    /// The id of the underlying item.
    pub open spec fn id(self) -> u64 {
        match self {
            ItemModel::Stroke(s) => s.id,
            ItemModel::Shape(sh) => sh.id,
        }
    }
}

impl DeepView for Stroke {
    type V = StrokeModel;

    open spec fn deep_view(&self) -> StrokeModel {
        StrokeModel { id: self.id, color: self.color, width: self.width, points: self.points@ }
    }
}

impl DeepView for Shape {
    type V = ShapeModel;

    open spec fn deep_view(&self) -> ShapeModel {
        ShapeModel {
            id: self.id,
            kind: self.kind,
            style: self.style,
            start: self.start,
            end: self.end,
            start_attach_id: self.start_attach_id,
            end_attach_id: self.end_attach_id,
            start_attach_uv: self.start_attach_uv,
            end_attach_uv: self.end_attach_uv,
            text: self.text@,
            text_align_h: self.text_align_h,
            text_align_v: self.text_align_v,
        }
    }
}

impl DeepView for Item {
    type V = ItemModel;

    open spec fn deep_view(&self) -> ItemModel {
        match self {
            Item::Stroke(s) => ItemModel::Stroke(s.deep_view()),
            Item::Shape(sh) => ItemModel::Shape(sh.deep_view()),
        }
    }
}

impl Item {
    /// The id of the item, whichever variant it is.
    pub fn id(&self) -> (r: u64)
        ensures
            r == self.deep_view().id(),
    {
        match self {
            Item::Stroke(s) => s.id,
            Item::Shape(sh) => sh.id,
        }
    }
}

// ---------------------------------------------------------------------------
// Verified equality and cloning.
// ---------------------------------------------------------------------------

fn points_eq(a: &Vec<Point>, b: &Vec<Point>) -> (r: bool)
    ensures
        r == (a@ == b@),
{
    if a.len() != b.len() {
        assert(a@.len() != b@.len());
        return false;
    }
    let n = a.len();
    let mut i: usize = 0;
    while i < n
        invariant
            n == a.len() == b.len(),
            i <= n,
            forall|j: int| 0 <= j < i ==> a@[j] == b@[j],
        decreases n - i,
    {
        if a[i] != b[i] {
            assert(a@[i as int] != b@[i as int]);
            return false;
        }
        i = i + 1;
    }
    proof {
        assert(a@ =~= b@);
    }
    true
}

fn option_u64_eq(a: &Option<u64>, b: &Option<u64>) -> (r: bool)
    ensures
        r == (*a == *b),
{
    match (a, b) {
        (None, None) => true,
        (Some(x), Some(y)) => *x == *y,
        _ => false,
    }
}

fn option_point_eq(a: &Option<Point>, b: &Option<Point>) -> (r: bool)
    ensures
        r == (*a == *b),
{
    match (a, b) {
        (None, None) => true,
        (Some(x), Some(y)) => *x == *y,
        _ => false,
    }
}

pub fn stroke_eq(a: &Stroke, b: &Stroke) -> (r: bool)
    ensures
        r == (a.deep_view() == b.deep_view()),
{
    let r = a.id == b.id && a.color == b.color && a.width == b.width && points_eq(
        &a.points,
        &b.points,
    );
    proof {
        if r {
            assert(a.deep_view() =~= b.deep_view());
        }
    }
    r
}

pub fn shape_eq(a: &Shape, b: &Shape) -> (r: bool)
    ensures
        r == (a.deep_view() == b.deep_view()),
{
    let r = a.id == b.id && a.kind == b.kind && a.style == b.style && a.start == b.start && a.end
        == b.end && option_u64_eq(&a.start_attach_id, &b.start_attach_id) && option_u64_eq(
        &a.end_attach_id,
        &b.end_attach_id,
    ) && option_point_eq(&a.start_attach_uv, &b.start_attach_uv) && option_point_eq(
        &a.end_attach_uv,
        &b.end_attach_uv,
    ) && a.text == b.text && a.text_align_h == b.text_align_h && a.text_align_v == b.text_align_v;
    proof {
        if r {
            assert(a.deep_view() =~= b.deep_view());
        }
    }
    r
}

/// Bitwise value equality of two items; this is the equality the edit
/// journal uses to locate an item.
pub fn item_eq(a: &Item, b: &Item) -> (r: bool)
    ensures
        r == (a.deep_view() == b.deep_view()),
{
    match (a, b) {
        (Item::Stroke(x), Item::Stroke(y)) => stroke_eq(x, y),
        (Item::Shape(x), Item::Shape(y)) => shape_eq(x, y),
        _ => false,
    }
}

fn clone_points(v: &Vec<Point>) -> (r: Vec<Point>)
    ensures
        r@ == v@,
{
    let mut out: Vec<Point> = Vec::new();
    let n = v.len();
    let mut i: usize = 0;
    while i < n
        invariant
            n == v.len(),
            i <= n,
            out@ == v@.subrange(0, i as int),
        decreases n - i,
    {
        out.push(v[i]);
        proof {
            assert(out@ =~= v@.subrange(0, i + 1 as int));
        }
        i = i + 1;
    }
    proof {
        assert(out@ =~= v@);
    }
    out
}

impl Clone for Stroke {
    /// Cloning keeps the stroke's model exactly.
    fn clone(&self) -> (r: Self)
        ensures
            r.deep_view() == self.deep_view(),
    {
        let r = Stroke {
            id: self.id,
            color: self.color,
            width: self.width,
            points: clone_points(&self.points),
        };
        proof {
            assert(r.deep_view() =~= self.deep_view());
        }
        r
    }
}

impl Clone for Shape {
    /// Cloning keeps the shape's model exactly.
    fn clone(&self) -> (r: Self)
        ensures
            r.deep_view() == self.deep_view(),
    {
        let r = Shape {
            id: self.id,
            kind: self.kind,
            style: self.style,
            start: self.start,
            end: self.end,
            start_attach_id: self.start_attach_id,
            end_attach_id: self.end_attach_id,
            start_attach_uv: self.start_attach_uv,
            end_attach_uv: self.end_attach_uv,
            text: self.text.clone(),
            text_align_h: self.text_align_h,
            text_align_v: self.text_align_v,
        };
        proof {
            assert(r.deep_view() =~= self.deep_view());
        }
        r
    }
}

impl Clone for Item {
    /// Cloning keeps the item's model exactly.
    fn clone(&self) -> (r: Self)
        ensures
            r.deep_view() == self.deep_view(),
    {
        match self {
            Item::Stroke(s) => Item::Stroke(s.clone()),
            Item::Shape(sh) => Item::Shape(sh.clone()),
        }
    }
}

/// Clones an item list; the deep view is kept exactly.
pub fn clone_items(v: &Vec<Item>) -> (r: Vec<Item>)
    ensures
        r.deep_view() == v.deep_view(),
{
    let mut out: Vec<Item> = Vec::new();
    let n = v.len();
    let mut i: usize = 0;
    while i < n
        invariant
            n == v.len(),
            i <= n,
            out@.len() == i,
            out.deep_view() == v.deep_view().subrange(0, i as int),
        decreases n - i,
    {
        let ghost pre = out@;
        let c = v[i].clone();
        out.push(c);
        proof {
            assert(out@ == pre.push(c));
            assert(pre.len() == i);
            assert forall|j: int| 0 <= j < i + 1 implies out.deep_view()[j] == v.deep_view()[j] by {
                if j < i {
                    assert(out@[j] == pre[j]);
                    assert(pre[j].deep_view() == v.deep_view().subrange(0, i as int)[j]);
                }
            }
            assert(out.deep_view() =~= v.deep_view().subrange(0, i + 1 as int));
        }
        i = i + 1;
    }
    proof {
        assert(out.deep_view() =~= v.deep_view());
    }
    out
}

} // verus!

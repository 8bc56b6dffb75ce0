use overlay_scribe::model::{ColorRgba8, Point, ShapeKind, ShapeStyle};
use overlay_scribe::render::{arrow_obstacle_ids, render_arrows, ArrowPath};
use overlay_scribe::store::Store;

fn b(x: f32) -> u32 {
    x.to_bits()
}

fn p(x: f32, y: f32) -> Point {
    Point { x: b(x), y: b(y) }
}

fn style() -> ShapeStyle {
    ShapeStyle {
        stroke_color: ColorRgba8 { r: 0, g: 0, b: 0, a: 255 },
        stroke_width: b(2.0),
        fill_enabled: false,
        fill_color: ColorRgba8 { r: 0, g: 0, b: 0, a: 0 },
        hatch_enabled: false,
        corner_radius: b(0.0),
    }
}

#[test]
fn arrow_snaps_to_rectangle_edge() {
    let mut store = Store::new();
    let mut a = store.begin_shape(ShapeKind::Rectangle, style(), p(0.0, 0.0));
    a.end = p(100.0, 100.0);
    let a_id = a.id;
    store.commit_shape(a);

    let mut arrow = store.begin_shape(ShapeKind::Arrow, style(), p(200.0, 50.0));
    arrow.end = p(50.0, 50.0);
    arrow.end_attach_id = Some(a_id);
    store.commit_shape(arrow);

    let renders = render_arrows(store.items());
    assert_eq!(renders.len(), 1);
    let r = &renders[0];
    assert_eq!(r.start, p(200.0, 50.0));

    // the resolved end lies on the right edge: centre (50,50), half extents
    // (50,50), direction (150,0), the same f32 steps the engine takes
    let s = (50.0f32 / 150.0f32).min(50.0f32 / 1e-6f32);
    let expected_x = 50.0f32 + 150.0f32 * s;
    assert_eq!(r.end, p(expected_x, 50.0));
    assert!((f32::from_bits(r.end.x) - 100.0).abs() < 1e-3);
    assert!(matches!(r.path, ArrowPath::Line));
}

#[test]
fn unattached_arrow_keeps_its_own_endpoints() {
    let mut store = Store::new();
    let mut arrow = store.begin_shape(ShapeKind::Arrow, style(), p(10.0, 20.0));
    arrow.end = p(110.0, 40.0);
    let arrow_id = arrow.id;
    store.commit_shape(arrow);

    let renders = render_arrows(store.items());
    assert_eq!(renders.len(), 1);
    assert_eq!(renders[0].shape_id, arrow_id);
    assert_eq!(renders[0].start, p(10.0, 20.0));
    assert_eq!(renders[0].end, p(110.0, 40.0));
}

#[test]
fn degenerate_arrow_is_omitted() {
    let mut store = Store::new();
    let mut arrow = store.begin_shape(ShapeKind::Arrow, style(), p(10.0, 20.0));
    arrow.end = p(10.2, 20.0);
    store.commit_shape(arrow);
    let renders = render_arrows(store.items());
    assert_eq!(renders.len(), 0);
}

#[test]
fn one_render_per_arrow_like_shape() {
    let mut store = Store::new();
    let mut rect = store.begin_shape(ShapeKind::Rectangle, style(), p(0.0, 0.0));
    rect.end = p(10.0, 10.0);
    store.commit_shape(rect);
    let s = store.begin_stroke(ColorRgba8 { r: 0, g: 0, b: 0, a: 255 }, b(1.0), p(0.0, 0.0));
    store.commit_stroke(s);
    let mut a1 = store.begin_shape(ShapeKind::Arrow, style(), p(100.0, 0.0));
    a1.end = p(200.0, 0.0);
    let id1 = a1.id;
    store.commit_shape(a1);
    let mut a2 = store.begin_shape(ShapeKind::CurvedArrow, style(), p(100.0, 100.0));
    a2.end = p(200.0, 100.0);
    let id2 = a2.id;
    store.commit_shape(a2);

    let renders = render_arrows(store.items());
    assert_eq!(renders.len(), 2);
    assert_eq!(renders[0].shape_id, id1);
    assert_eq!(renders[1].shape_id, id2);
}

#[test]
fn curved_arrow_without_obstacles_gets_the_simple_quadratic() {
    let mut store = Store::new();
    let mut c = store.begin_shape(ShapeKind::CurvedArrow, style(), p(0.0, 50.0));
    c.end = p(200.0, 50.0);
    store.commit_shape(c);

    let renders = render_arrows(store.items());
    assert_eq!(renders.len(), 1);
    // the simple control: mid (100,50) pushed along the perpendicular by
    // clamp(0.22 * 200, 18, 160) = 44, sign +1 since dx*dy == 0
    match renders[0].path {
        ArrowPath::Quadratic { control } => {
            assert_eq!(control, p(100.0, 94.0));
        }
        _ => panic!("expected the default quadratic"),
    }
}

fn quad_at(s: (f32, f32), c: (f32, f32), e: (f32, f32), t: f32) -> (f32, f32) {
    let u = 1.0 - t;
    let uu = u * u;
    let ut2 = 2.0 * u * t;
    let tt = t * t;
    (
        uu * s.0 + ut2 * c.0 + tt * e.0,
        uu * s.1 + ut2 * c.1 + tt * e.1,
    )
}

fn cubic_at(s: (f32, f32), c1: (f32, f32), c2: (f32, f32), e: (f32, f32), t: f32) -> (f32, f32) {
    let mt = 1.0 - t;
    let a = mt * mt * mt;
    let bb = 3.0 * mt * mt * t;
    let c = 3.0 * mt * t * t;
    let d = t * t * t;
    (
        a * s.0 + bb * c1.0 + c * c2.0 + d * e.0,
        a * s.1 + bb * c1.1 + c * c2.1 + d * e.1,
    )
}

#[test]
fn curved_arrow_bypasses_an_obstacle() {
    let mut store = Store::new();
    // rectangle centred at (100,50) with extents (40,20)
    let mut o = store.begin_shape(ShapeKind::Rectangle, style(), p(60.0, 30.0));
    o.end = p(140.0, 70.0);
    store.commit_shape(o);
    let mut c = store.begin_shape(ShapeKind::CurvedArrow, style(), p(0.0, 50.0));
    c.end = p(200.0, 50.0);
    store.commit_shape(c);

    let renders = render_arrows(store.items());
    assert_eq!(renders.len(), 1);
    let start = (0.0f32, 50.0f32);
    let end = (200.0f32, 50.0f32);
    let inside = |pt: (f32, f32)| -> bool {
        60.0 <= pt.0 && pt.0 <= 140.0 && 30.0 <= pt.1 && pt.1 <= 70.0
    };
    for i in 0..=800u32 {
        let t = i as f32 / 800.0f32;
        let pt = match renders[0].path {
            ArrowPath::Line => panic!("a curved arrow never yields a line"),
            ArrowPath::Quadratic { control } => quad_at(
                start,
                (f32::from_bits(control.x), f32::from_bits(control.y)),
                end,
                t,
            ),
            ArrowPath::Cubic { c1, c2 } => cubic_at(
                start,
                (f32::from_bits(c1.x), f32::from_bits(c1.y)),
                (f32::from_bits(c2.x), f32::from_bits(c2.y)),
                end,
                t,
            ),
        };
        assert!(!inside(pt), "sample {} lies inside the obstacle", i);
    }
}

#[test]
fn obstacle_ids_are_sorted_and_exclude_attached() {
    let mut store = Store::new();
    let mut r1 = store.begin_shape(ShapeKind::Rectangle, style(), p(0.0, 0.0));
    r1.end = p(10.0, 10.0);
    let id1 = r1.id;
    store.commit_shape(r1);
    let mut r2 = store.begin_shape(ShapeKind::Ellipse, style(), p(20.0, 0.0));
    r2.end = p(30.0, 10.0);
    let id2 = r2.id;
    store.commit_shape(r2);
    let mut r3 = store.begin_shape(ShapeKind::RoundedRectangle, style(), p(40.0, 0.0));
    r3.end = p(50.0, 10.0);
    let id3 = r3.id;
    store.commit_shape(r3);

    let mut arrow = store.begin_shape(ShapeKind::CurvedArrow, style(), p(100.0, 100.0));
    arrow.end = p(200.0, 100.0);
    arrow.start_attach_id = Some(id2);
    let arrow_id = arrow.id;
    store.commit_shape(arrow);

    let ids = arrow_obstacle_ids(store.items(), arrow_id);
    assert_eq!(ids, vec![id1, id3]);
    assert!(ids.windows(2).all(|w| w[0] <= w[1]));

    // a non-arrow target yields nothing
    let none = arrow_obstacle_ids(store.items(), id1);
    assert_eq!(none.len(), 0);
}

#[test]
fn arrowhead_points_flank_the_shaft() {
    let mut store = Store::new();
    let mut arrow = store.begin_shape(ShapeKind::Arrow, style(), p(0.0, 0.0));
    arrow.end = p(100.0, 0.0);
    store.commit_shape(arrow);
    let renders = render_arrows(store.items());
    assert_eq!(renders.len(), 1);
    // unit tangent (1,0): head length max(4*2,10)=10, width max(3*2,8)=8
    assert_eq!(renders[0].head_left, p(90.0, 4.0));
    assert_eq!(renders[0].head_right, p(90.0, -4.0));
}

#[test]
fn uv_anchor_snaps_through_the_chosen_point() {
    let mut store = Store::new();
    let mut a = store.begin_shape(ShapeKind::Rectangle, style(), p(0.0, 0.0));
    a.end = p(100.0, 100.0);
    let a_id = a.id;
    store.commit_shape(a);

    let mut arrow = store.begin_shape(ShapeKind::Arrow, style(), p(200.0, 50.0));
    arrow.end = p(10.0, 10.0);
    arrow.end_attach_id = Some(a_id);
    // the UV picks the middle of the right edge; the ray from the centre
    // through it meets the boundary exactly there
    arrow.end_attach_uv = Some(p(1.0, 0.5));
    store.commit_shape(arrow);

    let renders = render_arrows(store.items());
    assert_eq!(renders.len(), 1);
    assert_eq!(renders[0].end, p(100.0, 50.0));
}

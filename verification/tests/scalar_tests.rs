use overlay_scribe::geometry::Rect;
use overlay_scribe::hittest::{dist2, dist2_point_to_segment};
use overlay_scribe::model::Point;
use overlay_scribe::render::hypot;
use overlay_scribe::scalar::{f32_clamp, f32_max, f32_min, u32_to_f32_bits};

fn b(x: f32) -> u32 {
    x.to_bits()
}

fn p(x: f32, y: f32) -> Point {
    Point { x: b(x), y: b(y) }
}

#[test]
fn squared_distance_matches_hardware_floats() {
    assert_eq!(dist2(p(3.0, 0.0), p(0.0, 4.0)), b(25.0));
    assert_eq!(dist2(p(0.1, 0.2), p(0.3, 0.4)), {
        let dx = 0.1f32 - 0.3f32;
        let dy = 0.2f32 - 0.4f32;
        b(dx * dx + dy * dy)
    });
}

#[test]
fn hypot_is_the_rounded_square_root() {
    assert_eq!(hypot(b(3.0), b(4.0)), b(5.0));
    assert_eq!(hypot(b(1.0), b(1.0)), b(2.0f32.sqrt()));
}

#[test]
fn segment_distance_clamps_to_the_segment() {
    // probe beyond the end of a unit segment: distance to the endpoint
    let d = dist2_point_to_segment(p(3.0, 0.0), p(0.0, 0.0), p(1.0, 0.0));
    assert_eq!(d, b(4.0));
    // probe above the middle
    let d2 = dist2_point_to_segment(p(0.5, 2.0), p(0.0, 0.0), p(1.0, 0.0));
    assert_eq!(d2, b(4.0));
}

#[test]
fn small_integers_convert_exactly() {
    assert_eq!(u32_to_f32_bits(0), b(0.0));
    assert_eq!(u32_to_f32_bits(1), b(1.0));
    assert_eq!(u32_to_f32_bits(16), b(16.0));
    assert_eq!(u32_to_f32_bits(800), b(800.0));
    assert_eq!(u32_to_f32_bits(7654321), b(7654321.0));
}

#[test]
fn min_max_clamp_follow_ieee_ordering() {
    assert_eq!(f32_min(b(-3.0), b(2.0)), b(-3.0));
    assert_eq!(f32_max(b(-3.0), b(2.0)), b(2.0));
    assert_eq!(f32_clamp(b(5.0), b(0.0), b(1.0)), b(1.0));
    assert_eq!(f32_clamp(b(-5.0), b(0.0), b(1.0)), b(0.0));
    assert_eq!(f32_clamp(b(0.5), b(0.0), b(1.0)), b(0.5));
    // NaN operands fall through to the other argument
    assert_eq!(f32_min(f32::NAN.to_bits(), b(2.0)), b(2.0));
}

#[test]
fn rectangles_normalize_their_corners() {
    let r = Rect::from_points(p(10.0, -5.0), p(-2.0, 7.0));
    assert_eq!(r.min_x, b(-2.0));
    assert_eq!(r.min_y, b(-5.0));
    assert_eq!(r.max_x, b(10.0));
    assert_eq!(r.max_y, b(7.0));
    assert!(r.contains(p(0.0, 0.0)));
    assert!(!r.contains(p(11.0, 0.0)));
    let inflated = r.inflate(b(1.0), b(2.0));
    assert_eq!(inflated.min_x, b(-3.0));
    assert_eq!(inflated.max_y, b(9.0));
}

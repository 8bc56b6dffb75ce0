use overlay_scribe::model::{ColorRgba8, Item, Point, ShapeKind, ShapeStyle};
use overlay_scribe::store::{Store, StoreError};

fn b(x: f32) -> u32 {
    x.to_bits()
}

fn p(x: f32, y: f32) -> Point {
    Point { x: b(x), y: b(y) }
}

fn red() -> ColorRgba8 {
    ColorRgba8 { r: 255, g: 0, b: 0, a: 255 }
}

fn green_fill() -> ColorRgba8 {
    ColorRgba8 { r: 0, g: 255, b: 0, a: 96 }
}

fn style() -> ShapeStyle {
    ShapeStyle {
        stroke_color: red(),
        stroke_width: b(3.0),
        fill_enabled: true,
        fill_color: green_fill(),
        hatch_enabled: false,
        corner_radius: b(10.0),
    }
}

#[test]
fn undo_redo_add_item_roundtrip() {
    let mut store = Store::new();
    let s = store.begin_stroke(red(), b(3.0), p(1.0, 2.0));
    store.commit_stroke(s.clone());
    assert_eq!(store.items().len(), 1);
    assert!(store.can_undo());

    store.undo().unwrap();
    assert_eq!(store.items().len(), 0);
    assert!(store.can_redo());

    store.redo().unwrap();
    assert_eq!(store.items().len(), 1);
    match &store.items()[0] {
        Item::Stroke(ss) => assert_eq!(ss.id, s.id),
        _ => panic!("expected stroke"),
    }
}

#[test]
fn clear_all_is_undoable() {
    let mut store = Store::new();
    for i in 0..3 {
        let mut s = store.begin_stroke(red(), b(2.0), p(i as f32, 0.0));
        s.points.push(p(i as f32, 1.0));
        store.commit_stroke(s);
    }
    assert_eq!(store.items().len(), 3);
    store.clear_all();
    assert_eq!(store.items().len(), 0);
    store.undo().unwrap();
    assert_eq!(store.items().len(), 3);
}

#[test]
fn json_v1_roundtrip_loads() {
    let json = "{\"version\":1,\"strokes\":[{\"id\":7,\"color\":{\"r\":255,\"g\":0,\"b\":0,\"a\":255},\"width\":4.0,\"points\":[{\"x\":1.0,\"y\":2.0}]}]}";
    let doc = Store::from_json(json).unwrap();
    assert_eq!(doc.items.len(), 1);
}

#[test]
fn erase_removes_shape_and_is_undoable() {
    let mut store = Store::new();
    let mut sh = store.begin_shape(ShapeKind::Rectangle, style(), p(10.0, 10.0));
    sh.end = p(50.0, 50.0);
    store.commit_shape(sh);

    assert_eq!(store.items().len(), 1);
    assert!(store.erase_at(p(10.0, 10.0), b(10.0)));
    assert_eq!(store.items().len(), 0);
    store.undo().unwrap();
    assert_eq!(store.items().len(), 1);
}

#[test]
fn v1_upgrade_keeps_stroke_identity() {
    let json = "{\"version\":1,\"strokes\":[{\"id\":7,\"color\":{\"r\":255,\"g\":0,\"b\":0,\"a\":255},\"width\":4,\"points\":[{\"x\":1,\"y\":2}]}]}";
    let doc = Store::from_json(json).unwrap();
    assert_eq!(doc.version, 2);
    assert_eq!(doc.items.len(), 1);
    match &doc.items[0] {
        Item::Stroke(s) => {
            assert_eq!(s.id, 7);
            assert_eq!(s.width, b(4.0));
            assert_eq!(s.points.len(), 1);
            assert_eq!(s.points[0], p(1.0, 2.0));
        }
        _ => panic!("expected a stroke item"),
    }
}

#[test]
fn commit_shape_with_same_id_updates_in_place() {
    let mut store = Store::new();
    let mut sh = store.begin_shape(ShapeKind::Rectangle, style(), p(0.0, 0.0));
    sh.end = p(10.0, 10.0);
    let id = sh.id;
    store.commit_shape(sh);
    assert_eq!(store.items().len(), 1);

    let mut sh2 = store.begin_shape(ShapeKind::Rectangle, style(), p(0.0, 0.0));
    sh2.id = id;
    sh2.end = p(20.0, 20.0);
    sh2.text = String::from("hello");
    store.commit_shape(sh2);
    assert_eq!(store.items().len(), 1);
    match &store.items()[0] {
        Item::Shape(s) => {
            assert_eq!(s.end, p(20.0, 20.0));
            assert_eq!(s.text, "hello");
        }
        _ => panic!("expected a shape item"),
    }

    let mut sh3 = store.begin_shape(ShapeKind::Ellipse, style(), p(5.0, 5.0));
    sh3.end = p(6.0, 6.0);
    store.commit_shape(sh3);
    assert_eq!(store.items().len(), 2);
}

#[test]
fn new_commit_clears_redo() {
    let mut store = Store::new();
    let s1 = store.begin_stroke(red(), b(1.0), p(0.0, 0.0));
    store.commit_stroke(s1);
    let s2 = store.begin_stroke(red(), b(1.0), p(1.0, 1.0));
    store.commit_stroke(s2);
    store.undo().unwrap();
    assert!(store.can_redo());
    let s3 = store.begin_stroke(red(), b(1.0), p(2.0, 2.0));
    store.commit_stroke(s3);
    assert!(!store.can_redo());
}

#[test]
fn undo_redo_on_empty_journals_fail() {
    let mut store = Store::new();
    assert_eq!(store.undo(), Err(StoreError::CannotUndo));
    assert_eq!(store.redo(), Err(StoreError::CannotRedo));
}

#[test]
fn erase_miss_returns_false_and_leaves_no_journal_entry() {
    let mut store = Store::new();
    let mut sh = store.begin_shape(ShapeKind::Rectangle, style(), p(10.0, 10.0));
    sh.end = p(50.0, 50.0);
    store.commit_shape(sh);

    // probe far away from everything: nothing erased, nothing journaled
    assert!(!store.erase_at(p(1000.0, 1000.0), b(1.0)));
    assert_eq!(store.items().len(), 1);

    // only the commit is on the undo journal
    store.undo().unwrap();
    assert_eq!(store.items().len(), 0);
    assert!(!store.can_undo());
}

#[test]
fn load_document_restarts_id_allocation_above_max() {
    let mut store = Store::new();
    let s1 = store.begin_stroke(red(), b(1.0), p(0.0, 0.0));
    store.commit_stroke(s1);
    let mut s2 = store.begin_stroke(red(), b(1.0), p(1.0, 0.0));
    s2.id = 41;
    store.commit_stroke(s2);

    let doc = store.document();
    let mut other = Store::new();
    other.load_document(doc);
    assert!(!other.can_undo());
    assert!(!other.can_redo());
    let fresh = other.begin_stroke(red(), b(1.0), p(0.0, 0.0));
    assert_eq!(fresh.id, 42);
}

#[test]
fn begin_shape_defaults() {
    let mut store = Store::new();
    let sh = store.begin_shape(ShapeKind::CurvedArrow, style(), p(3.0, 4.0));
    assert_eq!(sh.start, p(3.0, 4.0));
    assert_eq!(sh.end, p(3.0, 4.0));
    assert!(sh.start_attach_id.is_none());
    assert!(sh.end_attach_id.is_none());
    assert!(sh.start_attach_uv.is_none());
    assert!(sh.end_attach_uv.is_none());
    assert_eq!(sh.text, "");
}

#[test]
fn eraser_hits_stroke_segment() {
    let mut store = Store::new();
    let mut s = store.begin_stroke(red(), b(2.0), p(0.0, 0.0));
    s.points.push(p(100.0, 0.0));
    store.commit_stroke(s);
    // probe near the middle of the segment
    assert!(store.erase_at(p(50.0, 3.0), b(5.0)));
    assert_eq!(store.items().len(), 0);
}

#[test]
fn eraser_ellipse_uses_ring_approximation() {
    let mut store = Store::new();
    let mut sh = store.begin_shape(ShapeKind::Ellipse, style(), p(0.0, 0.0));
    sh.end = p(100.0, 50.0);
    store.commit_shape(sh);
    // centre of the ellipse: value = 0, approx = |0-1| * min(50, 25) = 25
    assert!(!store.erase_at(p(50.0, 25.0), b(10.0)));
    assert!(store.erase_at(p(50.0, 25.0), b(25.0)));
}

#[test]
fn clear_all_redo_restores_empty() {
    let mut store = Store::new();
    for i in 0..3 {
        let s = store.begin_stroke(red(), b(2.0), p(i as f32, 0.0));
        store.commit_stroke(s);
    }
    store.clear_all();
    store.undo().unwrap();
    assert_eq!(store.items().len(), 3);
    store.redo().unwrap();
    assert_eq!(store.items().len(), 0);
}

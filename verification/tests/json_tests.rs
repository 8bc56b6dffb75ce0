use overlay_scribe::model::{ColorRgba8, Item, Point, ShapeKind, ShapeStyle, TextAlignH,
    TextAlignV};
use overlay_scribe::store::{Store, StoreError};

fn b(x: f32) -> u32 {
    x.to_bits()
}

fn p(x: f32, y: f32) -> Point {
    Point { x: b(x), y: b(y) }
}

fn style() -> ShapeStyle {
    ShapeStyle {
        stroke_color: ColorRgba8 { r: 10, g: 20, b: 30, a: 40 },
        stroke_width: b(2.5),
        fill_enabled: true,
        fill_color: ColorRgba8 { r: 1, g: 2, b: 3, a: 4 },
        hatch_enabled: false,
        corner_radius: b(6.0),
    }
}

#[test]
fn empty_document_form() {
    let store = Store::new();
    let json = store.to_json().unwrap();
    assert_eq!(json, "{\"version\":2,\"items\":[]}");
}

#[test]
fn stroke_document_form() {
    let mut store = Store::new();
    let mut s = store.begin_stroke(ColorRgba8 { r: 255, g: 0, b: 0, a: 255 }, b(4.0), p(1.0, 2.0));
    s.points.push(p(3.5, -4.25));
    store.commit_stroke(s);
    let json = store.to_json().unwrap();
    assert_eq!(
        json,
        "{\"version\":2,\"items\":[{\"type\":\"stroke\",\"data\":{\"id\":0,\"color\":{\"r\":255,\"g\":0,\"b\":0,\"a\":255},\"width\":4,\"points\":[{\"x\":1,\"y\":2},{\"x\":3.5,\"y\":-4.25}]}}]}"
    );
}

#[test]
fn document_roundtrips_through_json() {
    let mut store = Store::new();
    let mut s = store.begin_stroke(ColorRgba8 { r: 9, g: 8, b: 7, a: 6 }, b(0.1), p(1.5, -2.5));
    s.points.push(p(1e-7, 3.25e5));
    store.commit_stroke(s);
    let mut sh = store.begin_shape(ShapeKind::CurvedArrow, style(), p(0.0, 0.0));
    sh.end = p(12.0, 34.0);
    sh.start_attach_id = Some(0);
    sh.start_attach_uv = Some(p(0.25, 0.75));
    sh.text = String::from("a \"label\"\nwith \\ twists\tand \u{1F600}");
    sh.text_align_h = TextAlignH::Right;
    sh.text_align_v = TextAlignV::Top;
    store.commit_shape(sh);

    let json = store.to_json().unwrap();
    let doc = Store::from_json(&json).unwrap();
    assert_eq!(doc.version, 2);
    assert_eq!(doc.items.len(), 2);

    // a second emission of the reloaded document is byte-identical
    let mut store2 = Store::new();
    store2.load_document(doc);
    let json2 = store2.to_json().unwrap();
    assert_eq!(json, json2);
}

#[test]
fn from_json_accepts_reordered_and_unknown_fields() {
    let json = "{ \"extra\": {\"deep\": [1, 2, {\"x\": null}]}, \"items\": [ {\"data\": {\"points\":[{\"y\": 2, \"x\": 1}], \"width\": 1.5, \"color\": {\"a\":255,\"r\":1,\"g\":2,\"b\":3}, \"id\": 11}, \"type\": \"stroke\"} ], \"version\": 2 }";
    let doc = Store::from_json(json).unwrap();
    assert_eq!(doc.version, 2);
    assert_eq!(doc.items.len(), 1);
    match &doc.items[0] {
        Item::Stroke(s) => {
            assert_eq!(s.id, 11);
            assert_eq!(s.width, b(1.5));
            assert_eq!(s.points[0], p(1.0, 2.0));
        }
        _ => panic!("expected a stroke item"),
    }
}

#[test]
fn shape_fields_default_when_missing() {
    let json = "{\"version\":2,\"items\":[{\"type\":\"shape\",\"data\":{\"id\":5,\"kind\":\"rounded_rectangle\",\"style\":{\"stroke_color\":{\"r\":0,\"g\":0,\"b\":0,\"a\":255},\"stroke_width\":1,\"fill_enabled\":false,\"fill_color\":{\"r\":0,\"g\":0,\"b\":0,\"a\":0},\"hatch_enabled\":false,\"corner_radius\":4},\"start\":{\"x\":0,\"y\":0},\"end\":{\"x\":10,\"y\":10}}}]}";
    let doc = Store::from_json(json).unwrap();
    match &doc.items[0] {
        Item::Shape(sh) => {
            assert_eq!(sh.kind, ShapeKind::RoundedRectangle);
            assert!(sh.start_attach_id.is_none());
            assert!(sh.end_attach_id.is_none());
            assert!(sh.start_attach_uv.is_none());
            assert!(sh.end_attach_uv.is_none());
            assert_eq!(sh.text, "");
            assert_eq!(sh.text_align_h, TextAlignH::Center);
            assert_eq!(sh.text_align_v, TextAlignV::Middle);
        }
        _ => panic!("expected a shape item"),
    }
}

#[test]
fn text_escapes_roundtrip() {
    let mut store = Store::new();
    let mut sh = store.begin_shape(ShapeKind::Rectangle, style(), p(0.0, 0.0));
    sh.end = p(1.0, 1.0);
    sh.text = String::from("tab\t nl\n cr\r q\" bs\\ bell\u{7} snow\u{2603}");
    store.commit_shape(sh);
    let json = store.to_json().unwrap();
    let doc = Store::from_json(&json).unwrap();
    match &doc.items[0] {
        Item::Shape(back) => {
            assert_eq!(back.text, "tab\t nl\n cr\r q\" bs\\ bell\u{7} snow\u{2603}");
        }
        _ => panic!("expected a shape item"),
    }
}

#[test]
fn unicode_escape_with_surrogate_pair_parses() {
    let json = "{\"version\":2,\"items\":[{\"type\":\"shape\",\"data\":{\"id\":1,\"kind\":\"arrow\",\"style\":{\"stroke_color\":{\"r\":0,\"g\":0,\"b\":0,\"a\":255},\"stroke_width\":1,\"fill_enabled\":false,\"fill_color\":{\"r\":0,\"g\":0,\"b\":0,\"a\":0},\"hatch_enabled\":false,\"corner_radius\":0},\"start\":{\"x\":0,\"y\":0},\"end\":{\"x\":1,\"y\":1},\"text\":\"hi \\u00e9 \\ud83d\\ude00\"}}]}";
    let doc = Store::from_json(json).unwrap();
    match &doc.items[0] {
        Item::Shape(sh) => {
            assert_eq!(sh.text, "hi \u{e9} \u{1F600}");
        }
        _ => panic!("expected a shape item"),
    }
}

#[test]
fn malformed_json_is_a_serialization_error() {
    match Store::from_json("nonsense") {
        Err(StoreError::Serialization) => {}
        _ => panic!("expected a serialization error"),
    }
    match Store::from_json("{\"version\":2,\"items\":[}") {
        Err(StoreError::Serialization) => {}
        _ => panic!("expected a serialization error"),
    }
}

#[test]
fn missing_required_field_is_rejected() {
    // stroke without a width
    let json = "{\"version\":2,\"items\":[{\"type\":\"stroke\",\"data\":{\"id\":1,\"color\":{\"r\":0,\"g\":0,\"b\":0,\"a\":0},\"points\":[]}}]}";
    assert!(Store::from_json(json).is_err());
    // document without items
    assert!(Store::from_json("{\"version\":2}").is_err());
}

#[test]
fn color_channel_out_of_range_is_rejected() {
    let json = "{\"version\":1,\"strokes\":[{\"id\":1,\"color\":{\"r\":256,\"g\":0,\"b\":0,\"a\":0},\"width\":1,\"points\":[]}]}";
    assert!(Store::from_json(json).is_err());
}

#[test]
fn scientific_notation_numbers_parse() {
    let json = "{\"version\":1,\"strokes\":[{\"id\":1,\"color\":{\"r\":0,\"g\":0,\"b\":0,\"a\":0},\"width\":2.5e1,\"points\":[{\"x\":-1.25E-2,\"y\":3e3}]}]}";
    let doc = Store::from_json(json).unwrap();
    match &doc.items[0] {
        Item::Stroke(s) => {
            assert_eq!(s.width, b(25.0));
            assert_eq!(s.points[0], p(-0.0125, 3000.0));
        }
        _ => panic!("expected a stroke item"),
    }
}

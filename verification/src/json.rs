//! Versioned JSON persistence: a verified emitter and parser for the
//! document form, with the legacy strokes-only form accepted on load.
//!
//! Only a handful of steps are trusted: moving characters between strings
//! and character lists, the decimal formatting and parsing of a binary32
//! scalar, and building a character from a code point; everything else is
//! verified against exact mirror specifications.

use vstd::prelude::*;

use crate::model::{ColorRgba8, Item, ItemModel, Point, Shape, ShapeKind, ShapeStyle, Stroke,
    StrokeModel, TextAlignH, TextAlignV};

verus! {

// ---------------------------------------------------------------------------
// Trusted string and number primitives.
// ---------------------------------------------------------------------------

/// The characters of a string.
#[verifier::external_body]
pub fn str_to_chars(s: &str) -> (r: Vec<char>)
    ensures
        r@ == s@,
{
    s.chars().collect()
}

/// The string holding the given characters.
#[verifier::external_body]
pub fn string_from_chars(v: &Vec<char>) -> (r: String)
    ensures
        r@ == v@,
{
    v.iter().collect()
}

/// Appends one character to a string.  Relies on String::push.
#[verifier::external_body]
fn push_char(s: &mut String, c: char)
    ensures
        final(s)@ == old(s)@ + seq![c],
{
    s.push(c);
}

/// The decimal rendering of a binary32 scalar, as Rust's shortest
/// round-tripping formatting produces it.
pub uninterp spec fn fmt_f32_of(bits: u32) -> Seq<char>;

/// Relies on the Display formatting of f32 (via the software float's bit
/// conversion): the text depends on the bit pattern alone.
#[verifier::external_body]
fn format_f32_bits(bits: u32) -> (r: String)
    ensures
        r@ == fmt_f32_of(bits),
{
    let value = const_soft_float::soft_f32::SoftF32::from_bits(bits).to_f32();
    format!("{}", value)
}

/// The binary32 scalar a decimal string parses to, if any.
pub uninterp spec fn parse_f32_of(s: Seq<char>) -> Option<u32>;

/// Relies on str::parse for f32 (via the software float's bit conversion):
/// the result depends on the characters alone.
#[verifier::external_body]
fn parse_f32_chars(v: &Vec<char>) -> (r: Option<u32>)
    ensures
        r == parse_f32_of(v@),
{
    let s: String = v.iter().collect();
    match s.parse() {
        Ok(x) => Some(const_soft_float::soft_f32::SoftF32::from_f32(x).to_bits()),
        Err(_) => None,
    }
}

/// Relies on char::from_u32: Some exactly for Unicode scalar values, and
/// the character depends on the code alone.
#[verifier::external_body]
fn char_from_u32(c: u32) -> (r: Option<char>)
    ensures
        r is Some <==> (c < 0xD800 || (0xE000 <= c && c < 0x11_0000)),
        r is Some ==> r.unwrap() == char_of(c),
{
    char::from_u32(c)
}

// ---------------------------------------------------------------------------
// Decimal digits.
// ---------------------------------------------------------------------------

/// The character of one decimal digit.
pub open spec fn spec_digit_char(d: u64) -> char {
    if d == 0 {
        '0'
    } else if d == 1 {
        '1'
    } else if d == 2 {
        '2'
    } else if d == 3 {
        '3'
    } else if d == 4 {
        '4'
    } else if d == 5 {
        '5'
    } else if d == 6 {
        '6'
    } else if d == 7 {
        '7'
    } else if d == 8 {
        '8'
    } else {
        '9'
    }
}

fn digit_char(d: u64) -> (r: char)
    requires
        d < 10,
    ensures
        r == spec_digit_char(d),
{
    match d {
        0 => '0',
        1 => '1',
        2 => '2',
        3 => '3',
        4 => '4',
        5 => '5',
        6 => '6',
        7 => '7',
        8 => '8',
        _ => '9',
    }
}

/// The decimal rendering of an unsigned integer.
pub open spec fn spec_digits_u64(n: u64) -> Seq<char>
    decreases n,
{
    if n < 10 {
        seq![spec_digit_char(n as u64)]
    } else {
        spec_digits_u64(n / 10).push(spec_digit_char(n % 10))
    }
}

fn push_digits_u64(out: &mut String, n: u64)
    ensures
        final(out)@ == old(out)@ + spec_digits_u64(n),
    decreases n,
{
    if n < 10 {
        push_char(out, digit_char(n));
        proof {
            assert(old(out)@ + spec_digits_u64(n) =~= old(out)@ + seq![spec_digit_char(n)]);
        }
    } else {
        push_digits_u64(out, n / 10);
        push_char(out, digit_char(n % 10));
        proof {
            assert(old(out)@ + spec_digits_u64(n) =~= (old(out)@ + spec_digits_u64(n / 10)) + seq![
                spec_digit_char(n % 10)]);
        }
    }
}

/// The numeric value of a decimal digit character, if it is one.
pub open spec fn spec_digit_val(c: char) -> Option<u64> {
    if c == '0' {
        Some(0u64)
    } else if c == '1' {
        Some(1u64)
    } else if c == '2' {
        Some(2u64)
    } else if c == '3' {
        Some(3u64)
    } else if c == '4' {
        Some(4u64)
    } else if c == '5' {
        Some(5u64)
    } else if c == '6' {
        Some(6u64)
    } else if c == '7' {
        Some(7u64)
    } else if c == '8' {
        Some(8u64)
    } else if c == '9' {
        Some(9u64)
    } else {
        None
    }
}

fn digit_val(c: char) -> (r: Option<u64>)
    ensures
        r == spec_digit_val(c),
{
    match c {
        '0' => Some(0),
        '1' => Some(1),
        '2' => Some(2),
        '3' => Some(3),
        '4' => Some(4),
        '5' => Some(5),
        '6' => Some(6),
        '7' => Some(7),
        '8' => Some(8),
        '9' => Some(9),
        _ => None,
    }
}

/// The hexadecimal digit character of a value below sixteen (lower case).
pub open spec fn spec_hex_char(d: u32) -> char {
    if d < 10 {
        spec_digit_char(d as u64)
    } else if d == 10 {
        'a'
    } else if d == 11 {
        'b'
    } else if d == 12 {
        'c'
    } else if d == 13 {
        'd'
    } else if d == 14 {
        'e'
    } else {
        'f'
    }
}

fn hex_char(d: u32) -> (r: char)
    requires
        d < 16,
    ensures
        r == spec_hex_char(d),
{
    match d {
        0 => '0',
        1 => '1',
        2 => '2',
        3 => '3',
        4 => '4',
        5 => '5',
        6 => '6',
        7 => '7',
        8 => '8',
        9 => '9',
        10 => 'a',
        11 => 'b',
        12 => 'c',
        13 => 'd',
        14 => 'e',
        _ => 'f',
    }
}

/// The numeric value of a hexadecimal digit character, either case.
pub open spec fn spec_hex_val(c: char) -> Option<u32> {
    match spec_digit_val(c) {
        Some(d) => Some(d as u32),
        None => if c == 'a' || c == 'A' {
            Some(10u32)
        } else if c == 'b' || c == 'B' {
            Some(11u32)
        } else if c == 'c' || c == 'C' {
            Some(12u32)
        } else if c == 'd' || c == 'D' {
            Some(13u32)
        } else if c == 'e' || c == 'E' {
            Some(14u32)
        } else if c == 'f' || c == 'F' {
            Some(15u32)
        } else {
            None
        },
    }
}

fn hex_val(c: char) -> (r: Option<u32>)
    ensures
        r == spec_hex_val(c),
{
    match digit_val(c) {
        Some(d) => Some(d as u32),
        None => match c {
            'a' | 'A' => Some(10),
            'b' | 'B' => Some(11),
            'c' | 'C' => Some(12),
            'd' | 'D' => Some(13),
            'e' | 'E' => Some(14),
            'f' | 'F' => Some(15),
            _ => None,
        },
    }
}

// ---------------------------------------------------------------------------
// The emitter.
// ---------------------------------------------------------------------------

/// The JSON spelling of one text character: the five short escapes, the
/// numeric escape for other control characters, and the character itself
/// otherwise.
pub open spec fn spec_escape_char(c: char) -> Seq<char> {
    if c == '"' {
        seq!['\\', '"']
    } else if c == '\\' {
        seq!['\\', '\\']
    } else if c == '\u{8}' {
        seq!['\\', 'b']
    } else if c == '\u{c}' {
        seq!['\\', 'f']
    } else if c == '\n' {
        seq!['\\', 'n']
    } else if c == '\r' {
        seq!['\\', 'r']
    } else if c == '\t' {
        seq!['\\', 't']
    } else if (c as u32) < 0x20 {
        seq!['\\', 'u', '0', '0', spec_hex_char((c as u32) / 16), spec_hex_char((c as u32) % 16)]
    } else {
        seq![c]
    }
}

/// A JSON string: a quote, each character escaped, a quote.
pub open spec fn spec_json_string(s: Seq<char>) -> Seq<char>
    decreases s.len(),
{
    seq!['"'] + spec_escaped(s) + seq!['"']
}

pub open spec fn spec_escaped(s: Seq<char>) -> Seq<char>
    decreases s.len(),
{
    if s.len() == 0 {
        Seq::empty()
    } else {
        spec_escaped(s.drop_last()) + spec_escape_char(s.last())
    }
}

fn push_json_string(out: &mut String, s: &Vec<char>)
    ensures
        final(out)@ == old(out)@ + spec_json_string(s@),
{
    push_char(out, '"');
    let n = s.len();
    let mut i: usize = 0;
    while i < n
        invariant
            n == s.len(),
            i <= n,
            out@ == old(out)@ + seq!['"'] + spec_escaped(s@.subrange(0, i as int)),
        decreases n - i,
    {
        let ghost pre = out@;
        let c = s[i];
        if c == '"' {
            push_char(out, '\\');
            push_char(out, '"');
        } else if c == '\\' {
            push_char(out, '\\');
            push_char(out, '\\');
        } else if c == '\u{8}' {
            push_char(out, '\\');
            push_char(out, 'b');
        } else if c == '\u{c}' {
            push_char(out, '\\');
            push_char(out, 'f');
        } else if c == '\n' {
            push_char(out, '\\');
            push_char(out, 'n');
        } else if c == '\r' {
            push_char(out, '\\');
            push_char(out, 'r');
        } else if c == '\t' {
            push_char(out, '\\');
            push_char(out, 't');
        } else if (c as u32) < 0x20 {
            push_char(out, '\\');
            push_char(out, 'u');
            push_char(out, '0');
            push_char(out, '0');
            push_char(out, hex_char((c as u32) / 16));
            push_char(out, hex_char((c as u32) % 16));
        } else {
            push_char(out, c);
        }
        proof {
            let sub1 = s@.subrange(0, i + 1 as int);
            assert(sub1.drop_last() =~= s@.subrange(0, i as int));
            assert(sub1.last() == s@[i as int]);
            assert(out@ =~= pre + spec_escape_char(s@[i as int]));
            assert(out@ =~= old(out)@ + seq!['"'] + spec_escaped(sub1));
        }
        i = i + 1;
    }
    proof {
        assert(s@.subrange(0, n as int) =~= s@);
    }
    push_char(out, '"');
    proof {
        assert(out@ =~= old(out)@ + spec_json_string(s@));
    }
}

/// A binary32 scalar as a JSON number, or null when it is not finite.
pub open spec fn spec_json_f32(bits: u32) -> Seq<char> {
    if (bits & 0x7F80_0000) == 0x7F80_0000 {
        "null"@
    } else {
        fmt_f32_of(bits)
    }
}

fn push_json_f32(out: &mut String, bits: u32)
    ensures
        final(out)@ == old(out)@ + spec_json_f32(bits),
{
    if (bits & 0x7F80_0000) == 0x7F80_0000 {
        out.append("null");
    } else {
        let text = format_f32_bits(bits);
        out.append(text.as_str());
    }
}



proof fn lemma_append_assoc(base: Seq<char>, acc: Seq<char>, piece: Seq<char>)
    ensures
        (base + acc) + piece == base + (acc + piece),
{
    assert((base + acc) + piece =~= base + (acc + piece));
}

/// The JSON form of a color.
pub open spec fn spec_json_color(c: ColorRgba8) -> Seq<char> {
    "{\"r\":"@ + spec_digits_u64(c.r as u64) + ",\"g\":"@ + spec_digits_u64(c.g as u64)
        + ",\"b\":"@ + spec_digits_u64(c.b as u64) + ",\"a\":"@ + spec_digits_u64(c.a as u64)
        + "}"@
}

fn push_json_color(out: &mut String, c: ColorRgba8)
    ensures
        final(out)@ == old(out)@ + spec_json_color(c),
{
    out.append("{\"r\":");
    push_digits_u64(out, c.r as u64);
    out.append(",\"g\":");
    push_digits_u64(out, c.g as u64);
    out.append(",\"b\":");
    push_digits_u64(out, c.b as u64);
    out.append(",\"a\":");
    push_digits_u64(out, c.a as u64);
    out.append("}");
    proof {
        assert(out@ =~= old(out)@ + spec_json_color(c));
    }
}

/// The JSON form of a point.
pub open spec fn spec_json_point(p: Point) -> Seq<char> {
    "{\"x\":"@ + spec_json_f32(p.x) + ",\"y\":"@ + spec_json_f32(p.y) + "}"@
}

fn push_json_point(out: &mut String, p: Point)
    ensures
        final(out)@ == old(out)@ + spec_json_point(p),
{
    out.append("{\"x\":");
    push_json_f32(out, p.x);
    out.append(",\"y\":");
    push_json_f32(out, p.y);
    out.append("}");
    proof {
        assert(out@ =~= old(out)@ + spec_json_point(p));
    }
}

/// The comma-separated point list.
pub open spec fn spec_json_points_inner(pts: Seq<Point>) -> Seq<char>
    decreases pts.len(),
{
    if pts.len() == 0 {
        Seq::empty()
    } else if pts.len() == 1 {
        spec_json_point(pts[0])
    } else {
        spec_json_points_inner(pts.drop_last()) + ","@ + spec_json_point(pts.last())
    }
}

pub open spec fn spec_json_points(pts: Seq<Point>) -> Seq<char> {
    "["@ + spec_json_points_inner(pts) + "]"@
}

fn push_json_points(out: &mut String, pts: &Vec<Point>)
    ensures
        final(out)@ == old(out)@ + spec_json_points(pts@),
{
    out.append("[");
    let n = pts.len();
    let mut i: usize = 0;
    while i < n
        invariant
            n == pts.len(),
            i <= n,
            out@ == old(out)@ + "["@ + spec_json_points_inner(pts@.subrange(0, i as int)),
        decreases n - i,
    {
        let ghost pre = out@;
        if i > 0 {
            out.append(",");
        }
        push_json_point(out, pts[i]);
        proof {
            let sub1 = pts@.subrange(0, i + 1 as int);
            assert(sub1.drop_last() =~= pts@.subrange(0, i as int));
            assert(sub1.last() == pts@[i as int]);
            if i == 0 {
                assert(pts@.subrange(0, 0) =~= Seq::<Point>::empty());
                assert(out@ =~= old(out)@ + "["@ + spec_json_points_inner(sub1));
            } else {
                assert(out@ =~= old(out)@ + "["@ + spec_json_points_inner(sub1));
            }
        }
        i = i + 1;
    }
    out.append("]");
    proof {
        assert(pts@.subrange(0, n as int) =~= pts@);
        assert(out@ =~= old(out)@ + spec_json_points(pts@));
    }
}

/// The JSON form of a stroke.
pub open spec fn spec_json_stroke(s: StrokeModel) -> Seq<char> {
    "{\"id\":"@ + spec_digits_u64(s.id) + ",\"color\":"@ + spec_json_color(s.color)
        + ",\"width\":"@ + spec_json_f32(s.width) + ",\"points\":"@ + spec_json_points(s.points)
        + "}"@
}

fn push_json_stroke(out: &mut String, s: &Stroke)
    ensures
        final(out)@ == old(out)@ + spec_json_stroke(s.deep_view()),
{
    out.append("{\"id\":");
    push_digits_u64(out, s.id);
    out.append(",\"color\":");
    push_json_color(out, s.color);
    out.append(",\"width\":");
    push_json_f32(out, s.width);
    out.append(",\"points\":");
    push_json_points(out, &s.points);
    out.append("}");
    proof {
        assert(out@ =~= old(out)@ + spec_json_stroke(s.deep_view()));
    }
}

pub open spec fn spec_json_bool(b: bool) -> Seq<char> {
    if b {
        "true"@
    } else {
        "false"@
    }
}

/// The JSON form of a style.
pub open spec fn spec_json_style(st: ShapeStyle) -> Seq<char> {
    "{\"stroke_color\":"@ + spec_json_color(st.stroke_color) + ",\"stroke_width\":"@
        + spec_json_f32(st.stroke_width) + ",\"fill_enabled\":"@ + spec_json_bool(st.fill_enabled)
        + ",\"fill_color\":"@ + spec_json_color(st.fill_color) + ",\"hatch_enabled\":"@
        + spec_json_bool(st.hatch_enabled) + ",\"corner_radius\":"@ + spec_json_f32(
        st.corner_radius,
    ) + "}"@
}

fn push_json_style(out: &mut String, st: ShapeStyle)
    ensures
        final(out)@ == old(out)@ + spec_json_style(st),
{
    let ghost base = out@;
    out.append("{\"stroke_color\":");
    let ghost mut acc: Seq<char> = "{\"stroke_color\":"@;
    push_json_color(out, st.stroke_color);
    proof {
        lemma_append_assoc(base, acc, spec_json_color(st.stroke_color));
        acc = acc + spec_json_color(st.stroke_color);
    }
    out.append(",\"stroke_width\":");
    proof {
        lemma_append_assoc(base, acc, ",\"stroke_width\":"@);
        acc = acc + ",\"stroke_width\":"@;
    }
    push_json_f32(out, st.stroke_width);
    proof {
        lemma_append_assoc(base, acc, spec_json_f32(st.stroke_width));
        acc = acc + spec_json_f32(st.stroke_width);
    }
    out.append(",\"fill_enabled\":");
    proof {
        lemma_append_assoc(base, acc, ",\"fill_enabled\":"@);
        acc = acc + ",\"fill_enabled\":"@;
    }
    if st.fill_enabled {
        out.append("true");
    } else {
        out.append("false");
    }
    proof {
        lemma_append_assoc(base, acc, spec_json_bool(st.fill_enabled));
        acc = acc + spec_json_bool(st.fill_enabled);
    }
    out.append(",\"fill_color\":");
    proof {
        lemma_append_assoc(base, acc, ",\"fill_color\":"@);
        acc = acc + ",\"fill_color\":"@;
    }
    push_json_color(out, st.fill_color);
    proof {
        lemma_append_assoc(base, acc, spec_json_color(st.fill_color));
        acc = acc + spec_json_color(st.fill_color);
    }
    out.append(",\"hatch_enabled\":");
    proof {
        lemma_append_assoc(base, acc, ",\"hatch_enabled\":"@);
        acc = acc + ",\"hatch_enabled\":"@;
    }
    if st.hatch_enabled {
        out.append("true");
    } else {
        out.append("false");
    }
    proof {
        lemma_append_assoc(base, acc, spec_json_bool(st.hatch_enabled));
        acc = acc + spec_json_bool(st.hatch_enabled);
    }
    out.append(",\"corner_radius\":");
    proof {
        lemma_append_assoc(base, acc, ",\"corner_radius\":"@);
        acc = acc + ",\"corner_radius\":"@;
    }
    push_json_f32(out, st.corner_radius);
    proof {
        lemma_append_assoc(base, acc, spec_json_f32(st.corner_radius));
        acc = acc + spec_json_f32(st.corner_radius);
    }
    out.append("}");
    proof {
        lemma_append_assoc(base, acc, "}"@);
        acc = acc + "}"@;
        assert(acc == spec_json_style(st));
    }
}

pub open spec fn spec_json_opt_u64(o: Option<u64>) -> Seq<char> {
    match o {
        None => "null"@,
        Some(v) => spec_digits_u64(v),
    }
}

pub open spec fn spec_json_opt_point(o: Option<Point>) -> Seq<char> {
    match o {
        None => "null"@,
        Some(p) => spec_json_point(p),
    }
}

pub open spec fn spec_json_kind(k: ShapeKind) -> Seq<char> {
    match k {
        ShapeKind::Rectangle => "\"rectangle\""@,
        ShapeKind::RoundedRectangle => "\"rounded_rectangle\""@,
        ShapeKind::Ellipse => "\"ellipse\""@,
        ShapeKind::Arrow => "\"arrow\""@,
        ShapeKind::CurvedArrow => "\"curved_arrow\""@,
    }
}

pub open spec fn spec_json_align_h(a: TextAlignH) -> Seq<char> {
    match a {
        TextAlignH::Left => "\"left\""@,
        TextAlignH::Center => "\"center\""@,
        TextAlignH::Right => "\"right\""@,
    }
}

pub open spec fn spec_json_align_v(a: TextAlignV) -> Seq<char> {
    match a {
        TextAlignV::Top => "\"top\""@,
        TextAlignV::Middle => "\"middle\""@,
        TextAlignV::Bottom => "\"bottom\""@,
    }
}

/// The JSON form of a shape: its identity and geometry...
pub open spec fn spec_json_shape_head(sh: crate::model::ShapeModel) -> Seq<char> {
    "{\"id\":"@ + spec_digits_u64(sh.id) + ",\"kind\":"@ + spec_json_kind(sh.kind)
        + ",\"style\":"@ + spec_json_style(sh.style) + ",\"start\":"@ + spec_json_point(
        sh.start,
    ) + ",\"end\":"@ + spec_json_point(sh.end)
}

/// ...followed by its attachments, text and alignment.
pub open spec fn spec_json_shape_tail(sh: crate::model::ShapeModel) -> Seq<char> {
    ",\"start_attach_id\":"@ + spec_json_opt_u64(sh.start_attach_id) + ",\"end_attach_id\":"@
        + spec_json_opt_u64(sh.end_attach_id) + ",\"start_attach_uv\":"@ + spec_json_opt_point(
        sh.start_attach_uv,
    ) + ",\"end_attach_uv\":"@ + spec_json_opt_point(sh.end_attach_uv) + ",\"text\":"@
        + spec_json_string(sh.text) + ",\"text_align_h\":"@ + spec_json_align_h(sh.text_align_h)
        + ",\"text_align_v\":"@ + spec_json_align_v(sh.text_align_v) + "}"@
}

pub open spec fn spec_json_shape(sh: crate::model::ShapeModel) -> Seq<char> {
    spec_json_shape_head(sh) + spec_json_shape_tail(sh)
}

fn push_json_shape_head(out: &mut String, sh: &Shape)
    ensures
        final(out)@ == old(out)@ + spec_json_shape_head(sh.deep_view()),
{
    let ghost base = out@;
    out.append("{\"id\":");
    let ghost mut acc: Seq<char> = "{\"id\":"@;
    push_digits_u64(out, sh.id);
    proof {
        lemma_append_assoc(base, acc, spec_digits_u64(sh.id));
        acc = acc + spec_digits_u64(sh.id);
    }
    out.append(",\"kind\":");
    proof {
        lemma_append_assoc(base, acc, ",\"kind\":"@);
        acc = acc + ",\"kind\":"@;
    }
    match sh.kind {
        ShapeKind::Rectangle => out.append("\"rectangle\""),
        ShapeKind::RoundedRectangle => out.append("\"rounded_rectangle\""),
        ShapeKind::Ellipse => out.append("\"ellipse\""),
        ShapeKind::Arrow => out.append("\"arrow\""),
        ShapeKind::CurvedArrow => out.append("\"curved_arrow\""),
    }
    proof {
        lemma_append_assoc(base, acc, spec_json_kind(sh.kind));
        acc = acc + spec_json_kind(sh.kind);
    }
    out.append(",\"style\":");
    proof {
        lemma_append_assoc(base, acc, ",\"style\":"@);
        acc = acc + ",\"style\":"@;
    }
    push_json_style(out, sh.style);
    proof {
        lemma_append_assoc(base, acc, spec_json_style(sh.style));
        acc = acc + spec_json_style(sh.style);
    }
    out.append(",\"start\":");
    proof {
        lemma_append_assoc(base, acc, ",\"start\":"@);
        acc = acc + ",\"start\":"@;
    }
    push_json_point(out, sh.start);
    proof {
        lemma_append_assoc(base, acc, spec_json_point(sh.start));
        acc = acc + spec_json_point(sh.start);
    }
    out.append(",\"end\":");
    proof {
        lemma_append_assoc(base, acc, ",\"end\":"@);
        acc = acc + ",\"end\":"@;
    }
    push_json_point(out, sh.end);
    proof {
        lemma_append_assoc(base, acc, spec_json_point(sh.end));
        acc = acc + spec_json_point(sh.end);
        assert(acc == spec_json_shape_head(sh.deep_view()));
    }
}

fn push_json_shape_tail(out: &mut String, sh: &Shape)
    ensures
        final(out)@ == old(out)@ + spec_json_shape_tail(sh.deep_view()),
{
    let ghost base = out@;
    out.append(",\"start_attach_id\":");
    let ghost mut acc: Seq<char> = ",\"start_attach_id\":"@;
    match sh.start_attach_id {
        None => out.append("null"),
        Some(v) => push_digits_u64(out, v),
    }
    proof {
        lemma_append_assoc(base, acc, spec_json_opt_u64(sh.start_attach_id));
        acc = acc + spec_json_opt_u64(sh.start_attach_id);
    }
    out.append(",\"end_attach_id\":");
    proof {
        lemma_append_assoc(base, acc, ",\"end_attach_id\":"@);
        acc = acc + ",\"end_attach_id\":"@;
    }
    match sh.end_attach_id {
        None => out.append("null"),
        Some(v) => push_digits_u64(out, v),
    }
    proof {
        lemma_append_assoc(base, acc, spec_json_opt_u64(sh.end_attach_id));
        acc = acc + spec_json_opt_u64(sh.end_attach_id);
    }
    out.append(",\"start_attach_uv\":");
    proof {
        lemma_append_assoc(base, acc, ",\"start_attach_uv\":"@);
        acc = acc + ",\"start_attach_uv\":"@;
    }
    match sh.start_attach_uv {
        None => out.append("null"),
        Some(p) => push_json_point(out, p),
    }
    proof {
        lemma_append_assoc(base, acc, spec_json_opt_point(sh.start_attach_uv));
        acc = acc + spec_json_opt_point(sh.start_attach_uv);
    }
    out.append(",\"end_attach_uv\":");
    proof {
        lemma_append_assoc(base, acc, ",\"end_attach_uv\":"@);
        acc = acc + ",\"end_attach_uv\":"@;
    }
    match sh.end_attach_uv {
        None => out.append("null"),
        Some(p) => push_json_point(out, p),
    }
    proof {
        lemma_append_assoc(base, acc, spec_json_opt_point(sh.end_attach_uv));
        acc = acc + spec_json_opt_point(sh.end_attach_uv);
    }
    out.append(",\"text\":");
    proof {
        lemma_append_assoc(base, acc, ",\"text\":"@);
        acc = acc + ",\"text\":"@;
    }
    let text_chars = str_to_chars(sh.text.as_str());
    push_json_string(out, &text_chars);
    proof {
        lemma_append_assoc(base, acc, spec_json_string(sh.deep_view().text));
        acc = acc + spec_json_string(sh.deep_view().text);
    }
    out.append(",\"text_align_h\":");
    proof {
        lemma_append_assoc(base, acc, ",\"text_align_h\":"@);
        acc = acc + ",\"text_align_h\":"@;
    }
    match sh.text_align_h {
        TextAlignH::Left => out.append("\"left\""),
        TextAlignH::Center => out.append("\"center\""),
        TextAlignH::Right => out.append("\"right\""),
    }
    proof {
        lemma_append_assoc(base, acc, spec_json_align_h(sh.text_align_h));
        acc = acc + spec_json_align_h(sh.text_align_h);
    }
    out.append(",\"text_align_v\":");
    proof {
        lemma_append_assoc(base, acc, ",\"text_align_v\":"@);
        acc = acc + ",\"text_align_v\":"@;
    }
    match sh.text_align_v {
        TextAlignV::Top => out.append("\"top\""),
        TextAlignV::Middle => out.append("\"middle\""),
        TextAlignV::Bottom => out.append("\"bottom\""),
    }
    proof {
        lemma_append_assoc(base, acc, spec_json_align_v(sh.text_align_v));
        acc = acc + spec_json_align_v(sh.text_align_v);
    }
    out.append("}");
    proof {
        lemma_append_assoc(base, acc, "}"@);
        acc = acc + "}"@;
        assert(acc == spec_json_shape_tail(sh.deep_view()));
    }
}

fn push_json_shape(out: &mut String, sh: &Shape)
    ensures
        final(out)@ == old(out)@ + spec_json_shape(sh.deep_view()),
{
    push_json_shape_head(out, sh);
    push_json_shape_tail(out, sh);
    proof {
        assert(out@ =~= old(out)@ + spec_json_shape(sh.deep_view()));
    }
}

/// The JSON form of an item: a type tag and the item's data.
pub open spec fn spec_json_item(it: ItemModel) -> Seq<char> {
    match it {
        ItemModel::Stroke(s) => "{\"type\":\"stroke\",\"data\":"@ + spec_json_stroke(s) + "}"@,
        ItemModel::Shape(sh) => "{\"type\":\"shape\",\"data\":"@ + spec_json_shape(sh) + "}"@,
    }
}

#[verifier::rlimit(60)]
fn push_json_item(out: &mut String, it: &Item)
    ensures
        final(out)@ == old(out)@ + spec_json_item(it.deep_view()),
{
    match it {
        Item::Stroke(s) => {
            out.append("{\"type\":\"stroke\",\"data\":");
            push_json_stroke(out, s);
            out.append("}");
        },
        Item::Shape(sh) => {
            out.append("{\"type\":\"shape\",\"data\":");
            push_json_shape(out, sh);
            out.append("}");
        },
    }
    proof {
        assert(out@ =~= old(out)@ + spec_json_item(it.deep_view()));
    }
}

pub open spec fn spec_json_items_inner(items: Seq<ItemModel>) -> Seq<char>
    decreases items.len(),
{
    if items.len() == 0 {
        Seq::empty()
    } else if items.len() == 1 {
        spec_json_item(items[0])
    } else {
        spec_json_items_inner(items.drop_last()) + ","@ + spec_json_item(items.last())
    }
}

/// The JSON form of a whole document at the current version.
pub open spec fn spec_to_json(items: Seq<ItemModel>) -> Seq<char> {
    "{\"version\":2,\"items\":["@ + spec_json_items_inner(items) + "]}"@
}

/// Serializes an item list as a version-2 document.
#[verifier::rlimit(60)]
pub fn items_to_json(items: &Vec<Item>) -> (r: String)
    ensures
        r@ == spec_to_json(items.deep_view()),
{
    let mut out = String::new();
    out.append("{\"version\":2,\"items\":[");
    let ghost base = out@;
    let n = items.len();
    let mut i: usize = 0;
    while i < n
        invariant
            n == items.len(),
            base == "{\"version\":2,\"items\":["@,
            i <= n,
            out@ == base + spec_json_items_inner(items.deep_view().subrange(0, i as int)),
        decreases n - i,
    {
        if i > 0 {
            out.append(",");
        }
        push_json_item(&mut out, &items[i]);
        proof {
            let s = items.deep_view();
            let sub1 = s.subrange(0, i + 1 as int);
            assert(sub1.drop_last() =~= s.subrange(0, i as int));
            assert(sub1.last() == s[i as int]);
            assert(items@[i as int].deep_view() == s[i as int]);
            if i == 0 {
                assert(s.subrange(0, 0) =~= Seq::<ItemModel>::empty());
            }
            assert(out@ =~= base + spec_json_items_inner(sub1));
        }
        i = i + 1;
    }
    out.append("]}");
    proof {
        assert(items.deep_view().subrange(0, n as int) =~= items.deep_view());
        assert(out@ =~= spec_to_json(items.deep_view()));
    }
    out
}


// ---------------------------------------------------------------------------
// The parser: low-level lexing.
// ---------------------------------------------------------------------------

pub open spec fn spec_ws_char(c: char) -> bool {
    c == ' ' || c == '\t' || c == '\n' || c == '\r'
}

/// The index of the first non-whitespace character at or after `i`.
pub open spec fn spec_skip_ws(s: Seq<char>, i: int) -> int
    decreases s.len() - i,
{
    if 0 <= i < s.len() && spec_ws_char(s[i]) {
        spec_skip_ws(s, i + 1)
    } else {
        i
    }
}

proof fn lemma_skip_ws_bounds(s: Seq<char>, i: int)
    requires
        0 <= i <= s.len(),
    ensures
        i <= spec_skip_ws(s, i) <= s.len(),
    decreases s.len() - i,
{
    if i < s.len() && spec_ws_char(s[i]) {
        lemma_skip_ws_bounds(s, i + 1);
    }
}

fn skip_ws(v: &Vec<char>, i: usize) -> (j: usize)
    requires
        i <= v.len(),
    ensures
        j as int == spec_skip_ws(v@, i as int),
        i <= j <= v.len(),
    decreases v.len() - i,
{
    if i < v.len() {
        let c = v[i];
        if c == ' ' || c == '\t' || c == '\n' || c == '\r' {
            return skip_ws(v, i + 1);
        }
    }
    i
}

/// The index after a run of decimal digits.
pub open spec fn spec_skip_digits(s: Seq<char>, i: int) -> int
    decreases s.len() - i,
{
    if 0 <= i < s.len() && spec_digit_val(s[i]) is Some {
        spec_skip_digits(s, i + 1)
    } else {
        i
    }
}

fn skip_digits(v: &Vec<char>, i: usize) -> (j: usize)
    requires
        i <= v.len(),
    ensures
        j as int == spec_skip_digits(v@, i as int),
        i <= j <= v.len(),
        i < v.len() && spec_digit_val(v@[i as int]) is Some ==> j >= i + 1,
    decreases v.len() - i,
{
    if i < v.len() {
        if digit_val(v[i]).is_some() {
            return skip_digits(v, i + 1);
        }
    }
    i
}

/// An unsigned decimal integer with overflow detection.
pub open spec fn spec_parse_u64_go(s: Seq<char>, i: int, acc: u64) -> Option<(u64, int)>
    decreases s.len() - i,
{
    if 0 <= i < s.len() && spec_digit_val(s[i]) is Some {
        let d = spec_digit_val(s[i]).unwrap();
        if acc > (u64::MAX - d) / 10 {
            None
        } else {
            spec_parse_u64_go(s, i + 1, (acc * 10 + d) as u64)
        }
    } else {
        Some((acc, i))
    }
}

pub open spec fn spec_parse_u64(s: Seq<char>, i: int) -> Option<(u64, int)> {
    if 0 <= i < s.len() && spec_digit_val(s[i]) is Some {
        spec_parse_u64_go(s, i, 0)
    } else {
        None
    }
}

fn parse_u64_go(v: &Vec<char>, i: usize, acc: u64) -> (r: Option<(u64, usize)>)
    requires
        i <= v.len(),
    ensures
        match r {
            Some((n, j)) => spec_parse_u64_go(v@, i as int, acc) == Some((n, j as int)) && i <= j
                <= v.len() && ((i < v.len() && spec_digit_val(v@[i as int]) is Some) ==> i < j),
            None => spec_parse_u64_go(v@, i as int, acc) is None,
        },
    decreases v.len() - i,
{
    if i < v.len() {
        match digit_val(v[i]) {
            Some(d) => {
                if acc > (u64::MAX - d) / 10 {
                    return None;
                }
                return parse_u64_go(v, i + 1, acc * 10 + d);
            },
            None => {},
        }
    }
    Some((acc, i))
}

fn parse_u64(v: &Vec<char>, i: usize) -> (r: Option<(u64, usize)>)
    requires
        i <= v.len(),
    ensures
        match r {
            Some((n, j)) => spec_parse_u64(v@, i as int) == Some((n, j as int)) && i < j
                <= v.len(),
            None => spec_parse_u64(v@, i as int) is None,
        },
{
    if i < v.len() {
        if digit_val(v[i]).is_some() {
            return parse_u64_go(v, i, 0);
        }
    }
    None
}

/// The end of a JSON number token starting at `i`: an optional sign, an
/// integer part, an optional fraction, an optional exponent.
pub open spec fn spec_lex_number(s: Seq<char>, i: int) -> Option<int> {
    let i1 = if 0 <= i < s.len() && s[i] == '-' {
        i + 1
    } else {
        i
    };
    if !(0 <= i1 < s.len() && spec_digit_val(s[i1]) is Some) {
        None
    } else {
        let j = spec_skip_digits(s, i1);
        let j2 = if j < s.len() && s[j] == '.' && j + 1 < s.len() && spec_digit_val(
            s[j + 1],
        ) is Some {
            spec_skip_digits(s, j + 1)
        } else {
            j
        };
        if j2 < s.len() && (s[j2] == 'e' || s[j2] == 'E') {
            let j3 = if j2 + 1 < s.len() && (s[j2 + 1] == '+' || s[j2 + 1] == '-') {
                j2 + 2
            } else {
                j2 + 1
            };
            if j3 < s.len() && spec_digit_val(s[j3]) is Some {
                Some(spec_skip_digits(s, j3))
            } else {
                None
            }
        } else {
            Some(j2)
        }
    }
}

fn lex_number(v: &Vec<char>, i: usize) -> (r: Option<usize>)
    requires
        i <= v.len(),
    ensures
        match r {
            Some(j) => spec_lex_number(v@, i as int) == Some(j as int) && i < j <= v.len(),
            None => spec_lex_number(v@, i as int) is None,
        },
{
    let i1 = if i < v.len() && v[i] == '-' {
        i + 1
    } else {
        i
    };
    if !(i1 < v.len() && digit_val(v[i1]).is_some()) {
        return None;
    }
    let j = skip_digits(v, i1);
    let j2 = if j < v.len() && v[j] == '.' && j + 1 < v.len() && digit_val(v[j + 1]).is_some() {
        skip_digits(v, j + 1)
    } else {
        j
    };
    if j2 < v.len() && (v[j2] == 'e' || v[j2] == 'E') {
        let j3 = if j2 + 1 < v.len() && (v[j2 + 1] == '+' || v[j2 + 1] == '-') {
            j2 + 2
        } else {
            j2 + 1
        };
        if j3 < v.len() && digit_val(v[j3]).is_some() {
            Some(skip_digits(v, j3))
        } else {
            None
        }
    } else {
        Some(j2)
    }
}

/// A binary32 value written as a JSON number.
pub open spec fn spec_parse_f32(s: Seq<char>, i: int) -> Option<(u32, int)> {
    match spec_lex_number(s, i) {
        None => None,
        Some(j) => match parse_f32_of(s.subrange(i, j)) {
            None => None,
            Some(bits) => Some((bits, j)),
        },
    }
}

fn parse_f32_value(v: &Vec<char>, i: usize) -> (r: Option<(u32, usize)>)
    requires
        i <= v.len(),
    ensures
        match r {
            Some((bits, j)) => spec_parse_f32(v@, i as int) == Some((bits, j as int)) && i < j
                <= v.len(),
            None => spec_parse_f32(v@, i as int) is None,
        },
{
    match lex_number(v, i) {
        None => None,
        Some(j) => {
            let mut token: Vec<char> = Vec::new();
            let mut k: usize = i;
            while k < j
                invariant
                    i <= k <= j <= v.len(),
                    token@ == v@.subrange(i as int, k as int),
                decreases j - k,
            {
                token.push(v[k]);
                proof {
                    assert(token@ =~= v@.subrange(i as int, k + 1 as int));
                }
                k = k + 1;
            }
            match parse_f32_chars(&token) {
                None => None,
                Some(bits) => Some((bits, j)),
            }
        },
    }
}

/// One hexadecimal quartet.
pub open spec fn spec_hex4(s: Seq<char>, i: int) -> Option<u32> {
    if 0 <= i && i + 4 <= s.len() {
        match (spec_hex_val(s[i]), spec_hex_val(s[i + 1]), spec_hex_val(s[i + 2]), spec_hex_val(
            s[i + 3],
        )) {
            (Some(a), Some(b), Some(c), Some(d)) => Some(
                ((((a * 16 + b) * 16 + c) * 16 + d)) as u32,
            ),
            _ => None,
        }
    } else {
        None
    }
}

fn hex4(v: &Vec<char>, i: usize) -> (r: Option<u32>)
    requires
        i <= v.len(),
    ensures
        r == spec_hex4(v@, i as int),
        r is Some ==> r.unwrap() < 0x1_0000 && i + 4 <= v.len(),
{
    if v.len() >= 4 && i <= v.len() - 4 {
        match (hex_val(v[i]), hex_val(v[i + 1]), hex_val(v[i + 2]), hex_val(v[i + 3])) {
            (Some(a), Some(b), Some(c), Some(d)) => Some(((a * 16 + b) * 16 + c) * 16 + d),
            _ => None,
        }
    } else {
        None
    }
}

/// The character char::from_u32 returns for a Unicode scalar value.
pub uninterp spec fn char_of(code: u32) -> char;

/// A JSON string body from the character after the opening quote,
/// unescaping as it goes; ends after the closing quote.
pub open spec fn spec_parse_string_go(s: Seq<char>, i: int, acc: Seq<char>) -> Option<
    (Seq<char>, int),
>
    decreases s.len() - i,
{
    if !(0 <= i < s.len()) {
        None
    } else {
        let c = s[i];
        if c == '"' {
            Some((acc, i + 1))
        } else if c == '\\' {
            if !(i + 1 < s.len()) {
                None
            } else {
                let e = s[i + 1];
                if e == '"' || e == '\\' || e == '/' {
                    spec_parse_string_go(s, i + 2, acc.push(e))
                } else if e == 'b' {
                    spec_parse_string_go(s, i + 2, acc.push('\u{8}'))
                } else if e == 'f' {
                    spec_parse_string_go(s, i + 2, acc.push('\u{c}'))
                } else if e == 'n' {
                    spec_parse_string_go(s, i + 2, acc.push('\n'))
                } else if e == 'r' {
                    spec_parse_string_go(s, i + 2, acc.push('\r'))
                } else if e == 't' {
                    spec_parse_string_go(s, i + 2, acc.push('\t'))
                } else if e == 'u' {
                    match spec_hex4(s, i + 2) {
                        None => None,
                        Some(code) => if 0xD800 <= code < 0xDC00 {
                            if i + 7 < s.len() && s[i + 6] == '\\' && s[i + 7] == 'u' {
                                match spec_hex4(s, i + 8) {
                                    None => None,
                                    Some(lo) => if 0xDC00 <= lo < 0xE000 {
                                        let full = 0x1_0000 + (code - 0xD800) * 0x400 + (lo
                                            - 0xDC00);
                                        spec_parse_string_go(s, i + 12, acc.push(char_of(
                                            full as u32)))
                                    } else {
                                        None
                                    },
                                }
                            } else {
                                None
                            }
                        } else if 0xDC00 <= code < 0xE000 {
                            None
                        } else {
                            spec_parse_string_go(s, i + 6, acc.push(char_of(code)))
                        },
                    }
                } else {
                    None
                }
            }
        } else if (c as u32) < 0x20 {
            None
        } else {
            spec_parse_string_go(s, i + 1, acc.push(c))
        }
    }
}

/// A JSON string, from its opening quote.
pub open spec fn spec_parse_string(s: Seq<char>, i: int) -> Option<(Seq<char>, int)> {
    if 0 <= i < s.len() && s[i] == '"' {
        spec_parse_string_go(s, i + 1, Seq::empty())
    } else {
        None
    }
}

fn parse_string_go(v: &Vec<char>, i: usize, acc: Vec<char>) -> (r: Option<(Vec<char>, usize)>)
    requires
        i <= v.len(),
    ensures
        match r {
            Some((w, j)) => spec_parse_string_go(v@, i as int, acc@) == Some((w@, j as int)) && i
                < j <= v.len(),
            None => spec_parse_string_go(v@, i as int, acc@) is None,
        },
    decreases v.len() - i,
{
    if !(i < v.len()) {
        return None;
    }
    let c = v[i];
    if c == '"' {
        return Some((acc, i + 1));
    }
    if c == '\\' {
        if !(i + 1 < v.len()) {
            return None;
        }
        let e = v[i + 1];
        let mut acc2 = acc;
        if e == '"' || e == '\\' || e == '/' {
            acc2.push(e);
            return parse_string_go(v, i + 2, acc2);
        } else if e == 'b' {
            acc2.push('\u{8}');
            return parse_string_go(v, i + 2, acc2);
        } else if e == 'f' {
            acc2.push('\u{c}');
            return parse_string_go(v, i + 2, acc2);
        } else if e == 'n' {
            acc2.push('\n');
            return parse_string_go(v, i + 2, acc2);
        } else if e == 'r' {
            acc2.push('\r');
            return parse_string_go(v, i + 2, acc2);
        } else if e == 't' {
            acc2.push('\t');
            return parse_string_go(v, i + 2, acc2);
        } else if e == 'u' {
            match hex4(v, i + 2) {
                None => {
                    return None;
                },
                Some(code) => {
                    if 0xD800 <= code && code < 0xDC00 {
                        if v.len() - i > 7 && v[i + 6] == '\\' && v[i + 7] == 'u' {
                            match hex4(v, i + 8) {
                                None => {
                                    return None;
                                },
                                Some(lo) => {
                                    if 0xDC00 <= lo && lo < 0xE000 {
                                        let full: u32 = 0x1_0000 + (code - 0xD800) * 0x400 + (lo
                                            - 0xDC00);
                                        match char_from_u32(full) {
                                            Some(ch) => {
                                                acc2.push(ch);
                                                return parse_string_go(v, i + 12, acc2);
                                            },
                                            None => {
                                                proof {
                                                    assert(false);
                                                }
                                                return None;
                                            },
                                        }
                                    } else {
                                        return None;
                                    }
                                },
                            }
                        } else {
                            return None;
                        }
                    } else if 0xDC00 <= code && code < 0xE000 {
                        return None;
                    } else {
                        match char_from_u32(code) {
                            Some(ch) => {
                                acc2.push(ch);
                                return parse_string_go(v, i + 6, acc2);
                            },
                            None => {
                                proof {
                                    assert(false);
                                }
                                return None;
                            },
                        }
                    }
                },
            }
        } else {
            return None;
        }
    }
    if (c as u32) < 0x20 {
        return None;
    }
    let mut acc2 = acc;
    acc2.push(c);
    parse_string_go(v, i + 1, acc2)
}

fn parse_string(v: &Vec<char>, i: usize) -> (r: Option<(Vec<char>, usize)>)
    requires
        i <= v.len(),
    ensures
        match r {
            Some((w, j)) => spec_parse_string(v@, i as int) == Some((w@, j as int)) && i < j
                <= v.len(),
            None => spec_parse_string(v@, i as int) is None,
        },
{
    if i < v.len() && v[i] == '"' {
        let acc: Vec<char> = Vec::new();
        proof {
            assert(acc@ =~= Seq::<char>::empty());
        }
        parse_string_go(v, i + 1, acc)
    } else {
        None
    }
}


// ---------------------------------------------------------------------------
// The parser: skipping arbitrary values.
// ---------------------------------------------------------------------------

/// The next index, at least one past `i` (keeps recursion well-founded).
pub open spec fn spec_adv(i: int, cand: int) -> int {
    if cand > i {
        cand
    } else {
        i + 1
    }
}

/// The end of any JSON value starting at or after `i`.
pub open spec fn spec_skip_value(s: Seq<char>, i: int) -> Option<int>
    decreases s.len() - i, 0int,
{
    if !(0 <= i < s.len()) {
        None
    } else {
    let j = spec_skip_ws(s, i);
    if !(0 <= j < s.len()) {
        None
    } else {
        let c = s[j];
        if c == '{' {
            spec_skip_object(s, spec_adv(i, j + 1))
        } else if c == '[' {
            spec_skip_array(s, spec_adv(i, j + 1))
        } else if c == '"' {
            match spec_parse_string(s, j) {
                None => None,
                Some((_w, k)) => Some(k),
            }
        } else if c == 't' {
            if j + 3 < s.len() && s[j + 1] == 'r' && s[j + 2] == 'u' && s[j + 3] == 'e' {
                Some(j + 4)
            } else {
                None
            }
        } else if c == 'f' {
            if j + 4 < s.len() && s[j + 1] == 'a' && s[j + 2] == 'l' && s[j + 3] == 's' && s[j + 4]
                == 'e' {
                Some(j + 5)
            } else {
                None
            }
        } else if c == 'n' {
            if j + 3 < s.len() && s[j + 1] == 'u' && s[j + 2] == 'l' && s[j + 3] == 'l' {
                Some(j + 4)
            } else {
                None
            }
        } else if c == '-' || spec_digit_val(c) is Some {
            spec_lex_number(s, j)
        } else {
            None
        }
    }
    }
}

/// The end of an array body, entered just after the opening bracket.
pub open spec fn spec_skip_array(s: Seq<char>, i: int) -> Option<int>
    decreases s.len() - i, 2int,
{
    if !(0 <= i < s.len()) {
        None
    } else {
        let j = spec_skip_ws(s, i);
        if !(0 <= j < s.len()) {
            None
        } else if s[j] == ']' {
            Some(j + 1)
        } else {
            spec_skip_array_elems(s, if i <= j < s.len() {
                j
            } else {
                i
            })
        }
    }
}

pub open spec fn spec_skip_array_elems(s: Seq<char>, i: int) -> Option<int>
    decreases s.len() - i, 1int,
{
    if !(0 <= i < s.len()) {
        None
    } else {
    match spec_skip_value(s, i) {
        None => None,
        Some(k) => {
            let m = spec_skip_ws(s, k);
            if !(0 <= m < s.len()) {
                None
            } else if s[m] == ',' {
                spec_skip_array_elems(s, if i < m + 1 <= s.len() {
                    m + 1
                } else {
                    i + 1
                })
            } else if s[m] == ']' {
                Some(m + 1)
            } else {
                None
            }
        },
    }
    }
}

/// The end of an object body, entered just after the opening brace.
pub open spec fn spec_skip_object(s: Seq<char>, i: int) -> Option<int>
    decreases s.len() - i, 2int,
{
    if !(0 <= i < s.len()) {
        None
    } else {
        let j = spec_skip_ws(s, i);
        if !(0 <= j < s.len()) {
            None
        } else if s[j] == '}' {
            Some(j + 1)
        } else {
            spec_skip_object_members(s, if i <= j < s.len() {
                j
            } else {
                i
            })
        }
    }
}

pub open spec fn spec_skip_object_members(s: Seq<char>, i: int) -> Option<int>
    decreases s.len() - i, 1int,
{
    if !(0 <= i < s.len()) {
        None
    } else {
    let j = spec_skip_ws(s, i);
    match spec_parse_string(s, j) {
        None => None,
        Some((_key, j2)) => {
            let j3 = spec_skip_ws(s, j2);
            if !(0 <= j3 < s.len() && s[j3] == ':') {
                None
            } else {
                match spec_skip_value(s, spec_adv(i, j3 + 1)) {
                    None => None,
                    Some(k) => {
                        let m = spec_skip_ws(s, k);
                        if !(0 <= m < s.len()) {
                            None
                        } else if s[m] == ',' {
                            spec_skip_object_members(s, if i < m + 1 <= s.len() {
                                m + 1
                            } else {
                                i + 1
                            })
                        } else if s[m] == '}' {
                            Some(m + 1)
                        } else {
                            None
                        }
                    },
                }
            }
        },
    }
    }
}

fn skip_value(v: &Vec<char>, i: usize) -> (r: Option<usize>)
    requires
        i <= v.len(),
    ensures
        match r {
            Some(j) => spec_skip_value(v@, i as int) == Some(j as int) && i < j <= v.len(),
            None => spec_skip_value(v@, i as int) is None,
        },
    decreases v.len() - i, 0int,
{
    let j = skip_ws(v, i);
    if !(j < v.len()) {
        return None;
    }
    let c = v[j];
    if c == '{' {
        let next = if j + 1 > i {
            j + 1
        } else {
            i + 1
        };
        skip_object(v, next)
    } else if c == '[' {
        let next = if j + 1 > i {
            j + 1
        } else {
            i + 1
        };
        skip_array(v, next)
    } else if c == '"' {
        match parse_string(v, j) {
            None => None,
            Some((_w, k)) => Some(k),
        }
    } else if c == 't' {
        if v.len() - j > 3 && v[j + 1] == 'r' && v[j + 2] == 'u' && v[j + 3] == 'e' {
            Some(j + 4)
        } else {
            None
        }
    } else if c == 'f' {
        if v.len() - j > 4 && v[j + 1] == 'a' && v[j + 2] == 'l' && v[j + 3] == 's' && v[j + 4]
            == 'e' {
            Some(j + 5)
        } else {
            None
        }
    } else if c == 'n' {
        if v.len() - j > 3 && v[j + 1] == 'u' && v[j + 2] == 'l' && v[j + 3] == 'l' {
            Some(j + 4)
        } else {
            None
        }
    } else if c == '-' || digit_val(c).is_some() {
        match lex_number(v, j) {
            None => None,
            Some(k) => Some(k),
        }
    } else {
        None
    }
}

fn skip_array(v: &Vec<char>, i: usize) -> (r: Option<usize>)
    requires
        i <= v.len(),
    ensures
        match r {
            Some(j) => spec_skip_array(v@, i as int) == Some(j as int) && i <= j <= v.len(),
            None => spec_skip_array(v@, i as int) is None,
        },
    decreases v.len() - i, 2int,
{
    let j = skip_ws(v, i);
    if !(j < v.len()) {
        return None;
    }
    if v[j] == ']' {
        return Some(j + 1);
    }
    skip_array_elems(v, j)
}

fn skip_array_elems(v: &Vec<char>, i: usize) -> (r: Option<usize>)
    requires
        i <= v.len(),
    ensures
        match r {
            Some(j) => spec_skip_array_elems(v@, i as int) == Some(j as int) && i <= j <= v.len(),
            None => spec_skip_array_elems(v@, i as int) is None,
        },
    decreases v.len() - i, 1int,
{
    match skip_value(v, i) {
        None => None,
        Some(k) => {
            let m = skip_ws(v, k);
            if !(m < v.len()) {
                None
            } else if v[m] == ',' {
                let next = if m + 1 > i {
                    m + 1
                } else {
                    i + 1
                };
                skip_array_elems(v, next)
            } else if v[m] == ']' {
                Some(m + 1)
            } else {
                None
            }
        },
    }
}

fn skip_object(v: &Vec<char>, i: usize) -> (r: Option<usize>)
    requires
        i <= v.len(),
    ensures
        match r {
            Some(j) => spec_skip_object(v@, i as int) == Some(j as int) && i <= j <= v.len(),
            None => spec_skip_object(v@, i as int) is None,
        },
    decreases v.len() - i, 2int,
{
    let j = skip_ws(v, i);
    if !(j < v.len()) {
        return None;
    }
    if v[j] == '}' {
        return Some(j + 1);
    }
    skip_object_members(v, j)
}

fn skip_object_members(v: &Vec<char>, i: usize) -> (r: Option<usize>)
    requires
        i <= v.len(),
    ensures
        match r {
            Some(j) => spec_skip_object_members(v@, i as int) == Some(j as int) && i <= j
                <= v.len(),
            None => spec_skip_object_members(v@, i as int) is None,
        },
    decreases v.len() - i, 1int,
{
    let j = skip_ws(v, i);
    match parse_string(v, j) {
        None => None,
        Some((_key, j2)) => {
            let j3 = skip_ws(v, j2);
            if !(j3 < v.len() && v[j3] == ':') {
                None
            } else {
                let next = if j3 + 1 > i {
                    j3 + 1
                } else {
                    i + 1
                };
                match skip_value(v, next) {
                    None => None,
                    Some(k) => {
                        let m = skip_ws(v, k);
                        if !(m < v.len()) {
                            None
                        } else if v[m] == ',' {
                            let next2 = if m + 1 > i {
                                m + 1
                            } else {
                                i + 1
                            };
                            skip_object_members(v, next2)
                        } else if v[m] == '}' {
                            Some(m + 1)
                        } else {
                            None
                        }
                    },
                }
            }
        },
    }
}


// ---------------------------------------------------------------------------
// The parser: schema-directed values.
// ---------------------------------------------------------------------------

fn chars_eq_str(w: &Vec<char>, lit: &str) -> (r: bool)
    ensures
        r == (w@ == lit@),
{
    let lv = str_to_chars(lit);
    if w.len() != lv.len() {
        proof {
            assert(w@.len() != lit@.len());
        }
        return false;
    }
    let n = w.len();
    let mut i: usize = 0;
    while i < n
        invariant
            n == w.len() == lv.len(),
            lv@ == lit@,
            i <= n,
            forall|j: int| 0 <= j < i ==> w@[j] == lit@[j],
        decreases n - i,
    {
        if w[i] != lv[i] {
            proof {
                assert(w@[i as int] != lit@[i as int]);
            }
            return false;
        }
        i = i + 1;
    }
    proof {
        assert(w@ =~= lit@);
    }
    true
}

/// An unsigned integer value, with leading whitespace.
pub open spec fn spec_parse_u64_value(s: Seq<char>, i: int) -> Option<(u64, int)> {
    spec_parse_u64(s, spec_skip_ws(s, i))
}

fn parse_u64_value(v: &Vec<char>, i: usize) -> (r: Option<(u64, usize)>)
    requires
        i <= v.len(),
    ensures
        match r {
            Some((n, j)) => spec_parse_u64_value(v@, i as int) == Some((n, j as int)) && i < j
                <= v.len(),
            None => spec_parse_u64_value(v@, i as int) is None,
        },
{
    let j = skip_ws(v, i);
    parse_u64(v, j)
}

/// A boolean value, with leading whitespace.
pub open spec fn spec_parse_bool_value(s: Seq<char>, i: int) -> Option<(bool, int)> {
    let j = spec_skip_ws(s, i);
    if j + 3 < s.len() && s[j] == 't' && s[j + 1] == 'r' && s[j + 2] == 'u' && s[j + 3] == 'e' {
        Some((true, j + 4))
    } else if j + 4 < s.len() && s[j] == 'f' && s[j + 1] == 'a' && s[j + 2] == 'l' && s[j + 3]
        == 's' && s[j + 4] == 'e' {
        Some((false, j + 5))
    } else {
        None
    }
}

fn parse_bool_value(v: &Vec<char>, i: usize) -> (r: Option<(bool, usize)>)
    requires
        i <= v.len(),
    ensures
        match r {
            Some((b, j)) => spec_parse_bool_value(v@, i as int) == Some((b, j as int)) && i < j
                <= v.len(),
            None => spec_parse_bool_value(v@, i as int) is None,
        },
{
    let j = skip_ws(v, i);
    if v.len() - j > 3 && v[j] == 't' && v[j + 1] == 'r' && v[j + 2] == 'u' && v[j + 3] == 'e' {
        Some((true, j + 4))
    } else if v.len() - j > 4 && v[j] == 'f' && v[j + 1] == 'a' && v[j + 2] == 'l' && v[j + 3]
        == 's' && v[j + 4] == 'e' {
        Some((false, j + 5))
    } else {
        None
    }
}

/// The four-character literal null, with leading whitespace.
pub open spec fn spec_parse_null(s: Seq<char>, i: int) -> Option<int> {
    let j = spec_skip_ws(s, i);
    if j + 3 < s.len() && s[j] == 'n' && s[j + 1] == 'u' && s[j + 2] == 'l' && s[j + 3] == 'l' {
        Some(j + 4)
    } else {
        None
    }
}

fn parse_null(v: &Vec<char>, i: usize) -> (r: Option<usize>)
    requires
        i <= v.len(),
    ensures
        match r {
            Some(j) => spec_parse_null(v@, i as int) == Some(j as int) && i < j <= v.len(),
            None => spec_parse_null(v@, i as int) is None,
        },
{
    let j = skip_ws(v, i);
    if v.len() - j > 3 && v[j] == 'n' && v[j + 1] == 'u' && v[j + 2] == 'l' && v[j + 3] == 'l' {
        Some(j + 4)
    } else {
        None
    }
}

/// A binary32 value, with leading whitespace.
pub open spec fn spec_parse_f32_value(s: Seq<char>, i: int) -> Option<(u32, int)> {
    spec_parse_f32(s, spec_skip_ws(s, i))
}

fn parse_f32_ws(v: &Vec<char>, i: usize) -> (r: Option<(u32, usize)>)
    requires
        i <= v.len(),
    ensures
        match r {
            Some((bits, j)) => spec_parse_f32_value(v@, i as int) == Some((bits, j as int)) && i
                < j <= v.len(),
            None => spec_parse_f32_value(v@, i as int) is None,
        },
{
    let j = skip_ws(v, i);
    parse_f32_value(v, j)
}

/// An id that may be null.
pub open spec fn spec_parse_opt_u64_value(s: Seq<char>, i: int) -> Option<(Option<u64>, int)> {
    match spec_parse_null(s, i) {
        Some(j) => Some((None, j)),
        None => match spec_parse_u64_value(s, i) {
            Some((n, j)) => Some((Some(n), j)),
            None => None,
        },
    }
}

fn parse_opt_u64_value(v: &Vec<char>, i: usize) -> (r: Option<(Option<u64>, usize)>)
    requires
        i <= v.len(),
    ensures
        match r {
            Some((o, j)) => spec_parse_opt_u64_value(v@, i as int) == Some((o, j as int)) && i < j
                <= v.len(),
            None => spec_parse_opt_u64_value(v@, i as int) is None,
        },
{
    match parse_null(v, i) {
        Some(j) => Some((None, j)),
        None => match parse_u64_value(v, i) {
            Some((n, j)) => Some((Some(n), j)),
            None => None,
        },
    }
}

/// The members of a point object, after the opening brace.
pub open spec fn spec_parse_point_go(s: Seq<char>, i: int, x: Option<u32>, y: Option<u32>,
) -> Option<(Point, int)>
    decreases s.len() - i,
{
    if !(0 <= i < s.len()) {
        None
    } else {
        let j = spec_skip_ws(s, i);
        if !(0 <= j < s.len()) {
            None
        } else if s[j] == '}' {
            match (x, y) {
                (Some(xv), Some(yv)) => Some((Point { x: xv, y: yv }, j + 1)),
                _ => None,
            }
        } else {
            match spec_parse_string(s, j) {
                None => None,
                Some((key, j2)) => {
                    let j3 = spec_skip_ws(s, j2);
                    if !(0 <= j3 < s.len() && s[j3] == ':') {
                        None
                    } else {
                        let stepped: Option<(Option<u32>, Option<u32>, int)> = if key == "x"@ {
                            match spec_parse_f32_value(s, j3 + 1) {
                                Some((bits, j4)) => Some((Some(bits), y, j4)),
                                None => None,
                            }
                        } else if key == "y"@ {
                            match spec_parse_f32_value(s, j3 + 1) {
                                Some((bits, j4)) => Some((x, Some(bits), j4)),
                                None => None,
                            }
                        } else {
                            match spec_skip_value(s, spec_adv(i, j3 + 1)) {
                                Some(j4) => Some((x, y, j4)),
                                None => None,
                            }
                        };
                        match stepped {
                            None => None,
                            Some((x2, y2, j5)) => {
                                let m = spec_skip_ws(s, j5);
                                if !(0 <= m < s.len()) {
                                    None
                                } else if s[m] == ',' {
                                    spec_parse_point_go(s, if i < m + 1 <= s.len() {
                                        m + 1
                                    } else {
                                        i + 1
                                    }, x2, y2)
                                } else if s[m] == '}' {
                                    match (x2, y2) {
                                        (Some(xv), Some(yv)) => Some(
                                            (Point { x: xv, y: yv }, m + 1),
                                        ),
                                        _ => None,
                                    }
                                } else {
                                    None
                                }
                            },
                        }
                    }
                },
            }
        }
    }
}

/// A point object, with leading whitespace.
pub open spec fn spec_parse_point(s: Seq<char>, i: int) -> Option<(Point, int)> {
    let j = spec_skip_ws(s, i);
    if 0 <= j < s.len() && s[j] == '{' {
        spec_parse_point_go(s, j + 1, None, None)
    } else {
        None
    }
}

fn parse_point_go(v: &Vec<char>, i: usize, x: Option<u32>, y: Option<u32>) -> (r: Option<
    (Point, usize),
>)
    requires
        i <= v.len(),
    ensures
        match r {
            Some((p, j)) => spec_parse_point_go(v@, i as int, x, y) == Some((p, j as int)) && i < j
                <= v.len(),
            None => spec_parse_point_go(v@, i as int, x, y) is None,
        },
    decreases v.len() - i,
{
    if !(i < v.len()) {
        return None;
    }
    let j = skip_ws(v, i);
    if !(j < v.len()) {
        return None;
    }
    if v[j] == '}' {
        return match (x, y) {
            (Some(xv), Some(yv)) => Some((Point { x: xv, y: yv }, j + 1)),
            _ => None,
        };
    }
    match parse_string(v, j) {
        None => None,
        Some((key, j2)) => {
            let j3 = skip_ws(v, j2);
            if !(j3 < v.len() && v[j3] == ':') {
                return None;
            }
            let stepped: Option<(Option<u32>, Option<u32>, usize)> = if chars_eq_str(&key, "x") {
                match parse_f32_ws(v, j3 + 1) {
                    Some((bits, j4)) => Some((Some(bits), y, j4)),
                    None => None,
                }
            } else if chars_eq_str(&key, "y") {
                match parse_f32_ws(v, j3 + 1) {
                    Some((bits, j4)) => Some((x, Some(bits), j4)),
                    None => None,
                }
            } else {
                let next = if j3 + 1 > i {
                    j3 + 1
                } else {
                    i + 1
                };
                match skip_value(v, next) {
                    Some(j4) => Some((x, y, j4)),
                    None => None,
                }
            };
            match stepped {
                None => None,
                Some((x2, y2, j5)) => {
                    let m = skip_ws(v, j5);
                    if !(m < v.len()) {
                        None
                    } else if v[m] == ',' {
                        let next = if m + 1 > i {
                            m + 1
                        } else {
                            i + 1
                        };
                        parse_point_go(v, next, x2, y2)
                    } else if v[m] == '}' {
                        match (x2, y2) {
                            (Some(xv), Some(yv)) => Some((Point { x: xv, y: yv }, m + 1)),
                            _ => None,
                        }
                    } else {
                        None
                    }
                },
            }
        },
    }
}

fn parse_point(v: &Vec<char>, i: usize) -> (r: Option<(Point, usize)>)
    requires
        i <= v.len(),
    ensures
        match r {
            Some((p, j)) => spec_parse_point(v@, i as int) == Some((p, j as int)) && i < j
                <= v.len(),
            None => spec_parse_point(v@, i as int) is None,
        },
{
    let j = skip_ws(v, i);
    if j < v.len() && v[j] == '{' {
        parse_point_go(v, j + 1, None, None)
    } else {
        None
    }
}

/// A point that may be null.
pub open spec fn spec_parse_opt_point_value(s: Seq<char>, i: int) -> Option<(Option<Point>, int)> {
    match spec_parse_null(s, i) {
        Some(j) => Some((None, j)),
        None => match spec_parse_point(s, i) {
            Some((p, j)) => Some((Some(p), j)),
            None => None,
        },
    }
}

fn parse_opt_point_value(v: &Vec<char>, i: usize) -> (r: Option<(Option<Point>, usize)>)
    requires
        i <= v.len(),
    ensures
        match r {
            Some((o, j)) => spec_parse_opt_point_value(v@, i as int) == Some((o, j as int)) && i
                < j <= v.len(),
            None => spec_parse_opt_point_value(v@, i as int) is None,
        },
{
    match parse_null(v, i) {
        Some(j) => Some((None, j)),
        None => match parse_point(v, i) {
            Some((p, j)) => Some((Some(p), j)),
            None => None,
        },
    }
}

/// The elements of a point array, from the first element.
pub open spec fn spec_parse_points_go(s: Seq<char>, i: int, acc: Seq<Point>) -> Option<
    (Seq<Point>, int),
>
    decreases s.len() - i,
{
    if !(0 <= i < s.len()) {
        None
    } else {
        match spec_parse_point(s, i) {
            None => None,
            Some((p, k)) => {
                let m = spec_skip_ws(s, k);
                if !(0 <= m < s.len()) {
                    None
                } else if s[m] == ',' {
                    spec_parse_points_go(s, if i < m + 1 <= s.len() {
                        m + 1
                    } else {
                        i + 1
                    }, acc.push(p))
                } else if s[m] == ']' {
                    Some((acc.push(p), m + 1))
                } else {
                    None
                }
            },
        }
    }
}

/// A point array, with leading whitespace.
pub open spec fn spec_parse_points_value(s: Seq<char>, i: int) -> Option<(Seq<Point>, int)> {
    let j = spec_skip_ws(s, i);
    if !(0 <= j < s.len() && s[j] == '[') {
        None
    } else {
        let j2 = spec_skip_ws(s, j + 1);
        if 0 <= j2 < s.len() && s[j2] == ']' {
            Some((Seq::empty(), j2 + 1))
        } else {
            spec_parse_points_go(s, j + 1, Seq::empty())
        }
    }
}

fn parse_points_go(v: &Vec<char>, i: usize, acc: Vec<Point>) -> (r: Option<(Vec<Point>, usize)>)
    requires
        i <= v.len(),
    ensures
        match r {
            Some((w, j)) => spec_parse_points_go(v@, i as int, acc@) == Some((w@, j as int)) && i
                < j <= v.len(),
            None => spec_parse_points_go(v@, i as int, acc@) is None,
        },
    decreases v.len() - i,
{
    if !(i < v.len()) {
        return None;
    }
    match parse_point(v, i) {
        None => None,
        Some((p, k)) => {
            let m = skip_ws(v, k);
            if !(m < v.len()) {
                None
            } else if v[m] == ',' {
                let next = if m + 1 > i {
                    m + 1
                } else {
                    i + 1
                };
                let mut acc2 = acc;
                acc2.push(p);
                parse_points_go(v, next, acc2)
            } else if v[m] == ']' {
                let mut acc2 = acc;
                acc2.push(p);
                Some((acc2, m + 1))
            } else {
                None
            }
        },
    }
}

fn parse_points_value(v: &Vec<char>, i: usize) -> (r: Option<(Vec<Point>, usize)>)
    requires
        i <= v.len(),
    ensures
        match r {
            Some((w, j)) => spec_parse_points_value(v@, i as int) == Some((w@, j as int)) && i < j
                <= v.len(),
            None => spec_parse_points_value(v@, i as int) is None,
        },
{
    let j = skip_ws(v, i);
    if !(j < v.len() && v[j] == '[') {
        return None;
    }
    let j2 = skip_ws(v, j + 1);
    if j2 < v.len() && v[j2] == ']' {
        let acc: Vec<Point> = Vec::new();
        proof {
            assert(acc@ =~= Seq::<Point>::empty());
        }
        return Some((acc, j2 + 1));
    }
    let acc: Vec<Point> = Vec::new();
    proof {
        assert(acc@ =~= Seq::<Point>::empty());
    }
    parse_points_go(v, j + 1, acc)
}


/// The members of a color object, after the opening brace.
pub open spec fn spec_parse_color_go(s: Seq<char>, i: int, r: Option<u8>, g: Option<u8>,
    b: Option<u8>, a: Option<u8>) -> Option<(ColorRgba8, int)>
    decreases s.len() - i,
{
    if !(0 <= i < s.len()) {
        None
    } else {
        let j = spec_skip_ws(s, i);
        if !(0 <= j < s.len()) {
            None
        } else if s[j] == '}' {
            match (r, g, b, a) {
                (Some(rv), Some(gv), Some(bv), Some(av)) => Some(
                    (ColorRgba8 { r: rv, g: gv, b: bv, a: av }, j + 1),
                ),
                _ => None,
            }
        } else {
            match spec_parse_string(s, j) {
                None => None,
                Some((key, j2)) => {
                    let j3 = spec_skip_ws(s, j2);
                    if !(0 <= j3 < s.len() && s[j3] == ':') {
                        None
                    } else {
                        let stepped: Option<(Option<u8>, Option<u8>, Option<u8>, Option<u8>, int)>
                            = if key == "r"@ || key == "g"@ || key == "b"@ || key == "a"@ {
                            match spec_parse_u64_value(s, j3 + 1) {
                                Some((d, j4)) => if d <= 255 {
                                    if key == "r"@ {
                                        Some((Some(d as u8), g, b, a, j4))
                                    } else if key == "g"@ {
                                        Some((r, Some(d as u8), b, a, j4))
                                    } else if key == "b"@ {
                                        Some((r, g, Some(d as u8), a, j4))
                                    } else {
                                        Some((r, g, b, Some(d as u8), j4))
                                    }
                                } else {
                                    None
                                },
                                None => None,
                            }
                        } else {
                            match spec_skip_value(s, spec_adv(i, j3 + 1)) {
                                Some(j4) => Some((r, g, b, a, j4)),
                                None => None,
                            }
                        };
                        match stepped {
                            None => None,
                            Some((r2, g2, b2, a2, j5)) => {
                                let m = spec_skip_ws(s, j5);
                                if !(0 <= m < s.len()) {
                                    None
                                } else if s[m] == ',' {
                                    spec_parse_color_go(s, if i < m + 1 <= s.len() {
                                        m + 1
                                    } else {
                                        i + 1
                                    }, r2, g2, b2, a2)
                                } else if s[m] == '}' {
                                    match (r2, g2, b2, a2) {
                                        (Some(rv), Some(gv), Some(bv), Some(av)) => Some(
                                            (ColorRgba8 { r: rv, g: gv, b: bv, a: av }, m + 1),
                                        ),
                                        _ => None,
                                    }
                                } else {
                                    None
                                }
                            },
                        }
                    }
                },
            }
        }
    }
}

/// A color object, with leading whitespace.
pub open spec fn spec_parse_color(s: Seq<char>, i: int) -> Option<(ColorRgba8, int)> {
    let j = spec_skip_ws(s, i);
    if 0 <= j < s.len() && s[j] == '{' {
        spec_parse_color_go(s, j + 1, None, None, None, None)
    } else {
        None
    }
}

fn parse_color_go(v: &Vec<char>, i: usize, r: Option<u8>, g: Option<u8>, b: Option<u8>, a: Option<
    u8,
>) -> (res: Option<(ColorRgba8, usize)>)
    requires
        i <= v.len(),
    ensures
        match res {
            Some((c, j)) => spec_parse_color_go(v@, i as int, r, g, b, a) == Some((c, j as int))
                && i < j <= v.len(),
            None => spec_parse_color_go(v@, i as int, r, g, b, a) is None,
        },
    decreases v.len() - i,
{
    if !(i < v.len()) {
        return None;
    }
    let j = skip_ws(v, i);
    if !(j < v.len()) {
        return None;
    }
    if v[j] == '}' {
        return match (r, g, b, a) {
            (Some(rv), Some(gv), Some(bv), Some(av)) => Some(
                (ColorRgba8 { r: rv, g: gv, b: bv, a: av }, j + 1),
            ),
            _ => None,
        };
    }
    match parse_string(v, j) {
        None => None,
        Some((key, j2)) => {
            let j3 = skip_ws(v, j2);
            if !(j3 < v.len() && v[j3] == ':') {
                return None;
            }
            let is_r = chars_eq_str(&key, "r");
            let is_g = chars_eq_str(&key, "g");
            let is_b = chars_eq_str(&key, "b");
            let is_a = chars_eq_str(&key, "a");
            let stepped: Option<(Option<u8>, Option<u8>, Option<u8>, Option<u8>, usize)> = if is_r
                || is_g || is_b || is_a {
                match parse_u64_value(v, j3 + 1) {
                    Some((d, j4)) => {
                        if d <= 255 {
                            if is_r {
                                Some((Some(d as u8), g, b, a, j4))
                            } else if is_g {
                                Some((r, Some(d as u8), b, a, j4))
                            } else if is_b {
                                Some((r, g, Some(d as u8), a, j4))
                            } else {
                                Some((r, g, b, Some(d as u8), j4))
                            }
                        } else {
                            None
                        }
                    },
                    None => None,
                }
            } else {
                let next = if j3 + 1 > i {
                    j3 + 1
                } else {
                    i + 1
                };
                match skip_value(v, next) {
                    Some(j4) => Some((r, g, b, a, j4)),
                    None => None,
                }
            };
            match stepped {
                None => None,
                Some((r2, g2, b2, a2, j5)) => {
                    let m = skip_ws(v, j5);
                    if !(m < v.len()) {
                        None
                    } else if v[m] == ',' {
                        let next = if m + 1 > i {
                            m + 1
                        } else {
                            i + 1
                        };
                        parse_color_go(v, next, r2, g2, b2, a2)
                    } else if v[m] == '}' {
                        match (r2, g2, b2, a2) {
                            (Some(rv), Some(gv), Some(bv), Some(av)) => Some(
                                (ColorRgba8 { r: rv, g: gv, b: bv, a: av }, m + 1),
                            ),
                            _ => None,
                        }
                    } else {
                        None
                    }
                },
            }
        },
    }
}

fn parse_color(v: &Vec<char>, i: usize) -> (r: Option<(ColorRgba8, usize)>)
    requires
        i <= v.len(),
    ensures
        match r {
            Some((c, j)) => spec_parse_color(v@, i as int) == Some((c, j as int)) && i < j
                <= v.len(),
            None => spec_parse_color(v@, i as int) is None,
        },
{
    let j = skip_ws(v, i);
    if j < v.len() && v[j] == '{' {
        parse_color_go(v, j + 1, None, None, None, None)
    } else {
        None
    }
}


/// The members of a stroke object, after the opening brace.
pub open spec fn spec_parse_stroke_go(s: Seq<char>, i: int, id: Option<u64>,
    color: Option<ColorRgba8>, width: Option<u32>, points: Option<Seq<Point>>) -> Option<
    (StrokeModel, int),
>
    decreases s.len() - i,
{
    if !(0 <= i < s.len()) {
        None
    } else {
        let j = spec_skip_ws(s, i);
        if !(0 <= j < s.len()) {
            None
        } else if s[j] == '}' {
            match (id, color, width, points) {
                (Some(idv), Some(cv), Some(wv), Some(pv)) => Some(
                    (StrokeModel { id: idv, color: cv, width: wv, points: pv }, j + 1),
                ),
                _ => None,
            }
        } else {
            match spec_parse_string(s, j) {
                None => None,
                Some((key, j2)) => {
                    let j3 = spec_skip_ws(s, j2);
                    if !(0 <= j3 < s.len() && s[j3] == ':') {
                        None
                    } else {
                        let stepped: Option<
                            (Option<u64>, Option<ColorRgba8>, Option<u32>, Option<Seq<Point>>, int),
                        > = if key == "id"@ {
                            match spec_parse_u64_value(s, j3 + 1) {
                                Some((n, j4)) => Some((Some(n), color, width, points, j4)),
                                None => None,
                            }
                        } else if key == "color"@ {
                            match spec_parse_color(s, j3 + 1) {
                                Some((c, j4)) => Some((id, Some(c), width, points, j4)),
                                None => None,
                            }
                        } else if key == "width"@ {
                            match spec_parse_f32_value(s, j3 + 1) {
                                Some((w, j4)) => Some((id, color, Some(w), points, j4)),
                                None => None,
                            }
                        } else if key == "points"@ {
                            match spec_parse_points_value(s, j3 + 1) {
                                Some((p, j4)) => Some((id, color, width, Some(p), j4)),
                                None => None,
                            }
                        } else {
                            match spec_skip_value(s, spec_adv(i, j3 + 1)) {
                                Some(j4) => Some((id, color, width, points, j4)),
                                None => None,
                            }
                        };
                        match stepped {
                            None => None,
                            Some((id2, c2, w2, p2, j5)) => {
                                let m = spec_skip_ws(s, j5);
                                if !(0 <= m < s.len()) {
                                    None
                                } else if s[m] == ',' {
                                    spec_parse_stroke_go(s, if i < m + 1 <= s.len() {
                                        m + 1
                                    } else {
                                        i + 1
                                    }, id2, c2, w2, p2)
                                } else if s[m] == '}' {
                                    match (id2, c2, w2, p2) {
                                        (Some(idv), Some(cv), Some(wv), Some(pv)) => Some(
                                            (StrokeModel { id: idv, color: cv, width: wv,
                                                points: pv }, m + 1),
                                        ),
                                        _ => None,
                                    }
                                } else {
                                    None
                                }
                            },
                        }
                    }
                },
            }
        }
    }
}

/// A stroke object, with leading whitespace.
pub open spec fn spec_parse_stroke(s: Seq<char>, i: int) -> Option<(StrokeModel, int)> {
    let j = spec_skip_ws(s, i);
    if 0 <= j < s.len() && s[j] == '{' {
        spec_parse_stroke_go(s, j + 1, None, None, None, None)
    } else {
        None
    }
}

struct StrokeSlots {
    id: Option<u64>,
    color: Option<ColorRgba8>,
    width: Option<u32>,
    points: Option<Vec<Point>>,
}

impl StrokeSlots {
    spec fn points_model(&self) -> Option<Seq<Point>> {
        match self.points {
            Some(ref p) => Some(p@),
            None => None,
        }
    }
}

fn parse_stroke_go(v: &Vec<char>, i: usize, slots: StrokeSlots) -> (r: Option<(Stroke, usize)>)
    requires
        i <= v.len(),
    ensures
        match r {
            Some((st, j)) => spec_parse_stroke_go(v@, i as int, slots.id, slots.color, slots.width,
                slots.points_model()) == Some((st.deep_view(), j as int)) && i < j <= v.len(),
            None => spec_parse_stroke_go(v@, i as int, slots.id, slots.color, slots.width,
                slots.points_model()) is None,
        },
    decreases v.len() - i,
{
    if !(i < v.len()) {
        return None;
    }
    let j = skip_ws(v, i);
    if !(j < v.len()) {
        return None;
    }
    if v[j] == '}' {
        return match slots {
            StrokeSlots { id: Some(idv), color: Some(cv), width: Some(wv), points: Some(pv) } => {
                Some((Stroke { id: idv, color: cv, width: wv, points: pv }, j + 1))
            },
            _ => None,
        };
    }
    match parse_string(v, j) {
        None => None,
        Some((key, j2)) => {
            let j3 = skip_ws(v, j2);
            if !(j3 < v.len() && v[j3] == ':') {
                return None;
            }
            let stepped: Option<(StrokeSlots, usize)> = if chars_eq_str(&key, "id") {
                match parse_u64_value(v, j3 + 1) {
                    Some((n, j4)) => Some((StrokeSlots { id: Some(n), ..slots }, j4)),
                    None => None,
                }
            } else if chars_eq_str(&key, "color") {
                match parse_color(v, j3 + 1) {
                    Some((c, j4)) => Some((StrokeSlots { color: Some(c), ..slots }, j4)),
                    None => None,
                }
            } else if chars_eq_str(&key, "width") {
                match parse_f32_ws(v, j3 + 1) {
                    Some((w, j4)) => Some((StrokeSlots { width: Some(w), ..slots }, j4)),
                    None => None,
                }
            } else if chars_eq_str(&key, "points") {
                match parse_points_value(v, j3 + 1) {
                    Some((p, j4)) => Some((StrokeSlots { points: Some(p), ..slots }, j4)),
                    None => None,
                }
            } else {
                let next = if j3 + 1 > i {
                    j3 + 1
                } else {
                    i + 1
                };
                match skip_value(v, next) {
                    Some(j4) => Some((slots, j4)),
                    None => None,
                }
            };
            match stepped {
                None => None,
                Some((slots2, j5)) => {
                    let m = skip_ws(v, j5);
                    if !(m < v.len()) {
                        None
                    } else if v[m] == ',' {
                        let next = if m + 1 > i {
                            m + 1
                        } else {
                            i + 1
                        };
                        parse_stroke_go(v, next, slots2)
                    } else if v[m] == '}' {
                        match slots2 {
                            StrokeSlots {
                                id: Some(idv),
                                color: Some(cv),
                                width: Some(wv),
                                points: Some(pv),
                            } => Some((Stroke { id: idv, color: cv, width: wv, points: pv }, m + 1)),
                            _ => None,
                        }
                    } else {
                        None
                    }
                },
            }
        },
    }
}

fn parse_stroke(v: &Vec<char>, i: usize) -> (r: Option<(Stroke, usize)>)
    requires
        i <= v.len(),
    ensures
        match r {
            Some((st, j)) => spec_parse_stroke(v@, i as int) == Some((st.deep_view(), j as int))
                && i < j <= v.len(),
            None => spec_parse_stroke(v@, i as int) is None,
        },
{
    let j = skip_ws(v, i);
    if j < v.len() && v[j] == '{' {
        parse_stroke_go(v, j + 1, StrokeSlots { id: None, color: None, width: None, points: None })
    } else {
        None
    }
}


/// The members of a style object, after the opening brace.
pub open spec fn spec_parse_style_go(s: Seq<char>, i: int, sc: Option<ColorRgba8>,
    sw: Option<u32>, fe: Option<bool>, fc: Option<ColorRgba8>, he: Option<bool>, cr: Option<u32>,
) -> Option<(ShapeStyle, int)>
    decreases s.len() - i,
{
    if !(0 <= i < s.len()) {
        None
    } else {
        let j = spec_skip_ws(s, i);
        if !(0 <= j < s.len()) {
            None
        } else if s[j] == '}' {
            match (sc, sw, fe, fc, he, cr) {
                (Some(a), Some(b), Some(c), Some(d), Some(e), Some(f)) => Some(
                    (ShapeStyle { stroke_color: a, stroke_width: b, fill_enabled: c, fill_color: d,
                        hatch_enabled: e, corner_radius: f }, j + 1),
                ),
                _ => None,
            }
        } else {
            match spec_parse_string(s, j) {
                None => None,
                Some((key, j2)) => {
                    let j3 = spec_skip_ws(s, j2);
                    if !(0 <= j3 < s.len() && s[j3] == ':') {
                        None
                    } else {
                        let stepped: Option<
                            (
                                Option<ColorRgba8>,
                                Option<u32>,
                                Option<bool>,
                                Option<ColorRgba8>,
                                Option<bool>,
                                Option<u32>,
                                int,
                            ),
                        > = if key == "stroke_color"@ {
                            match spec_parse_color(s, j3 + 1) {
                                Some((c, j4)) => Some((Some(c), sw, fe, fc, he, cr, j4)),
                                None => None,
                            }
                        } else if key == "stroke_width"@ {
                            match spec_parse_f32_value(s, j3 + 1) {
                                Some((w, j4)) => Some((sc, Some(w), fe, fc, he, cr, j4)),
                                None => None,
                            }
                        } else if key == "fill_enabled"@ {
                            match spec_parse_bool_value(s, j3 + 1) {
                                Some((b, j4)) => Some((sc, sw, Some(b), fc, he, cr, j4)),
                                None => None,
                            }
                        } else if key == "fill_color"@ {
                            match spec_parse_color(s, j3 + 1) {
                                Some((c, j4)) => Some((sc, sw, fe, Some(c), he, cr, j4)),
                                None => None,
                            }
                        } else if key == "hatch_enabled"@ {
                            match spec_parse_bool_value(s, j3 + 1) {
                                Some((b, j4)) => Some((sc, sw, fe, fc, Some(b), cr, j4)),
                                None => None,
                            }
                        } else if key == "corner_radius"@ {
                            match spec_parse_f32_value(s, j3 + 1) {
                                Some((w, j4)) => Some((sc, sw, fe, fc, he, Some(w), j4)),
                                None => None,
                            }
                        } else {
                            match spec_skip_value(s, spec_adv(i, j3 + 1)) {
                                Some(j4) => Some((sc, sw, fe, fc, he, cr, j4)),
                                None => None,
                            }
                        };
                        match stepped {
                            None => None,
                            Some((sc2, sw2, fe2, fc2, he2, cr2, j5)) => {
                                let m = spec_skip_ws(s, j5);
                                if !(0 <= m < s.len()) {
                                    None
                                } else if s[m] == ',' {
                                    spec_parse_style_go(s, if i < m + 1 <= s.len() {
                                        m + 1
                                    } else {
                                        i + 1
                                    }, sc2, sw2, fe2, fc2, he2, cr2)
                                } else if s[m] == '}' {
                                    match (sc2, sw2, fe2, fc2, he2, cr2) {
                                        (Some(a), Some(b), Some(c), Some(d), Some(e), Some(f)) =>
                                            Some(
                                            (ShapeStyle { stroke_color: a, stroke_width: b,
                                                fill_enabled: c, fill_color: d, hatch_enabled: e,
                                                corner_radius: f }, m + 1),
                                        ),
                                        _ => None,
                                    }
                                } else {
                                    None
                                }
                            },
                        }
                    }
                },
            }
        }
    }
}

/// A style object, with leading whitespace.
pub open spec fn spec_parse_style(s: Seq<char>, i: int) -> Option<(ShapeStyle, int)> {
    let j = spec_skip_ws(s, i);
    if 0 <= j < s.len() && s[j] == '{' {
        spec_parse_style_go(s, j + 1, None, None, None, None, None, None)
    } else {
        None
    }
}

struct StyleSlots {
    sc: Option<ColorRgba8>,
    sw: Option<u32>,
    fe: Option<bool>,
    fc: Option<ColorRgba8>,
    he: Option<bool>,
    cr: Option<u32>,
}

fn parse_style_go(v: &Vec<char>, i: usize, slots: StyleSlots) -> (r: Option<(ShapeStyle, usize)>)
    requires
        i <= v.len(),
    ensures
        match r {
            Some((st, j)) => spec_parse_style_go(v@, i as int, slots.sc, slots.sw, slots.fe,
                slots.fc, slots.he, slots.cr) == Some((st, j as int)) && i < j <= v.len(),
            None => spec_parse_style_go(v@, i as int, slots.sc, slots.sw, slots.fe, slots.fc,
                slots.he, slots.cr) is None,
        },
    decreases v.len() - i,
{
    if !(i < v.len()) {
        return None;
    }
    let j = skip_ws(v, i);
    if !(j < v.len()) {
        return None;
    }
    if v[j] == '}' {
        return match slots {
            StyleSlots { sc: Some(a), sw: Some(b), fe: Some(c), fc: Some(d), he: Some(e), cr: Some(
                f,
            ) } => Some(
                (ShapeStyle { stroke_color: a, stroke_width: b, fill_enabled: c, fill_color: d,
                    hatch_enabled: e, corner_radius: f }, j + 1),
            ),
            _ => None,
        };
    }
    match parse_string(v, j) {
        None => None,
        Some((key, j2)) => {
            let j3 = skip_ws(v, j2);
            if !(j3 < v.len() && v[j3] == ':') {
                return None;
            }
            let stepped: Option<(StyleSlots, usize)> = if chars_eq_str(&key, "stroke_color") {
                match parse_color(v, j3 + 1) {
                    Some((c, j4)) => Some((StyleSlots { sc: Some(c), ..slots }, j4)),
                    None => None,
                }
            } else if chars_eq_str(&key, "stroke_width") {
                match parse_f32_ws(v, j3 + 1) {
                    Some((w, j4)) => Some((StyleSlots { sw: Some(w), ..slots }, j4)),
                    None => None,
                }
            } else if chars_eq_str(&key, "fill_enabled") {
                match parse_bool_value(v, j3 + 1) {
                    Some((b, j4)) => Some((StyleSlots { fe: Some(b), ..slots }, j4)),
                    None => None,
                }
            } else if chars_eq_str(&key, "fill_color") {
                match parse_color(v, j3 + 1) {
                    Some((c, j4)) => Some((StyleSlots { fc: Some(c), ..slots }, j4)),
                    None => None,
                }
            } else if chars_eq_str(&key, "hatch_enabled") {
                match parse_bool_value(v, j3 + 1) {
                    Some((b, j4)) => Some((StyleSlots { he: Some(b), ..slots }, j4)),
                    None => None,
                }
            } else if chars_eq_str(&key, "corner_radius") {
                match parse_f32_ws(v, j3 + 1) {
                    Some((w, j4)) => Some((StyleSlots { cr: Some(w), ..slots }, j4)),
                    None => None,
                }
            } else {
                let next = if j3 + 1 > i {
                    j3 + 1
                } else {
                    i + 1
                };
                match skip_value(v, next) {
                    Some(j4) => Some((slots, j4)),
                    None => None,
                }
            };
            match stepped {
                None => None,
                Some((slots2, j5)) => {
                    let m = skip_ws(v, j5);
                    if !(m < v.len()) {
                        None
                    } else if v[m] == ',' {
                        let next = if m + 1 > i {
                            m + 1
                        } else {
                            i + 1
                        };
                        parse_style_go(v, next, slots2)
                    } else if v[m] == '}' {
                        match slots2 {
                            StyleSlots {
                                sc: Some(a),
                                sw: Some(b),
                                fe: Some(c),
                                fc: Some(d),
                                he: Some(e),
                                cr: Some(f),
                            } => Some(
                                (ShapeStyle { stroke_color: a, stroke_width: b, fill_enabled: c,
                                    fill_color: d, hatch_enabled: e, corner_radius: f }, m + 1),
                            ),
                            _ => None,
                        }
                    } else {
                        None
                    }
                },
            }
        },
    }
}

fn parse_style(v: &Vec<char>, i: usize) -> (r: Option<(ShapeStyle, usize)>)
    requires
        i <= v.len(),
    ensures
        match r {
            Some((st, j)) => spec_parse_style(v@, i as int) == Some((st, j as int)) && i < j
                <= v.len(),
            None => spec_parse_style(v@, i as int) is None,
        },
{
    let j = skip_ws(v, i);
    if j < v.len() && v[j] == '{' {
        parse_style_go(
            v,
            j + 1,
            StyleSlots { sc: None, sw: None, fe: None, fc: None, he: None, cr: None },
        )
    } else {
        None
    }
}

/// A string value, with leading whitespace.
pub open spec fn spec_parse_string_value(s: Seq<char>, i: int) -> Option<(Seq<char>, int)> {
    spec_parse_string(s, spec_skip_ws(s, i))
}

fn parse_string_value(v: &Vec<char>, i: usize) -> (r: Option<(Vec<char>, usize)>)
    requires
        i <= v.len(),
    ensures
        match r {
            Some((w, j)) => spec_parse_string_value(v@, i as int) == Some((w@, j as int)) && i < j
                <= v.len(),
            None => spec_parse_string_value(v@, i as int) is None,
        },
{
    let j = skip_ws(v, i);
    parse_string(v, j)
}

/// The shape kind a name denotes.
pub open spec fn spec_kind_of_name(s: Seq<char>) -> Option<ShapeKind> {
    if s == "rectangle"@ {
        Some(ShapeKind::Rectangle)
    } else if s == "rounded_rectangle"@ {
        Some(ShapeKind::RoundedRectangle)
    } else if s == "ellipse"@ {
        Some(ShapeKind::Ellipse)
    } else if s == "arrow"@ {
        Some(ShapeKind::Arrow)
    } else if s == "curved_arrow"@ {
        Some(ShapeKind::CurvedArrow)
    } else {
        None
    }
}

fn kind_of_name(w: &Vec<char>) -> (r: Option<ShapeKind>)
    ensures
        r == spec_kind_of_name(w@),
{
    if chars_eq_str(w, "rectangle") {
        Some(ShapeKind::Rectangle)
    } else if chars_eq_str(w, "rounded_rectangle") {
        Some(ShapeKind::RoundedRectangle)
    } else if chars_eq_str(w, "ellipse") {
        Some(ShapeKind::Ellipse)
    } else if chars_eq_str(w, "arrow") {
        Some(ShapeKind::Arrow)
    } else if chars_eq_str(w, "curved_arrow") {
        Some(ShapeKind::CurvedArrow)
    } else {
        None
    }
}

pub open spec fn spec_align_h_of_name(s: Seq<char>) -> Option<TextAlignH> {
    if s == "left"@ {
        Some(TextAlignH::Left)
    } else if s == "center"@ {
        Some(TextAlignH::Center)
    } else if s == "right"@ {
        Some(TextAlignH::Right)
    } else {
        None
    }
}

fn align_h_of_name(w: &Vec<char>) -> (r: Option<TextAlignH>)
    ensures
        r == spec_align_h_of_name(w@),
{
    if chars_eq_str(w, "left") {
        Some(TextAlignH::Left)
    } else if chars_eq_str(w, "center") {
        Some(TextAlignH::Center)
    } else if chars_eq_str(w, "right") {
        Some(TextAlignH::Right)
    } else {
        None
    }
}

pub open spec fn spec_align_v_of_name(s: Seq<char>) -> Option<TextAlignV> {
    if s == "top"@ {
        Some(TextAlignV::Top)
    } else if s == "middle"@ {
        Some(TextAlignV::Middle)
    } else if s == "bottom"@ {
        Some(TextAlignV::Bottom)
    } else {
        None
    }
}

fn align_v_of_name(w: &Vec<char>) -> (r: Option<TextAlignV>)
    ensures
        r == spec_align_v_of_name(w@),
{
    if chars_eq_str(w, "top") {
        Some(TextAlignV::Top)
    } else if chars_eq_str(w, "middle") {
        Some(TextAlignV::Middle)
    } else if chars_eq_str(w, "bottom") {
        Some(TextAlignV::Bottom)
    } else {
        None
    }
}


/// The members of a shape object, after the opening brace.  Identity,
/// kind, style and the two endpoints are required; attachments, text and
/// alignment fall back to their defaults.
pub open spec fn spec_parse_shape_go(s: Seq<char>, i: int, id: Option<u64>,
    kind: Option<ShapeKind>, style: Option<ShapeStyle>, start: Option<Point>, end: Option<Point>,
    sai: Option<u64>, eai: Option<u64>, suv: Option<Point>, euv: Option<Point>,
    text: Option<Seq<char>>, tah: Option<TextAlignH>, tav: Option<TextAlignV>) -> Option<
    (crate::model::ShapeModel, int),
>
    decreases s.len() - i, 2int,
{
    if !(0 <= i < s.len()) {
        None
    } else {
        let j = spec_skip_ws(s, i);
        if !(0 <= j < s.len()) {
            None
        } else if s[j] == '}' {
            spec_shape_finish(id, kind, style, start, end, sai, eai, suv, euv, text, tah, tav,
                j + 1)
        } else {
            match spec_parse_string(s, j) {
                None => None,
                Some((key, j2)) => {
                    let j3 = spec_skip_ws(s, j2);
                    if !(0 <= j3 < s.len() && s[j3] == ':') {
                        None
                    } else if key == "id"@ {
                        match spec_parse_u64_value(s, j3 + 1) {
                            Some((n, j4)) => spec_parse_shape_next(s, i, Some(n), kind, style,
                                start, end, sai, eai, suv, euv, text, tah, tav, j4),
                            None => None,
                        }
                    } else if key == "kind"@ {
                        match spec_parse_string_value(s, j3 + 1) {
                            Some((name, j4)) => match spec_kind_of_name(name) {
                                Some(k) => spec_parse_shape_next(s, i, id, Some(k), style, start,
                                    end, sai, eai, suv, euv, text, tah, tav, j4),
                                None => None,
                            },
                            None => None,
                        }
                    } else if key == "style"@ {
                        match spec_parse_style(s, j3 + 1) {
                            Some((st, j4)) => spec_parse_shape_next(s, i, id, kind, Some(st),
                                start, end, sai, eai, suv, euv, text, tah, tav, j4),
                            None => None,
                        }
                    } else if key == "start"@ {
                        match spec_parse_point(s, j3 + 1) {
                            Some((p, j4)) => spec_parse_shape_next(s, i, id, kind, style, Some(p),
                                end, sai, eai, suv, euv, text, tah, tav, j4),
                            None => None,
                        }
                    } else if key == "end"@ {
                        match spec_parse_point(s, j3 + 1) {
                            Some((p, j4)) => spec_parse_shape_next(s, i, id, kind, style, start,
                                Some(p), sai, eai, suv, euv, text, tah, tav, j4),
                            None => None,
                        }
                    } else if key == "start_attach_id"@ {
                        match spec_parse_opt_u64_value(s, j3 + 1) {
                            Some((o, j4)) => spec_parse_shape_next(s, i, id, kind, style, start,
                                end, o, eai, suv, euv, text, tah, tav, j4),
                            None => None,
                        }
                    } else if key == "end_attach_id"@ {
                        match spec_parse_opt_u64_value(s, j3 + 1) {
                            Some((o, j4)) => spec_parse_shape_next(s, i, id, kind, style, start,
                                end, sai, o, suv, euv, text, tah, tav, j4),
                            None => None,
                        }
                    } else if key == "start_attach_uv"@ {
                        match spec_parse_opt_point_value(s, j3 + 1) {
                            Some((o, j4)) => spec_parse_shape_next(s, i, id, kind, style, start,
                                end, sai, eai, o, euv, text, tah, tav, j4),
                            None => None,
                        }
                    } else if key == "end_attach_uv"@ {
                        match spec_parse_opt_point_value(s, j3 + 1) {
                            Some((o, j4)) => spec_parse_shape_next(s, i, id, kind, style, start,
                                end, sai, eai, suv, o, text, tah, tav, j4),
                            None => None,
                        }
                    } else if key == "text"@ {
                        match spec_parse_string_value(s, j3 + 1) {
                            Some((w, j4)) => spec_parse_shape_next(s, i, id, kind, style, start,
                                end, sai, eai, suv, euv, Some(w), tah, tav, j4),
                            None => None,
                        }
                    } else if key == "text_align_h"@ {
                        match spec_parse_string_value(s, j3 + 1) {
                            Some((name, j4)) => match spec_align_h_of_name(name) {
                                Some(av) => spec_parse_shape_next(s, i, id, kind, style, start,
                                    end, sai, eai, suv, euv, text, Some(av), tav, j4),
                                None => None,
                            },
                            None => None,
                        }
                    } else if key == "text_align_v"@ {
                        match spec_parse_string_value(s, j3 + 1) {
                            Some((name, j4)) => match spec_align_v_of_name(name) {
                                Some(av) => spec_parse_shape_next(s, i, id, kind, style, start,
                                    end, sai, eai, suv, euv, text, tah, Some(av), j4),
                                None => None,
                            },
                            None => None,
                        }
                    } else {
                        match spec_skip_value(s, spec_adv(i, j3 + 1)) {
                            Some(j4) => spec_parse_shape_next(s, i, id, kind, style, start, end,
                                sai, eai, suv, euv, text, tah, tav, j4),
                            None => None,
                        }
                    }
                },
            }
        }
    }
}

/// After one member: a comma continues, a brace finishes.
pub open spec fn spec_parse_shape_next(s: Seq<char>, i: int, id: Option<u64>,
    kind: Option<ShapeKind>, style: Option<ShapeStyle>, start: Option<Point>, end: Option<Point>,
    sai: Option<u64>, eai: Option<u64>, suv: Option<Point>, euv: Option<Point>,
    text: Option<Seq<char>>, tah: Option<TextAlignH>, tav: Option<TextAlignV>, j5: int) -> Option<
    (crate::model::ShapeModel, int),
>
    decreases s.len() - i, 1int,
{
    if !(0 <= i < s.len()) {
        None
    } else {
    let m = spec_skip_ws(s, j5);
    if !(0 <= m < s.len()) {
        None
    } else if s[m] == ',' {
        spec_parse_shape_go(s, if i < m + 1 <= s.len() {
            m + 1
        } else {
            i + 1
        }, id, kind, style, start, end, sai, eai, suv, euv, text, tah, tav)
    } else if s[m] == '}' {
        spec_shape_finish(id, kind, style, start, end, sai, eai, suv, euv, text, tah, tav, m + 1)
    } else {
        None
    }
    }
}

/// Builds the shape if the required members are present, applying the
/// defaults for the rest.
pub open spec fn spec_shape_finish(id: Option<u64>, kind: Option<ShapeKind>,
    style: Option<ShapeStyle>, start: Option<Point>, end: Option<Point>, sai: Option<u64>,
    eai: Option<u64>, suv: Option<Point>, euv: Option<Point>, text: Option<Seq<char>>,
    tah: Option<TextAlignH>, tav: Option<TextAlignV>, at: int) -> Option<
    (crate::model::ShapeModel, int),
> {
    match (id, kind, style, start, end) {
        (Some(idv), Some(kv), Some(stv), Some(sv), Some(ev)) => Some(
            (
                crate::model::ShapeModel {
                    id: idv,
                    kind: kv,
                    style: stv,
                    start: sv,
                    end: ev,
                    start_attach_id: sai,
                    end_attach_id: eai,
                    start_attach_uv: suv,
                    end_attach_uv: euv,
                    text: match text {
                        Some(w) => w,
                        None => Seq::empty(),
                    },
                    text_align_h: match tah {
                        Some(a) => a,
                        None => TextAlignH::Center,
                    },
                    text_align_v: match tav {
                        Some(a) => a,
                        None => TextAlignV::Middle,
                    },
                },
                at,
            ),
        ),
        _ => None,
    }
}

/// A shape object, with leading whitespace.
pub open spec fn spec_parse_shape(s: Seq<char>, i: int) -> Option<(crate::model::ShapeModel, int)> {
    let j = spec_skip_ws(s, i);
    if 0 <= j < s.len() && s[j] == '{' {
        spec_parse_shape_go(s, j + 1, None, None, None, None, None, None, None, None, None, None,
            None, None)
    } else {
        None
    }
}

struct ShapeSlots {
    id: Option<u64>,
    kind: Option<ShapeKind>,
    style: Option<ShapeStyle>,
    start: Option<Point>,
    end: Option<Point>,
    sai: Option<u64>,
    eai: Option<u64>,
    suv: Option<Point>,
    euv: Option<Point>,
    text: Option<Vec<char>>,
    tah: Option<TextAlignH>,
    tav: Option<TextAlignV>,
}

impl ShapeSlots {
    spec fn text_model(&self) -> Option<Seq<char>> {
        match self.text {
            Some(ref w) => Some(w@),
            None => None,
        }
    }
}

fn shape_finish(slots: ShapeSlots, at: usize) -> (r: Option<(Shape, usize)>)
    ensures
        match r {
            Some((sh, j)) => spec_shape_finish(slots.id, slots.kind, slots.style, slots.start,
                slots.end, slots.sai, slots.eai, slots.suv, slots.euv, slots.text_model(),
                slots.tah, slots.tav, at as int) == Some((sh.deep_view(), j as int)) && j == at,
            None => spec_shape_finish(slots.id, slots.kind, slots.style, slots.start, slots.end,
                slots.sai, slots.eai, slots.suv, slots.euv, slots.text_model(), slots.tah,
                slots.tav, at as int) is None,
        },
{
    match slots {
        ShapeSlots {
            id: Some(idv),
            kind: Some(kv),
            style: Some(stv),
            start: Some(sv),
            end: Some(ev),
            sai,
            eai,
            suv,
            euv,
            text,
            tah,
            tav,
        } => {
            let text_string = match text {
                Some(w) => string_from_chars(&w),
                None => String::new(),
            };
            let sh = Shape {
                id: idv,
                kind: kv,
                style: stv,
                start: sv,
                end: ev,
                start_attach_id: sai,
                end_attach_id: eai,
                start_attach_uv: suv,
                end_attach_uv: euv,
                text: text_string,
                text_align_h: match tah {
                    Some(a) => a,
                    None => TextAlignH::Center,
                },
                text_align_v: match tav {
                    Some(a) => a,
                    None => TextAlignV::Middle,
                },
            };
            Some((sh, at))
        },
        _ => None,
    }
}

fn parse_shape_go(v: &Vec<char>, i: usize, slots: ShapeSlots) -> (r: Option<(Shape, usize)>)
    requires
        i <= v.len(),
    ensures
        match r {
            Some((sh, j)) => spec_parse_shape_go(v@, i as int, slots.id, slots.kind, slots.style,
                slots.start, slots.end, slots.sai, slots.eai, slots.suv, slots.euv,
                slots.text_model(), slots.tah, slots.tav) == Some((sh.deep_view(), j as int)) && i
                < j <= v.len(),
            None => spec_parse_shape_go(v@, i as int, slots.id, slots.kind, slots.style,
                slots.start, slots.end, slots.sai, slots.eai, slots.suv, slots.euv,
                slots.text_model(), slots.tah, slots.tav) is None,
        },
    decreases v.len() - i, 2int,
{
    if !(i < v.len()) {
        return None;
    }
    let j = skip_ws(v, i);
    if !(j < v.len()) {
        return None;
    }
    if v[j] == '}' {
        return shape_finish(slots, j + 1);
    }
    match parse_string(v, j) {
        None => None,
        Some((key, j2)) => {
            let j3 = skip_ws(v, j2);
            if !(j3 < v.len() && v[j3] == ':') {
                return None;
            }
            if chars_eq_str(&key, "id") {
                match parse_u64_value(v, j3 + 1) {
                    Some((n, j4)) => parse_shape_next(v, i, ShapeSlots { id: Some(n), ..slots },
                        j4),
                    None => None,
                }
            } else if chars_eq_str(&key, "kind") {
                match parse_string_value(v, j3 + 1) {
                    Some((name, j4)) => match kind_of_name(&name) {
                        Some(k) => parse_shape_next(v, i, ShapeSlots { kind: Some(k), ..slots },
                            j4),
                        None => None,
                    },
                    None => None,
                }
            } else if chars_eq_str(&key, "style") {
                match parse_style(v, j3 + 1) {
                    Some((st, j4)) => parse_shape_next(v, i, ShapeSlots { style: Some(st), ..slots },
                        j4),
                    None => None,
                }
            } else if chars_eq_str(&key, "start") {
                match parse_point(v, j3 + 1) {
                    Some((p, j4)) => parse_shape_next(v, i, ShapeSlots { start: Some(p), ..slots },
                        j4),
                    None => None,
                }
            } else if chars_eq_str(&key, "end") {
                match parse_point(v, j3 + 1) {
                    Some((p, j4)) => parse_shape_next(v, i, ShapeSlots { end: Some(p), ..slots },
                        j4),
                    None => None,
                }
            } else if chars_eq_str(&key, "start_attach_id") {
                match parse_opt_u64_value(v, j3 + 1) {
                    Some((o, j4)) => parse_shape_next(v, i, ShapeSlots { sai: o, ..slots }, j4),
                    None => None,
                }
            } else if chars_eq_str(&key, "end_attach_id") {
                match parse_opt_u64_value(v, j3 + 1) {
                    Some((o, j4)) => parse_shape_next(v, i, ShapeSlots { eai: o, ..slots }, j4),
                    None => None,
                }
            } else if chars_eq_str(&key, "start_attach_uv") {
                match parse_opt_point_value(v, j3 + 1) {
                    Some((o, j4)) => parse_shape_next(v, i, ShapeSlots { suv: o, ..slots }, j4),
                    None => None,
                }
            } else if chars_eq_str(&key, "end_attach_uv") {
                match parse_opt_point_value(v, j3 + 1) {
                    Some((o, j4)) => parse_shape_next(v, i, ShapeSlots { euv: o, ..slots }, j4),
                    None => None,
                }
            } else if chars_eq_str(&key, "text") {
                match parse_string_value(v, j3 + 1) {
                    Some((w, j4)) => parse_shape_next(v, i, ShapeSlots { text: Some(w), ..slots },
                        j4),
                    None => None,
                }
            } else if chars_eq_str(&key, "text_align_h") {
                match parse_string_value(v, j3 + 1) {
                    Some((name, j4)) => match align_h_of_name(&name) {
                        Some(a) => parse_shape_next(v, i, ShapeSlots { tah: Some(a), ..slots }, j4),
                        None => None,
                    },
                    None => None,
                }
            } else if chars_eq_str(&key, "text_align_v") {
                match parse_string_value(v, j3 + 1) {
                    Some((name, j4)) => match align_v_of_name(&name) {
                        Some(a) => parse_shape_next(v, i, ShapeSlots { tav: Some(a), ..slots }, j4),
                        None => None,
                    },
                    None => None,
                }
            } else {
                let next = if j3 + 1 > i {
                    j3 + 1
                } else {
                    i + 1
                };
                match skip_value(v, next) {
                    Some(j4) => parse_shape_next(v, i, slots, j4),
                    None => None,
                }
            }
        },
    }
}

fn parse_shape_next(v: &Vec<char>, i: usize, slots: ShapeSlots, j5: usize) -> (r: Option<
    (Shape, usize),
>)
    requires
        i <= v.len(),
        i < j5 <= v.len(),
    ensures
        match r {
            Some((sh, j)) => spec_parse_shape_next(v@, i as int, slots.id, slots.kind, slots.style,
                slots.start, slots.end, slots.sai, slots.eai, slots.suv, slots.euv,
                slots.text_model(), slots.tah, slots.tav, j5 as int) == Some(
                (sh.deep_view(), j as int),
            ) && i < j <= v.len(),
            None => spec_parse_shape_next(v@, i as int, slots.id, slots.kind, slots.style,
                slots.start, slots.end, slots.sai, slots.eai, slots.suv, slots.euv,
                slots.text_model(), slots.tah, slots.tav, j5 as int) is None,
        },
    decreases v.len() - i, 1int,
{
    if !(i < v.len()) {
        return None;
    }
    let m = skip_ws(v, j5);
    if !(m < v.len()) {
        None
    } else if v[m] == ',' {
        let next = if m + 1 > i {
            m + 1
        } else {
            i + 1
        };
        parse_shape_go(v, next, slots)
    } else if v[m] == '}' {
        shape_finish(slots, m + 1)
    } else {
        None
    }
}

fn parse_shape(v: &Vec<char>, i: usize) -> (r: Option<(Shape, usize)>)
    requires
        i <= v.len(),
    ensures
        match r {
            Some((sh, j)) => spec_parse_shape(v@, i as int) == Some((sh.deep_view(), j as int))
                && i < j <= v.len(),
            None => spec_parse_shape(v@, i as int) is None,
        },
{
    let j = skip_ws(v, i);
    if j < v.len() && v[j] == '{' {
        parse_shape_go(
            v,
            j + 1,
            ShapeSlots {
                id: None,
                kind: None,
                style: None,
                start: None,
                end: None,
                sai: None,
                eai: None,
                suv: None,
                euv: None,
                text: None,
                tah: None,
                tav: None,
            },
        )
    } else {
        None
    }
}


/// The members of an item object, after the opening brace: a "type" tag
/// and a "data" payload, in either order; the payload's span is remembered
/// and re-parsed once the tag is known.
pub open spec fn spec_parse_item_go(s: Seq<char>, i: int, ty: Option<Seq<char>>,
    data_start: Option<int>) -> Option<(ItemModel, int)>
    decreases s.len() - i,
{
    if !(0 <= i < s.len()) {
        None
    } else {
        let j = spec_skip_ws(s, i);
        if !(0 <= j < s.len()) {
            None
        } else if s[j] == '}' {
            spec_item_finish(s, ty, data_start, j + 1)
        } else {
            match spec_parse_string(s, j) {
                None => None,
                Some((key, j2)) => {
                    let j3 = spec_skip_ws(s, j2);
                    if !(0 <= j3 < s.len() && s[j3] == ':') {
                        None
                    } else {
                        let stepped: Option<(Option<Seq<char>>, Option<int>, int)> = if key
                            == "type"@ {
                            match spec_parse_string_value(s, j3 + 1) {
                                Some((name, j4)) => Some((Some(name), data_start, j4)),
                                None => None,
                            }
                        } else if key == "data"@ {
                            match spec_skip_value(s, spec_adv(i, j3 + 1)) {
                                Some(j4) => Some((ty, Some(spec_adv(i, j3 + 1)), j4)),
                                None => None,
                            }
                        } else {
                            match spec_skip_value(s, spec_adv(i, j3 + 1)) {
                                Some(j4) => Some((ty, data_start, j4)),
                                None => None,
                            }
                        };
                        match stepped {
                            None => None,
                            Some((ty2, ds2, j5)) => {
                                let m = spec_skip_ws(s, j5);
                                if !(0 <= m < s.len()) {
                                    None
                                } else if s[m] == ',' {
                                    spec_parse_item_go(s, if i < m + 1 <= s.len() {
                                        m + 1
                                    } else {
                                        i + 1
                                    }, ty2, ds2)
                                } else if s[m] == '}' {
                                    spec_item_finish(s, ty2, ds2, m + 1)
                                } else {
                                    None
                                }
                            },
                        }
                    }
                },
            }
        }
    }
}

/// Re-parses the remembered payload under the tag.
pub open spec fn spec_item_finish(s: Seq<char>, ty: Option<Seq<char>>, data_start: Option<int>,
    at: int) -> Option<(ItemModel, int)> {
    match (ty, data_start) {
        (Some(name), Some(ds)) => if name == "stroke"@ {
            match spec_parse_stroke(s, ds) {
                Some((sm, _end)) => Some((ItemModel::Stroke(sm), at)),
                None => None,
            }
        } else if name == "shape"@ {
            match spec_parse_shape(s, ds) {
                Some((shm, _end)) => Some((ItemModel::Shape(shm), at)),
                None => None,
            }
        } else {
            None
        },
        _ => None,
    }
}

/// An item object, with leading whitespace.
pub open spec fn spec_parse_item(s: Seq<char>, i: int) -> Option<(ItemModel, int)> {
    let j = spec_skip_ws(s, i);
    if 0 <= j < s.len() && s[j] == '{' {
        spec_parse_item_go(s, j + 1, None, None)
    } else {
        None
    }
}

struct ItemSlots {
    ty: Option<Vec<char>>,
    data_start: Option<usize>,
}

impl ItemSlots {
    spec fn ty_model(&self) -> Option<Seq<char>> {
        match self.ty {
            Some(ref w) => Some(w@),
            None => None,
        }
    }

    spec fn ds_model(&self) -> Option<int> {
        match self.data_start {
            Some(d) => Some(d as int),
            None => None,
        }
    }
}

fn item_finish(v: &Vec<char>, slots: ItemSlots, at: usize) -> (r: Option<(Item, usize)>)
    requires
        slots.data_start is Some ==> slots.data_start.unwrap() <= v.len(),
    ensures
        match r {
            Some((it, j)) => spec_item_finish(v@, slots.ty_model(), slots.ds_model(), at as int)
                == Some((it.deep_view(), j as int)) && j == at,
            None => spec_item_finish(v@, slots.ty_model(), slots.ds_model(), at as int) is None,
        },
{
    match slots {
        ItemSlots { ty: Some(name), data_start: Some(ds) } => {
            if chars_eq_str(&name, "stroke") {
                match parse_stroke(v, ds) {
                    Some((st, _end)) => Some((Item::Stroke(st), at)),
                    None => None,
                }
            } else if chars_eq_str(&name, "shape") {
                match parse_shape(v, ds) {
                    Some((sh, _end)) => Some((Item::Shape(sh), at)),
                    None => None,
                }
            } else {
                None
            }
        },
        _ => None,
    }
}

fn parse_item_go(v: &Vec<char>, i: usize, slots: ItemSlots) -> (r: Option<(Item, usize)>)
    requires
        i <= v.len(),
        slots.data_start is Some ==> slots.data_start.unwrap() <= v.len(),
    ensures
        match r {
            Some((it, j)) => spec_parse_item_go(v@, i as int, slots.ty_model(), slots.ds_model())
                == Some((it.deep_view(), j as int)) && i < j <= v.len(),
            None => spec_parse_item_go(v@, i as int, slots.ty_model(), slots.ds_model()) is None,
        },
    decreases v.len() - i,
{
    if !(i < v.len()) {
        return None;
    }
    let j = skip_ws(v, i);
    if !(j < v.len()) {
        return None;
    }
    if v[j] == '}' {
        return item_finish(v, slots, j + 1);
    }
    match parse_string(v, j) {
        None => None,
        Some((key, j2)) => {
            let j3 = skip_ws(v, j2);
            if !(j3 < v.len() && v[j3] == ':') {
                return None;
            }
            let stepped: Option<(ItemSlots, usize)> = if chars_eq_str(&key, "type") {
                match parse_string_value(v, j3 + 1) {
                    Some((name, j4)) => Some((ItemSlots { ty: Some(name), ..slots }, j4)),
                    None => None,
                }
            } else if chars_eq_str(&key, "data") {
                let next = if j3 + 1 > i {
                    j3 + 1
                } else {
                    i + 1
                };
                match skip_value(v, next) {
                    Some(j4) => Some((ItemSlots { data_start: Some(next), ..slots }, j4)),
                    None => None,
                }
            } else {
                let next = if j3 + 1 > i {
                    j3 + 1
                } else {
                    i + 1
                };
                match skip_value(v, next) {
                    Some(j4) => Some((slots, j4)),
                    None => None,
                }
            };
            match stepped {
                None => None,
                Some((slots2, j5)) => {
                    let m = skip_ws(v, j5);
                    if !(m < v.len()) {
                        None
                    } else if v[m] == ',' {
                        let next = if m + 1 > i {
                            m + 1
                        } else {
                            i + 1
                        };
                        parse_item_go(v, next, slots2)
                    } else if v[m] == '}' {
                        item_finish(v, slots2, m + 1)
                    } else {
                        None
                    }
                },
            }
        },
    }
}

fn parse_item(v: &Vec<char>, i: usize) -> (r: Option<(Item, usize)>)
    requires
        i <= v.len(),
    ensures
        match r {
            Some((it, j)) => spec_parse_item(v@, i as int) == Some((it.deep_view(), j as int))
                && i < j <= v.len(),
            None => spec_parse_item(v@, i as int) is None,
        },
{
    let j = skip_ws(v, i);
    if j < v.len() && v[j] == '{' {
        parse_item_go(v, j + 1, ItemSlots { ty: None, data_start: None })
    } else {
        None
    }
}

/// The elements of the item array, from the first element.
pub open spec fn spec_parse_items_go(s: Seq<char>, i: int, acc: Seq<ItemModel>) -> Option<
    (Seq<ItemModel>, int),
>
    decreases s.len() - i,
{
    if !(0 <= i < s.len()) {
        None
    } else {
        match spec_parse_item(s, i) {
            None => None,
            Some((it, k)) => {
                let m = spec_skip_ws(s, k);
                if !(0 <= m < s.len()) {
                    None
                } else if s[m] == ',' {
                    spec_parse_items_go(s, if i < m + 1 <= s.len() {
                        m + 1
                    } else {
                        i + 1
                    }, acc.push(it))
                } else if s[m] == ']' {
                    Some((acc.push(it), m + 1))
                } else {
                    None
                }
            },
        }
    }
}

/// The item array, with leading whitespace.
pub open spec fn spec_parse_items_value(s: Seq<char>, i: int) -> Option<(Seq<ItemModel>, int)> {
    let j = spec_skip_ws(s, i);
    if !(0 <= j < s.len() && s[j] == '[') {
        None
    } else {
        let j2 = spec_skip_ws(s, j + 1);
        if 0 <= j2 < s.len() && s[j2] == ']' {
            Some((Seq::empty(), j2 + 1))
        } else {
            spec_parse_items_go(s, j + 1, Seq::empty())
        }
    }
}

fn parse_items_go(v: &Vec<char>, i: usize, acc: Vec<Item>) -> (r: Option<(Vec<Item>, usize)>)
    requires
        i <= v.len(),
    ensures
        match r {
            Some((w, j)) => spec_parse_items_go(v@, i as int, acc.deep_view()) == Some(
                (w.deep_view(), j as int),
            ) && i < j <= v.len(),
            None => spec_parse_items_go(v@, i as int, acc.deep_view()) is None,
        },
    decreases v.len() - i,
{
    if !(i < v.len()) {
        return None;
    }
    match parse_item(v, i) {
        None => None,
        Some((it, k)) => {
            let ghost itm = it.deep_view();
            let m = skip_ws(v, k);
            if !(m < v.len()) {
                None
            } else if v[m] == ',' {
                let next = if m + 1 > i {
                    m + 1
                } else {
                    i + 1
                };
                let ghost pre = acc.deep_view();
                let mut acc2 = acc;
                acc2.push(it);
                proof {
                    assert forall|kk: int| 0 <= kk < acc2.deep_view().len() implies acc2.deep_view(
                    )[kk] == pre.push(itm)[kk] by {
                        if kk < pre.len() {
                            assert(acc2@[kk] == acc2@.subrange(0, acc2@.len() - 1)[kk]);
                        }
                    }
                    assert(acc2.deep_view() =~= pre.push(itm));
                }
                parse_items_go(v, next, acc2)
            } else if v[m] == ']' {
                let ghost pre = acc.deep_view();
                let mut acc2 = acc;
                acc2.push(it);
                proof {
                    assert forall|kk: int| 0 <= kk < acc2.deep_view().len() implies acc2.deep_view(
                    )[kk] == pre.push(itm)[kk] by {
                        if kk < pre.len() {
                            assert(acc2@[kk] == acc2@.subrange(0, acc2@.len() - 1)[kk]);
                        }
                    }
                    assert(acc2.deep_view() =~= pre.push(itm));
                }
                Some((acc2, m + 1))
            } else {
                None
            }
        },
    }
}

fn parse_items_value(v: &Vec<char>, i: usize) -> (r: Option<(Vec<Item>, usize)>)
    requires
        i <= v.len(),
    ensures
        match r {
            Some((w, j)) => spec_parse_items_value(v@, i as int) == Some((w.deep_view(), j as int))
                && i < j <= v.len(),
            None => spec_parse_items_value(v@, i as int) is None,
        },
{
    let j = skip_ws(v, i);
    if !(j < v.len() && v[j] == '[') {
        return None;
    }
    let j2 = skip_ws(v, j + 1);
    if j2 < v.len() && v[j2] == ']' {
        let acc: Vec<Item> = Vec::new();
        proof {
            assert(acc.deep_view() =~= Seq::<ItemModel>::empty());
        }
        return Some((acc, j2 + 1));
    }
    let acc: Vec<Item> = Vec::new();
    proof {
        assert(acc.deep_view() =~= Seq::<ItemModel>::empty());
    }
    parse_items_go(v, j + 1, acc)
}

/// The members of a version-2 document: a version number and the items.
pub open spec fn spec_parse_doc_v2_go(s: Seq<char>, i: int, version: Option<u64>,
    items: Option<Seq<ItemModel>>) -> Option<((u32, Seq<ItemModel>), int)>
    decreases s.len() - i,
{
    if !(0 <= i < s.len()) {
        None
    } else {
        let j = spec_skip_ws(s, i);
        if !(0 <= j < s.len()) {
            None
        } else if s[j] == '}' {
            spec_doc_v2_finish(version, items, j + 1)
        } else {
            match spec_parse_string(s, j) {
                None => None,
                Some((key, j2)) => {
                    let j3 = spec_skip_ws(s, j2);
                    if !(0 <= j3 < s.len() && s[j3] == ':') {
                        None
                    } else {
                        let stepped: Option<(Option<u64>, Option<Seq<ItemModel>>, int)> = if key
                            == "version"@ {
                            match spec_parse_u64_value(s, j3 + 1) {
                                Some((n, j4)) => Some((Some(n), items, j4)),
                                None => None,
                            }
                        } else if key == "items"@ {
                            match spec_parse_items_value(s, j3 + 1) {
                                Some((w, j4)) => Some((version, Some(w), j4)),
                                None => None,
                            }
                        } else {
                            match spec_skip_value(s, spec_adv(i, j3 + 1)) {
                                Some(j4) => Some((version, items, j4)),
                                None => None,
                            }
                        };
                        match stepped {
                            None => None,
                            Some((v2, it2, j5)) => {
                                let m = spec_skip_ws(s, j5);
                                if !(0 <= m < s.len()) {
                                    None
                                } else if s[m] == ',' {
                                    spec_parse_doc_v2_go(s, if i < m + 1 <= s.len() {
                                        m + 1
                                    } else {
                                        i + 1
                                    }, v2, it2)
                                } else if s[m] == '}' {
                                    spec_doc_v2_finish(v2, it2, m + 1)
                                } else {
                                    None
                                }
                            },
                        }
                    }
                },
            }
        }
    }
}

pub open spec fn spec_doc_v2_finish(version: Option<u64>, items: Option<Seq<ItemModel>>, at: int,
) -> Option<((u32, Seq<ItemModel>), int)> {
    match (version, items) {
        (Some(n), Some(w)) => if n <= u32::MAX {
            Some(((n as u32, w), at))
        } else {
            None
        },
        _ => None,
    }
}

pub open spec fn spec_parse_doc_v2(s: Seq<char>, i: int) -> Option<((u32, Seq<ItemModel>), int)> {
    let j = spec_skip_ws(s, i);
    if 0 <= j < s.len() && s[j] == '{' {
        spec_parse_doc_v2_go(s, j + 1, None, None)
    } else {
        None
    }
}

fn parse_doc_v2_go(v: &Vec<char>, i: usize, version: Option<u64>, items: Option<Vec<Item>>) -> (r:
    Option<((u32, Vec<Item>), usize)>)
    requires
        i <= v.len(),
    ensures
        ({
            let spec_items = match items {
                Some(ref w) => Some(w.deep_view()),
                None => None,
            };
            match r {
                Some(((ver, w), j)) => spec_parse_doc_v2_go(v@, i as int, version, spec_items)
                    == Some(((ver, w.deep_view()), j as int)) && i < j <= v.len(),
                None => spec_parse_doc_v2_go(v@, i as int, version, spec_items) is None,
            }
        }),
    decreases v.len() - i,
{
    if !(i < v.len()) {
        return None;
    }
    let j = skip_ws(v, i);
    if !(j < v.len()) {
        return None;
    }
    if v[j] == '}' {
        return match (version, items) {
            (Some(n), Some(w)) => if n <= u32::MAX as u64 {
                Some(((n as u32, w), j + 1))
            } else {
                None
            },
            _ => None,
        };
    }
    match parse_string(v, j) {
        None => None,
        Some((key, j2)) => {
            let j3 = skip_ws(v, j2);
            if !(j3 < v.len() && v[j3] == ':') {
                return None;
            }
            let stepped: Option<(Option<u64>, Option<Vec<Item>>, usize)> = if chars_eq_str(
                &key,
                "version",
            ) {
                match parse_u64_value(v, j3 + 1) {
                    Some((n, j4)) => Some((Some(n), items, j4)),
                    None => None,
                }
            } else if chars_eq_str(&key, "items") {
                match parse_items_value(v, j3 + 1) {
                    Some((w, j4)) => Some((version, Some(w), j4)),
                    None => None,
                }
            } else {
                let next = if j3 + 1 > i {
                    j3 + 1
                } else {
                    i + 1
                };
                match skip_value(v, next) {
                    Some(j4) => Some((version, items, j4)),
                    None => None,
                }
            };
            match stepped {
                None => None,
                Some((v2, it2, j5)) => {
                    let m = skip_ws(v, j5);
                    if !(m < v.len()) {
                        None
                    } else if v[m] == ',' {
                        let next = if m + 1 > i {
                            m + 1
                        } else {
                            i + 1
                        };
                        parse_doc_v2_go(v, next, v2, it2)
                    } else if v[m] == '}' {
                        match (v2, it2) {
                            (Some(n), Some(w)) => if n <= u32::MAX as u64 {
                                Some(((n as u32, w), m + 1))
                            } else {
                                None
                            },
                            _ => None,
                        }
                    } else {
                        None
                    }
                },
            }
        },
    }
}

/// The elements of the legacy stroke array.
pub open spec fn spec_parse_strokes_go(s: Seq<char>, i: int, acc: Seq<StrokeModel>) -> Option<
    (Seq<StrokeModel>, int),
>
    decreases s.len() - i,
{
    if !(0 <= i < s.len()) {
        None
    } else {
        match spec_parse_stroke(s, i) {
            None => None,
            Some((st, k)) => {
                let m = spec_skip_ws(s, k);
                if !(0 <= m < s.len()) {
                    None
                } else if s[m] == ',' {
                    spec_parse_strokes_go(s, if i < m + 1 <= s.len() {
                        m + 1
                    } else {
                        i + 1
                    }, acc.push(st))
                } else if s[m] == ']' {
                    Some((acc.push(st), m + 1))
                } else {
                    None
                }
            },
        }
    }
}

pub open spec fn spec_parse_strokes_value(s: Seq<char>, i: int) -> Option<(Seq<StrokeModel>, int)> {
    let j = spec_skip_ws(s, i);
    if !(0 <= j < s.len() && s[j] == '[') {
        None
    } else {
        let j2 = spec_skip_ws(s, j + 1);
        if 0 <= j2 < s.len() && s[j2] == ']' {
            Some((Seq::empty(), j2 + 1))
        } else {
            spec_parse_strokes_go(s, j + 1, Seq::empty())
        }
    }
}

fn parse_strokes_go(v: &Vec<char>, i: usize, acc: Vec<Stroke>) -> (r: Option<(Vec<Stroke>, usize)>)
    requires
        i <= v.len(),
    ensures
        match r {
            Some((w, j)) => spec_parse_strokes_go(v@, i as int, acc.deep_view()) == Some(
                (w.deep_view(), j as int),
            ) && i < j <= v.len(),
            None => spec_parse_strokes_go(v@, i as int, acc.deep_view()) is None,
        },
    decreases v.len() - i,
{
    if !(i < v.len()) {
        return None;
    }
    match parse_stroke(v, i) {
        None => None,
        Some((st, k)) => {
            let ghost stm = st.deep_view();
            let m = skip_ws(v, k);
            if !(m < v.len()) {
                None
            } else if v[m] == ',' {
                let next = if m + 1 > i {
                    m + 1
                } else {
                    i + 1
                };
                let ghost pre = acc.deep_view();
                let mut acc2 = acc;
                acc2.push(st);
                proof {
                    assert forall|kk: int| 0 <= kk < acc2.deep_view().len() implies acc2.deep_view(
                    )[kk] == pre.push(stm)[kk] by {
                        if kk < pre.len() {
                            assert(acc2@[kk] == acc2@.subrange(0, acc2@.len() - 1)[kk]);
                        }
                    }
                    assert(acc2.deep_view() =~= pre.push(stm));
                }
                parse_strokes_go(v, next, acc2)
            } else if v[m] == ']' {
                let ghost pre = acc.deep_view();
                let mut acc2 = acc;
                acc2.push(st);
                proof {
                    assert forall|kk: int| 0 <= kk < acc2.deep_view().len() implies acc2.deep_view(
                    )[kk] == pre.push(stm)[kk] by {
                        if kk < pre.len() {
                            assert(acc2@[kk] == acc2@.subrange(0, acc2@.len() - 1)[kk]);
                        }
                    }
                    assert(acc2.deep_view() =~= pre.push(stm));
                }
                Some((acc2, m + 1))
            } else {
                None
            }
        },
    }
}

fn parse_strokes_value(v: &Vec<char>, i: usize) -> (r: Option<(Vec<Stroke>, usize)>)
    requires
        i <= v.len(),
    ensures
        match r {
            Some((w, j)) => spec_parse_strokes_value(v@, i as int) == Some(
                (w.deep_view(), j as int),
            ) && i < j <= v.len(),
            None => spec_parse_strokes_value(v@, i as int) is None,
        },
{
    let j = skip_ws(v, i);
    if !(j < v.len() && v[j] == '[') {
        return None;
    }
    let j2 = skip_ws(v, j + 1);
    if j2 < v.len() && v[j2] == ']' {
        let acc: Vec<Stroke> = Vec::new();
        proof {
            assert(acc.deep_view() =~= Seq::<StrokeModel>::empty());
        }
        return Some((acc, j2 + 1));
    }
    let acc: Vec<Stroke> = Vec::new();
    proof {
        assert(acc.deep_view() =~= Seq::<StrokeModel>::empty());
    }
    parse_strokes_go(v, j + 1, acc)
}

/// The members of a legacy strokes-only document.
pub open spec fn spec_parse_doc_v1_go(s: Seq<char>, i: int, version: Option<u64>,
    strokes: Option<Seq<StrokeModel>>) -> Option<((u32, Seq<StrokeModel>), int)>
    decreases s.len() - i,
{
    if !(0 <= i < s.len()) {
        None
    } else {
        let j = spec_skip_ws(s, i);
        if !(0 <= j < s.len()) {
            None
        } else if s[j] == '}' {
            spec_doc_v1_finish(version, strokes, j + 1)
        } else {
            match spec_parse_string(s, j) {
                None => None,
                Some((key, j2)) => {
                    let j3 = spec_skip_ws(s, j2);
                    if !(0 <= j3 < s.len() && s[j3] == ':') {
                        None
                    } else {
                        let stepped: Option<(Option<u64>, Option<Seq<StrokeModel>>, int)> = if key
                            == "version"@ {
                            match spec_parse_u64_value(s, j3 + 1) {
                                Some((n, j4)) => Some((Some(n), strokes, j4)),
                                None => None,
                            }
                        } else if key == "strokes"@ {
                            match spec_parse_strokes_value(s, j3 + 1) {
                                Some((w, j4)) => Some((version, Some(w), j4)),
                                None => None,
                            }
                        } else {
                            match spec_skip_value(s, spec_adv(i, j3 + 1)) {
                                Some(j4) => Some((version, strokes, j4)),
                                None => None,
                            }
                        };
                        match stepped {
                            None => None,
                            Some((v2, st2, j5)) => {
                                let m = spec_skip_ws(s, j5);
                                if !(0 <= m < s.len()) {
                                    None
                                } else if s[m] == ',' {
                                    spec_parse_doc_v1_go(s, if i < m + 1 <= s.len() {
                                        m + 1
                                    } else {
                                        i + 1
                                    }, v2, st2)
                                } else if s[m] == '}' {
                                    spec_doc_v1_finish(v2, st2, m + 1)
                                } else {
                                    None
                                }
                            },
                        }
                    }
                },
            }
        }
    }
}

pub open spec fn spec_doc_v1_finish(version: Option<u64>, strokes: Option<Seq<StrokeModel>>,
    at: int) -> Option<((u32, Seq<StrokeModel>), int)> {
    match (version, strokes) {
        (Some(n), Some(w)) => if n <= u32::MAX {
            Some(((n as u32, w), at))
        } else {
            None
        },
        _ => None,
    }
}

pub open spec fn spec_parse_doc_v1(s: Seq<char>, i: int) -> Option<((u32, Seq<StrokeModel>), int)> {
    let j = spec_skip_ws(s, i);
    if 0 <= j < s.len() && s[j] == '{' {
        spec_parse_doc_v1_go(s, j + 1, None, None)
    } else {
        None
    }
}

fn parse_doc_v1_go(v: &Vec<char>, i: usize, version: Option<u64>, strokes: Option<Vec<Stroke>>,
) -> (r: Option<((u32, Vec<Stroke>), usize)>)
    requires
        i <= v.len(),
    ensures
        ({
            let spec_strokes = match strokes {
                Some(ref w) => Some(w.deep_view()),
                None => None,
            };
            match r {
                Some(((ver, w), j)) => spec_parse_doc_v1_go(v@, i as int, version, spec_strokes)
                    == Some(((ver, w.deep_view()), j as int)) && i < j <= v.len(),
                None => spec_parse_doc_v1_go(v@, i as int, version, spec_strokes) is None,
            }
        }),
    decreases v.len() - i,
{
    if !(i < v.len()) {
        return None;
    }
    let j = skip_ws(v, i);
    if !(j < v.len()) {
        return None;
    }
    if v[j] == '}' {
        return match (version, strokes) {
            (Some(n), Some(w)) => if n <= u32::MAX as u64 {
                Some(((n as u32, w), j + 1))
            } else {
                None
            },
            _ => None,
        };
    }
    match parse_string(v, j) {
        None => None,
        Some((key, j2)) => {
            let j3 = skip_ws(v, j2);
            if !(j3 < v.len() && v[j3] == ':') {
                return None;
            }
            let stepped: Option<(Option<u64>, Option<Vec<Stroke>>, usize)> = if chars_eq_str(
                &key,
                "version",
            ) {
                match parse_u64_value(v, j3 + 1) {
                    Some((n, j4)) => Some((Some(n), strokes, j4)),
                    None => None,
                }
            } else if chars_eq_str(&key, "strokes") {
                match parse_strokes_value(v, j3 + 1) {
                    Some((w, j4)) => Some((version, Some(w), j4)),
                    None => None,
                }
            } else {
                let next = if j3 + 1 > i {
                    j3 + 1
                } else {
                    i + 1
                };
                match skip_value(v, next) {
                    Some(j4) => Some((version, strokes, j4)),
                    None => None,
                }
            };
            match stepped {
                None => None,
                Some((v2, st2, j5)) => {
                    let m = skip_ws(v, j5);
                    if !(m < v.len()) {
                        None
                    } else if v[m] == ',' {
                        let next = if m + 1 > i {
                            m + 1
                        } else {
                            i + 1
                        };
                        parse_doc_v1_go(v, next, v2, st2)
                    } else if v[m] == '}' {
                        match (v2, st2) {
                            (Some(n), Some(w)) => if n <= u32::MAX as u64 {
                                Some(((n as u32, w), m + 1))
                            } else {
                                None
                            },
                            _ => None,
                        }
                    } else {
                        None
                    }
                },
            }
        },
    }
}

/// What a JSON text denotes as a document: the current form if the whole
/// text is one version-2 document, else the legacy strokes-only form with
/// its strokes as items, in order, at version 2.
pub open spec fn spec_from_json(s: Seq<char>) -> Option<(u32, Seq<ItemModel>)> {
    let v2 = match spec_parse_doc_v2(s, 0) {
        Some(((ver, items), j)) => if spec_skip_ws(s, j) == s.len() {
            Some((ver, items))
        } else {
            None
        },
        None => None,
    };
    match v2 {
        Some(r) => Some(r),
        None => match spec_parse_doc_v1(s, 0) {
            Some(((_ver, strokes), j)) => if spec_skip_ws(s, j) == s.len() {
                Some((2u32, strokes.map_values(|sm: StrokeModel| ItemModel::Stroke(sm))))
            } else {
                None
            },
            None => None,
        },
    }
}

/// Parses a document from JSON text, accepting the current and the legacy
/// form.
pub fn document_from_json(s: &str) -> (r: Option<crate::store::Document>)
    ensures
        match spec_from_json(s@) {
            Some((ver, items)) => r is Some && r.unwrap().version == ver
                && r.unwrap().items.deep_view() == items,
            None => r is None,
        },
{
    let v = str_to_chars(s);
    match parse_doc_v2_go_entry(&v) {
        Some((ver, items)) => {
            return Some(crate::store::Document { version: ver, items });
        },
        None => {},
    }
    match parse_doc_v1_go_entry(&v) {
        Some((_ver, strokes)) => {
            let ghost sm = strokes.deep_view();
            let mut items: Vec<Item> = Vec::new();
            let n = strokes.len();
            let mut k: usize = 0;
            let mut rest = strokes;
            proof {
                assert(items.deep_view() =~= sm.map_values(
                    |x: StrokeModel| ItemModel::Stroke(x),
                ).take(0));
            }
            while k < n
                invariant
                    n == rest.len(),
                    rest.deep_view() == sm,
                    k <= n,
                    items.deep_view() == sm.map_values(|x: StrokeModel| ItemModel::Stroke(x)).take(
                        k as int,
                    ),
                decreases n - k,
            {
                let st = rest[k].clone();
                let ghost pre = items.deep_view();
                items.push(Item::Stroke(st));
                proof {
                    let mapped = sm.map_values(|x: StrokeModel| ItemModel::Stroke(x));
                    assert forall|kk: int| 0 <= kk < items.deep_view().len() implies items.deep_view(
                    )[kk] == mapped.take(k + 1 as int)[kk] by {
                        if kk < pre.len() {
                            assert(items@[kk] == items@.subrange(0, items@.len() - 1)[kk]);
                        } else {
                            assert(items@[kk] == Item::Stroke(st));
                            assert(st.deep_view() == sm[kk]);
                            assert(mapped[kk] == ItemModel::Stroke(sm[kk]));
                            assert(items@[kk].deep_view() == ItemModel::Stroke(sm[kk]));
                        }
                    }
                    assert(mapped.len() == n);
                    assert(pre.len() == k);
                    assert(items@.len() == k + 1);
                    assert(items.deep_view().len() == k + 1);
                    assert(mapped.take(k + 1 as int).len() == k + 1);
                    assert(items.deep_view() =~= mapped.take(k + 1 as int));
                }
                k = k + 1;
            }
            proof {
                let mapped = sm.map_values(|x: StrokeModel| ItemModel::Stroke(x));
                assert(mapped.take(n as int) =~= mapped);
            }
            return Some(crate::store::Document { version: 2, items });
        },
        None => {},
    }
    None
}

fn parse_doc_v2_go_entry(v: &Vec<char>) -> (r: Option<(u32, Vec<Item>)>)
    ensures
        ({
            let sp = match spec_parse_doc_v2(v@, 0) {
                Some(((ver, items), j)) => if spec_skip_ws(v@, j) == v@.len() {
                    Some((ver, items))
                } else {
                    None
                },
                None => None,
            };
            match r {
                Some((ver, items)) => sp == Some((ver, items.deep_view())),
                None => sp is None,
            }
        }),
{
    let j = skip_ws(v, 0);
    if j < v.len() && v[j] == '{' {
        match parse_doc_v2_go(v, j + 1, None, None) {
            Some(((ver, items), j2)) => {
                let j3 = skip_ws(v, j2);
                if j3 == v.len() {
                    Some((ver, items))
                } else {
                    None
                }
            },
            None => None,
        }
    } else {
        None
    }
}

fn parse_doc_v1_go_entry(v: &Vec<char>) -> (r: Option<(u32, Vec<Stroke>)>)
    ensures
        ({
            let sp = match spec_parse_doc_v1(v@, 0) {
                Some(((ver, strokes), j)) => if spec_skip_ws(v@, j) == v@.len() {
                    Some((ver, strokes))
                } else {
                    None
                },
                None => None,
            };
            match r {
                Some((ver, strokes)) => sp == Some((ver, strokes.deep_view())),
                None => sp is None,
            }
        }),
{
    let j = skip_ws(v, 0);
    if j < v.len() && v[j] == '{' {
        match parse_doc_v1_go(v, j + 1, None, None) {
            Some(((ver, strokes), j2)) => {
                let j3 = skip_ws(v, j2);
                if j3 == v.len() {
                    Some((ver, strokes))
                } else {
                    None
                }
            },
            None => None,
        }
    } else {
        None
    }
}


// ---------------------------------------------------------------------------
// Round-trip laws of the encoding primitives.
// ---------------------------------------------------------------------------

pub open spec fn pow10(k: nat) -> int
    decreases k,
{
    if k == 0 {
        1
    } else {
        10 * pow10((k - 1) as nat)
    }
}

/// Every character of a decimal rendering is a digit.
proof fn lemma_digits_head(n: u64)
    ensures
        spec_digits_u64(n).len() >= 1,
        forall|k: int|
            0 <= k < spec_digits_u64(n).len() ==> spec_digit_val(
                #[trigger] spec_digits_u64(n)[k],
            ) is Some,
    decreases n,
{
    if n >= 10 {
        lemma_digits_head(n / 10);
    }
}

proof fn lemma_digits_pow_bound(n: u64)
    ensures
        n < pow10(spec_digits_u64(n).len() as nat),
    decreases n,
{
    assert(pow10(0) == 1);
    assert(pow10(1) == 10);
    if n < 10 {
    } else {
        lemma_digits_pow_bound(n / 10);
        let k = spec_digits_u64(n / 10).len() as nat;
        assert(spec_digits_u64(n).len() == k + 1);
        assert(pow10(k + 1) == 10 * pow10(k));
        assert(n < 10 * pow10(k)) by (nonlinear_arith)
            requires
                n / 10 < pow10(k),
                n >= 10,
                n / 10 * 10 + n % 10 == n,
                0 <= n % 10 < 10,
        ;
    }
}

/// The accumulator walk over the rendered digits: starting anywhere with
/// accumulator `acc`, the parser consumes them all and accumulates their
/// value.
proof fn lemma_parse_u64_go_digits(n: u64, tail: Seq<char>, acc: u64)
    requires
        acc * pow10(spec_digits_u64(n).len() as nat) + n <= u64::MAX,
    ensures
        spec_parse_u64_go(spec_digits_u64(n) + tail, 0, acc) == spec_parse_u64_go(
            spec_digits_u64(n) + tail,
            spec_digits_u64(n).len() as int,
            (acc * pow10(spec_digits_u64(n).len() as nat) + n) as u64,
        ),
    decreases n,
{
    let ds = spec_digits_u64(n);
    let t = ds + tail;
    lemma_digits_head(n);
    lemma_digits_pow_bound(n);
    assert(pow10(0) == 1);
    assert(pow10(1) == 10);
    if n < 10 {
        assert(ds =~= seq![spec_digit_char(n)]);
        assert(t[0] == spec_digit_char(n));
        assert(spec_digit_val(spec_digit_char(n)) == Some(n));
        assert(!(acc > (u64::MAX - n) / 10)) by {
            assert(acc * 10 + n <= u64::MAX);
        }
    } else {
        let hd = spec_digits_u64(n / 10);
        let d = n % 10;
        let k = hd.len() as nat;
        assert(ds == hd.push(spec_digit_char(d)));
        assert(pow10(k + 1) == 10 * pow10(k));
        let tail2 = seq![spec_digit_char(d)] + tail;
        assert(t =~= hd + tail2);
        assert(acc * pow10(k) + n / 10 <= u64::MAX) by (nonlinear_arith)
            requires
                acc * (10 * pow10(k)) + n <= u64::MAX,
                n >= 10,
                pow10(k) >= 1,
                acc >= 0,
                n / 10 * 10 + n % 10 == n,
                0 <= n % 10 < 10,
        ;
        lemma_parse_u64_go_digits(n / 10, tail2, acc);
        let mid = (acc * pow10(k) + n / 10) as u64;
        // one more digit at position k
        assert(t[k as int] == spec_digit_char(d));
        assert(spec_digit_val(spec_digit_char(d)) == Some(d));
        assert(mid * 10 + d == acc * pow10(k + 1) + n) by (nonlinear_arith)
            requires
                mid == acc * pow10(k) + n / 10,
                pow10(k + 1) == 10 * pow10(k),
                n / 10 * 10 + n % 10 == n,
                d == n % 10,
        ;
        assert(!(mid > (u64::MAX - d) / 10)) by {
            assert(mid * 10 + d <= u64::MAX);
        }
        assert(spec_parse_u64_go(t, k as int, mid) == spec_parse_u64_go(
            t,
            k as int + 1,
            (mid * 10 + d) as u64,
        ));
    }
}

/// The decimal rendering of an unsigned integer parses back to the same
/// integer, consuming exactly the rendered digits, whatever follows (as
/// long as it does not begin with another digit).
pub proof fn lemma_digits_roundtrip(n: u64, rest: Seq<char>)
    requires
        rest.len() == 0 || spec_digit_val(rest[0]) is None,
    ensures
        spec_parse_u64(spec_digits_u64(n) + rest, 0) == Some((n, spec_digits_u64(n).len() as int)),
{
    let ds = spec_digits_u64(n);
    let t = ds + rest;
    lemma_digits_head(n);
    lemma_digits_pow_bound(n);
    assert(pow10(0) == 1);
    assert((t)[0] == ds[0]);
    assert(0 * pow10(ds.len() as nat) + n == n) by (nonlinear_arith);
    lemma_parse_u64_go_digits(n, rest, 0);
    assert(spec_parse_u64_go(t, ds.len() as int, n) == Some((n, ds.len() as int))) by {
        if ds.len() < t.len() {
            assert(t[ds.len() as int] == rest[0]);
        }
    }
}


/// Characters the short escapes cover: everything except the controls that
/// need a numeric escape.
pub open spec fn spec_text_plain(s: Seq<char>) -> bool {
    forall|k: int|
        0 <= k < s.len() ==> (#[trigger] s[k] as u32) >= 0x20 || s[k] == '\n' || s[k] == '\r'
            || s[k] == '\t' || s[k] == '\u{8}' || s[k] == '\u{c}'
}

/// The escaped text seen from the front.
proof fn lemma_escaped_front(s: Seq<char>)
    requires
        s.len() > 0,
    ensures
        spec_escaped(s) == spec_escape_char(s[0]) + spec_escaped(s.subrange(1, s.len() as int)),
    decreases s.len(),
{
    if s.len() == 1 {
        assert(s.drop_last().len() == 0);
        assert(spec_escaped(s) == spec_escaped(s.drop_last()) + spec_escape_char(s.last()));
        assert(s.subrange(1, s.len() as int).len() == 0);
        assert(spec_escaped(s) =~= spec_escape_char(s[0]) + spec_escaped(
            s.subrange(1, s.len() as int),
        ));
    } else {
        let dl = s.drop_last();
        lemma_escaped_front(dl);
        let df = s.subrange(1, s.len() as int);
        assert(dl[0] == s[0]);
        assert(df.drop_last() =~= dl.subrange(1, dl.len() as int));
        assert(df.last() == s.last());
        assert(spec_escaped(df) == spec_escaped(df.drop_last()) + spec_escape_char(df.last()));
        assert(spec_escaped(s) =~= spec_escape_char(s[0]) + spec_escaped(df));
    }
}

/// Unescaping walks the escaped text back to the original characters.
#[verifier::spinoff_prover]
#[verifier::rlimit(80)]
proof fn lemma_string_go_unescapes(t: Seq<char>, i: int, acc: Seq<char>, s: Seq<char>,
    rest: Seq<char>)
    requires
        0 <= i <= t.len(),
        t.subrange(i, t.len() as int) == spec_escaped(s) + seq!['"'] + rest,
        spec_text_plain(s),
    ensures
        spec_parse_string_go(t, i, acc) == Some(
            (acc + s, i + spec_escaped(s).len() + 1),
        ),
    decreases s.len(),
{
    let sub = t.subrange(i, t.len() as int);
    assert(forall|k: int| 0 <= k < sub.len() ==> sub[k] == t[i + k]);
    if s.len() == 0 {
        assert(spec_escaped(s).len() == 0);
        assert(sub[0] == '"');
        assert(t[i] == '"');
        assert(acc + s =~= acc);
    } else {
        lemma_escaped_front(s);
        let c = s[0];
        let e = spec_escape_char(c);
        let df = s.subrange(1, s.len() as int);
        assert(spec_text_plain(df)) by {
            assert(forall|k: int| 0 <= k < df.len() ==> df[k] == s[k + 1]);
        }
        assert(sub =~= e + (spec_escaped(df) + seq!['"'] + rest));
        assert(spec_escaped(s).len() == e.len() + spec_escaped(df).len());
        assert((c as u32) >= 0x20 || c == '\n' || c == '\r' || c == '\t' || c == '\u{8}' || c
            == '\u{c}');
        if c == '"' || c == '\\' || c == '\u{8}' || c == '\u{c}' || c == '\n' || c == '\r' || c
            == '\t' {
            // two-character escape
            assert(e.len() == 2);
            assert(e[0] == '\\');
            assert(sub[0] == '\\');
            assert(t[i] == '\\');
            assert(sub[1] == e[1]);
            assert(t[i + 1] == e[1]);
            assert(i + 1 < t.len());
            let sub2 = t.subrange(i + 2, t.len() as int);
            let target = spec_escaped(df) + seq!['"'] + rest;
            assert(sub.len() == 2 + target.len());
            assert forall|k: int| 0 <= k < sub2.len() implies sub2[k] == target[k] by {
                assert(sub2[k] == t[i + 2 + k]);
                assert(t[i + (k + 2)] == sub[k + 2]);
                assert(sub[k + 2] == (e + target)[k + 2]);
                assert((e + target)[k + 2] == target[k]);
            }
            assert(sub2 =~= target);
            lemma_string_go_unescapes(t, i + 2, acc.push(c), df, rest);
            assert(acc.push(c) + df =~= acc + s);
        } else {
            // the character stands for itself
            assert((c as u32) >= 0x20);
            assert(e =~= seq![c]);
            assert(sub[0] == c);
            assert(t[i] == c);
            let sub1 = t.subrange(i + 1, t.len() as int);
            let target = spec_escaped(df) + seq!['"'] + rest;
            assert(sub.len() == 1 + target.len());
            assert forall|k: int| 0 <= k < sub1.len() implies sub1[k] == target[k] by {
                assert(sub1[k] == t[i + 1 + k]);
                assert(t[i + (k + 1)] == sub[k + 1]);
                assert(sub[k + 1] == (e + target)[k + 1]);
                assert((e + target)[k + 1] == target[k]);
            }
            assert(sub1 =~= target);
            lemma_string_go_unescapes(t, i + 1, acc.push(c), df, rest);
            assert(acc.push(c) + df =~= acc + s);
        }
    }
}

/// A JSON string written by the emitter parses back to the same text,
/// consuming exactly the written characters, whatever follows (stated for
/// texts whose control characters have short escapes).
pub proof fn lemma_string_roundtrip(s: Seq<char>, rest: Seq<char>)
    requires
        spec_text_plain(s),
    ensures
        spec_parse_string(spec_json_string(s) + rest, 0) == Some(
            (s, spec_json_string(s).len() as int),
        ),
{
    let t = spec_json_string(s) + rest;
    assert(t[0] == '"');
    assert(t.subrange(1, t.len() as int) =~= spec_escaped(s) + seq!['"'] + rest);
    lemma_string_go_unescapes(t, 1, Seq::empty(), s, rest);
    assert(Seq::<char>::empty() + s =~= s);
    assert(spec_json_string(s).len() == spec_escaped(s).len() + 2);
}


/// A character that cannot extend a JSON number token.
pub open spec fn spec_number_stopper(c: char) -> bool {
    spec_digit_val(c) is None && c != '.' && c != 'e' && c != 'E'
}

proof fn lemma_skip_digits_append(s: Seq<char>, rest: Seq<char>, i: int)
    requires
        0 <= i <= s.len(),
        rest.len() == 0 || spec_digit_val(rest[0]) is None,
    ensures
        spec_skip_digits(s + rest, i) == spec_skip_digits(s, i),
        i <= spec_skip_digits(s, i) <= s.len(),
    decreases s.len() - i,
{
    let t = s + rest;
    if i < s.len() {
        assert(t[i] == s[i]);
        if spec_digit_val(s[i]) is Some {
            lemma_skip_digits_append(s, rest, i + 1);
        }
    } else {
        if i < t.len() {
            assert(t[i] == rest[0]);
        }
    }
}

/// A whole-string number token still lexes to its own end when more text
/// follows, as long as that text cannot extend the token.
proof fn lemma_lex_number_append(s: Seq<char>, rest: Seq<char>)
    requires
        spec_lex_number(s, 0) == Some(s.len() as int),
        rest.len() == 0 || spec_number_stopper(rest[0]),
    ensures
        spec_lex_number(s + rest, 0) == Some(s.len() as int),
{
    let t = s + rest;
    let n = s.len() as int;
    assert(forall|k: int| 0 <= k < s.len() ==> t[k] == s[k]);
    assert(forall|k: int| s.len() <= k < t.len() ==> t[k] == rest[k - s.len()]);
    let i1s = if 0 <= 0 < s.len() && s[0] == '-' {
        1int
    } else {
        0int
    };
    assert(s.len() > 0);
    let i1 = if 0 <= 0 < t.len() && t[0] == '-' {
        1int
    } else {
        0int
    };
    assert(i1 == i1s);
    assert(i1 < s.len() && spec_digit_val(s[i1]) is Some);
    assert(t[i1] == s[i1]);
    lemma_skip_digits_append(s, rest, i1);
    let j = spec_skip_digits(s, i1);
    assert(spec_skip_digits(t, i1) == j);
    // the fraction part
    let frac_s = j < s.len() && s[j] == '.' && j + 1 < s.len() && spec_digit_val(s[j + 1]) is Some;
    let frac_t = j < t.len() && t[j] == '.' && j + 1 < t.len() && spec_digit_val(t[j + 1]) is Some;
    assert(frac_s == frac_t) by {
        if j < s.len() {
            assert(t[j] == s[j]);
            if s[j] == '.' {
                if j + 1 < s.len() {
                    assert(t[j + 1] == s[j + 1]);
                } else {
                    // the token would have ended on a bare dot
                    assert(!frac_s);
                    if j + 1 < t.len() {
                        assert(t[j + 1] == rest[0]);
                    }
                }
            }
        } else {
            assert(j == s.len());
            if j < t.len() {
                assert(t[j] == rest[0]);
            }
        }
    }
    if frac_s {
        lemma_skip_digits_append(s, rest, j + 1);
    }
    let j2 = if frac_s {
        spec_skip_digits(s, j + 1)
    } else {
        j
    };
    assert(j2 == (if frac_t {
        spec_skip_digits(t, j + 1)
    } else {
        j
    }));
    // the exponent part
    let exp_s = j2 < s.len() && (s[j2] == 'e' || s[j2] == 'E');
    let exp_t = j2 < t.len() && (t[j2] == 'e' || t[j2] == 'E');
    assert(exp_s == exp_t) by {
        if j2 < s.len() {
            assert(t[j2] == s[j2]);
        } else if j2 < t.len() {
            assert(t[j2] == rest[0]);
        }
    }
    if !exp_s {
        assert(spec_lex_number(s, 0) == Some(j2));
        assert(spec_lex_number(t, 0) == Some(j2));
    } else {
        let j3s = if j2 + 1 < s.len() && (s[j2 + 1] == '+' || s[j2 + 1] == '-') {
            j2 + 2
        } else {
            j2 + 1
        };
        // the token reaches its end through exponent digits, so the sign
        // position is inside s
        assert(j3s < s.len() && spec_digit_val(s[j3s]) is Some);
        assert(j2 + 1 < s.len()) by {
            if j2 + 1 >= s.len() {
                assert(j3s == j2 + 1);
            }
        }
        assert(t[j2 + 1] == s[j2 + 1]);
        let j3t = if j2 + 1 < t.len() && (t[j2 + 1] == '+' || t[j2 + 1] == '-') {
            j2 + 2
        } else {
            j2 + 1
        };
        assert(j3t == j3s);
        assert(t[j3s] == s[j3s]);
        lemma_skip_digits_append(s, rest, j3s);
        assert(spec_lex_number(s, 0) == Some(spec_skip_digits(s, j3s)));
        assert(spec_lex_number(t, 0) == Some(spec_skip_digits(s, j3s)));
    }
}

/// A scalar whose formatted text is a whole JSON number token that parses
/// back to the same bit pattern.  (The formatter and parser are trusted
/// primitives, so this is a hypothesis a caller checks per value; every
/// finite binary32 satisfies it.)
pub open spec fn spec_scalar_roundtrips(bits: u32) -> bool {
    &&& !((bits & 0x7F80_0000) == 0x7F80_0000)
    &&& spec_lex_number(fmt_f32_of(bits), 0) == Some(fmt_f32_of(bits).len() as int)
    &&& parse_f32_of(fmt_f32_of(bits)) == Some(bits)
}

/// The emitted JSON number of a round-trip-safe scalar parses back to the
/// same bit pattern, consuming exactly the emitted characters.
pub proof fn lemma_number_roundtrip(bits: u32, rest: Seq<char>)
    requires
        spec_scalar_roundtrips(bits),
        rest.len() == 0 || spec_number_stopper(rest[0]),
    ensures
        spec_parse_f32(spec_json_f32(bits) + rest, 0) == Some(
            (bits, spec_json_f32(bits).len() as int),
        ),
{
    let s = fmt_f32_of(bits);
    assert(spec_json_f32(bits) == s);
    let t = s + rest;
    lemma_lex_number_append(s, rest);
    assert(t.subrange(0, s.len() as int) =~= s);
}


} // verus!

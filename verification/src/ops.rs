//! v2 opcode emitters (drawing commands, regions, drawing state, text,
//! comments, QuickTime wrappers) and the two stream builders.
//!
//! Every `build_*` helper returns the bytes of one v2 opcode word plus
//! its payload. The shape verbs occupy the low nibble of the opcode
//! (frame 0, paint 1, erase 2, invert 3, fill 4); the shape is selected
//! by the high nibble of the low byte (0x30 rect, 0x40 round-rect, 0x50
//! oval, 0x60 arc, 0x70 polygon, 0x80 region). Points are stored
//! vertical coordinate first.
use vstd::prelude::*;
use crate::error::{PictError, Result};
use crate::header::{header_wire, PictHeader};
use crate::opcodes::{
    OP_BG_COLOR, OP_BK_PAT, OP_CH_EXTRA, OP_COMPRESSED_QUICKTIME, OP_DEF_HILITE, OP_DHDV_TEXT,
    OP_DH_TEXT, OP_DV_TEXT, OP_FG_COLOR, OP_FILL_PAT, OP_FONT_NAME, OP_GLYPH_STATE, OP_HEADER_OP,
    OP_HILITE_COLOR, OP_HILITE_MODE, OP_LINE, OP_LINE_FROM, OP_LINE_JUSTIFY, OP_LONG_COMMENT,
    OP_LONG_TEXT, OP_OP_COLOR, OP_OP_END_PIC, OP_ORIGIN, OP_OV_SIZE, OP_PN_LOC_HFRAC, OP_PN_MODE,
    OP_PN_PAT, OP_PN_SIZE, OP_RGB_BK_COL, OP_RGB_FG_COL, OP_SHORT_COMMENT, OP_SHORT_LINE,
    OP_SHORT_LINE_FROM, OP_SP_EXTRA, OP_TX_FACE, OP_TX_FONT, OP_TX_MODE, OP_TX_RATIO, OP_TX_SIZE,
    OP_UNCOMPRESSED_QUICKTIME,
};
use crate::state::RectI32;
use crate::wire::{
    i16_bytes, i32_bytes, u16_bytes, u32_bytes, write_bytes, write_i16, write_i32, write_u16,
    write_u32,
};

verus! {

/// Verb applied to a shape opcode; selects the low nibble of the opcode.
#[derive(Debug, Clone, Copy, PartialEq, Eq, Structural)]
pub enum Verb {
    /// 1-pixel outline in the pen pattern.
    Frame,
    /// Solid fill in the pen pattern.
    Paint,
    /// Fill in the background pattern.
    Erase,
    /// Invert every covered pixel.
    Invert,
    /// Fill in the fill pattern.
    Fill,
}

/// Low nibble of the opcode for `v`.
pub open spec fn verb_nibble(v: Verb) -> u16 {
    match v {
        Verb::Frame => 0,
        Verb::Paint => 1,
        Verb::Erase => 2,
        Verb::Invert => 3,
        Verb::Fill => 4,
    }
}

impl Verb {
    /// Low-byte nibble (`0..=4`).
    pub fn nibble(self) -> (n: u16)
        ensures
            n == verb_nibble(self),
    {
        match self {
            Verb::Frame => 0,
            Verb::Paint => 1,
            Verb::Erase => 2,
            Verb::Invert => 3,
            Verb::Fill => 4,
        }
    }
}

/// Opcode word `base` with the verb in its low nibble as bytes.
pub open spec fn op_word(base: u16, v: Verb) -> Seq<u8> {
    u16_bytes(base + verb_nibble(v))
}

/// A rectangle payload: top, left, bottom, right.
pub open spec fn rect_payload(top: i16, left: i16, bottom: i16, right: i16) -> Seq<u8> {
    i16_bytes(top as int) + i16_bytes(left as int) + i16_bytes(bottom as int) + i16_bytes(
        right as int,
    )
}

/// `RGBColor` channel for an 8-bit component: the byte duplicated.
pub open spec fn expand_spec(v: u8) -> int {
    v as int * 257
}

/// Six-byte `RGBColor` payload for 8-bit components.
pub open spec fn rgb_payload(r: u8, g: u8, b: u8) -> Seq<u8> {
    u16_bytes(expand_spec(r)) + u16_bytes(expand_spec(g)) + u16_bytes(expand_spec(b))
}

fn expand_8_to_16(v: u8) -> (w: u16)
    ensures
        w == expand_spec(v),
{
    (v as u16) * 257
}

fn write_rect(buf: &mut Vec<u8>, top: i16, left: i16, bottom: i16, right: i16)
    ensures
        final(buf)@ == old(buf)@ + rect_payload(top, left, bottom, right),
{
    write_i16(buf, top);
    write_i16(buf, left);
    write_i16(buf, bottom);
    write_i16(buf, right);
    assert(final(buf)@ =~= old(buf)@ + rect_payload(top, left, bottom, right));
}

fn write_rgb(buf: &mut Vec<u8>, r: u8, g: u8, b: u8)
    ensures
        final(buf)@ == old(buf)@ + rgb_payload(r, g, b),
{
    write_u16(buf, expand_8_to_16(r));
    write_u16(buf, expand_8_to_16(g));
    write_u16(buf, expand_8_to_16(b));
    assert(final(buf)@ =~= old(buf)@ + rgb_payload(r, g, b));
}

// ---------------------------------------------------------------------------
// Geometry opcodes.
// ---------------------------------------------------------------------------

pub open spec fn line_op(h0: i16, v0: i16, h1: i16, v1: i16) -> Seq<u8> {
    u16_bytes(0x0020) + i16_bytes(v0 as int) + i16_bytes(h0 as int) + i16_bytes(v1 as int)
        + i16_bytes(h1 as int)
}

/// `Line` (`0x0020`): a line from `(h0, v0)` to `(h1, v1)`.
pub fn build_line(h0: i16, v0: i16, h1: i16, v1: i16) -> (buf: Vec<u8>)
    ensures
        buf@ == line_op(h0, v0, h1, v1),
{
    let mut buf = Vec::new();
    write_u16(&mut buf, OP_LINE);
    write_i16(&mut buf, v0);
    write_i16(&mut buf, h0);
    write_i16(&mut buf, v1);
    write_i16(&mut buf, h1);
    assert(buf@ =~= line_op(h0, v0, h1, v1));
    buf
}

pub open spec fn line_from_op(h1: i16, v1: i16) -> Seq<u8> {
    u16_bytes(0x0021) + i16_bytes(v1 as int) + i16_bytes(h1 as int)
}

/// `LineFrom` (`0x0021`): a line from the pen to `(h1, v1)`.
pub fn build_line_from(h1: i16, v1: i16) -> (buf: Vec<u8>)
    ensures
        buf@ == line_from_op(h1, v1),
{
    let mut buf = Vec::new();
    write_u16(&mut buf, OP_LINE_FROM);
    write_i16(&mut buf, v1);
    write_i16(&mut buf, h1);
    assert(buf@ =~= line_from_op(h1, v1));
    buf
}

/// A signed byte as its on-disk pattern.
pub open spec fn sbyte(v: i8) -> u8 {
    (if v < 0 { v as int + 256 } else { v as int }) as u8
}

fn sbyte_exec(v: i8) -> (b: u8)
    ensures
        b == sbyte(v),
{
    if v < 0 {
        (v as i16 + 256) as u8
    } else {
        v as u8
    }
}

pub open spec fn short_line_op(h: i16, v: i16, dh: i8, dv: i8) -> Seq<u8> {
    u16_bytes(0x0022) + i16_bytes(v as int) + i16_bytes(h as int) + seq![sbyte(dh), sbyte(dv)]
}

/// `ShortLine` (`$0022`): pen to `(h, v)`, line to `(h + dh, v + dv)`.
pub fn build_short_line(h: i16, v: i16, dh: i8, dv: i8) -> (buf: Vec<u8>)
    ensures
        buf@ == short_line_op(h, v, dh, dv),
{
    let mut buf = Vec::new();
    write_u16(&mut buf, OP_SHORT_LINE);
    write_i16(&mut buf, v);
    write_i16(&mut buf, h);
    buf.push(sbyte_exec(dh));
    buf.push(sbyte_exec(dv));
    assert(buf@ =~= short_line_op(h, v, dh, dv));
    buf
}

pub open spec fn short_line_from_op(dh: i8, dv: i8) -> Seq<u8> {
    u16_bytes(0x0023) + seq![sbyte(dh), sbyte(dv)]
}

/// `ShortLineFrom` (`$0023`): line from the pen to `pen + (dh, dv)`.
pub fn build_short_line_from(dh: i8, dv: i8) -> (buf: Vec<u8>)
    ensures
        buf@ == short_line_from_op(dh, dv),
{
    let mut buf = Vec::new();
    write_u16(&mut buf, OP_SHORT_LINE_FROM);
    buf.push(sbyte_exec(dh));
    buf.push(sbyte_exec(dv));
    assert(buf@ =~= short_line_from_op(dh, dv));
    buf
}

pub open spec fn origin_op(dh: i16, dv: i16) -> Seq<u8> {
    u16_bytes(0x000C) + i16_bytes(dh as int) + i16_bytes(dv as int)
}

/// `Origin` (`$000C`): shift the picture's coordinate origin.
pub fn build_origin(dh: i16, dv: i16) -> (buf: Vec<u8>)
    ensures
        buf@ == origin_op(dh, dv),
{
    let mut buf = Vec::new();
    write_u16(&mut buf, OP_ORIGIN);
    write_i16(&mut buf, dh);
    write_i16(&mut buf, dv);
    assert(buf@ =~= origin_op(dh, dv));
    buf
}

pub open spec fn shape_op(base: u16, verb: Verb, top: i16, left: i16, bottom: i16, right: i16) -> Seq<
    u8,
> {
    op_word(base, verb) + rect_payload(top, left, bottom, right)
}

fn build_shape(base: u16, verb: Verb, top: i16, left: i16, bottom: i16, right: i16) -> (buf: Vec<
    u8,
>)
    requires
        base + 4 <= 0xFFFF,
    ensures
        buf@ == shape_op(base, verb, top, left, bottom, right),
{
    let mut buf = Vec::new();
    write_u16(&mut buf, base + verb.nibble());
    write_rect(&mut buf, top, left, bottom, right);
    buf
}

/// Rect-family opcode (`0x0030..=0x0034`).
pub fn build_rect_op(verb: Verb, top: i16, left: i16, bottom: i16, right: i16) -> (buf: Vec<u8>)
    ensures
        buf@ == shape_op(0x0030, verb, top, left, bottom, right),
{
    build_shape(0x0030, verb, top, left, bottom, right)
}

/// Round-rect opcode (`0x0040..=0x0044`); the corner size comes from
/// the current `OvSize`.
pub fn build_round_rect_op(verb: Verb, top: i16, left: i16, bottom: i16, right: i16) -> (buf: Vec<
    u8,
>)
    ensures
        buf@ == shape_op(0x0040, verb, top, left, bottom, right),
{
    build_shape(0x0040, verb, top, left, bottom, right)
}

/// Oval opcode (`0x0050..=0x0054`) inscribed in the rectangle.
pub fn build_oval_op(verb: Verb, top: i16, left: i16, bottom: i16, right: i16) -> (buf: Vec<u8>)
    ensures
        buf@ == shape_op(0x0050, verb, top, left, bottom, right),
{
    build_shape(0x0050, verb, top, left, bottom, right)
}

pub open spec fn arc_op(
    verb: Verb,
    top: i16,
    left: i16,
    bottom: i16,
    right: i16,
    start_angle: i16,
    arc_angle: i16,
) -> Seq<u8> {
    shape_op(0x0060, verb, top, left, bottom, right) + i16_bytes(start_angle as int) + i16_bytes(
        arc_angle as int,
    )
}

/// Arc opcode (`0x0060..=0x0064`): start angle in degrees clockwise from
/// 12 o'clock and the sweep (positive = clockwise).
pub fn build_arc_op(
    verb: Verb,
    top: i16,
    left: i16,
    bottom: i16,
    right: i16,
    start_angle: i16,
    arc_angle: i16,
) -> (buf: Vec<u8>)
    ensures
        buf@ == arc_op(verb, top, left, bottom, right, start_angle, arc_angle),
{
    let mut buf = build_shape(0x0060, verb, top, left, bottom, right);
    write_i16(&mut buf, start_angle);
    write_i16(&mut buf, arc_angle);
    assert(buf@ =~= arc_op(verb, top, left, bottom, right, start_angle, arc_angle));
    buf
}

/// Same-rect opcode (`0x0038..=0x003C`): the verb applied to the last
/// rectangle; no payload.
pub fn build_same_rect_op(verb: Verb) -> (buf: Vec<u8>)
    ensures
        buf@ == op_word(0x0038, verb),
{
    let mut buf = Vec::new();
    write_u16(&mut buf, 0x0038 + verb.nibble());
    buf
}

/// Same-round-rect opcode (`0x0048..=0x004C`).
pub fn build_same_round_rect_op(verb: Verb) -> (buf: Vec<u8>)
    ensures
        buf@ == op_word(0x0048, verb),
{
    let mut buf = Vec::new();
    write_u16(&mut buf, 0x0048 + verb.nibble());
    buf
}

/// Same-oval opcode (`0x0058..=0x005C`).
pub fn build_same_oval_op(verb: Verb) -> (buf: Vec<u8>)
    ensures
        buf@ == op_word(0x0058, verb),
{
    let mut buf = Vec::new();
    write_u16(&mut buf, 0x0058 + verb.nibble());
    buf
}

pub open spec fn same_arc_op(verb: Verb, start_angle: i16, arc_angle: i16) -> Seq<u8> {
    op_word(0x0068, verb) + i16_bytes(start_angle as int) + i16_bytes(arc_angle as int)
}

/// Same-arc opcode (`0x0068..=0x006C`) with fresh angles.
pub fn build_same_arc_op(verb: Verb, start_angle: i16, arc_angle: i16) -> (buf: Vec<u8>)
    ensures
        buf@ == same_arc_op(verb, start_angle, arc_angle),
{
    let mut buf = Vec::new();
    write_u16(&mut buf, 0x0068 + verb.nibble());
    write_i16(&mut buf, start_angle);
    write_i16(&mut buf, arc_angle);
    assert(buf@ =~= same_arc_op(verb, start_angle, arc_angle));
    buf
}

/// Smallest horizontal coordinate of a non-empty vertex list.
pub open spec fn min_h(s: Seq<(i16, i16)>) -> i16
    decreases s.len(),
{
    if s.len() <= 1 {
        s[0].0
    } else {
        let m = min_h(s.drop_last());
        if s.last().0 < m { s.last().0 } else { m }
    }
}

/// Smallest vertical coordinate of a non-empty vertex list.
pub open spec fn min_v(s: Seq<(i16, i16)>) -> i16
    decreases s.len(),
{
    if s.len() <= 1 {
        s[0].1
    } else {
        let m = min_v(s.drop_last());
        if s.last().1 < m { s.last().1 } else { m }
    }
}

/// Largest horizontal coordinate of a non-empty vertex list.
pub open spec fn max_h(s: Seq<(i16, i16)>) -> i16
    decreases s.len(),
{
    if s.len() <= 1 {
        s[0].0
    } else {
        let m = max_h(s.drop_last());
        if s.last().0 > m { s.last().0 } else { m }
    }
}

/// Largest vertical coordinate of a non-empty vertex list.
pub open spec fn max_v(s: Seq<(i16, i16)>) -> i16
    decreases s.len(),
{
    if s.len() <= 1 {
        s[0].1
    } else {
        let m = max_v(s.drop_last());
        if s.last().1 > m { s.last().1 } else { m }
    }
}

/// `v + 1`, saturating at `i16::MAX`.
pub open spec fn sat_inc(v: i16) -> i16 {
    if v == 32767 { 32767 } else { (v + 1) as i16 }
}

/// The vertices as on-disk points (vertical coordinate first).
pub open spec fn verts_bytes(s: Seq<(i16, i16)>) -> Seq<u8>
    decreases s.len(),
{
    if s.len() == 0 {
        Seq::empty()
    } else {
        verts_bytes(s.drop_last()) + i16_bytes(s.last().1 as int) + i16_bytes(s.last().0 as int)
    }
}

pub open spec fn poly_op(verb: Verb, s: Seq<(i16, i16)>) -> Seq<u8> {
    op_word(0x0070, verb) + u16_bytes(10 + 4 * s.len() as int) + i16_bytes(min_v(s) as int) + i16_bytes(
        min_h(s) as int,
    ) + i16_bytes(sat_inc(max_v(s)) as int) + i16_bytes(sat_inc(max_h(s)) as int) + verts_bytes(
        s,
    )
}

/// Polygon opcode (`0x0070..=0x0074`): `polySize` (10 + 4n), the
/// bounding box derived from the vertex extents (bottom / right one
/// past the largest coordinate, saturating), then the `(h, v)`
/// vertices stored vertical-first. `InvalidData` with fewer than two
/// vertices or when `polySize` would not fit 16 bits.
pub fn build_poly_op(verb: Verb, vertices: &[(i16, i16)]) -> (res: Result<Vec<u8>>)
    ensures
        res is Ok <==> (vertices@.len() >= 2 && 10 + 4 * vertices@.len() <= 0xFFFF),
        match res {
            Ok(buf) => buf@ == poly_op(verb, vertices@),
            Err(e) => e is InvalidData,
        },
{
    let n = vertices.len();
    if n < 2 {
        return Err(PictError::invalid("build_poly_op needs at least 2 vertices"));
    }
    if n > 16381 {
        return Err(PictError::invalid("polygon too large for its 16-bit size field"));
    }
    let poly_size = 10 + 4 * n;
    let (mut lo_h, mut lo_v) = vertices[0];
    let (mut hi_h, mut hi_v) = vertices[0];
    let mut i: usize = 1;
    while i < n
        invariant
            n == vertices@.len(),
            1 <= i <= n,
            lo_h == min_h(vertices@.subrange(0, i as int)),
            lo_v == min_v(vertices@.subrange(0, i as int)),
            hi_h == max_h(vertices@.subrange(0, i as int)),
            hi_v == max_v(vertices@.subrange(0, i as int)),
        decreases n - i,
    {
        let (h, v) = vertices[i];
        proof {
            let p = vertices@.subrange(0, i + 1);
            assert(p.drop_last() =~= vertices@.subrange(0, i as int));
            assert(p.last() == (h, v));
        }
        if h < lo_h {
            lo_h = h;
        }
        if v < lo_v {
            lo_v = v;
        }
        if h > hi_h {
            hi_h = h;
        }
        if v > hi_v {
            hi_v = v;
        }
        i += 1;
    }
    assert(vertices@.subrange(0, n as int) =~= vertices@);
    let mut buf = Vec::new();
    write_u16(&mut buf, 0x0070 + verb.nibble());
    write_u16(&mut buf, poly_size as u16);
    write_i16(&mut buf, lo_v);
    write_i16(&mut buf, lo_h);
    write_i16(&mut buf, if hi_v == 32767 { 32767 } else { hi_v + 1 });
    write_i16(&mut buf, if hi_h == 32767 { 32767 } else { hi_h + 1 });
    let ghost head = buf@;
    let mut j: usize = 0;
    while j < n
        invariant
            n == vertices@.len(),
            j <= n,
            buf@ == head + verts_bytes(vertices@.subrange(0, j as int)),
        decreases n - j,
    {
        let (h, v) = vertices[j];
        write_i16(&mut buf, v);
        write_i16(&mut buf, h);
        proof {
            let p = vertices@.subrange(0, j + 1);
            assert(p.drop_last() =~= vertices@.subrange(0, j as int));
            assert(p.last() == (h, v));
        }
        j += 1;
        assert(buf@ =~= head + verts_bytes(vertices@.subrange(0, j as int)));
    }
    assert(buf@ =~= poly_op(verb, vertices@));
    Ok(buf)
}

// ---------------------------------------------------------------------------
// Region opcodes.
// ---------------------------------------------------------------------------

pub open spec fn rgn_rect_op(verb: Verb, top: i16, left: i16, bottom: i16, right: i16) -> Seq<u8> {
    op_word(0x0080, verb) + u16_bytes(10) + rect_payload(top, left, bottom, right)
}

/// Region opcode (`0x0080..=0x0084`) carrying a rectangular region
/// (`rgnSize == 10`, no inversion data).
pub fn build_rgn_rect_op(verb: Verb, top: i16, left: i16, bottom: i16, right: i16) -> (buf: Vec<
    u8,
>)
    ensures
        buf@ == rgn_rect_op(verb, top, left, bottom, right),
{
    let mut buf = Vec::new();
    write_u16(&mut buf, 0x0080 + verb.nibble());
    write_u16(&mut buf, 10);
    write_rect(&mut buf, top, left, bottom, right);
    assert(buf@ =~= rgn_rect_op(verb, top, left, bottom, right));
    buf
}

/// The x coordinates of one record as on-disk words.
pub open spec fn xs_bytes(xs: Seq<i16>) -> Seq<u8>
    decreases xs.len(),
{
    if xs.len() == 0 {
        Seq::empty()
    } else {
        xs_bytes(xs.drop_last()) + i16_bytes(xs.last() as int)
    }
}

/// One inversion record: `y`, its x list, the `0x7FFF` terminator.
pub open spec fn record_bytes(y: i16, xs: Seq<i16>) -> Seq<u8> {
    i16_bytes(y as int) + xs_bytes(xs) + i16_bytes(0x7FFF)
}

/// All inversion records in order.
pub open spec fn records_bytes(s: Seq<(i16, &[i16])>) -> Seq<u8>
    decreases s.len(),
{
    if s.len() == 0 {
        Seq::empty()
    } else {
        records_bytes(s.drop_last()) + record_bytes(s.last().0, s.last().1@)
    }
}

/// Total inversion bytes (records plus the final terminator).
pub open spec fn records_size(s: Seq<(i16, &[i16])>) -> int
    decreases s.len(),
{
    if s.len() == 0 {
        2
    } else {
        records_size(s.drop_last()) + 4 + 2 * s.last().1@.len()
    }
}

/// The x list is strictly ascending and inside `[left, right]`.
pub open spec fn xs_valid(xs: Seq<i16>, left: i16, right: i16) -> bool {
    &&& forall|k: int| 0 <= k < xs.len() ==> left <= #[trigger] xs[k] <= right
    &&& forall|k: int| 0 < k < xs.len() ==> xs[k - 1] < #[trigger] xs[k]
}

/// The records have strictly ascending `y` inside `[top, bottom)` and
/// valid x lists.
pub open spec fn scanlines_valid(s: Seq<(i16, &[i16])>, top: i16, left: i16, bottom: i16, right: i16) -> bool {
    &&& forall|k: int| 0 <= k < s.len() ==> top <= (#[trigger] s[k]).0 < bottom
    &&& forall|k: int| 0 < k < s.len() ==> s[k - 1].0 < (#[trigger] s[k]).0
    &&& forall|k: int| 0 <= k < s.len() ==> xs_valid((#[trigger] s[k]).1@, left, right)
}

pub open spec fn rgn_inverted_op(
    verb: Verb,
    top: i16,
    left: i16,
    bottom: i16,
    right: i16,
    s: Seq<(i16, &[i16])>,
) -> Seq<u8> {
    op_word(0x0080, verb) + u16_bytes(10 + records_size(s)) + rect_payload(top, left, bottom, right)
        + records_bytes(s) + i16_bytes(0x7FFF)
}

proof fn lemma_records_size_grows(s: Seq<(i16, &[i16])>)
    ensures
        records_size(s) >= 2,
    decreases s.len(),
{
    if s.len() > 0 {
        lemma_records_size_grows(s.drop_last());
    }
}

/// Region opcode (`0x0080..=0x0084`) carrying an inversion-encoded
/// region: for each `(y, xs)` record the row, the columns whose
/// membership toggles from that row on, and a `0x7FFF` terminator;
/// then a final `0x7FFF`. `InvalidData` for a degenerate bounding box,
/// records out of order or outside it, or a region over 65 535 bytes.
pub fn build_rgn_inverted_op(
    verb: Verb,
    bbox_top: i16,
    bbox_left: i16,
    bbox_bottom: i16,
    bbox_right: i16,
    scanlines: &[(i16, &[i16])],
) -> (res: Result<Vec<u8>>)
    ensures
        res is Ok <==> (bbox_top < bbox_bottom && bbox_left < bbox_right && scanlines_valid(
            scanlines@,
            bbox_top,
            bbox_left,
            bbox_bottom,
            bbox_right,
        ) && 10 + records_size(scanlines@) <= 0xFFFF),
        match res {
            Ok(buf) => buf@ == rgn_inverted_op(
                verb,
                bbox_top,
                bbox_left,
                bbox_bottom,
                bbox_right,
                scanlines@,
            ),
            Err(e) => e is InvalidData,
        },
{
    if bbox_bottom <= bbox_top || bbox_right <= bbox_left {
        return Err(PictError::invalid("build_rgn_inverted_op: degenerate bounding box"));
    }
    let n = scanlines.len();
    let mut k: usize = 0;
    while k < n
        invariant
            n == scanlines@.len(),
            k <= n,
            scanlines_valid(scanlines@.subrange(0, k as int), bbox_top, bbox_left, bbox_bottom, bbox_right),
        decreases n - k,
    {
        let (y, xs) = scanlines[k];
        if y < bbox_top || y >= bbox_bottom {
            return Err(PictError::invalid("build_rgn_inverted_op: scanline outside the bounding box"));
        }
        if k > 0 {
            let (py, _) = scanlines[k - 1];
            if y <= py {
                return Err(PictError::invalid("build_rgn_inverted_op: scanlines not strictly ascending"));
            }
        }
        let m = xs.len();
        let mut j: usize = 0;
        while j < m
            invariant
                m == xs@.len(),
                j <= m,
                k < n,
                n == scanlines@.len(),
                scanlines@[k as int].1 == xs,
                xs_valid(xs@.subrange(0, j as int), bbox_left, bbox_right),
            decreases m - j,
        {
            let x = xs[j];
            if x < bbox_left || x > bbox_right {
                proof {
                    assert(!xs_valid(xs@, bbox_left, bbox_right));
                    assert(!xs_valid(scanlines@[k as int].1@, bbox_left, bbox_right));
                }
                return Err(PictError::invalid("build_rgn_inverted_op: x outside the bounding box"));
            }
            if j > 0 {
                let px = xs[j - 1];
                if x <= px {
                    proof {
                        assert(xs@[j as int - 1] == px);
                        assert(!xs_valid(xs@, bbox_left, bbox_right));
                        assert(!xs_valid(scanlines@[k as int].1@, bbox_left, bbox_right));
                    }
                    return Err(PictError::invalid("build_rgn_inverted_op: x values not strictly ascending"));
                }
            }
            j += 1;
            proof {
                let p = xs@.subrange(0, j as int);
                assert forall|t: int| 0 < t < p.len() implies p[t - 1] < #[trigger] p[t] by {
                    if t < j - 1 {
                        assert(xs@.subrange(0, j - 1)[t] == p[t]);
                        assert(xs@.subrange(0, j - 1)[t - 1] == p[t - 1]);
                    }
                }
                assert forall|t: int| 0 <= t < p.len() implies bbox_left <= #[trigger] p[t] <= bbox_right by {
                    if t < j - 1 {
                        assert(xs@.subrange(0, j - 1)[t] == p[t]);
                    }
                }
            }
        }
        assert(xs@.subrange(0, m as int) =~= xs@);
        k += 1;
        proof {
            let p = scanlines@.subrange(0, k as int);
            let q = scanlines@.subrange(0, k - 1);
            assert forall|t: int| 0 <= t < p.len() implies bbox_top <= (#[trigger] p[t]).0 < bbox_bottom by {
                if t < k - 1 {
                    assert(q[t] == p[t]);
                }
            }
            assert forall|t: int| 0 < t < p.len() implies p[t - 1].0 < (#[trigger] p[t]).0 by {
                if t < k - 1 {
                    assert(q[t] == p[t]);
                    assert(q[t - 1] == p[t - 1]);
                }
            }
            assert forall|t: int| 0 <= t < p.len() implies xs_valid((#[trigger] p[t]).1@, bbox_left, bbox_right) by {
                if t < k - 1 {
                    assert(q[t] == p[t]);
                }
            }
        }
    }
    assert(scanlines@.subrange(0, n as int) =~= scanlines@);
    // Size of the inversion data.
    let mut inv: usize = 2;
    let mut k: usize = 0;
    while k < n
        invariant
            n == scanlines@.len(),
            k <= n,
            inv == records_size(scanlines@.subrange(0, k as int)),
            inv <= 0x1_0000,
        decreases n - k,
    {
        let (_, xs) = scanlines[k];
        proof {
            let p = scanlines@.subrange(0, k + 1);
            assert(p.drop_last() =~= scanlines@.subrange(0, k as int));
        }
        if xs.len() > 0x8000 {
            proof {
                lemma_records_prefix_bound(scanlines@, k as int + 1);
            }
            return Err(PictError::invalid("region payload exceeds the 65 535-byte rgnSize limit"));
        }
        let next = inv + 4 + 2 * xs.len();
        if next > 0x1_0000 {
            proof {
                lemma_records_prefix_bound(scanlines@, k as int + 1);
            }
            return Err(PictError::invalid("region payload exceeds the 65 535-byte rgnSize limit"));
        }
        inv = next;
        k += 1;
    }
    let rgn_size = 10 + inv;
    if rgn_size > 0xFFFF {
        return Err(PictError::invalid("region payload exceeds the 65 535-byte rgnSize limit"));
    }
    let mut buf = Vec::new();
    write_u16(&mut buf, 0x0080 + verb.nibble());
    write_u16(&mut buf, rgn_size as u16);
    write_rect(&mut buf, bbox_top, bbox_left, bbox_bottom, bbox_right);
    let ghost head = buf@;
    let mut k: usize = 0;
    while k < n
        invariant
            n == scanlines@.len(),
            k <= n,
            buf@ == head + records_bytes(scanlines@.subrange(0, k as int)),
        decreases n - k,
    {
        let (y, xs) = scanlines[k];
        let ghost before = buf@;
        write_i16(&mut buf, y);
        let m = xs.len();
        let mut j: usize = 0;
        while j < m
            invariant
                m == xs@.len(),
                j <= m,
                buf@ == before + i16_bytes(y as int) + xs_bytes(xs@.subrange(0, j as int)),
            decreases m - j,
        {
            write_i16(&mut buf, xs[j]);
            proof {
                let p = xs@.subrange(0, j + 1);
                assert(p.drop_last() =~= xs@.subrange(0, j as int));
            }
            j += 1;
            assert(buf@ =~= before + i16_bytes(y as int) + xs_bytes(xs@.subrange(0, j as int)));
        }
        write_i16(&mut buf, 0x7FFF);
        proof {
            assert(xs@.subrange(0, m as int) =~= xs@);
            let p = scanlines@.subrange(0, k + 1);
            assert(p.drop_last() =~= scanlines@.subrange(0, k as int));
            assert(p.last() == (y, xs));
        }
        k += 1;
        assert(buf@ =~= head + records_bytes(scanlines@.subrange(0, k as int)));
    }
    write_i16(&mut buf, 0x7FFF);
    assert(buf@ =~= rgn_inverted_op(verb, bbox_top, bbox_left, bbox_bottom, bbox_right, scanlines@));
    Ok(buf)
}

proof fn lemma_records_prefix_bound(s: Seq<(i16, &[i16])>, k: int)
    requires
        0 <= k <= s.len(),
    ensures
        records_size(s) >= records_size(s.subrange(0, k)),
    decreases s.len() - k,
{
    if k < s.len() {
        lemma_records_prefix_bound(s, k + 1);
        let p = s.subrange(0, k + 1);
        assert(p.drop_last() =~= s.subrange(0, k));
    } else {
        assert(s.subrange(0, k) =~= s);
    }
}

// ---------------------------------------------------------------------------
// Drawing-state opcodes.
// ---------------------------------------------------------------------------

pub open spec fn rgb_op(op: u16, r: u8, g: u8, b: u8) -> Seq<u8> {
    u16_bytes(op as int) + rgb_payload(r, g, b)
}

fn build_rgb(op: u16, r: u8, g: u8, b: u8) -> (buf: Vec<u8>)
    ensures
        buf@ == rgb_op(op, r, g, b),
{
    let mut buf = Vec::new();
    write_u16(&mut buf, op);
    write_rgb(&mut buf, r, g, b);
    buf
}

/// `RGBFgCol` (`0x001A`): each 8-bit component duplicated into both
/// bytes of its 16-bit channel.
pub fn build_rgb_fg_col(r: u8, g: u8, b: u8) -> (buf: Vec<u8>)
    ensures
        buf@ == rgb_op(0x001A, r, g, b),
{
    build_rgb(OP_RGB_FG_COL, r, g, b)
}

/// `RGBBkCol` (`0x001B`).
pub fn build_rgb_bk_col(r: u8, g: u8, b: u8) -> (buf: Vec<u8>)
    ensures
        buf@ == rgb_op(0x001B, r, g, b),
{
    build_rgb(OP_RGB_BK_COL, r, g, b)
}

/// `HiliteColor` (`$001D`).
pub fn build_hilite_color(r: u8, g: u8, b: u8) -> (buf: Vec<u8>)
    ensures
        buf@ == rgb_op(0x001D, r, g, b),
{
    build_rgb(OP_HILITE_COLOR, r, g, b)
}

/// `OpColor` (`$001F`): the colour for the arithmetic transfer modes.
pub fn build_op_color(r: u8, g: u8, b: u8) -> (buf: Vec<u8>)
    ensures
        buf@ == rgb_op(0x001F, r, g, b),
{
    build_rgb(OP_OP_COLOR, r, g, b)
}

pub open spec fn point_op(op: u16, h: i16, v: i16) -> Seq<u8> {
    u16_bytes(op as int) + i16_bytes(v as int) + i16_bytes(h as int)
}

fn build_point(op: u16, h: i16, v: i16) -> (buf: Vec<u8>)
    ensures
        buf@ == point_op(op, h, v),
{
    let mut buf = Vec::new();
    write_u16(&mut buf, op);
    write_i16(&mut buf, v);
    write_i16(&mut buf, h);
    assert(buf@ =~= point_op(op, h, v));
    buf
}

/// `PnSize` (`0x0007`).
pub fn build_pn_size(h: i16, v: i16) -> (buf: Vec<u8>)
    ensures
        buf@ == point_op(0x0007, h, v),
{
    build_point(OP_PN_SIZE, h, v)
}

/// `OvSize` (`0x000B`): corner-oval size of round rectangles.
pub fn build_oval_size(h: i16, v: i16) -> (buf: Vec<u8>)
    ensures
        buf@ == point_op(0x000B, h, v),
{
    build_point(OP_OV_SIZE, h, v)
}

pub open spec fn pat_op(op: u16, pattern: [u8; 8]) -> Seq<u8> {
    u16_bytes(op as int) + pattern@
}

fn build_pat(op: u16, pattern: [u8; 8]) -> (buf: Vec<u8>)
    ensures
        buf@ == pat_op(op, pattern),
{
    let mut buf = Vec::new();
    write_u16(&mut buf, op);
    write_bytes(&mut buf, pattern.as_slice());
    buf
}

/// `PnPat` (`0x0009`): an 8-byte pen pattern.
pub fn build_pn_pat(pattern: [u8; 8]) -> (buf: Vec<u8>)
    ensures
        buf@ == pat_op(0x0009, pattern),
{
    build_pat(OP_PN_PAT, pattern)
}

/// `BkPat` (`0x0002`): an 8-byte background pattern.
pub fn build_bk_pat(pattern: [u8; 8]) -> (buf: Vec<u8>)
    ensures
        buf@ == pat_op(0x0002, pattern),
{
    build_pat(OP_BK_PAT, pattern)
}

/// `FillPat` (`0x000A`): an 8-byte fill pattern.
pub fn build_fill_pat(pattern: [u8; 8]) -> (buf: Vec<u8>)
    ensures
        buf@ == pat_op(0x000A, pattern),
{
    build_pat(OP_FILL_PAT, pattern)
}

pub open spec fn word_op(op: u16, v: i16) -> Seq<u8> {
    u16_bytes(op as int) + i16_bytes(v as int)
}

fn build_word(op: u16, v: i16) -> (buf: Vec<u8>)
    ensures
        buf@ == word_op(op, v),
{
    let mut buf = Vec::new();
    write_u16(&mut buf, op);
    write_i16(&mut buf, v);
    buf
}

/// `TxFont` (`$0003`): font number.
pub fn build_tx_font(font: i16) -> (buf: Vec<u8>)
    ensures
        buf@ == word_op(0x0003, font),
{
    build_word(OP_TX_FONT, font)
}

/// `TxFace` (`$0004`): the one-byte style bitfield.
pub fn build_tx_face(face: u8) -> (buf: Vec<u8>)
    ensures
        buf@ == u16_bytes(0x0004) + seq![face],
{
    let mut buf = Vec::new();
    write_u16(&mut buf, OP_TX_FACE);
    buf.push(face);
    buf
}

/// `TxMode` (`$0005`): text source mode.
pub fn build_tx_mode(mode: i16) -> (buf: Vec<u8>)
    ensures
        buf@ == word_op(0x0005, mode),
{
    build_word(OP_TX_MODE, mode)
}

/// `SpExtra` (`$0006`): a 4-byte `Fixed` extra space.
pub fn build_sp_extra(extra: i32) -> (buf: Vec<u8>)
    ensures
        buf@ == u16_bytes(0x0006) + i32_bytes(extra as int),
{
    let mut buf = Vec::new();
    write_u16(&mut buf, OP_SP_EXTRA);
    write_i32(&mut buf, extra);
    buf
}

/// `PnMode` (`$0008`): pen transfer mode.
pub fn build_pn_mode(mode: i16) -> (buf: Vec<u8>)
    ensures
        buf@ == word_op(0x0008, mode),
{
    build_word(OP_PN_MODE, mode)
}

/// `TxSize` (`$000D`): text size in points.
pub fn build_tx_size(size: i16) -> (buf: Vec<u8>)
    ensures
        buf@ == word_op(0x000D, size),
{
    build_word(OP_TX_SIZE, size)
}

pub open spec fn tx_ratio_op(numer_v: i16, numer_h: i16, denom_v: i16, denom_h: i16) -> Seq<u8> {
    u16_bytes(0x0010) + rect_payload(numer_v, numer_h, denom_v, denom_h)
}

/// `TxRatio` (`$0010`): numerator then denominator point.
pub fn build_tx_ratio(numer_v: i16, numer_h: i16, denom_v: i16, denom_h: i16) -> (buf: Vec<u8>)
    ensures
        buf@ == tx_ratio_op(numer_v, numer_h, denom_v, denom_h),
{
    let mut buf = Vec::new();
    write_u16(&mut buf, OP_TX_RATIO);
    write_rect(&mut buf, numer_v, numer_h, denom_v, denom_h);
    buf
}

/// `PnLocHFrac` (`$0015`): the low word of a `Fixed` pen position.
pub fn build_pn_loc_h_frac(frac: i16) -> (buf: Vec<u8>)
    ensures
        buf@ == word_op(0x0015, frac),
{
    build_word(OP_PN_LOC_HFRAC, frac)
}

/// `ChExtra` (`$0016`): per-character extra width.
pub fn build_ch_extra(extra: i16) -> (buf: Vec<u8>)
    ensures
        buf@ == word_op(0x0016, extra),
{
    build_word(OP_CH_EXTRA, extra)
}

/// `HiliteMode` (`$001C`): no payload.
pub fn build_hilite_mode() -> (buf: Vec<u8>)
    ensures
        buf@ == u16_bytes(0x001C),
{
    let mut buf = Vec::new();
    write_u16(&mut buf, OP_HILITE_MODE);
    buf
}

/// `DefHilite` (`$001E`): no payload.
pub fn build_def_hilite() -> (buf: Vec<u8>)
    ensures
        buf@ == u16_bytes(0x001E),
{
    let mut buf = Vec::new();
    write_u16(&mut buf, OP_DEF_HILITE);
    buf
}

/// `FgColor` (`$000E`): a classic QuickDraw colour code.
pub fn build_fg_color_code(code: u32) -> (buf: Vec<u8>)
    ensures
        buf@ == u16_bytes(0x000E) + u32_bytes(code as int),
{
    let mut buf = Vec::new();
    write_u16(&mut buf, OP_FG_COLOR);
    write_u32(&mut buf, code);
    buf
}

/// `BkColor` (`$000F`): a classic QuickDraw colour code.
pub fn build_bk_color_code(code: u32) -> (buf: Vec<u8>)
    ensures
        buf@ == u16_bytes(0x000F) + u32_bytes(code as int),
{
    let mut buf = Vec::new();
    write_u16(&mut buf, OP_BG_COLOR);
    write_u32(&mut buf, code);
    buf
}

pub open spec fn font_name_op(old_font_id: i16, name: Seq<u8>) -> Seq<u8> {
    u16_bytes(0x002C) + u16_bytes(5 + name.len() as int) + i16_bytes(old_font_id as int) + seq![
        name.len() as u8,
    ] + name
}

/// `fontName` (`$002C`): data length (inclusive of itself, `5 + len`),
/// old font id, name length byte, name. `InvalidData` for names longer
/// than 255 bytes.
pub fn build_font_name(old_font_id: i16, name: &[u8]) -> (res: Result<Vec<u8>>)
    ensures
        res is Ok <==> name@.len() <= 255,
        match res {
            Ok(buf) => buf@ == font_name_op(old_font_id, name@),
            Err(e) => e is InvalidData,
        },
{
    if name.len() > 255 {
        return Err(PictError::invalid("fontName name exceeds the 255-byte name-length field"));
    }
    let mut buf = Vec::new();
    write_u16(&mut buf, OP_FONT_NAME);
    write_u16(&mut buf, (5 + name.len()) as u16);
    write_i16(&mut buf, old_font_id);
    buf.push(name.len() as u8);
    write_bytes(&mut buf, name);
    assert(buf@ =~= font_name_op(old_font_id, name@));
    Ok(buf)
}

pub open spec fn line_justify_op(inter_char_spacing: i32, total_extra: i32) -> Seq<u8> {
    u16_bytes(0x002D) + u16_bytes(8) + i32_bytes(inter_char_spacing as int) + i32_bytes(
        total_extra as int,
    )
}

/// `lineJustify` (`$002D`): data length 8 (exclusive of itself), then
/// two `Fixed` values.
pub fn build_line_justify(inter_char_spacing: i32, total_extra: i32) -> (buf: Vec<u8>)
    ensures
        buf@ == line_justify_op(inter_char_spacing, total_extra),
{
    let mut buf = Vec::new();
    write_u16(&mut buf, OP_LINE_JUSTIFY);
    write_u16(&mut buf, 8);
    write_i32(&mut buf, inter_char_spacing);
    write_i32(&mut buf, total_extra);
    assert(buf@ =~= line_justify_op(inter_char_spacing, total_extra));
    buf
}

pub open spec fn bool_byte(b: bool) -> u8 {
    if b { 1 } else { 0 }
}

pub open spec fn glyph_state_op(a: bool, b: bool, c: bool, d: bool) -> Seq<u8> {
    u16_bytes(0x002E) + u16_bytes(6) + seq![bool_byte(a), bool_byte(b), bool_byte(c), bool_byte(d), 0u8, 0u8]
}

/// `glyphState` (`$002E`): data length 6, four Boolean bytes, two pad
/// bytes.
pub fn build_glyph_state(
    outline_preferred: bool,
    preserve_glyph: bool,
    fractional_widths: bool,
    scaling_disabled: bool,
) -> (buf: Vec<u8>)
    ensures
        buf@ == glyph_state_op(outline_preferred, preserve_glyph, fractional_widths, scaling_disabled),
{
    let mut buf = Vec::new();
    write_u16(&mut buf, OP_GLYPH_STATE);
    write_u16(&mut buf, 6);
    buf.push(if outline_preferred { 1 } else { 0 });
    buf.push(if preserve_glyph { 1 } else { 0 });
    buf.push(if fractional_widths { 1 } else { 0 });
    buf.push(if scaling_disabled { 1 } else { 0 });
    buf.push(0);
    buf.push(0);
    assert(buf@ =~= glyph_state_op(outline_preferred, preserve_glyph, fractional_widths, scaling_disabled));
    buf
}

// ---------------------------------------------------------------------------
// Text opcodes.
// ---------------------------------------------------------------------------

pub open spec fn long_text_op(h: i16, v: i16, text: Seq<u8>) -> Seq<u8> {
    u16_bytes(0x0028) + i16_bytes(v as int) + i16_bytes(h as int) + seq![text.len() as u8] + text
}

/// `LongText` (`$0028`): baseline point, count, glyph bytes.
/// `InvalidData` for more than 255 bytes.
pub fn build_long_text(h: i16, v: i16, text: &[u8]) -> (res: Result<Vec<u8>>)
    ensures
        res is Ok <==> text@.len() <= 255,
        match res {
            Ok(buf) => buf@ == long_text_op(h, v, text@),
            Err(e) => e is InvalidData,
        },
{
    if text.len() > 255 {
        return Err(PictError::invalid("LongText run exceeds the 255-byte count field"));
    }
    let mut buf = Vec::new();
    write_u16(&mut buf, OP_LONG_TEXT);
    write_i16(&mut buf, v);
    write_i16(&mut buf, h);
    buf.push(text.len() as u8);
    write_bytes(&mut buf, text);
    assert(buf@ =~= long_text_op(h, v, text@));
    Ok(buf)
}

pub open spec fn delta_text_op(op: u16, deltas: Seq<u8>, text: Seq<u8>) -> Seq<u8> {
    u16_bytes(op as int) + deltas + seq![text.len() as u8] + text
}

/// `DHText` (`$0029`): horizontal pen advance, count, glyph bytes.
pub fn build_dh_text(dh: u8, text: &[u8]) -> (res: Result<Vec<u8>>)
    ensures
        res is Ok <==> text@.len() <= 255,
        match res {
            Ok(buf) => buf@ == delta_text_op(0x0029, seq![dh], text@),
            Err(e) => e is InvalidData,
        },
{
    if text.len() > 255 {
        return Err(PictError::invalid("DHText run exceeds the 255-byte count field"));
    }
    let mut buf = Vec::new();
    write_u16(&mut buf, OP_DH_TEXT);
    buf.push(dh);
    buf.push(text.len() as u8);
    write_bytes(&mut buf, text);
    assert(buf@ =~= delta_text_op(0x0029, seq![dh], text@));
    Ok(buf)
}

/// `DVText` (`$002A`): vertical pen advance, count, glyph bytes.
pub fn build_dv_text(dv: u8, text: &[u8]) -> (res: Result<Vec<u8>>)
    ensures
        res is Ok <==> text@.len() <= 255,
        match res {
            Ok(buf) => buf@ == delta_text_op(0x002A, seq![dv], text@),
            Err(e) => e is InvalidData,
        },
{
    if text.len() > 255 {
        return Err(PictError::invalid("DVText run exceeds the 255-byte count field"));
    }
    let mut buf = Vec::new();
    write_u16(&mut buf, OP_DV_TEXT);
    buf.push(dv);
    buf.push(text.len() as u8);
    write_bytes(&mut buf, text);
    assert(buf@ =~= delta_text_op(0x002A, seq![dv], text@));
    Ok(buf)
}

/// `DHDVText` (`$002B`): both pen advances, count, glyph bytes.
pub fn build_dhdv_text(dh: u8, dv: u8, text: &[u8]) -> (res: Result<Vec<u8>>)
    ensures
        res is Ok <==> text@.len() <= 255,
        match res {
            Ok(buf) => buf@ == delta_text_op(0x002B, seq![dh, dv], text@),
            Err(e) => e is InvalidData,
        },
{
    if text.len() > 255 {
        return Err(PictError::invalid("DHDVText run exceeds the 255-byte count field"));
    }
    let mut buf = Vec::new();
    write_u16(&mut buf, OP_DHDV_TEXT);
    buf.push(dh);
    buf.push(dv);
    buf.push(text.len() as u8);
    write_bytes(&mut buf, text);
    assert(buf@ =~= delta_text_op(0x002B, seq![dh, dv], text@));
    Ok(buf)
}

// ---------------------------------------------------------------------------
// Comments and QuickTime wrappers.
// ---------------------------------------------------------------------------

/// v2 `ShortComment` (`$00A0`): the kind word.
pub fn build_short_comment(kind: u16) -> (buf: Vec<u8>)
    ensures
        buf@ == u16_bytes(0x00A0) + u16_bytes(kind as int),
{
    let mut buf = Vec::new();
    write_u16(&mut buf, OP_SHORT_COMMENT);
    write_u16(&mut buf, kind);
    buf
}

pub open spec fn long_comment_body(kind: u16, data: Seq<u8>) -> Seq<u8> {
    u16_bytes(kind as int) + u16_bytes(data.len() as int) + data
}

/// v2 `LongComment` (`$00A1`): kind, size, data. `InvalidData` for more
/// than 65 535 data bytes.
pub fn build_long_comment(kind: u16, data: &[u8]) -> (res: Result<Vec<u8>>)
    ensures
        res is Ok <==> data@.len() <= 0xFFFF,
        match res {
            Ok(buf) => buf@ == u16_bytes(0x00A1) + long_comment_body(kind, data@),
            Err(e) => e is InvalidData,
        },
{
    if data.len() > 0xFFFF {
        return Err(PictError::invalid("LongComment data exceeds the 16-bit size field"));
    }
    let mut buf = Vec::new();
    write_u16(&mut buf, OP_LONG_COMMENT);
    write_u16(&mut buf, kind);
    write_u16(&mut buf, data.len() as u16);
    write_bytes(&mut buf, data);
    assert(buf@ =~= u16_bytes(0x00A1) + long_comment_body(kind, data@));
    Ok(buf)
}

/// v1 `ShortComment` (`$A0`): one-byte opcode, kind word.
pub fn build_short_comment_v1(kind: u16) -> (buf: Vec<u8>)
    ensures
        buf@ == seq![0xA0u8] + u16_bytes(kind as int),
{
    let mut buf = Vec::new();
    buf.push(0xA0);
    write_u16(&mut buf, kind);
    assert(buf@ =~= seq![0xA0u8] + u16_bytes(kind as int));
    buf
}

/// v1 `LongComment` (`$A1`): one-byte opcode, kind, size, data.
pub fn build_long_comment_v1(kind: u16, data: &[u8]) -> (res: Result<Vec<u8>>)
    ensures
        res is Ok <==> data@.len() <= 0xFFFF,
        match res {
            Ok(buf) => buf@ == seq![0xA1u8] + long_comment_body(kind, data@),
            Err(e) => e is InvalidData,
        },
{
    if data.len() > 0xFFFF {
        return Err(PictError::invalid("LongComment data exceeds the 16-bit size field"));
    }
    let mut buf = Vec::new();
    buf.push(0xA1);
    write_u16(&mut buf, kind);
    write_u16(&mut buf, data.len() as u16);
    write_bytes(&mut buf, data);
    assert(buf@ =~= seq![0xA1u8] + long_comment_body(kind, data@));
    Ok(buf)
}

pub open spec fn quicktime_op(op: u16, data: Seq<u8>) -> Seq<u8> {
    u16_bytes(op as int) + u32_bytes(data.len() as int) + data
}

fn build_quicktime_op(opcode: u16, data: &[u8]) -> (res: Result<Vec<u8>>)
    ensures
        res is Ok <==> data@.len() <= 0xFFFF_FFFF,
        match res {
            Ok(buf) => buf@ == quicktime_op(opcode, data@),
            Err(e) => e is InvalidData,
        },
{
    if data.len() as u64 > 0xFFFF_FFFF {
        return Err(PictError::invalid("QuickTime payload exceeds the 32-bit data-length field"));
    }
    let mut buf = Vec::new();
    write_u16(&mut buf, opcode);
    write_u32(&mut buf, data.len() as u32);
    write_bytes(&mut buf, data);
    Ok(buf)
}

/// `CompressedQuickTime` (`$8200`): data length (long), then the bytes.
pub fn build_compressed_quicktime(data: &[u8]) -> (res: Result<Vec<u8>>)
    ensures
        res is Ok <==> data@.len() <= 0xFFFF_FFFF,
        match res {
            Ok(buf) => buf@ == quicktime_op(0x8200, data@),
            Err(e) => e is InvalidData,
        },
{
    build_quicktime_op(OP_COMPRESSED_QUICKTIME, data)
}

/// `UncompressedQuickTime` (`$8201`): data length (long), then the bytes.
pub fn build_uncompressed_quicktime(data: &[u8]) -> (res: Result<Vec<u8>>)
    ensures
        res is Ok <==> data@.len() <= 0xFFFF_FFFF,
        match res {
            Ok(buf) => buf@ == quicktime_op(0x8201, data@),
            Err(e) => e is InvalidData,
        },
{
    build_quicktime_op(OP_UNCOMPRESSED_QUICKTIME, data)
}

/// A dither pixel-pattern opcode for slot opcode `op`.
pub open spec fn dither_op(op: int, fallback: [u8; 8], rgb: [u8; 3]) -> Seq<u8> {
    u16_bytes(op) + u16_bytes(2) + fallback@ + u16_bytes(rgb[0] as int * 257) + u16_bytes(
        rgb[1] as int * 257,
    ) + u16_bytes(rgb[2] as int * 257)
}

// ---------------------------------------------------------------------------
// PictBuilder: a complete v2 stream.
// ---------------------------------------------------------------------------

/// `b` padded with one zero byte when its length is odd.
pub open spec fn aligned(b: Seq<u8>) -> Seq<u8> {
    if b.len() % 2 == 1 { b.push(0) } else { b }
}

/// The start of every v2 stream the builder writes: the 512-byte launch
/// stub, `picSize` placeholder, `picFrame`, the version stanza and an
/// extended-v2 header at 72 dpi whose source rectangle is the frame.
pub open spec fn v2_prefix(top: i16, left: i16, bottom: i16, right: i16) -> Seq<u8> {
    Seq::new(512, |i: int| 0u8) + u16_bytes(0) + rect_payload(top, left, bottom, right) + u16_bytes(
        0x0011,
    ) + u16_bytes(0x02FF) + u16_bytes(0x0C00) + header_wire(
        PictHeader::ExtendedV2 {
            hres: crate::header::Fixed(0x0048_0000),
            vres: crate::header::Fixed(0x0048_0000),
            optimal_source_rect: RectI32 {
                top: top as i32,
                left: left as i32,
                bottom: bottom as i32,
                right: right as i32,
            },
        },
    )
}

/// Builder that assembles a complete PICT v2 byte stream; every pushed
/// opcode starts on an even offset of the picture record.
pub struct PictBuilder {
    bytes: Vec<u8>,
    record_start: usize,
}

impl View for PictBuilder {
    type V = Seq<u8>;

    closed spec fn view(&self) -> Seq<u8> {
        self.bytes@
    }
}

impl PictBuilder {
    /// The picture record starts after the 512-byte launch stub.
    pub closed spec fn wf(&self) -> bool {
        self.record_start == 512 && self.bytes@.len() >= 512
    }

    /// Start a new v2 stream with the given `picFrame`.
    pub fn new(top: i16, left: i16, bottom: i16, right: i16) -> (b: Self)
        ensures
            b.wf(),
            b@ == v2_prefix(top, left, bottom, right),
    {
        let mut bytes: Vec<u8> = Vec::new();
        let mut i: usize = 0;
        while i < 512
            invariant
                i <= 512,
                bytes@ == Seq::new(i as nat, |k: int| 0u8),
            decreases 512 - i,
        {
            bytes.push(0);
            i += 1;
            assert(bytes@ =~= Seq::new(i as nat, |k: int| 0u8));
        }
        let record_start = bytes.len();
        write_u16(&mut bytes, 0);
        write_rect(&mut bytes, top, left, bottom, right);
        write_u16(&mut bytes, 0x0011);
        write_u16(&mut bytes, 0x02FF);
        write_u16(&mut bytes, OP_HEADER_OP);
        let header = PictHeader::extended_v2_72dpi(RectI32::from_be(top, left, bottom, right));
        let wire = header.to_wire();
        write_bytes(&mut bytes, wire.as_slice());
        assert(bytes@ =~= v2_prefix(top, left, bottom, right));
        PictBuilder { bytes, record_start }
    }

    /// Append raw opcode bytes, padding to an even record offset first.
    pub fn push(&mut self, opcode_bytes: &[u8])
        requires
            old(self).wf(),
        ensures
            final(self).wf(),
            final(self)@ == aligned(old(self)@) + opcode_bytes@,
    {
        if (self.bytes.len() - self.record_start) % 2 != 0 {
            self.bytes.push(0);
        }
        write_bytes(&mut self.bytes, opcode_bytes);
    }

    /// Push a `Line` opcode.
    pub fn line(&mut self, h0: i16, v0: i16, h1: i16, v1: i16) -> (me: &mut Self)
        requires
            old(self).wf(),
        ensures
            me.wf(),
            me@ == aligned(old(self)@) + line_op(h0, v0, h1, v1),
            *final(self) == *final(me),
    {
        let bytes = build_line(h0, v0, h1, v1);
        self.push(bytes.as_slice());
        self
    }

    /// Push a `LineFrom` opcode: draw from the pen to `(h1, v1)`.
    pub fn line_from(&mut self, h1: i16, v1: i16) -> (me: &mut Self)
        requires
            old(self).wf(),
        ensures
            me.wf(),
            me@ == aligned(old(self)@) + line_from_op(h1, v1),
            *final(self) == *final(me),
    {
        let bytes = build_line_from(h1, v1);
        self.push(bytes.as_slice());
        self
    }

    /// Push a `ShortLine` opcode.
    pub fn short_line(&mut self, h: i16, v: i16, dh: i8, dv: i8) -> (me: &mut Self)
        requires
            old(self).wf(),
        ensures
            me.wf(),
            me@ == aligned(old(self)@) + short_line_op(h, v, dh, dv),
            *final(self) == *final(me),
    {
        let bytes = build_short_line(h, v, dh, dv);
        self.push(bytes.as_slice());
        self
    }

    /// Push a `ShortLineFrom` opcode.
    pub fn short_line_from(&mut self, dh: i8, dv: i8) -> (me: &mut Self)
        requires
            old(self).wf(),
        ensures
            me.wf(),
            me@ == aligned(old(self)@) + short_line_from_op(dh, dv),
            *final(self) == *final(me),
    {
        let bytes = build_short_line_from(dh, dv);
        self.push(bytes.as_slice());
        self
    }

    /// Push an `Origin` opcode.
    pub fn origin(&mut self, dh: i16, dv: i16) -> (me: &mut Self)
        requires
            old(self).wf(),
        ensures
            me.wf(),
            me@ == aligned(old(self)@) + origin_op(dh, dv),
            *final(self) == *final(me),
    {
        let bytes = build_origin(dh, dv);
        self.push(bytes.as_slice());
        self
    }

    /// Push a `ClipRgn` opcode carrying a rectangular clip region.
    pub fn clip_rect(&mut self, top: i16, left: i16, bottom: i16, right: i16) -> (me: &mut Self)
        requires
            old(self).wf(),
        ensures
            me.wf(),
            me@ == aligned(old(self)@) + crate::encoder::clip_rgn_rect_op(top, left, bottom, right),
            *final(self) == *final(me),
    {
        let bytes = crate::encoder::build_clip_rgn_rect(top, left, bottom, right);
        self.push(bytes.as_slice());
        self
    }

    /// Push a rectangle opcode.
    pub fn rect(&mut self, verb: Verb, top: i16, left: i16, bottom: i16, right: i16) -> (me: &mut Self)
        requires
            old(self).wf(),
        ensures
            me.wf(),
            me@ == aligned(old(self)@) + shape_op(0x0030, verb, top, left, bottom, right),
            *final(self) == *final(me),
    {
        let bytes = build_rect_op(verb, top, left, bottom, right);
        self.push(bytes.as_slice());
        self
    }

    /// Push an oval opcode.
    pub fn oval(&mut self, verb: Verb, top: i16, left: i16, bottom: i16, right: i16) -> (me: &mut Self)
        requires
            old(self).wf(),
        ensures
            me.wf(),
            me@ == aligned(old(self)@) + shape_op(0x0050, verb, top, left, bottom, right),
            *final(self) == *final(me),
    {
        let bytes = build_oval_op(verb, top, left, bottom, right);
        self.push(bytes.as_slice());
        self
    }

    /// Push a round-rect opcode.
    pub fn round_rect(&mut self, verb: Verb, top: i16, left: i16, bottom: i16, right: i16) -> (me: &mut Self)
        requires
            old(self).wf(),
        ensures
            me.wf(),
            me@ == aligned(old(self)@) + shape_op(0x0040, verb, top, left, bottom, right),
            *final(self) == *final(me),
    {
        let bytes = build_round_rect_op(verb, top, left, bottom, right);
        self.push(bytes.as_slice());
        self
    }

    /// Push an arc opcode.
    pub fn arc(&mut self, verb: Verb, top: i16, left: i16, bottom: i16, right: i16, start_angle: i16, arc_angle: i16) -> (me: &mut Self)
        requires
            old(self).wf(),
        ensures
            me.wf(),
            me@ == aligned(old(self)@) + arc_op(verb, top, left, bottom, right, start_angle, arc_angle),
            *final(self) == *final(me),
    {
        let bytes = build_arc_op(verb, top, left, bottom, right, start_angle, arc_angle);
        self.push(bytes.as_slice());
        self
    }

    /// Push a same-rect opcode.
    pub fn same_rect(&mut self, verb: Verb) -> (me: &mut Self)
        requires
            old(self).wf(),
        ensures
            me.wf(),
            me@ == aligned(old(self)@) + op_word(0x0038, verb),
            *final(self) == *final(me),
    {
        let bytes = build_same_rect_op(verb);
        self.push(bytes.as_slice());
        self
    }

    /// Push a same-round-rect opcode.
    pub fn same_round_rect(&mut self, verb: Verb) -> (me: &mut Self)
        requires
            old(self).wf(),
        ensures
            me.wf(),
            me@ == aligned(old(self)@) + op_word(0x0048, verb),
            *final(self) == *final(me),
    {
        let bytes = build_same_round_rect_op(verb);
        self.push(bytes.as_slice());
        self
    }

    /// Push a same-oval opcode.
    pub fn same_oval(&mut self, verb: Verb) -> (me: &mut Self)
        requires
            old(self).wf(),
        ensures
            me.wf(),
            me@ == aligned(old(self)@) + op_word(0x0058, verb),
            *final(self) == *final(me),
    {
        let bytes = build_same_oval_op(verb);
        self.push(bytes.as_slice());
        self
    }

    /// Push a same-arc opcode with fresh angles.
    pub fn same_arc(&mut self, verb: Verb, start_angle: i16, arc_angle: i16) -> (me: &mut Self)
        requires
            old(self).wf(),
        ensures
            me.wf(),
            me@ == aligned(old(self)@) + same_arc_op(verb, start_angle, arc_angle),
            *final(self) == *final(me),
    {
        let bytes = build_same_arc_op(verb, start_angle, arc_angle);
        self.push(bytes.as_slice());
        self
    }

    /// Push a rectangular region opcode.
    pub fn region_rect(&mut self, verb: Verb, top: i16, left: i16, bottom: i16, right: i16) -> (me: &mut Self)
        requires
            old(self).wf(),
        ensures
            me.wf(),
            me@ == aligned(old(self)@) + rgn_rect_op(verb, top, left, bottom, right),
            *final(self) == *final(me),
    {
        let bytes = build_rgn_rect_op(verb, top, left, bottom, right);
        self.push(bytes.as_slice());
        self
    }

    /// Push an `RGBFgCol` opcode.
    pub fn fg_color(&mut self, r: u8, g: u8, b: u8) -> (me: &mut Self)
        requires
            old(self).wf(),
        ensures
            me.wf(),
            me@ == aligned(old(self)@) + rgb_op(0x001A, r, g, b),
            *final(self) == *final(me),
    {
        let bytes = build_rgb_fg_col(r, g, b);
        self.push(bytes.as_slice());
        self
    }

    /// Push an `FgColor` opcode (classic colour code).
    pub fn fg_color_code(&mut self, code: u32) -> (me: &mut Self)
        requires
            old(self).wf(),
        ensures
            me.wf(),
            me@ == aligned(old(self)@) + u16_bytes(0x000E) + u32_bytes(code as int),
            *final(self) == *final(me),
    {
        let bytes = build_fg_color_code(code);
        self.push(bytes.as_slice());
        self
    }

    /// Push a `BkColor` opcode (classic colour code).
    pub fn bg_color_code(&mut self, code: u32) -> (me: &mut Self)
        requires
            old(self).wf(),
        ensures
            me.wf(),
            me@ == aligned(old(self)@) + u16_bytes(0x000F) + u32_bytes(code as int),
            *final(self) == *final(me),
    {
        let bytes = build_bk_color_code(code);
        self.push(bytes.as_slice());
        self
    }

    /// Push an `RGBBkCol` opcode.
    pub fn bg_color(&mut self, r: u8, g: u8, b: u8) -> (me: &mut Self)
        requires
            old(self).wf(),
        ensures
            me.wf(),
            me@ == aligned(old(self)@) + rgb_op(0x001B, r, g, b),
            *final(self) == *final(me),
    {
        let bytes = build_rgb_bk_col(r, g, b);
        self.push(bytes.as_slice());
        self
    }

    /// Push a `PnSize` opcode.
    pub fn pen_size(&mut self, h: i16, v: i16) -> (me: &mut Self)
        requires
            old(self).wf(),
        ensures
            me.wf(),
            me@ == aligned(old(self)@) + point_op(0x0007, h, v),
            *final(self) == *final(me),
    {
        let bytes = build_pn_size(h, v);
        self.push(bytes.as_slice());
        self
    }

    /// Push an `OvSize` opcode.
    pub fn oval_size(&mut self, h: i16, v: i16) -> (me: &mut Self)
        requires
            old(self).wf(),
        ensures
            me.wf(),
            me@ == aligned(old(self)@) + point_op(0x000B, h, v),
            *final(self) == *final(me),
    {
        let bytes = build_oval_size(h, v);
        self.push(bytes.as_slice());
        self
    }

    /// Push a `PnPat` opcode.
    pub fn pen_pattern(&mut self, pattern: [u8; 8]) -> (me: &mut Self)
        requires
            old(self).wf(),
        ensures
            me.wf(),
            me@ == aligned(old(self)@) + pat_op(0x0009, pattern),
            *final(self) == *final(me),
    {
        let bytes = build_pn_pat(pattern);
        self.push(bytes.as_slice());
        self
    }

    /// Push a `BkPat` opcode.
    pub fn bg_pattern(&mut self, pattern: [u8; 8]) -> (me: &mut Self)
        requires
            old(self).wf(),
        ensures
            me.wf(),
            me@ == aligned(old(self)@) + pat_op(0x0002, pattern),
            *final(self) == *final(me),
    {
        let bytes = build_bk_pat(pattern);
        self.push(bytes.as_slice());
        self
    }

    /// Push a `FillPat` opcode.
    pub fn fill_pattern(&mut self, pattern: [u8; 8]) -> (me: &mut Self)
        requires
            old(self).wf(),
        ensures
            me.wf(),
            me@ == aligned(old(self)@) + pat_op(0x000A, pattern),
            *final(self) == *final(me),
    {
        let bytes = build_fill_pat(pattern);
        self.push(bytes.as_slice());
        self
    }

    /// Push a `TxFont` opcode.
    pub fn tx_font(&mut self, font: i16) -> (me: &mut Self)
        requires
            old(self).wf(),
        ensures
            me.wf(),
            me@ == aligned(old(self)@) + word_op(0x0003, font),
            *final(self) == *final(me),
    {
        let bytes = build_tx_font(font);
        self.push(bytes.as_slice());
        self
    }

    /// Push a `TxFace` opcode.
    pub fn tx_face(&mut self, face: u8) -> (me: &mut Self)
        requires
            old(self).wf(),
        ensures
            me.wf(),
            me@ == aligned(old(self)@) + u16_bytes(0x0004) + seq![face],
            *final(self) == *final(me),
    {
        let bytes = build_tx_face(face);
        self.push(bytes.as_slice());
        self
    }

    /// Push a `TxMode` opcode.
    pub fn tx_mode(&mut self, mode: i16) -> (me: &mut Self)
        requires
            old(self).wf(),
        ensures
            me.wf(),
            me@ == aligned(old(self)@) + word_op(0x0005, mode),
            *final(self) == *final(me),
    {
        let bytes = build_tx_mode(mode);
        self.push(bytes.as_slice());
        self
    }

    /// Push a `SpExtra` opcode.
    pub fn sp_extra(&mut self, extra: i32) -> (me: &mut Self)
        requires
            old(self).wf(),
        ensures
            me.wf(),
            me@ == aligned(old(self)@) + u16_bytes(0x0006) + i32_bytes(extra as int),
            *final(self) == *final(me),
    {
        let bytes = build_sp_extra(extra);
        self.push(bytes.as_slice());
        self
    }

    /// Push a `PnMode` opcode.
    pub fn pn_mode(&mut self, mode: i16) -> (me: &mut Self)
        requires
            old(self).wf(),
        ensures
            me.wf(),
            me@ == aligned(old(self)@) + word_op(0x0008, mode),
            *final(self) == *final(me),
    {
        let bytes = build_pn_mode(mode);
        self.push(bytes.as_slice());
        self
    }

    /// Push a `TxSize` opcode.
    pub fn tx_size(&mut self, size: i16) -> (me: &mut Self)
        requires
            old(self).wf(),
        ensures
            me.wf(),
            me@ == aligned(old(self)@) + word_op(0x000D, size),
            *final(self) == *final(me),
    {
        let bytes = build_tx_size(size);
        self.push(bytes.as_slice());
        self
    }

    /// Push a `TxRatio` opcode.
    pub fn tx_ratio(&mut self, numer_v: i16, numer_h: i16, denom_v: i16, denom_h: i16) -> (me: &mut Self)
        requires
            old(self).wf(),
        ensures
            me.wf(),
            me@ == aligned(old(self)@) + tx_ratio_op(numer_v, numer_h, denom_v, denom_h),
            *final(self) == *final(me),
    {
        let bytes = build_tx_ratio(numer_v, numer_h, denom_v, denom_h);
        self.push(bytes.as_slice());
        self
    }

    /// Push a `PnLocHFrac` opcode.
    pub fn pn_loc_h_frac(&mut self, frac: i16) -> (me: &mut Self)
        requires
            old(self).wf(),
        ensures
            me.wf(),
            me@ == aligned(old(self)@) + word_op(0x0015, frac),
            *final(self) == *final(me),
    {
        let bytes = build_pn_loc_h_frac(frac);
        self.push(bytes.as_slice());
        self
    }

    /// Push a `ChExtra` opcode.
    pub fn ch_extra(&mut self, extra: i16) -> (me: &mut Self)
        requires
            old(self).wf(),
        ensures
            me.wf(),
            me@ == aligned(old(self)@) + word_op(0x0016, extra),
            *final(self) == *final(me),
    {
        let bytes = build_ch_extra(extra);
        self.push(bytes.as_slice());
        self
    }

    /// Push a `HiliteMode` opcode.
    pub fn hilite_mode(&mut self) -> (me: &mut Self)
        requires
            old(self).wf(),
        ensures
            me.wf(),
            me@ == aligned(old(self)@) + u16_bytes(0x001C),
            *final(self) == *final(me),
    {
        let bytes = build_hilite_mode();
        self.push(bytes.as_slice());
        self
    }

    /// Push a `HiliteColor` opcode.
    pub fn hilite_color(&mut self, r: u8, g: u8, b: u8) -> (me: &mut Self)
        requires
            old(self).wf(),
        ensures
            me.wf(),
            me@ == aligned(old(self)@) + rgb_op(0x001D, r, g, b),
            *final(self) == *final(me),
    {
        let bytes = build_hilite_color(r, g, b);
        self.push(bytes.as_slice());
        self
    }

    /// Push a `DefHilite` opcode.
    pub fn def_hilite(&mut self) -> (me: &mut Self)
        requires
            old(self).wf(),
        ensures
            me.wf(),
            me@ == aligned(old(self)@) + u16_bytes(0x001E),
            *final(self) == *final(me),
    {
        let bytes = build_def_hilite();
        self.push(bytes.as_slice());
        self
    }

    /// Push an `OpColor` opcode.
    pub fn op_color(&mut self, r: u8, g: u8, b: u8) -> (me: &mut Self)
        requires
            old(self).wf(),
        ensures
            me.wf(),
            me@ == aligned(old(self)@) + rgb_op(0x001F, r, g, b),
            *final(self) == *final(me),
    {
        let bytes = build_op_color(r, g, b);
        self.push(bytes.as_slice());
        self
    }

    /// Push a `lineJustify` opcode.
    pub fn line_justify(&mut self, inter_char_spacing: i32, total_extra: i32) -> (me: &mut Self)
        requires
            old(self).wf(),
        ensures
            me.wf(),
            me@ == aligned(old(self)@) + line_justify_op(inter_char_spacing, total_extra),
            *final(self) == *final(me),
    {
        let bytes = build_line_justify(inter_char_spacing, total_extra);
        self.push(bytes.as_slice());
        self
    }

    /// Push a `glyphState` opcode.
    pub fn glyph_state(&mut self, outline_preferred: bool, preserve_glyph: bool, fractional_widths: bool, scaling_disabled: bool) -> (me: &mut Self)
        requires
            old(self).wf(),
        ensures
            me.wf(),
            me@ == aligned(old(self)@) + glyph_state_op(outline_preferred, preserve_glyph, fractional_widths, scaling_disabled),
            *final(self) == *final(me),
    {
        let bytes = build_glyph_state(outline_preferred, preserve_glyph, fractional_widths, scaling_disabled);
        self.push(bytes.as_slice());
        self
    }

    /// Push a `ShortComment` opcode.
    pub fn short_comment(&mut self, kind: u16) -> (me: &mut Self)
        requires
            old(self).wf(),
        ensures
            me.wf(),
            me@ == aligned(old(self)@) + u16_bytes(0x00A0) + u16_bytes(kind as int),
            *final(self) == *final(me),
    {
        let bytes = build_short_comment(kind);
        self.push(bytes.as_slice());
        self
    }

    /// Push a polygon opcode; `InvalidData` with fewer than two vertices.
    pub fn poly(&mut self, verb: Verb, vertices: &[(i16, i16)]) -> (res: Result<&mut Self>)
        requires
            old(self).wf(),
        ensures
            res is Ok <==> (vertices@.len() >= 2 && 10 + 4 * vertices@.len() <= 0xFFFF),
            match res {
                Ok(me) => me.wf() && me@ == aligned(old(self)@) + poly_op(verb, vertices@) && *final(self) == *final(me),
                Err(e) => e is InvalidData && *final(self) == *old(self),
            },
    {
        let bytes = build_poly_op(verb, vertices)?;
        self.push(bytes.as_slice());
        Ok(self)
    }

    /// Push an inversion-encoded region opcode.
    pub fn region(&mut self, verb: Verb, bbox_top: i16, bbox_left: i16, bbox_bottom: i16, bbox_right: i16, scanlines: &[(i16, &[i16])]) -> (res: Result<&mut Self>)
        requires
            old(self).wf(),
        ensures
            res is Ok <==> (bbox_top < bbox_bottom && bbox_left < bbox_right && scanlines_valid(scanlines@, bbox_top, bbox_left, bbox_bottom, bbox_right) && 10 + records_size(scanlines@) <= 0xFFFF),
            match res {
                Ok(me) => me.wf() && me@ == aligned(old(self)@) + rgn_inverted_op(verb, bbox_top, bbox_left, bbox_bottom, bbox_right, scanlines@) && *final(self) == *final(me),
                Err(e) => e is InvalidData && *final(self) == *old(self),
            },
    {
        let bytes = build_rgn_inverted_op(verb, bbox_top, bbox_left, bbox_bottom, bbox_right, scanlines)?;
        self.push(bytes.as_slice());
        Ok(self)
    }

    /// Push a `fontName` opcode; `InvalidData` for names over 255 bytes.
    pub fn font_name(&mut self, old_font_id: i16, name: &[u8]) -> (res: Result<&mut Self>)
        requires
            old(self).wf(),
        ensures
            res is Ok <==> (name@.len() <= 255),
            match res {
                Ok(me) => me.wf() && me@ == aligned(old(self)@) + font_name_op(old_font_id, name@) && *final(self) == *final(me),
                Err(e) => e is InvalidData && *final(self) == *old(self),
            },
    {
        let bytes = build_font_name(old_font_id, name)?;
        self.push(bytes.as_slice());
        Ok(self)
    }

    /// Push a `LongText` opcode; `InvalidData` for more than 255 bytes.
    pub fn long_text(&mut self, h: i16, v: i16, text: &[u8]) -> (res: Result<&mut Self>)
        requires
            old(self).wf(),
        ensures
            res is Ok <==> (text@.len() <= 255),
            match res {
                Ok(me) => me.wf() && me@ == aligned(old(self)@) + long_text_op(h, v, text@) && *final(self) == *final(me),
                Err(e) => e is InvalidData && *final(self) == *old(self),
            },
    {
        let bytes = build_long_text(h, v, text)?;
        self.push(bytes.as_slice());
        Ok(self)
    }

    /// Push a `DHText` opcode.
    pub fn dh_text(&mut self, dh: u8, text: &[u8]) -> (res: Result<&mut Self>)
        requires
            old(self).wf(),
        ensures
            res is Ok <==> (text@.len() <= 255),
            match res {
                Ok(me) => me.wf() && me@ == aligned(old(self)@) + delta_text_op(0x0029, seq![dh], text@) && *final(self) == *final(me),
                Err(e) => e is InvalidData && *final(self) == *old(self),
            },
    {
        let bytes = build_dh_text(dh, text)?;
        self.push(bytes.as_slice());
        Ok(self)
    }

    /// Push a `DVText` opcode.
    pub fn dv_text(&mut self, dv: u8, text: &[u8]) -> (res: Result<&mut Self>)
        requires
            old(self).wf(),
        ensures
            res is Ok <==> (text@.len() <= 255),
            match res {
                Ok(me) => me.wf() && me@ == aligned(old(self)@) + delta_text_op(0x002A, seq![dv], text@) && *final(self) == *final(me),
                Err(e) => e is InvalidData && *final(self) == *old(self),
            },
    {
        let bytes = build_dv_text(dv, text)?;
        self.push(bytes.as_slice());
        Ok(self)
    }

    /// Push a `DHDVText` opcode.
    pub fn dhdv_text(&mut self, dh: u8, dv: u8, text: &[u8]) -> (res: Result<&mut Self>)
        requires
            old(self).wf(),
        ensures
            res is Ok <==> (text@.len() <= 255),
            match res {
                Ok(me) => me.wf() && me@ == aligned(old(self)@) + delta_text_op(0x002B, seq![dh, dv], text@) && *final(self) == *final(me),
                Err(e) => e is InvalidData && *final(self) == *old(self),
            },
    {
        let bytes = build_dhdv_text(dh, dv, text)?;
        self.push(bytes.as_slice());
        Ok(self)
    }

    /// Push a `CompressedQuickTime` opcode.
    pub fn compressed_quicktime(&mut self, data: &[u8]) -> (res: Result<&mut Self>)
        requires
            old(self).wf(),
        ensures
            res is Ok <==> (data@.len() <= 0xFFFF_FFFF),
            match res {
                Ok(me) => me.wf() && me@ == aligned(old(self)@) + quicktime_op(0x8200, data@) && *final(self) == *final(me),
                Err(e) => e is InvalidData && *final(self) == *old(self),
            },
    {
        let bytes = build_compressed_quicktime(data)?;
        self.push(bytes.as_slice());
        Ok(self)
    }

    /// Push an `UncompressedQuickTime` opcode.
    pub fn uncompressed_quicktime(&mut self, data: &[u8]) -> (res: Result<&mut Self>)
        requires
            old(self).wf(),
        ensures
            res is Ok <==> (data@.len() <= 0xFFFF_FFFF),
            match res {
                Ok(me) => me.wf() && me@ == aligned(old(self)@) + quicktime_op(0x8201, data@) && *final(self) == *final(me),
                Err(e) => e is InvalidData && *final(self) == *old(self),
            },
    {
        let bytes = build_uncompressed_quicktime(data)?;
        self.push(bytes.as_slice());
        Ok(self)
    }

    /// Push a `LongComment` opcode; `InvalidData` for more than 65 535 data bytes.
    pub fn long_comment(&mut self, kind: u16, data: &[u8]) -> (res: Result<&mut Self>)
        requires
            old(self).wf(),
        ensures
            res is Ok <==> (data@.len() <= 0xFFFF),
            match res {
                Ok(me) => me.wf() && me@ == aligned(old(self)@) + u16_bytes(0x00A1) + long_comment_body(kind, data@) && *final(self) == *final(me),
                Err(e) => e is InvalidData && *final(self) == *old(self),
            },
    {
        let bytes = build_long_comment(kind, data)?;
        self.push(bytes.as_slice());
        Ok(self)
    }

    /// Push a `PnPixPat` dither opcode (`patType = 2`).
    pub fn pen_dither_pix_pattern(&mut self, fallback: [u8; 8], rgb: [u8; 3]) -> (me: &mut Self)
        requires
            old(self).wf(),
        ensures
            me.wf(),
            me@ == aligned(old(self)@) + dither_op(0x0013, fallback, rgb),
            *final(self) == *final(me),
    {
        let bytes = crate::encoder::build_pix_pat_dither_op(crate::encoder::PixPatSlot::Pen, fallback, rgb);
        self.push(bytes.as_slice());
        self
    }

    /// Push a `BkPixPat` dither opcode.
    pub fn bg_dither_pix_pattern(&mut self, fallback: [u8; 8], rgb: [u8; 3]) -> (me: &mut Self)
        requires
            old(self).wf(),
        ensures
            me.wf(),
            me@ == aligned(old(self)@) + dither_op(0x0012, fallback, rgb),
            *final(self) == *final(me),
    {
        let bytes = crate::encoder::build_pix_pat_dither_op(crate::encoder::PixPatSlot::Background, fallback, rgb);
        self.push(bytes.as_slice());
        self
    }

    /// Push a `FillPixPat` dither opcode.
    pub fn fill_dither_pix_pattern(&mut self, fallback: [u8; 8], rgb: [u8; 3]) -> (me: &mut Self)
        requires
            old(self).wf(),
        ensures
            me.wf(),
            me@ == aligned(old(self)@) + dither_op(0x0014, fallback, rgb),
            *final(self) == *final(me),
    {
        let bytes = crate::encoder::build_pix_pat_dither_op(crate::encoder::PixPatSlot::Fill, fallback, rgb);
        self.push(bytes.as_slice());
        self
    }

    /// Push a `PnPixPat` opcode carrying an 8 x 8 colour tile.
    pub fn pen_pix_pattern(&mut self, fallback: [u8; 8], pixels: &[[u8; 4]; 64]) -> (res: Result<&mut Self>)
        requires
            old(self).wf(),
        ensures
            res is Ok <==> (crate::encoder::palette_of(pixels@).len() <= 256),
            match res {
                Ok(me) => me.wf() && me@ == aligned(old(self)@) + crate::encoder::pix_pat_spec(crate::encoder::PixPatSlot::Pen, fallback, 8, 8, pixels@) && *final(self) == *final(me),
                Err(e) => e is InvalidData && *final(self) == *old(self),
            },
    {
        let bytes = crate::encoder::build_pix_pat_op(crate::encoder::PixPatSlot::Pen, fallback, pixels)?;
        self.push(bytes.as_slice());
        Ok(self)
    }

    /// Push a `PnPixPat` opcode carrying a `width x height` colour tile.
    pub fn pen_pix_pattern_sized(&mut self, fallback: [u8; 8], width: u16, height: u16, pixels: &[[u8; 4]]) -> (res: Result<&mut Self>)
        requires
            old(self).wf(),
        ensures
            res is Ok <==> (crate::encoder::is_pow2(width as int) && crate::encoder::is_pow2(height as int) && pixels@.len() == width as int * height as int && crate::encoder::palette_of(pixels@).len() <= 256),
            match res {
                Ok(me) => me.wf() && me@ == aligned(old(self)@) + crate::encoder::pix_pat_spec(crate::encoder::PixPatSlot::Pen, fallback, width, height, pixels@) && *final(self) == *final(me),
                Err(e) => e is InvalidData && *final(self) == *old(self),
            },
    {
        let bytes = crate::encoder::build_pix_pat_op_sized(crate::encoder::PixPatSlot::Pen, fallback, width, height, pixels)?;
        self.push(bytes.as_slice());
        Ok(self)
    }

    /// Push a `BkPixPat` opcode carrying an 8 x 8 colour tile.
    pub fn bg_pix_pattern(&mut self, fallback: [u8; 8], pixels: &[[u8; 4]; 64]) -> (res: Result<&mut Self>)
        requires
            old(self).wf(),
        ensures
            res is Ok <==> (crate::encoder::palette_of(pixels@).len() <= 256),
            match res {
                Ok(me) => me.wf() && me@ == aligned(old(self)@) + crate::encoder::pix_pat_spec(crate::encoder::PixPatSlot::Background, fallback, 8, 8, pixels@) && *final(self) == *final(me),
                Err(e) => e is InvalidData && *final(self) == *old(self),
            },
    {
        let bytes = crate::encoder::build_pix_pat_op(crate::encoder::PixPatSlot::Background, fallback, pixels)?;
        self.push(bytes.as_slice());
        Ok(self)
    }

    /// Push a `FillPixPat` opcode carrying an 8 x 8 colour tile.
    pub fn fill_pix_pattern(&mut self, fallback: [u8; 8], pixels: &[[u8; 4]; 64]) -> (res: Result<&mut Self>)
        requires
            old(self).wf(),
        ensures
            res is Ok <==> (crate::encoder::palette_of(pixels@).len() <= 256),
            match res {
                Ok(me) => me.wf() && me@ == aligned(old(self)@) + crate::encoder::pix_pat_spec(crate::encoder::PixPatSlot::Fill, fallback, 8, 8, pixels@) && *final(self) == *final(me),
                Err(e) => e is InvalidData && *final(self) == *old(self),
            },
    {
        let bytes = crate::encoder::build_pix_pat_op(crate::encoder::PixPatSlot::Fill, fallback, pixels)?;
        self.push(bytes.as_slice());
        Ok(self)
    }

    /// Push a `DirectBitsRect` drawing an RGBA raster into the rectangle.
    pub fn raster(&mut self, top: i16, left: i16, bottom: i16, right: i16, data: &[u8], pack: crate::encoder::PackType) -> (res: Result<&mut Self>)
        requires
            old(self).wf(),
        ensures
            res is Ok <==> (top < bottom && left < right && data@.len() == (right - left) * (bottom - top) * 4 && crate::encoder::row_bytes_raw(pack, right - left) <= 0x3FFF),
            match res {
                Ok(me) => me.wf() && me@ == aligned(old(self)@) + u16_bytes(0x009A) + crate::encoder::direct_bits_body(pack, (right - left) as u32, (bottom - top) as u32, i16_bytes(top as int) + i16_bytes(left as int) + i16_bytes(bottom as int) + i16_bytes(right as int), 0, data@) && *final(self) == *final(me),
                Err(e) => e is InvalidData && *final(self) == *old(self),
            },
    {
        let bytes = crate::encoder::build_direct_bits_rect_op(top, left, bottom, right, data, pack)?;
        self.push(bytes.as_slice());
        Ok(self)
    }

    /// `raster` with an explicit transfer-mode word.
    pub fn raster_with_mode(&mut self, top: i16, left: i16, bottom: i16, right: i16, data: &[u8], pack: crate::encoder::PackType, mode: u16) -> (res: Result<&mut Self>)
        requires
            old(self).wf(),
        ensures
            res is Ok <==> (top < bottom && left < right && data@.len() == (right - left) * (bottom - top) * 4 && crate::encoder::row_bytes_raw(pack, right - left) <= 0x3FFF),
            match res {
                Ok(me) => me.wf() && me@ == aligned(old(self)@) + u16_bytes(0x009A) + crate::encoder::direct_bits_body(pack, (right - left) as u32, (bottom - top) as u32, i16_bytes(top as int) + i16_bytes(left as int) + i16_bytes(bottom as int) + i16_bytes(right as int), mode, data@) && *final(self) == *final(me),
                Err(e) => e is InvalidData && *final(self) == *old(self),
            },
    {
        let bytes = crate::encoder::build_direct_bits_rect_op_with_mode(top, left, bottom, right, data, pack, mode)?;
        self.push(bytes.as_slice());
        Ok(self)
    }

    /// Word-align, append `OpEndPic` (`0x00FF`) and return the stream.
    pub fn finish(self) -> (out: Vec<u8>)
        requires
            self.wf(),
        ensures
            out@ == aligned(self@) + u16_bytes(0x00FF),
    {
        let mut bytes = self.bytes;
        if (bytes.len() - 512) % 2 != 0 {
            bytes.push(0);
        }
        write_u16(&mut bytes, OP_OP_END_PIC);
        bytes
    }
}

// ---------------------------------------------------------------------------
// PictV1Builder: a complete v1 stream.
// ---------------------------------------------------------------------------

/// The opcodes a version 1 picture defines that the `build_*` helpers
/// produce (state, lines, text, shape verbs, comments).
pub open spec fn v1_defined(op: int) -> bool {
    (0x0000 <= op <= 0x0010) || (0x0020 <= op <= 0x0023) || (0x0028 <= op <= 0x002B) || (0x0030
        <= op <= 0x0034) || (0x0038 <= op <= 0x003C) || (0x0040 <= op <= 0x0044) || (0x0048 <= op
        <= 0x004C) || (0x0050 <= op <= 0x0054) || (0x0058 <= op <= 0x005C) || (0x0060 <= op
        <= 0x0064) || (0x0068 <= op <= 0x006C) || (0x0070 <= op <= 0x0074) || (0x0080 <= op
        <= 0x0084) || (0x00A0 <= op <= 0x00A1)
}

fn v1_defines_opcode(op: u16) -> (b: bool)
    ensures
        b == v1_defined(op as int),
{
    (op <= 0x0010) || (0x0020 <= op && op <= 0x0023) || (0x0028 <= op && op <= 0x002B) || (0x0030
        <= op && op <= 0x0034) || (0x0038 <= op && op <= 0x003C) || (0x0040 <= op && op <= 0x0044)
        || (0x0048 <= op && op <= 0x004C) || (0x0050 <= op && op <= 0x0054) || (0x0058 <= op && op
        <= 0x005C) || (0x0060 <= op && op <= 0x0064) || (0x0068 <= op && op <= 0x006C) || (0x0070
        <= op && op <= 0x0074) || (0x0080 <= op && op <= 0x0084) || (0x00A0 <= op && op <= 0x00A1)
}

/// Builder that assembles a complete PICT v1 stream from the same
/// opcode chunks as [`PictBuilder`], each re-emitted with a one-byte
/// opcode.
pub struct PictV1Builder {
    bytes: Vec<u8>,
}

impl View for PictV1Builder {
    type V = Seq<u8>;

    closed spec fn view(&self) -> Seq<u8> {
        self.bytes@
    }
}

impl PictV1Builder {
    /// Start a v1 stream: `picSize` placeholder, `picFrame`, `$11 $01`.
    pub fn new(top: i16, left: i16, bottom: i16, right: i16) -> (b: Self)
        ensures
            b@ == u16_bytes(0) + rect_payload(top, left, bottom, right) + seq![0x11u8, 0x01u8],
    {
        let mut bytes = Vec::new();
        write_u16(&mut bytes, 0);
        write_rect(&mut bytes, top, left, bottom, right);
        bytes.push(0x11);
        bytes.push(0x01);
        assert(bytes@ =~= u16_bytes(0) + rect_payload(top, left, bottom, right) + seq![0x11u8, 0x01u8]);
        PictV1Builder { bytes }
    }

    /// Append a `build_*` chunk with its two-byte opcode shortened to
    /// the low byte. `InvalidData` for a chunk shorter than two bytes or
    /// an opcode version 1 does not define.
    pub fn push(&mut self, v2_opcode_bytes: &[u8]) -> (res: Result<&mut Self>)
        ensures
            res is Ok <==> (v2_opcode_bytes@.len() >= 2 && v1_defined(
                crate::wire::be_u16(v2_opcode_bytes@, 0),
            )),
            match res {
                Ok(me) => me@ == old(self)@ + v2_opcode_bytes@.subrange(
                    1,
                    v2_opcode_bytes@.len() as int,
                ) && *final(self) == *final(me),
                Err(e) => e is InvalidData && *final(self) == *old(self),
            },
    {
        if v2_opcode_bytes.len() < 2 {
            return Err(PictError::invalid("v1 push needs at least the 2-byte opcode word"));
        }
        let op = crate::wire::u16_from_be(v2_opcode_bytes[0], v2_opcode_bytes[1]);
        if !v1_defines_opcode(op) {
            return Err(PictError::InvalidData(crate::error::message_with_hex(
                "opcode not defined for version 1 pictures: ",
                op,
            )));
        }
        write_bytes(&mut self.bytes, vstd::slice::slice_subrange(v2_opcode_bytes, 1, v2_opcode_bytes.len()));
        Ok(self)
    }

    /// Append the one-byte `$FF` end and return the stream, with
    /// `picSize` set to the stream length when that fits 16 bits.
    pub fn finish(self) -> (out: Vec<u8>)
        requires
            self@.len() >= 2,
        ensures
            out@ == (if self@.len() + 1 <= 0xFFFF {
                u16_bytes(self@.len() + 1int) + self@.push(0xFF).subrange(2, self@.len() + 1int)
            } else {
                self@.push(0xFF)
            }),
    {
        let mut bytes = self.bytes;
        bytes.push(0xFF);
        if bytes.len() <= 0xFFFF {
            let mut out: Vec<u8> = Vec::new();
            write_u16(&mut out, bytes.len() as u16);
            write_bytes(&mut out, vstd::slice::slice_subrange(bytes.as_slice(), 2, bytes.len()));
            return out;
        }
        bytes
    }
}


/// A drawing-state opcode the builders write sets, when the reader
/// takes it, exactly the state it names: `PnSize` and `OvSize` the pen
/// and corner-oval size `(h, v)`, `Origin` shifts the origin by
/// `(dh, dv)`, `RGBFgCol` / `RGBBkCol` the foreground / background
/// colour, and the pattern opcodes their 8-byte pattern; nothing else
/// changes.
pub proof fn lemma_state_builders_read_back(
    h: i16,
    v: i16,
    r: u8,
    g: u8,
    b: u8,
    pat: [u8; 8],
    a: crate::state::PictState,
    z: crate::state::PictState,
)
    ensures
        crate::decoder::state_op_effect(OP_PN_SIZE, point_op(0x0007, h, v), 2, a, z) ==> z == (crate::state::PictState {
            pen_size: (h as i32, v as i32),
            ..a
        }),
        crate::decoder::state_op_effect(OP_OV_SIZE, point_op(0x000B, h, v), 2, a, z) ==> z == (crate::state::PictState {
            oval_size: (h as i32, v as i32),
            ..a
        }),
        crate::decoder::state_op_effect(OP_ORIGIN, origin_op(h, v), 2, a, z) ==> z == (crate::state::PictState {
            origin: (a.origin.0.wrapping_add(h as i32), a.origin.1.wrapping_add(v as i32)),
            ..a
        }),
        crate::decoder::state_op_effect(OP_RGB_FG_COL, rgb_op(0x001A, r, g, b), 2, a, z) ==> z == (
        crate::state::PictState { fg: crate::state::Rgba { r, g, b, a: 255 }, ..a }),
        crate::decoder::state_op_effect(OP_RGB_BK_COL, rgb_op(0x001B, r, g, b), 2, a, z) ==> z == (
        crate::state::PictState { bg: crate::state::Rgba { r, g, b, a: 255 }, ..a }),
        crate::decoder::state_op_effect(OP_PN_PAT, pat_op(0x0009, pat), 2, a, z) ==> z.pen_pat.0@ == pat@
            && z.pen_pix_pat is None,
        crate::decoder::state_op_effect(OP_BK_PAT, pat_op(0x0002, pat), 2, a, z) ==> z.back_pat.0@ == pat@
            && z.back_pix_pat is None,
        crate::decoder::state_op_effect(OP_FILL_PAT, pat_op(0x000A, pat), 2, a, z) ==> z.fill_pat.0@ == pat@
            && z.fill_pix_pat is None,
{
    let pv = point_op(0x0007, h, v);
    crate::wire::lemma_i16_roundtrip(v as int, u16_bytes(0x0007), i16_bytes(h as int));
    crate::wire::lemma_i16_roundtrip(h as int, u16_bytes(0x0007) + i16_bytes(v as int), Seq::empty());
    assert(pv =~= u16_bytes(0x0007) + i16_bytes(v as int) + i16_bytes(h as int) + Seq::<u8>::empty());
    let po = point_op(0x000B, h, v);
    crate::wire::lemma_i16_roundtrip(v as int, u16_bytes(0x000B), i16_bytes(h as int));
    crate::wire::lemma_i16_roundtrip(h as int, u16_bytes(0x000B) + i16_bytes(v as int), Seq::empty());
    assert(po =~= u16_bytes(0x000B) + i16_bytes(v as int) + i16_bytes(h as int) + Seq::<u8>::empty());
    let oo = origin_op(h, v);
    crate::wire::lemma_i16_roundtrip(h as int, u16_bytes(0x000C), i16_bytes(v as int));
    crate::wire::lemma_i16_roundtrip(v as int, u16_bytes(0x000C) + i16_bytes(h as int), Seq::empty());
    assert(oo =~= u16_bytes(0x000C) + i16_bytes(h as int) + i16_bytes(v as int) + Seq::<u8>::empty());
    assert(pat_op(0x0009, pat).subrange(2, 10) =~= pat@);
    assert(pat_op(0x0002, pat).subrange(2, 10) =~= pat@);
    assert(pat_op(0x000A, pat).subrange(2, 10) =~= pat@);
    let f = rgb_op(0x001A, r, g, b);
    let k = rgb_op(0x001B, r, g, b);
    assert(crate::wire::be_u16(f, 2) == r as int * 257 && crate::wire::be_u16(f, 4) == g as int * 257
        && crate::wire::be_u16(f, 6) == b as int * 257);
    assert(crate::wire::be_u16(k, 2) == r as int * 257 && crate::wire::be_u16(k, 4) == g as int * 257
        && crate::wire::be_u16(k, 6) == b as int * 257);
    assert(crate::probe::rgb16_at(f, 2) == crate::state::Rgba { r, g, b, a: 255 });
    assert(crate::probe::rgb16_at(k, 2) == crate::state::Rgba { r, g, b, a: 255 });
}

/// The line opcodes the builders write draw, when the reader takes
/// them, the line they name from the point they name, and leave the pen
/// at its end: `Line` from `(h0, v0)` to `(h1, v1)`, `LineFrom` from
/// the pen to `(h1, v1)`, `ShortLine` from `(h0, v0)` by `(dh, dv)`,
/// `ShortLineFrom` from the pen by `(dh, dv)`.
pub proof fn lemma_line_builders_read_back(
    h0: i16,
    v0: i16,
    h1: i16,
    v1: i16,
    dh: i8,
    dv: i8,
    c0: crate::raster::Canvas,
    c1: crate::raster::Canvas,
    a: crate::state::PictState,
    z: crate::state::PictState,
)
    ensures
        crate::decoder::line_op_effect(OP_LINE, line_op(h0, v0, h1, v1), 2, c0, c1, a, z) ==> (
        crate::decoder::line_done(c0, c1, a, h0 as i32, v0 as i32, h1 as i32, v1 as i32) && z == (
        crate::state::PictState { pen: (h1 as i32, v1 as i32), ..a })),
        crate::decoder::line_op_effect(OP_LINE_FROM, line_from_op(h1, v1), 2, c0, c1, a, z) ==> (
        crate::decoder::line_done(c0, c1, a, a.pen.0, a.pen.1, h1 as i32, v1 as i32) && z == (crate::state::PictState {
            pen: (h1 as i32, v1 as i32),
            ..a
        })),
        crate::decoder::line_op_effect(OP_SHORT_LINE, short_line_op(h0, v0, dh, dv), 2, c0, c1, a, z) ==> (
        crate::decoder::line_done(
            c0,
            c1,
            a,
            h0 as i32,
            v0 as i32,
            (h0 as i32).wrapping_add(dh as i32),
            (v0 as i32).wrapping_add(dv as i32),
        ) && z == (crate::state::PictState {
            pen: ((h0 as i32).wrapping_add(dh as i32), (v0 as i32).wrapping_add(dv as i32)),
            ..a
        })),
        crate::decoder::line_op_effect(OP_SHORT_LINE_FROM, short_line_from_op(dh, dv), 2, c0, c1, a, z) ==> (
        crate::decoder::line_done(
            c0,
            c1,
            a,
            a.pen.0,
            a.pen.1,
            a.pen.0.wrapping_add(dh as i32),
            a.pen.1.wrapping_add(dv as i32),
        ) && z == (crate::state::PictState {
            pen: (a.pen.0.wrapping_add(dh as i32), a.pen.1.wrapping_add(dv as i32)),
            ..a
        })),
{
    let l = line_op(h0, v0, h1, v1);
    crate::wire::lemma_i16_roundtrip(v0 as int, u16_bytes(0x0020), i16_bytes(h0 as int) + i16_bytes(v1 as int) + i16_bytes(h1 as int));
    crate::wire::lemma_i16_roundtrip(h0 as int, u16_bytes(0x0020) + i16_bytes(v0 as int), i16_bytes(v1 as int) + i16_bytes(h1 as int));
    crate::wire::lemma_i16_roundtrip(v1 as int, u16_bytes(0x0020) + i16_bytes(v0 as int) + i16_bytes(h0 as int), i16_bytes(h1 as int));
    crate::wire::lemma_i16_roundtrip(h1 as int, u16_bytes(0x0020) + i16_bytes(v0 as int) + i16_bytes(h0 as int) + i16_bytes(v1 as int), Seq::empty());
    assert(l =~= u16_bytes(0x0020) + i16_bytes(v0 as int) + (i16_bytes(h0 as int) + i16_bytes(v1 as int) + i16_bytes(h1 as int)));
    assert(l =~= u16_bytes(0x0020) + i16_bytes(v0 as int) + i16_bytes(h0 as int) + (i16_bytes(v1 as int) + i16_bytes(h1 as int)));
    assert(l =~= u16_bytes(0x0020) + i16_bytes(v0 as int) + i16_bytes(h0 as int) + i16_bytes(v1 as int) + i16_bytes(h1 as int));
    assert(l =~= u16_bytes(0x0020) + i16_bytes(v0 as int) + i16_bytes(h0 as int) + i16_bytes(v1 as int) + i16_bytes(h1 as int) + Seq::<u8>::empty());
    let lf = line_from_op(h1, v1);
    crate::wire::lemma_i16_roundtrip(v1 as int, u16_bytes(0x0021), i16_bytes(h1 as int));
    crate::wire::lemma_i16_roundtrip(h1 as int, u16_bytes(0x0021) + i16_bytes(v1 as int), Seq::empty());
    assert(lf =~= u16_bytes(0x0021) + i16_bytes(v1 as int) + i16_bytes(h1 as int) + Seq::<u8>::empty());
    let sl = short_line_op(h0, v0, dh, dv);
    let tl = seq![sbyte(dh), sbyte(dv)];
    crate::wire::lemma_i16_roundtrip(v0 as int, u16_bytes(0x0022), i16_bytes(h0 as int) + tl);
    crate::wire::lemma_i16_roundtrip(h0 as int, u16_bytes(0x0022) + i16_bytes(v0 as int), tl);
    assert(sl =~= u16_bytes(0x0022) + i16_bytes(v0 as int) + (i16_bytes(h0 as int) + tl));
    assert(sl =~= u16_bytes(0x0022) + i16_bytes(v0 as int) + i16_bytes(h0 as int) + tl);
    assert(sl[6] == sbyte(dh) && sl[7] == sbyte(dv));
    assert(crate::decoder::signed_spec(sbyte(dh)) == dh as i32);
    assert(crate::decoder::signed_spec(sbyte(dv)) == dv as i32);
    let sf = short_line_from_op(dh, dv);
    assert(sf[2] == sbyte(dh) && sf[3] == sbyte(dv));
}

/// A shape opcode the builders write names, to the reader, the
/// rectangle it was built with (remembered as the family's last
/// rectangle), and an arc opcode its start and sweep angles.
pub proof fn lemma_shape_builders_read_back(
    verb: Verb,
    top: i16,
    left: i16,
    bottom: i16,
    right: i16,
    start: i16,
    arc: i16,
)
    ensures
        forall|base: u16|
            #![trigger shape_op(base, verb, top, left, bottom, right)]
            crate::decoder::rect_at(shape_op(base, verb, top, left, bottom, right), 2) == (RectI32 {
                top: top as i32,
                left: left as i32,
                bottom: bottom as i32,
                right: right as i32,
            }),
        crate::decoder::rect_at(arc_op(verb, top, left, bottom, right, start, arc), 2) == (RectI32 {
            top: top as i32,
            left: left as i32,
            bottom: bottom as i32,
            right: right as i32,
        }),
        crate::wire::be_i16(arc_op(verb, top, left, bottom, right, start, arc), 10) == start,
        crate::wire::be_i16(arc_op(verb, top, left, bottom, right, start, arc), 12) == arc,
{
    assert forall|base: u16| #![trigger shape_op(base, verb, top, left, bottom, right)]
        crate::decoder::rect_at(shape_op(base, verb, top, left, bottom, right), 2) == (RectI32 {
            top: top as i32,
            left: left as i32,
            bottom: bottom as i32,
            right: right as i32,
        }) by {
        let s = shape_op(base, verb, top, left, bottom, right);
        let w = op_word(base, verb);
        crate::wire::lemma_i16_roundtrip(top as int, w, i16_bytes(left as int) + i16_bytes(bottom as int) + i16_bytes(right as int));
        crate::wire::lemma_i16_roundtrip(left as int, w + i16_bytes(top as int), i16_bytes(bottom as int) + i16_bytes(right as int));
        crate::wire::lemma_i16_roundtrip(bottom as int, w + i16_bytes(top as int) + i16_bytes(left as int), i16_bytes(right as int));
        crate::wire::lemma_i16_roundtrip(right as int, w + i16_bytes(top as int) + i16_bytes(left as int) + i16_bytes(bottom as int), Seq::empty());
        assert(s =~= w + i16_bytes(top as int) + (i16_bytes(left as int) + i16_bytes(bottom as int) + i16_bytes(right as int)));
        assert(s =~= w + i16_bytes(top as int) + i16_bytes(left as int) + (i16_bytes(bottom as int) + i16_bytes(right as int)));
        assert(s =~= w + i16_bytes(top as int) + i16_bytes(left as int) + i16_bytes(bottom as int) + i16_bytes(right as int));
        assert(s =~= w + i16_bytes(top as int) + i16_bytes(left as int) + i16_bytes(bottom as int) + i16_bytes(right as int) + Seq::<u8>::empty());
    }
    let a = arc_op(verb, top, left, bottom, right, start, arc);
    let sh = shape_op(0x0060, verb, top, left, bottom, right);
    assert(sh.len() == 10);
    crate::wire::lemma_i16_roundtrip(start as int, sh, i16_bytes(arc as int));
    crate::wire::lemma_i16_roundtrip(arc as int, sh + i16_bytes(start as int), Seq::empty());
    assert(a =~= sh + i16_bytes(start as int) + i16_bytes(arc as int) + Seq::<u8>::empty());
    assert forall|k: int| 2 <= k < 10 implies a[k] == sh[k] by {}
}

/// A one-word text-state opcode the builders write sets, when the
/// reader takes it, exactly the field it names to the word it was built
/// with: `TxFont`, `TxMode`, `PnMode`, `TxSize`, `PnLocHFrac`, `ChExtra`.
#[verifier::spinoff_prover]
#[verifier::rlimit(40)]
pub proof fn lemma_text_word_builders_read_back(v: i16, t: crate::state::PictTextState)
    ensures
        crate::probe::text_state_after(OP_TX_FONT, word_op(0x0003, v), 2, t) == (crate::state::PictTextState {
            tx_font: v,
            ..t
        }),
        crate::probe::text_state_after(OP_TX_MODE, word_op(0x0005, v), 2, t) == (crate::state::PictTextState {
            tx_mode: v,
            ..t
        }),
        crate::probe::text_state_after(OP_PN_MODE, word_op(0x0008, v), 2, t) == (crate::state::PictTextState {
            pn_mode: v,
            ..t
        }),
        crate::probe::text_state_after(OP_TX_SIZE, word_op(0x000D, v), 2, t) == (crate::state::PictTextState {
            tx_size: v,
            ..t
        }),
        crate::probe::text_state_after(OP_PN_LOC_HFRAC, word_op(0x0015, v), 2, t) == (crate::state::PictTextState {
            pn_loc_h_frac: v,
            ..t
        }),
        crate::probe::text_state_after(OP_CH_EXTRA, word_op(0x0016, v), 2, t) == (crate::state::PictTextState {
            ch_extra: v,
            ..t
        }),
{
    lemma_word_op_reads(0x0003, v);
    lemma_word_op_reads(0x0005, v);
    lemma_word_op_reads(0x0008, v);
    lemma_word_op_reads(0x000D, v);
    lemma_word_op_reads(0x0015, v);
    lemma_word_op_reads(0x0016, v);
}

/// The word of a one-word opcode reads back.
proof fn lemma_word_op_reads(op: u16, v: i16)
    ensures
        crate::wire::be_i16(word_op(op, v), 2) == v,
{
    crate::wire::lemma_i16_roundtrip(v as int, u16_bytes(op as int), Seq::empty());
    assert(word_op(op, v) =~= u16_bytes(op as int) + i16_bytes(v as int) + Seq::<u8>::empty());
}

/// `TxFace` and `SpExtra` as the builders write them set, when the
/// reader takes them, the style byte and the `Fixed` extra space.
#[verifier::spinoff_prover]
pub proof fn lemma_face_extra_builders_read_back(face: u8, e: i32, t: crate::state::PictTextState)
    ensures
        crate::probe::text_state_after(OP_TX_FACE, u16_bytes(0x0004) + seq![face], 2, t) == (
        crate::state::PictTextState { tx_face: crate::state::PictTextFace(face), ..t }),
        crate::probe::text_state_after(OP_SP_EXTRA, u16_bytes(0x0006) + i32_bytes(e as int), 2, t) == (
        crate::state::PictTextState { sp_extra: crate::header::Fixed(e), ..t }),
{
    assert((u16_bytes(0x0004) + seq![face])[2] == face);
    crate::wire::lemma_i32_roundtrip(e as int, u16_bytes(0x0006), Seq::empty());
    assert(u16_bytes(0x0006) + i32_bytes(e as int) =~= u16_bytes(0x0006) + i32_bytes(e as int) + Seq::<u8>::empty());
}

/// `TxRatio` as the builder writes it sets, when the reader takes it,
/// the numerator and denominator points it was built with.
#[verifier::spinoff_prover]
pub proof fn lemma_tx_ratio_builder_read_back(nv: i16, nh: i16, dv: i16, dh: i16, t: crate::state::PictTextState)
    ensures
        crate::probe::text_state_after(OP_TX_RATIO, tx_ratio_op(nv, nh, dv, dh), 2, t) == (
        crate::state::PictTextState {
            tx_ratio: crate::state::TextRatio { numer_v: nv, numer_h: nh, denom_v: dv, denom_h: dh },
            ..t
        }),
{
    let q = tx_ratio_op(nv, nh, dv, dh);
    let w0 = u16_bytes(0x0010);
    crate::wire::lemma_i16_roundtrip(nv as int, w0, i16_bytes(nh as int) + i16_bytes(dv as int) + i16_bytes(dh as int));
    crate::wire::lemma_i16_roundtrip(nh as int, w0 + i16_bytes(nv as int), i16_bytes(dv as int) + i16_bytes(dh as int));
    crate::wire::lemma_i16_roundtrip(dv as int, w0 + i16_bytes(nv as int) + i16_bytes(nh as int), i16_bytes(dh as int));
    crate::wire::lemma_i16_roundtrip(dh as int, w0 + i16_bytes(nv as int) + i16_bytes(nh as int) + i16_bytes(dv as int), Seq::empty());
    assert(q =~= w0 + i16_bytes(nv as int) + (i16_bytes(nh as int) + i16_bytes(dv as int) + i16_bytes(dh as int)));
    assert(q =~= w0 + i16_bytes(nv as int) + i16_bytes(nh as int) + (i16_bytes(dv as int) + i16_bytes(dh as int)));
    assert(q =~= w0 + i16_bytes(nv as int) + i16_bytes(nh as int) + i16_bytes(dv as int) + i16_bytes(dh as int));
    assert(q =~= w0 + i16_bytes(nv as int) + i16_bytes(nh as int) + i16_bytes(dv as int) + i16_bytes(dh as int) + Seq::<u8>::empty());
}

/// `OpColor` and `HiliteColor` as the builders write them set, when
/// the reader takes them, the colour they were built with.
#[verifier::spinoff_prover]
pub proof fn lemma_colour_builders_read_back(r: u8, g: u8, b: u8, t: crate::state::PictTextState)
    ensures
        crate::probe::text_state_after(OP_OP_COLOR, rgb_op(0x001F, r, g, b), 2, t) == (crate::state::PictTextState {
            op_color: Some(crate::state::Rgba { r, g, b, a: 255 }),
            ..t
        }),
        crate::probe::text_state_after(OP_HILITE_COLOR, rgb_op(0x001D, r, g, b), 2, t) == (
        crate::state::PictTextState {
            hilite_color: Some(crate::state::Rgba { r, g, b, a: 255 }),
            hilite_default: false,
            ..t
        }),
{
    let f = rgb_op(0x001F, r, g, b);
    let k = rgb_op(0x001D, r, g, b);
    assert(crate::wire::be_u16(f, 2) == r as int * 257 && crate::wire::be_u16(f, 4) == g as int * 257
        && crate::wire::be_u16(f, 6) == b as int * 257);
    assert(crate::wire::be_u16(k, 2) == r as int * 257 && crate::wire::be_u16(k, 4) == g as int * 257
        && crate::wire::be_u16(k, 6) == b as int * 257);
    assert(crate::probe::rgb16_at(f, 2) == crate::state::Rgba { r, g, b, a: 255 });
    assert(crate::probe::rgb16_at(k, 2) == crate::state::Rgba { r, g, b, a: 255 });
}

} // verus!

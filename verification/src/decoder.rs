//! PICT decoder: walks the v1 (8-bit) or v2 (16-bit, word-aligned)
//! opcode stream, steps the drawing state and folds every drawing
//! command (line, rectangle, rounded rectangle, oval, arc, polygon,
//! region, raster) onto a canvas sized to `picFrame` and filled with
//! white paper.
//!
//! Raster records: `BitsRect`, `BitsRgn`, `PackBitsRect` and
//! `PackBitsRgn` carry a one-bit BitMap or, when the high bit of
//! `rowBytes` is set, an indexed PixMap with its colour table;
//! `DirectBitsRect` / `DirectBitsRgn` carry direct pixels with
//! packType 0 or 1 (raw), 2 (32-bit pixels stored as three bytes),
//! 3 (16-bit PackBits) or 4 (component planes, PackBits). Rows wider
//! than 250 bytes carry a two-byte byte count, others one byte.
use vstd::prelude::*;
use crate::error::{PictError, Result};
use crate::header::{header_from_bytes, header_version_known, Fixed, PictHeader};
use crate::image::{PictComment, PictImage, PictPixelFormat};
use crate::opcodes::{
    OP_BG_COLOR, OP_BITS_RECT, OP_BITS_RGN, OP_BK_PAT, OP_BK_PIX_PAT, OP_CH_EXTRA, OP_CLIP_RGN,
    OP_COMPRESSED_QUICKTIME, OP_DEF_HILITE, OP_DHDV_TEXT, OP_DH_TEXT, OP_DIRECT_BITS_RECT,
    OP_DIRECT_BITS_RGN, OP_DV_TEXT, OP_ERASE_RGN, OP_FG_COLOR, OP_FILL_PAT, OP_FILL_PIX_PAT,
    OP_FILL_RGN, OP_FONT_NAME, OP_FRAME_RGN, OP_GLYPH_STATE, OP_HEADER_OP, OP_HILITE_COLOR,
    OP_HILITE_MODE, OP_INVERT_RGN, OP_LINE, OP_LINE_FROM, OP_LINE_JUSTIFY, OP_LONG_COMMENT,
    OP_LONG_TEXT, OP_NOP, OP_OP_COLOR, OP_OP_END_PIC, OP_ORIGIN, OP_OV_SIZE, OP_PACK_BITS_RECT,
    OP_PACK_BITS_RGN, OP_PAINT_RGN, OP_PN_LOC_HFRAC, OP_PN_MODE, OP_PN_PAT, OP_PN_PIX_PAT,
    OP_PN_SIZE, OP_RGB_BK_COL, OP_RGB_FG_COL, OP_SHORT_COMMENT, OP_SHORT_LINE,
    OP_SHORT_LINE_FROM, OP_SP_EXTRA, OP_TX_FACE, OP_TX_FONT, OP_TX_MODE, OP_TX_RATIO, OP_TX_SIZE,
    OP_UNCOMPRESSED_QUICKTIME, ReservedV2Skip, reserved_v2_payload_size,
};
use crate::raster::{
    fill_arc, fill_oval_pattern_mode, fill_oval_pix_pattern, fill_polygon_pattern_mode,
    fill_polygon_pix_pattern, fill_rect, fill_rect_pattern_mode, fill_rect_pix_pattern,
    fill_round_rect_pattern_mode, fill_round_rect_pix_pattern, frame_arc, frame_oval_thick,
    frame_polygon, frame_rect, frame_rect_pattern_thick_mode, frame_rect_pix_pattern_thick,
    frame_round_rect, invert_arc, invert_oval, invert_polygon, invert_round_rect, line_thick,
    Canvas, Figure, Ink, PatternMode, Shape, SourceMode, MAX_SIDE, cell, painted, rect_has,
    lemma_identity_copy_reproduces_source,
};
use crate::reader::Reader;
use crate::raster::{blend_source_spec, mode_word_spec, raster_sample};
use crate::encoder::{indexed_spec, pict_v1_spec, pict_v2_spec, IndexedPixelSize, PackType};
use crate::roundtrip::{indexed_record, indexed_record_at, indexed_roundtrip_ok, lemma_v2_indexed_stream_shape,
    v2_indexed_record_shape, v2_indexed_stream_shape, lemma_indexed_record_reads_back, palette_pixel, lemma_cells_equal, lemma_opaque_cells, lemma_record_decodes, opaque_rgba, record_at, record_len, lemma_v1_stream_shape, lemma_v2_stream_shape, roundtrip_ok, v1_record_shape, v1_stream_shape,
    v2_record_shape, v2_stream_shape,
};
use crate::wire::{be_i16, be_u16, be_u32};
use crate::probe::{comment_matches, rgb16_at, text_state_after, v2_fixed_size, word_aligned};
use crate::opcodes::reserved_skip_spec;
use crate::region::{inversion_mask, parse_region, rgn_bbox, rgn_ok, rgn_payload, Region};
use crate::rows::{
    indexed_value, layout_pixel, layout_row_ok, packed16_rows, packed_rows, read_packed16_rows, read_packed_rows, read_raw, rgba_at, to_rgba,
    Layout, MAX_RASTER_BYTES,
};
use crate::state::{
    Pattern, PictFontName, PictGlyphState, PictLineJustify, PictState, PictTextFace, PictTextState, PixPattern,
    RectI32, Rgba, TextRatio, black_spec, pascal_colour_spec, white_spec,
};

verus! {

/// One decoded raster record: RGBA pixels and the record's transfer
/// mode word.
pub struct RasterSub {
    pub width: u32,
    pub height: u32,
    pub data: Vec<u8>,
    pub mode: u16,
}

impl RasterSub {
    /// `width * height` RGBA pixels within the raster budget.
    pub open spec fn wf(&self) -> bool {
        &&& self.data@.len() == self.width * self.height * 4
        &&& self.width * self.height * 4 <= MAX_RASTER_BYTES
    }
}

/// `max(hi - lo, 0)` of two 16-bit edges.
pub open spec fn extent(lo: i16, hi: i16) -> int {
    if hi > lo { hi - lo } else { 0 }
}

pub(crate) fn extent_exec(lo: i16, hi: i16) -> (e: u32)
    ensures
        e == extent(lo, hi),
        e <= 65535,
{
    if hi > lo { (hi as i32 - lo as i32) as u32 } else { 0 }
}

/// Whether a `w x h` RGBA image fits the raster budget.
fn fits_budget(w: u32, h: u32) -> (b: bool)
    requires
        w <= 65535,
        h <= 65535,
    ensures
        b == (w * h * 4 <= MAX_RASTER_BYTES),
{
    proof {
        assert((w as int) * (h as int) <= 65535 * 65535) by (nonlinear_arith)
            requires w <= 65535, h <= 65535;
    }
    (w as u64) * (h as u64) * 4 <= MAX_RASTER_BYTES as u64
}

/// The fields of a PixMap after `rowBytes` that the decoder uses.
pub struct PixMapFields {
    pub bounds: (i16, i16, i16, i16),
    pub pack_type: u16,
    pub pixel_size: u16,
    pub comp_count: u16,
    pub comp_size: u16,
}

/// Read the 44 PixMap bytes that follow `rowBytes`: bounds, version,
/// packType, packSize, resolutions, pixelType, pixelSize, cmpCount,
/// cmpSize, planeBytes, pmTable, pmReserved.
fn read_pixmap_tail(r: &mut Reader<'_>) -> (res: Result<PixMapFields>)
    requires
        old(r).pos <= old(r).bytes@.len(),
    ensures
        final(r).bytes@ == old(r).bytes@,
        res is Ok ==> final(r).pos == old(r).pos + 44 && final(r).pos <= final(r).bytes@.len(),
        res is Err ==> old(r).rem() < 44,
        res matches Err(e) ==> e is InvalidData,
        res matches Ok(f) ==> ({
            let s = old(r).bytes@;
            let p = old(r).pos as int;
            &&& f.bounds.0 == be_i16(s, p)
            &&& f.bounds.1 == be_i16(s, p + 2)
            &&& f.bounds.2 == be_i16(s, p + 4)
            &&& f.bounds.3 == be_i16(s, p + 6)
            &&& f.pack_type == be_u16(s, p + 10)
            &&& f.pixel_size == be_u16(s, p + 26)
            &&& f.comp_count == be_u16(s, p + 28)
            &&& f.comp_size == be_u16(s, p + 30)
        }),
{
    if r.remaining() < 44 {
        return Err(PictError::invalid("truncated PixMap record"));
    }
    let bounds = r.read_rect()?;
    let _pm_version = r.read_u16()?;
    let pack_type = r.read_u16()?;
    let _pack_size = r.read_u32()?;
    let _h_res = r.read_u32()?;
    let _v_res = r.read_u32()?;
    let _pixel_type = r.read_u16()?;
    let pixel_size = r.read_u16()?;
    let comp_count = r.read_u16()?;
    let comp_size = r.read_u16()?;
    let _plane_bytes = r.read_u32()?;
    let _pm_table = r.read_u32()?;
    let _pm_reserved = r.read_u32()?;
    Ok(PixMapFields { bounds, pack_type, pixel_size, comp_count, comp_size })
}

/// Read a `ColorTable`: seed, flags, `ctSize` (entries minus one, in
/// `0..=255`), then `ctSize + 1` `ColorSpec`s mapped by position.
/// The `ColorTable` at `p`: its entries, when `ctSize` is in `0..=255`
/// and all of them are there.
pub open spec fn color_table_at(s: Seq<u8>, p: int) -> Option<Seq<Rgba>> {
    let n = be_i16(s, p + 6) + 1;
    if p + 8 <= s.len() && 1 <= n <= 256 && p + 8 + 8 * n <= s.len() {
        Some(Seq::new(n as nat, |i: int| rgb16_at(s, p + 8 + 8 * i + 2)))
    } else {
        None
    }
}

/// The bytes the `ColorTable` at `p` takes.
pub open spec fn color_table_len(s: Seq<u8>, p: int) -> int {
    8 + 8 * (be_i16(s, p + 6) + 1)
}

fn read_color_table(r: &mut Reader<'_>) -> (res: Result<Vec<Rgba>>)
    requires
        old(r).pos <= old(r).bytes@.len(),
    ensures
        final(r).bytes@ == old(r).bytes@,
        res is Ok ==> final(r).pos <= final(r).bytes@.len() && final(r).pos >= old(r).pos,
        res matches Ok(p) ==> 1 <= p@.len() <= 256,
        match color_table_at(old(r).bytes@, old(r).pos as int) {
            Some(t) => res matches Ok(v) && v@ == t && final(r).pos == old(r).pos + color_table_len(
                old(r).bytes@,
                old(r).pos as int,
            ),
            None => res matches Err(e) && e is InvalidData,
        },
{
    let ghost s = r.bytes@;
    let ghost p = r.pos as int;
    let _ct_seed = r.read_u32()?;
    let _ct_flags = r.read_i16()?;
    let ct_size = r.read_i16()?;
    if ct_size < 0 || ct_size > 255 {
        return Err(PictError::invalid("ColorTable ctSize out of range"));
    }
    let n = ct_size as usize + 1;
    let mut palette: Vec<Rgba> = Vec::new();
    let mut i: usize = 0;
    while i < n
        invariant
            r.bytes@ == old(r).bytes@,
            s == old(r).bytes@,
            p == old(r).pos,
            old(r).pos <= r.pos <= r.bytes@.len(),
            r.pos == p + 8 + 8 * i,
            n == be_i16(s, p + 6) + 1,
            i <= n <= 256,
            palette@.len() == i,
            forall|j: int| 0 <= j < i ==> #[trigger] palette@[j] == rgb16_at(s, p + 8 + 8 * j + 2),
        decreases n - i,
    {
        let _value = r.read_u16()?;
        let r16 = r.read_u16()?;
        let g16 = r.read_u16()?;
        let b16 = r.read_u16()?;
        palette.push(Rgba::from_rgb16(r16, g16, b16));
        i += 1;
    }
    proof {
        assert(palette@ =~= color_table_at(s, p)->0);
    }
    Ok(palette)
}

/// Pixel rows of a BitMap or indexed PixMap: raw when `rowBytes < 8`
/// or the record is unpacked, else PackBits per row behind a byte
/// count.
/// The `height` pixel rows of `row_bytes` bytes at `q`, and where they
/// end: stored as they are when `row_bytes < 8` or unpacked, else each
/// row PackBits-coded behind a byte count (a word when `row_bytes >
/// 250`).
pub open spec fn pixel_rows_at(s: Seq<u8>, q: int, row_bytes: int, height: int, packed: bool) -> Option<(Seq<u8>, int)> {
    if row_bytes < 8 || !packed {
        if 0 <= q && q + row_bytes * height <= s.len() {
            Some((s.subrange(q, q + row_bytes * height), q + row_bytes * height))
        } else {
            None
        }
    } else {
        match packed_rows(s.subrange(q, s.len() as int), row_bytes as nat, 1, height as nat, row_bytes > 250) {
            Some((d, u)) => Some((d, q + u)),
            None => None,
        }
    }
}

/// The rows of a [`pixel_rows_at`] result.
pub open spec fn rows_data(rows: Option<(Seq<u8>, int)>) -> Seq<u8> {
    match rows {
        Some((d, _)) => d,
        None => Seq::empty(),
    }
}

/// Where the rows of a [`pixel_rows_at`] result end.
pub open spec fn rows_end(rows: Option<(Seq<u8>, int)>) -> int {
    match rows {
        Some((_, e)) => e,
        None => 0,
    }
}

fn read_pixel_rows(r: &mut Reader<'_>, row_bytes: usize, height: usize, packed: bool) -> (res: Result<Vec<u8>>)
    requires
        old(r).pos <= old(r).bytes@.len(),
        row_bytes * height <= MAX_RASTER_BYTES,
    ensures
        final(r).bytes@ == old(r).bytes@,
        res is Ok ==> final(r).pos <= final(r).bytes@.len() && final(r).pos >= old(r).pos,
        res matches Ok(v) ==> v@.len() == row_bytes * height,
        res matches Ok(v) ==> (row_bytes < 8 || !packed ==> v@ == old(r).rest().subrange(0, row_bytes * height)),
        match pixel_rows_at(old(r).bytes@, old(r).pos as int, row_bytes as int, height as int, packed) {
            Some((d, e)) => res matches Ok(v) && v@ == d && final(r).pos == e,
            None => res matches Err(e) && e is InvalidData,
        },
{
    let ghost s = r.bytes@;
    let ghost p = r.pos as int;
    proof {
        assert(r.rest() =~= s.subrange(p, s.len() as int));
        assert(row_bytes * height >= 0) by (nonlinear_arith)
            requires row_bytes >= 0, height >= 0;
    }
    if row_bytes < 8 || !packed {
        let v = read_raw(r, row_bytes * height)?;
        proof {
            assert(v@ =~= s.subrange(p, p + row_bytes * height));
        }
        Ok(v)
    } else {
        let v = read_packed_rows(r, row_bytes, 1, height, row_bytes > 250)?;
        proof {
            crate::rows::lemma_packed_rows_len(old(r).rest(), row_bytes as nat, 1, height as nat, row_bytes > 250);
            assert(row_bytes * 1 * height == row_bytes * height) by (nonlinear_arith);
        }
        Ok(v)
    }
}

/// The one-bit BitMap body of `BitsRect` / `BitsRgn` / `PackBitsRect`
/// / `PackBitsRgn` (after `rowBytes`): bounds, srcRect, dstRect, mode,
/// the region when `with_region`, then the rows. Set bits are black.
/// Where the pixel rows start after an optional region at `q`.
pub open spec fn after_region(s: Seq<u8>, q: int, with_region: bool) -> int {
    if with_region {
        q + be_u16(s, q)
    } else {
        q
    }
}

/// The region at `q`, when there is one, is whole.
pub open spec fn region_ok_at(s: Seq<u8>, q: int, with_region: bool) -> bool {
    with_region ==> rgn_ok(s.subrange(q, s.len() as int))
}

/// The rectangle of four big-endian edges at `i`.
pub open spec fn rect_at(s: Seq<u8>, i: int) -> RectI32 {
    RectI32 {
        top: be_i16(s, i) as i32,
        left: be_i16(s, i + 2) as i32,
        bottom: be_i16(s, i + 4) as i32,
        right: be_i16(s, i + 6) as i32,
    }
}

/// Width and height of the bounds rectangle at `i`.
pub open spec fn bounds_size(s: Seq<u8>, i: int) -> (int, int) {
    (extent(be_i16(s, i + 2) as i16, be_i16(s, i + 6) as i16), extent(be_i16(s, i) as i16, be_i16(s, i + 4) as i16))
}

/// The checks a raster body of `w x h` pixels in rows of `row_bytes`
/// bytes of `per` pixels each passes: within the raster budget, rows
/// wide enough, rows within the budget.
pub open spec fn raster_size_ok(w: int, h: int, row_bytes: int, per: int) -> bool {
    &&& w * h * 4 <= MAX_RASTER_BYTES
    &&& !(h > 0 && row_bytes * per < w)
    &&& row_bytes * h <= MAX_RASTER_BYTES
}

/// The one-bit BitMap body at `p` (bounds, srcRect, dstRect, mode, the
/// region when `with_region`, rows) decodes.
pub open spec fn bitmap_body_ok(s: Seq<u8>, p: int, row_bytes: int, packed: bool, with_region: bool) -> bool {
    let (w, h) = bounds_size(s, p);
    &&& p + 26 <= s.len()
    &&& region_ok_at(s, p + 26, with_region)
    &&& raster_size_ok(w, h, row_bytes, 8)
    &&& pixel_rows_at(s, after_region(s, p + 26, with_region), row_bytes, h, packed) is Some
}

/// A decoded raster body: `sub` is the `w x h` raster whose pixel
/// `(x, y)` is pixel `(x, y)` of `rows` in `layout`, drawn into `dst`
/// with transfer mode `mode`, with the region at `q` when
/// `with_region`.
pub open spec fn raster_body(
    sub: RasterSub,
    dst: RectI32,
    g: Option<Region>,
    s: Seq<u8>,
    q: int,
    with_region: bool,
    w: int,
    h: int,
    mode: u16,
    layout: Layout,
    rows: Seq<u8>,
    row_bytes: int,
    palette: Seq<Rgba>,
    dst_at: int,
) -> bool {
    &&& sub.width == w
    &&& sub.height == h
    &&& sub.mode == mode
    &&& dst == rect_at(s, dst_at)
    &&& (with_region <==> g is Some)
    &&& (g matches Some(rg) ==> rg.bbox == rgn_bbox(s.subrange(q, s.len() as int)))
    &&& forall|x: int, y: int|
        0 <= x < w && 0 <= y < h ==> #[trigger] rgba_at(sub.data@, w, x, y) == layout_pixel(
            layout,
            rows,
            row_bytes,
            w,
            palette,
            x,
            y,
        )
}

fn decode_bitmap_body(r: &mut Reader<'_>, row_bytes: usize, packed: bool, with_region: bool) -> (res: Result<(RasterSub, RectI32, Option<Region>)>)
    requires
        old(r).pos <= old(r).bytes@.len(),
        row_bytes <= 0x7FFF,
    ensures
        final(r).bytes@ == old(r).bytes@,
        res is Ok ==> final(r).pos <= final(r).bytes@.len() && final(r).pos > old(r).pos,
        res matches Ok((sub, _, g)) ==> sub.wf() && (g matches Some(rg) ==> rg.wf()) && (with_region <==> g is Some),
        ({
            let s = old(r).bytes@;
            let p = old(r).pos as int;
            let (w, h) = bounds_size(s, p);
            let q = after_region(s, p + 26, with_region);
            let rows = pixel_rows_at(s, q, row_bytes as int, h, packed);
            &&& (res is Ok <==> bitmap_body_ok(s, p, row_bytes as int, packed, with_region))
            &&& res matches Err(e) ==> e is InvalidData
            &&& res matches Ok((sub, dst, g)) ==> {
                &&& final(r).pos == rows_end(rows)
                &&& raster_body(
                    sub,
                    dst,
                    g,
                    s,
                    p + 26,
                    with_region,
                    w,
                    h,
                    be_u16(s, p + 24) as u16,
                    Layout::Mono,
                    rows_data(rows),
                    row_bytes as int,
                    Seq::empty(),
                    p + 16,
                )
            }
        }),
{
    let ghost s = r.bytes@;
    let ghost p = r.pos as int;
    let bounds = r.read_rect()?;
    let _src_rect = r.read_rect()?;
    let dst_rect = r.read_rect()?;
    let mode = r.read_u16()?;
    proof {
        assert(r.rest() =~= s.subrange(p + 26, s.len() as int));
    }
    let rgn = if with_region {
        Some(parse_region(r)?)
    } else {
        None
    };
    proof {
        if with_region {
            let t = s.subrange(p + 26, s.len() as int);
            assert(t[0] == s[p + 26] && t[1] == s[p + 27]);
        }
    }
    let width = extent_exec(bounds.1, bounds.3);
    let height = extent_exec(bounds.0, bounds.2);
    if !fits_budget(width, height) {
        return Err(PictError::invalid("BitMap exceeds the raster budget"));
    }
    if height > 0 && row_bytes * 8 < width as usize {
        return Err(PictError::invalid("BitMap rowBytes too small for its bounds"));
    }
    proof {
        assert(row_bytes * height <= 0x7FFF * 65535) by (nonlinear_arith)
            requires row_bytes <= 0x7FFF, height <= 65535;
    }
    if row_bytes * (height as usize) > MAX_RASTER_BYTES {
        return Err(PictError::invalid("BitMap rows exceed the raster budget"));
    }
    let bitmap = read_pixel_rows(r, row_bytes, height as usize, packed)?;
    let rgba = if height == 0 {
        Vec::new()
    } else {
        to_rgba(Layout::Mono, bitmap.as_slice(), row_bytes, width as usize, height as usize, &[])
    };
    proof {
        if height == 0 {
            assert(width * 0 * 4 == 0) by (nonlinear_arith);
        }
    }
    Ok((
        RasterSub { width, height, data: rgba, mode },
        RectI32::from_be(dst_rect.0, dst_rect.1, dst_rect.2, dst_rect.3),
        rgn,
    ))
}

/// The indexed PixMap body shared by the four BitMap-family opcodes
/// when the high bit of `rowBytes` is set: PixMap (without baseAddr),
/// ColorTable, srcRect, dstRect, mode, the region when `with_region`,
/// then the rows, resolved through the palette (out-of-range indices
/// are black). Pixel sizes other than 1, 2, 4 and 8 are unsupported.
/// Where the srcRect of the indexed PixMap body at `p` starts: after
/// the 44 PixMap bytes and the colour table.
pub open spec fn indexed_rects_at(s: Seq<u8>, p: int) -> int {
    p + 44 + color_table_len(s, p + 44)
}

/// The pixel sizes an indexed PixMap may have.
pub open spec fn indexed_depth_ok(d: int) -> bool {
    d == 1 || d == 2 || d == 4 || d == 8
}

/// The indexed PixMap body at `p` (PixMap, ColorTable, srcRect,
/// dstRect, mode, the region when `with_region`, rows) decodes.
pub open spec fn indexed_body_ok(s: Seq<u8>, p: int, row_bytes: int, packed: bool, with_region: bool) -> bool {
    let (w, h) = bounds_size(s, p);
    let c = indexed_rects_at(s, p);
    let d = be_u16(s, p + 26);
    &&& p + 44 <= s.len()
    &&& color_table_at(s, p + 44) is Some
    &&& c + 18 <= s.len()
    &&& region_ok_at(s, c + 18, with_region)
    &&& indexed_depth_ok(d)
    &&& raster_size_ok(w, h, row_bytes, 8int / d)
    &&& pixel_rows_at(s, after_region(s, c + 18, with_region), row_bytes, h, packed) is Some
}

fn decode_indexed_pixmap_payload(r: &mut Reader<'_>, row_bytes_raw: u16, packed: bool, with_region: bool) -> (res: Result<(RasterSub, RectI32, Option<Region>)>)
    requires
        old(r).pos <= old(r).bytes@.len(),
    ensures
        final(r).bytes@ == old(r).bytes@,
        res is Ok ==> final(r).pos <= final(r).bytes@.len() && final(r).pos > old(r).pos,
        res matches Ok((sub, _, g)) ==> sub.wf() && (g matches Some(rg) ==> rg.wf()) && (with_region <==> g is Some),
        ({
            let s = old(r).bytes@;
            let p = old(r).pos as int;
            let rb = row_bytes_raw % 0x4000;
            let (w, h) = bounds_size(s, p);
            let c = indexed_rects_at(s, p);
            let q = after_region(s, c + 18, with_region);
            let rows = pixel_rows_at(s, q, rb as int, h, packed);
            &&& (res is Ok <==> indexed_body_ok(s, p, rb as int, packed, with_region))
            &&& res matches Err(e) ==> (e is InvalidData || (e is Unsupported && !indexed_depth_ok(be_u16(s, p + 26))))
            &&& res matches Ok((sub, dst, g)) ==> {
                &&& final(r).pos == rows_end(rows)
                &&& raster_body(
                    sub,
                    dst,
                    g,
                    s,
                    c + 18,
                    with_region,
                    w,
                    h,
                    be_u16(s, c + 16) as u16,
                    Layout::Indexed(be_u16(s, p + 26) as u16),
                    rows_data(rows),
                    rb as int,
                    color_table_at(s, p + 44)->0,
                    c + 8,
                )
            }
        }),
{
    let ghost s = r.bytes@;
    let ghost p = r.pos as int;
    let row_bytes = (row_bytes_raw & 0x3FFF) as usize;
    proof {
        assert(row_bytes_raw & 0x3FFF <= 0x3FFF) by (bit_vector);
        assert(row_bytes_raw & 0x3FFF == row_bytes_raw % 0x4000) by (bit_vector);
    }
    let pm = read_pixmap_tail(r)?;
    let palette = read_color_table(r)?;
    let ghost c = r.pos as int;
    let _src_rect = r.read_rect()?;
    let dst_rect = r.read_rect()?;
    let mode = r.read_u16()?;
    proof {
        assert(r.rest() =~= s.subrange(c + 18, s.len() as int));
    }
    let rgn = if with_region {
        Some(parse_region(r)?)
    } else {
        None
    };
    proof {
        if with_region {
            let t = s.subrange(c + 18, s.len() as int);
            assert(t[0] == s[c + 18] && t[1] == s[c + 19]);
        }
    }
    let width = extent_exec(pm.bounds.1, pm.bounds.3);
    let height = extent_exec(pm.bounds.0, pm.bounds.2);
    if !fits_budget(width, height) {
        return Err(PictError::invalid("indexed PixMap exceeds the raster budget"));
    }
    proof {
        assert(row_bytes * height <= 0x3FFF * 65535) by (nonlinear_arith)
            requires row_bytes <= 0x3FFF, height <= 65535;
    }
    if row_bytes * (height as usize) > MAX_RASTER_BYTES {
        return Err(PictError::invalid("indexed PixMap rows exceed the raster budget"));
    }
    let pix = read_pixel_rows(r, row_bytes, height as usize, packed)?;
    let d = pm.pixel_size;
    if !(d == 1 || d == 2 || d == 4 || d == 8) {
        return Err(PictError::unsupported("indexed PixMap pixel size must be 1, 2, 4 or 8"));
    }
    let per: usize = 8 / (d as usize);
    proof {
        assert(row_bytes * per <= 0x3FFF * 8) by (nonlinear_arith)
            requires row_bytes <= 0x3FFF, per <= 8;
    }
    if height > 0 && row_bytes * per < width as usize {
        return Err(PictError::invalid("indexed PixMap rowBytes too small for its bounds"));
    }
    let rgba = if height == 0 {
        Vec::new()
    } else {
        proof {
            assert(layout_row_ok(Layout::Indexed(d), row_bytes as int, width as int));
        }
        to_rgba(Layout::Indexed(d), pix.as_slice(), row_bytes, width as usize, height as usize, palette.as_slice())
    };
    proof {
        if height == 0 {
            assert(width * 0 * 4 == 0) by (nonlinear_arith);
        }
    }
    Ok((
        RasterSub { width, height, data: rgba, mode },
        RectI32::from_be(dst_rect.0, dst_rect.1, dst_rect.2, dst_rect.3),
        rgn,
    ))
}

/// Resolve indexed rows against a palette (pixel sizes 1, 2, 4, 8;
/// out-of-range indices are black).
pub fn resolve_indexed_pixmap(pix_data: &[u8], width: u32, height: u32, row_bytes: usize, pixel_size: u16, palette: &[Rgba]) -> (res: Result<Vec<u8>>)
    requires
        pix_data@.len() >= row_bytes * height,
        width * height * 4 <= MAX_RASTER_BYTES,
    ensures
        match res {
            Ok(out) => {
                &&& layout_row_ok(Layout::Indexed(pixel_size), row_bytes as int, width as int) || height == 0
                &&& out@.len() == width * height * 4
                &&& forall|x: int, y: int|
                    0 <= x < width && 0 <= y < height ==> #[trigger] rgba_at(out@, width as int, x, y) == layout_pixel(
                        Layout::Indexed(pixel_size),
                        pix_data@,
                        row_bytes as int,
                        width as int,
                        palette@,
                        x,
                        y,
                    )
            },
            Err(e) => (e is Unsupported && !(pixel_size == 1 || pixel_size == 2 || pixel_size == 4 || pixel_size == 8))
                || (e is InvalidData && height > 0 && !layout_row_ok(Layout::Indexed(pixel_size), row_bytes as int, width as int)),
        },
{
    let d = pixel_size;
    if !(d == 1 || d == 2 || d == 4 || d == 8) {
        return Err(PictError::unsupported("indexed pixel size must be 1, 2, 4 or 8"));
    }
    if height == 0 {
        proof {
            assert(width * 0 * 4 == 0) by (nonlinear_arith);
        }
        return Ok(Vec::new());
    }
    let per: usize = 8 / (d as usize);
    proof {
        assert(row_bytes * height >= row_bytes) by (nonlinear_arith)
            requires height >= 1, row_bytes >= 0;
        assert((row_bytes as int) * (per as int) <= 0xFFFF_FFFF_FFFF_FFFF * 8) by (nonlinear_arith)
            requires row_bytes <= 0xFFFF_FFFF_FFFF_FFFF, per <= 8;
    }
    if (row_bytes as u128) * (per as u128) < width as u128 {
        return Err(PictError::invalid("indexed rowBytes too small for the width"));
    }
    Ok(to_rgba(Layout::Indexed(d), pix_data, row_bytes, width as usize, height as usize, palette))
}

/// Expand a one-bit BitMap (set bits black) to RGBA.
pub fn expand_1bpp_to_rgba(bitmap: &[u8], width: u32, height: u32, row_bytes: usize) -> (out: Vec<u8>)
    requires
        bitmap@.len() >= row_bytes * height,
        row_bytes * 8 >= width,
        width * height * 4 <= MAX_RASTER_BYTES,
    ensures
        out@.len() == width * height * 4,
        forall|x: int, y: int|
            0 <= x < width && 0 <= y < height ==> #[trigger] rgba_at(out@, width as int, x, y) == layout_pixel(
                Layout::Mono,
                bitmap@,
                row_bytes as int,
                width as int,
                Seq::empty(),
                x,
                y,
            ),
{
    let empty: Vec<Rgba> = Vec::new();
    to_rgba(Layout::Mono, bitmap, row_bytes, width as usize, height as usize, empty.as_slice())
}

/// The BitMap-family record at `p` (`rowBytes`, then a one-bit BitMap
/// body, or an indexed PixMap body when the high bit is set) decodes.
pub open spec fn bits_record_ok(s: Seq<u8>, p: int, packed: bool, with_region: bool) -> bool {
    let rbr = be_u16(s, p);
    &&& p + 2 <= s.len()
    &&& if rbr >= 0x8000 {
        indexed_body_ok(s, p + 2, rbr % 0x4000, packed, with_region)
    } else {
        bitmap_body_ok(s, p + 2, rbr, packed, with_region)
    }
}

/// What the BitMap-family record at `p` decodes to, ending at `e`.
pub open spec fn bits_record_decoded(
    s: Seq<u8>,
    p: int,
    packed: bool,
    with_region: bool,
    sub: RasterSub,
    dst: RectI32,
    g: Option<Region>,
    e: int,
) -> bool {
    let rbr = be_u16(s, p);
    let b = p + 2;
    let (w, h) = bounds_size(s, b);
    if rbr >= 0x8000 {
        let rb = rbr % 0x4000;
        let c = indexed_rects_at(s, b);
        let rows = pixel_rows_at(s, after_region(s, c + 18, with_region), rb, h, packed);
        &&& e == rows_end(rows)
        &&& raster_body(
            sub,
            dst,
            g,
            s,
            c + 18,
            with_region,
            w,
            h,
            be_u16(s, c + 16) as u16,
            Layout::Indexed(be_u16(s, b + 26) as u16),
            rows_data(rows),
            rb,
            color_table_at(s, b + 44)->0,
            c + 8,
        )
    } else {
        let rows = pixel_rows_at(s, after_region(s, b + 26, with_region), rbr, h, packed);
        &&& e == rows_end(rows)
        &&& raster_body(
            sub,
            dst,
            g,
            s,
            b + 26,
            with_region,
            w,
            h,
            be_u16(s, b + 24) as u16,
            Layout::Mono,
            rows_data(rows),
            rbr,
            Seq::empty(),
            b + 16,
        )
    }
}

/// `PackBitsRect`: a BitMap, or an indexed PixMap when the high bit of
/// `rowBytes` is set.
fn decode_pack_bits_rect(r: &mut Reader<'_>) -> (res: Result<(RasterSub, RectI32)>)
    requires
        old(r).pos <= old(r).bytes@.len(),
    ensures
        final(r).bytes@ == old(r).bytes@,
        res is Ok ==> final(r).pos <= final(r).bytes@.len() && final(r).pos > old(r).pos,
        res matches Ok((sub, _)) ==> sub.wf(),
        ({
            let s = old(r).bytes@;
            let p = old(r).pos as int;
            &&& (res is Ok <==> bits_record_ok(s, p, true, false))
            &&& res matches Err(e) ==> (e is InvalidData || e is Unsupported)
            &&& res matches Ok((sub, dst)) ==> bits_record_decoded(s, p, true, false, sub, dst, None, final(r).pos as int)
        }),
{
    let row_bytes_raw = r.read_u16()?;
    proof {
        assert(row_bytes_raw & 0x8000 != 0 <==> row_bytes_raw >= 0x8000) by (bit_vector);
    }
    let (img, dst, rgn) = if row_bytes_raw & 0x8000 != 0 {
        decode_indexed_pixmap_payload(r, row_bytes_raw, true, false)?
    } else {
        proof {
            assert(row_bytes_raw & 0x8000 == 0 ==> row_bytes_raw <= 0x7FFF) by (bit_vector);
        }
        decode_bitmap_body(r, row_bytes_raw as usize, true, false)?
    };
    proof {
        assert(bits_record_decoded(old(r).bytes@, old(r).pos as int, true, false, img, dst, rgn, r.pos as int));
    }
    Ok((img, dst))
}

/// `BitsRect` / `BitsRgn`: unpacked rows; `BitsRgn` adds a region.
fn decode_bits_rect_v2(r: &mut Reader<'_>, with_region: bool) -> (res: Result<(RasterSub, RectI32, Option<Region>)>)
    requires
        old(r).pos <= old(r).bytes@.len(),
    ensures
        final(r).bytes@ == old(r).bytes@,
        res is Ok ==> final(r).pos <= final(r).bytes@.len() && final(r).pos > old(r).pos,
        res matches Ok((sub, _, g)) ==> sub.wf() && (g matches Some(rg) ==> rg.wf()) && (with_region <==> g is Some),
        ({
            let s = old(r).bytes@;
            let p = old(r).pos as int;
            &&& (res is Ok <==> bits_record_ok(s, p, false, with_region))
            &&& res matches Err(e) ==> (e is InvalidData || e is Unsupported)
            &&& res matches Ok((sub, dst, g)) ==> bits_record_decoded(
                s,
                p,
                false,
                with_region,
                sub,
                dst,
                g,
                final(r).pos as int,
            )
        }),
{
    let row_bytes_raw = r.read_u16()?;
    proof {
        assert(row_bytes_raw & 0x8000 != 0 <==> row_bytes_raw >= 0x8000) by (bit_vector);
    }
    if row_bytes_raw & 0x8000 != 0 {
        decode_indexed_pixmap_payload(r, row_bytes_raw, false, with_region)
    } else {
        proof {
            assert(row_bytes_raw & 0x8000 == 0 ==> row_bytes_raw <= 0x7FFF) by (bit_vector);
        }
        decode_bitmap_body(r, row_bytes_raw as usize, false, with_region)
    }
}

/// `PackBitsRgn`: `PackBitsRect` with a region before the rows.
fn decode_pack_bits_rgn(r: &mut Reader<'_>) -> (res: Result<(RasterSub, RectI32, Region)>)
    requires
        old(r).pos <= old(r).bytes@.len(),
    ensures
        final(r).bytes@ == old(r).bytes@,
        res is Ok ==> final(r).pos <= final(r).bytes@.len() && final(r).pos > old(r).pos,
        res matches Ok((sub, _, g)) ==> sub.wf() && g.wf(),
        ({
            let s = old(r).bytes@;
            let p = old(r).pos as int;
            &&& (res is Ok <==> bits_record_ok(s, p, true, true))
            &&& res matches Err(e) ==> (e is InvalidData || e is Unsupported)
            &&& res matches Ok((sub, dst, g)) ==> bits_record_decoded(
                s,
                p,
                true,
                true,
                sub,
                dst,
                Some(g),
                final(r).pos as int,
            )
        }),
{
    let row_bytes_raw = r.read_u16()?;
    proof {
        assert(row_bytes_raw & 0x8000 != 0 <==> row_bytes_raw >= 0x8000) by (bit_vector);
    }
    let (img, dst, rgn) = if row_bytes_raw & 0x8000 != 0 {
        decode_indexed_pixmap_payload(r, row_bytes_raw, true, true)?
    } else {
        proof {
            assert(row_bytes_raw & 0x8000 == 0 ==> row_bytes_raw <= 0x7FFF) by (bit_vector);
        }
        decode_bitmap_body(r, row_bytes_raw as usize, true, true)?
    };
    match rgn {
        Some(g) => Ok((img, dst, g)),
        None => Err(PictError::invalid("PackBitsRgn record without its region")),
    }
}

/// The PixMap header of `DirectBitsRect` / `DirectBitsRgn`.
pub struct PixMapHeader {
    pub row_bytes: usize,
    pub width: u32,
    pub height: u32,
    pub pack_type: u16,
    pub pixel_size: u16,
    pub comp_count: u16,
    pub comp_size: u16,
}

/// The header of the direct-pixel PixMap at `p` (after `baseAddr`:
/// `rowBytes` at `p + 4`, bounds at `p + 6`).
pub open spec fn pixmap_header_at(s: Seq<u8>, p: int) -> PixMapHeader {
    PixMapHeader {
        row_bytes: (be_u16(s, p + 4) % 0x4000) as usize,
        width: extent(be_i16(s, p + 8) as i16, be_i16(s, p + 12) as i16) as u32,
        height: extent(be_i16(s, p + 6) as i16, be_i16(s, p + 10) as i16) as u32,
        pack_type: be_u16(s, p + 16) as u16,
        pixel_size: be_u16(s, p + 32) as u16,
        comp_count: be_u16(s, p + 34) as u16,
        comp_size: be_u16(s, p + 36) as u16,
    }
}

/// Read baseAddr, `rowBytes` (its high bit must be set: a PixMap) and
/// the rest of the PixMap.
fn read_pixmap_header(r: &mut Reader<'_>) -> (res: Result<PixMapHeader>)
    requires
        old(r).pos <= old(r).bytes@.len(),
    ensures
        final(r).bytes@ == old(r).bytes@,
        res is Ok ==> final(r).pos == old(r).pos + 50 && final(r).pos <= final(r).bytes@.len(),
        res matches Ok(h) ==> h.row_bytes <= 0x3FFF && h.width <= 65535 && h.height <= 65535,
        res is Ok <==> (old(r).rem() >= 50 && be_u16(old(r).bytes@, old(r).pos + 4) >= 0x8000),
        res matches Ok(h) ==> h == pixmap_header_at(old(r).bytes@, old(r).pos as int),
{
    if r.remaining() < 50 {
        return Err(PictError::invalid("truncated PixMap record"));
    }
    let _base_addr = r.read_u32()?;
    let row_bytes_raw = r.read_u16()?;
    if row_bytes_raw & 0x8000 == 0 {
        proof {
            assert(row_bytes_raw & 0x8000 == 0 ==> row_bytes_raw < 0x8000) by (bit_vector);
        }
        return Err(PictError::invalid("DirectBits rowBytes high bit clear: a BitMap, not a PixMap"));
    }
    proof {
        assert(row_bytes_raw & 0x3FFF <= 0x3FFF) by (bit_vector);
        assert(row_bytes_raw & 0x3FFF == row_bytes_raw % 0x4000) by (bit_vector);
        assert(row_bytes_raw & 0x8000 != 0 ==> row_bytes_raw >= 0x8000) by (bit_vector);
    }
    let row_bytes = (row_bytes_raw & 0x3FFF) as usize;
    let pm = read_pixmap_tail(r)?;
    Ok(PixMapHeader {
        row_bytes,
        width: extent_exec(pm.bounds.1, pm.bounds.3),
        height: extent_exec(pm.bounds.0, pm.bounds.2),
        pack_type: pm.pack_type,
        pixel_size: pm.pixel_size,
        comp_count: pm.comp_count,
        comp_size: pm.comp_size,
    })
}

/// The stored layout of a direct-pixel record, or `None` when the
/// packType / pixelSize / component shape is not supported.
pub open spec fn direct_layout(h: PixMapHeader) -> Option<Layout> {
    let (pt, ps, cc, cs) = (h.pack_type, h.pixel_size, h.comp_count, h.comp_size);
    if (pt == 0 || pt == 1) && ps == 16 && cc == 3 && cs == 5 {
        Some(Layout::Rgb555)
    } else if (pt == 0 || pt == 1) && ps == 32 && cs == 8 && cc == 3 {
        Some(Layout::Xrgb)
    } else if (pt == 0 || pt == 1) && ps == 32 && cs == 8 && cc == 4 {
        Some(Layout::Argb)
    } else if pt == 2 && ps == 32 && cs == 8 && cc == 3 {
        Some(Layout::Rgb24)
    } else if pt == 3 && ps == 16 && cc == 3 && cs == 5 {
        Some(Layout::Rgb555)
    } else if pt == 4 && ps == 32 && cs == 8 && cc == 3 {
        Some(Layout::Planar3)
    } else if pt == 4 && ps == 32 && cs == 8 && cc == 4 {
        Some(Layout::Planar4)
    } else {
        None
    }
}

/// The stored pixel bytes of a direct-pixel record at the start of
/// `rest`, the stride of their rows, and how many bytes they take; or
/// `None` when they cannot be read (too few bytes, a stride too small
/// for the pixels, a malformed packed row, an unsupported shape).
pub open spec fn direct_pixels(h: PixMapHeader, rest: Seq<u8>) -> Option<(Seq<u8>, int, int)> {
    let w = h.width as int;
    let hh = h.height as int;
    let rb = h.row_bytes as int;
    let wide = rb > 250;
    let (pt, ps, cc, cs) = (h.pack_type, h.pixel_size, h.comp_count, h.comp_size);
    if (pt == 0 || pt == 1) && ps == 16 && cc == 3 && cs == 5 {
        if (hh > 0 && rb < 2 * w) || rest.len() < rb * hh {
            None
        } else {
            Some((rest.subrange(0, rb * hh), rb, rb * hh))
        }
    } else if (pt == 0 || pt == 1) && ps == 32 && cs == 8 && (cc == 3 || cc == 4) {
        if (hh > 0 && rb < 4 * w) || rest.len() < rb * hh {
            None
        } else {
            Some((rest.subrange(0, rb * hh), rb, rb * hh))
        }
    } else if pt == 2 && ps == 32 && cs == 8 && cc == 3 {
        if rest.len() < 3 * w * hh {
            None
        } else {
            Some((rest.subrange(0, 3 * w * hh), 3 * w, 3 * w * hh))
        }
    } else if pt == 3 && ps == 16 && cc == 3 && cs == 5 {
        match packed16_rows(rest, w as nat, hh as nat, wide) {
            Some((d, u)) => Some((d, 2 * w, u as int)),
            None => None,
        }
    } else if pt == 4 && ps == 32 && cs == 8 && (cc == 3 || cc == 4) {
        match packed_rows(rest, w as nat, cc as nat, hh as nat, wide) {
            Some((d, u)) => Some((d, cc * w, u as int)),
            None => None,
        }
    } else {
        None
    }
}

/// Decode the pixel rows of a direct-pixel record to RGBA: packType 0
/// and 1 store raw rows of `rowBytes`, 2 three-byte pixels, 3 rows of
/// 16-bit PackBits, 4 rows of component planes each PackBits; rows of
/// more than 250 bytes carry a two-byte byte count. Unsupported shapes
/// are `Unsupported`.
fn decode_direct_bits_pixels(r: &mut Reader<'_>, h: &PixMapHeader) -> (res: Result<Vec<u8>>)
    requires
        old(r).pos <= old(r).bytes@.len(),
        h.row_bytes <= 0x3FFF,
        h.width <= 65535,
        h.height <= 65535,
        h.width * h.height * 4 <= MAX_RASTER_BYTES,
    ensures
        final(r).bytes@ == old(r).bytes@,
        res is Ok ==> final(r).pos <= final(r).bytes@.len() && final(r).pos >= old(r).pos,
        res matches Ok(v) ==> v@.len() == h.width * h.height * 4,
        res matches Err(e) ==> (e is Unsupported <==> direct_layout(*h) is None),
        match (direct_layout(*h), direct_pixels(*h, old(r).rest())) {
            (Some(l), Some((pix, stride, used))) => {
                &&& res is Ok
                &&& final(r).pos == old(r).pos + used
                &&& forall|x: int, y: int|
                    0 <= x < h.width && 0 <= y < h.height ==> #[trigger] rgba_at(res->Ok_0@, h.width as int, x, y)
                        == layout_pixel(l, pix, stride, h.width as int, Seq::empty(), x, y)
            },
            _ => res is Err,
        },
{
    let pt = h.pack_type;
    let ps = h.pixel_size;
    let cc = h.comp_count;
    let cs = h.comp_size;
    let w = h.width as usize;
    let hh = h.height as usize;
    let rb = h.row_bytes;
    let wide = rb > 250;
    proof {
        assert(rb * hh <= 0x3FFF * 65535) by (nonlinear_arith)
            requires rb <= 0x3FFF, hh <= 65535;
        assert(w * hh * 4 <= MAX_RASTER_BYTES);
    }
    let (layout, pix, stride) = if (pt == 0 || pt == 1) && ps == 16 && cc == 3 && cs == 5 {
        if hh > 0 && rb < 2 * w {
            return Err(PictError::invalid("DirectBits rowBytes too small for 16-bit pixels"));
        }
        (Layout::Rgb555, read_raw(r, rb * hh)?, rb)
    } else if (pt == 0 || pt == 1) && ps == 32 && cs == 8 && (cc == 3 || cc == 4) {
        if hh > 0 && rb < 4 * w {
            return Err(PictError::invalid("DirectBits rowBytes too small for 32-bit pixels"));
        }
        (if cc == 4 { Layout::Argb } else { Layout::Xrgb }, read_raw(r, rb * hh)?, rb)
    } else if pt == 2 && ps == 32 && cs == 8 && cc == 3 {
        proof {
            assert((3 * w) * hh <= 4 * (w * hh)) by (nonlinear_arith);
            assert(4 * (w * hh) == w * hh * 4) by (nonlinear_arith);
        }
        (Layout::Rgb24, read_raw(r, 3 * w * hh)?, 3 * w)
    } else if pt == 3 && ps == 16 && cc == 3 && cs == 5 {
        let v = read_packed16_rows(r, w, hh, wide)?;
        proof {
            lemma_packed16_len(old(r).rest(), w as nat, hh as nat, wide);
        }
        (Layout::Rgb555, v, 2 * w)
    } else if pt == 4 && ps == 32 && cs == 8 && (cc == 3 || cc == 4) {
        let n = cc as usize;
        proof {
            assert(w * n * hh <= MAX_RASTER_BYTES) by (nonlinear_arith)
                requires w * hh * 4 <= MAX_RASTER_BYTES, n <= 4;
        }
        let v = read_packed_rows(r, w, n, hh, wide)?;
        proof {
            crate::rows::lemma_packed_rows_len(old(r).rest(), w as nat, n as nat, hh as nat, wide);
            assert(w * n * hh == (n * w) * hh) by (nonlinear_arith);
        }
        (if cc == 4 { Layout::Planar4 } else { Layout::Planar3 }, v, n * w)
    } else {
        return Err(PictError::unsupported("DirectBits packType / pixel size / components not supported"));
    };
    if hh == 0 {
        proof {
            assert(w * 0 * 4 == 0) by (nonlinear_arith);
        }
        return Ok(Vec::new());
    }
    proof {
        assert(pix@.len() >= stride * hh);
        assert(layout_row_ok(layout, stride as int, w as int));
    }
    let empty: Vec<Rgba> = Vec::new();
    Ok(to_rgba(layout, pix.as_slice(), stride, w, hh, empty.as_slice()))
}

proof fn lemma_packed16_len(s: Seq<u8>, units: nat, rows: nat, wide: bool)
    ensures
        crate::rows::packed16_rows(s, units, rows, wide) matches Some((d, u)) ==> d.len() == 2 * units * rows,
    decreases rows,
{
    if rows > 0 {
        lemma_packed16_len(s, units, (rows - 1) as nat, wide);
        match crate::rows::packed16_rows(s, units, (rows - 1) as nat, wide) {
            Some((d, u)) => {
                let c: nat = if wide { 2 } else { 1 };
                if s.len() >= u + c {
                    let rest = s.subrange((u + c) as int, s.len() as int);
                    lemma_pb16_len(rest, units);
                    match crate::rows::pb_decode16(rest, units) {
                        Some((d2, u2)) => {
                            assert(2 * units * (rows - 1) + 2 * units == 2 * units * rows) by (nonlinear_arith);
                        },
                        None => {},
                    }
                }
            },
            None => {},
        }
    } else {
        assert(2 * units * 0 == 0);
    }
}

proof fn lemma_pb16_len(s: Seq<u8>, n: nat)
    ensures
        crate::rows::pb_decode16(s, n) matches Some((d, u)) ==> d.len() == 2 * n,
    decreases s.len(),
{
    if n > 0 && s.len() > 0 {
        let flag = s[0];
        if flag < 128 {
            let k = flag as int + 1;
            if !(k > n || s.len() < 1 + 2 * k) {
                lemma_pb16_len(s.subrange(1 + 2 * k, s.len() as int), (n - k) as nat);
            }
        } else if flag == 128 {
            lemma_pb16_len(s.subrange(1, s.len() as int), n);
        } else {
            let k = 257 - flag as int;
            if !(k > n || s.len() < 3) {
                lemma_pb16_len(s.subrange(3, s.len() as int), (n - k) as nat);
            }
        }
    }
}

/// `DirectBitsRect` (or, `with_region`, `DirectBitsRgn`): PixMap
/// header, srcRect, dstRect, mode, the region, then the pixels.
fn decode_direct_bits(r: &mut Reader<'_>, with_region: bool) -> (res: Result<(RasterSub, RectI32, Option<Region>)>)
    requires
        old(r).pos <= old(r).bytes@.len(),
    ensures
        final(r).bytes@ == old(r).bytes@,
        res is Ok ==> final(r).pos <= final(r).bytes@.len() && final(r).pos > old(r).pos,
        res matches Ok((sub, _, g)) ==> sub.wf() && (g matches Some(rg) ==> rg.wf()) && (with_region <==> g is Some),
        ({
            let s = old(r).bytes@;
            let p = old(r).pos as int;
            let hd = pixmap_header_at(s, p);
            let q = p + 68;
            (!with_region && old(r).rem() >= 68 && be_u16(s, p + 4) >= 0x8000 && hd.width * hd.height * 4
                <= MAX_RASTER_BYTES && direct_layout(hd) is Some && direct_pixels(hd, s.subrange(q, s.len() as int))
                is Some) ==> {
                let l = direct_layout(hd)->0;
                let (pix, stride, used) = direct_pixels(hd, s.subrange(q, s.len() as int))->0;
                &&& res matches Ok((sub, dst, g))
                &&& g is None
                &&& sub.width == hd.width
                &&& sub.height == hd.height
                &&& sub.mode == be_u16(s, p + 66)
                &&& dst == RectI32 {
                    top: be_i16(s, p + 58) as i32,
                    left: be_i16(s, p + 60) as i32,
                    bottom: be_i16(s, p + 62) as i32,
                    right: be_i16(s, p + 64) as i32,
                }
                &&& final(r).pos == q + used
                &&& forall|x: int, y: int|
                    0 <= x < hd.width && 0 <= y < hd.height ==> #[trigger] rgba_at(sub.data@, hd.width as int, x, y)
                        == layout_pixel(l, pix, stride, hd.width as int, Seq::empty(), x, y)
            }
        }),
        (with_region && direct_rgn_record_ok(old(r).bytes@, old(r).pos as int)) ==> (res matches Ok((sub, dst, g))
            && g matches Some(rg) && direct_rgn_record_decoded(
            old(r).bytes@,
            old(r).pos as int,
            sub,
            dst,
            rg,
            final(r).pos as int,
        )),
{
    let ghost s0 = r.bytes@;
    let ghost p0 = r.pos as int;
    let header = read_pixmap_header(r)?;
    let _src_rect = r.read_rect()?;
    let dst_rect = r.read_rect()?;
    let mode = r.read_u16()?;
    let rgn = if with_region {
        proof {
            assert(r.rest() =~= s0.subrange(p0 + 68, s0.len() as int));
        }
        Some(parse_region(r)?)
    } else {
        None
    };
    proof {
        if with_region {
            let t = s0.subrange(p0 + 68, s0.len() as int);
            assert(t[0] == s0[p0 + 68] && t[1] == s0[p0 + 69]);
            assert(r.pos == direct_rgn_pixels_at(s0, p0));
            assert(r.rest() =~= s0.subrange(direct_rgn_pixels_at(s0, p0), s0.len() as int));
        }
    }
    if !fits_budget(header.width, header.height) {
        return Err(PictError::invalid("DirectBits raster exceeds the raster budget"));
    }
    let rgba = decode_direct_bits_pixels(r, &header)?;
    Ok((
        RasterSub { width: header.width, height: header.height, data: rgba, mode },
        RectI32::from_be(dst_rect.0, dst_rect.1, dst_rect.2, dst_rect.3),
        rgn,
    ))
}


/// Cell `(x, y)` of a colour pattern's tile: the palette entry its
/// index names, or, for an index past the palette, black where the
/// fallback pattern is set and white elsewhere.
pub open spec fn pix_pat_cell(rows: Seq<u8>, row_bytes: int, d: int, palette: Seq<Rgba>, pat1: Pattern, x: int, y: int) -> Rgba {
    let i = indexed_value(rows, y * row_bytes, d, x);
    if i < palette.len() {
        palette[i]
    } else if crate::state::pattern_bit(pat1, x, y) {
        black_spec()
    } else {
        white_spec()
    }
}

/// The tile of a colour pattern has a size QuickDraw can repeat: both
/// sides positive powers of two.
pub open spec fn pix_pat_tiled(w: int, h: int) -> bool {
    w > 0 && h > 0 && crate::encoder::is_pow2(w) && crate::encoder::is_pow2(h)
}

/// The pixel-map part of a type-1 colour pattern at `p` (`rowBytes` at
/// `p + 10`, the PixMap at `p + 12`, the colour table at `p + 56`, then
/// packed rows) decodes.
pub open spec fn pix_pat1_ok(s: Seq<u8>, p: int) -> bool {
    let rbr = be_u16(s, p + 10);
    let rb = rbr % 0x4000;
    let (w, h) = bounds_size(s, p + 12);
    let d = be_u16(s, p + 38);
    let c = p + 56 + color_table_len(s, p + 56);
    &&& p + 12 <= s.len()
    &&& !(rbr < 0x8000 && rbr > 0)
    &&& p + 56 <= s.len()
    &&& color_table_at(s, p + 56) is Some
    &&& rb * h <= MAX_RASTER_BYTES
    &&& pixel_rows_at(s, c, rb, h, true) is Some
    &&& pix_pat_tiled(w, h) ==> (w * h * 4 <= MAX_RASTER_BYTES && indexed_depth_ok(d) && rb * (8int / d) >= w)
}

/// The PixPat record at `p` decodes (see [`decode_pix_pat`]).
pub open spec fn pix_pat_ok(s: Seq<u8>, p: int) -> bool {
    &&& 0 <= p
    &&& s.len() - p >= 10
    &&& ((be_u16(s, p) == 2 && s.len() - p >= 16) || (be_u16(s, p) == 1 && pix_pat1_ok(s, p)))
}

/// What the PixPat record at `p` decodes to, ending at `e`: its 8-byte
/// fallback pattern and, for a dither colour (type 2), an 8 x 8 tile of
/// that colour, for a pixel-map pattern (type 1) its colour tile when
/// both sides are powers of two.
pub open spec fn pix_pat_decoded(s: Seq<u8>, p: int, pat1: Pattern, colour: Option<PixPattern>, e: int) -> bool {
    &&& pat1.0@ == s.subrange(p + 2, p + 10)
    &&& colour matches Some(pp) ==> pp.wf()
    &&& be_u16(s, p) == 2 ==> {
        &&& e == p + 16
        &&& colour matches Some(pp) && pp.width == 8 && pp.height == 8 && (forall|i: int|
            0 <= i < 64 ==> pp.pixels@[i] == rgb16_at(s, p + 10))
    }
    &&& be_u16(s, p) == 1 ==> {
        let rb = be_u16(s, p + 10) % 0x4000;
        let (w, h) = bounds_size(s, p + 12);
        let d = be_u16(s, p + 38);
        let c = p + 56 + color_table_len(s, p + 56);
        let rows = pixel_rows_at(s, c, rb, h, true);
        &&& e == rows_end(rows)
        &&& (colour is None <==> !pix_pat_tiled(w, h))
        &&& colour matches Some(pp) ==> {
            &&& pp.width == w
            &&& pp.height == h
            &&& pp.fallback == pat1
            &&& forall|k: int|
                0 <= k < w * h ==> #[trigger] pp.pixels@[k] == pix_pat_cell(
                    rows_data(rows),
                    rb,
                    d,
                    color_table_at(s, p + 56)->0,
                    pat1,
                    k % w,
                    k / w,
                )
        }
    }
}

/// Where the PixPat record at `p` ends.
pub open spec fn pix_pat_end(s: Seq<u8>, p: int) -> int {
    if be_u16(s, p) == 2 {
        p + 16
    } else {
        let rb = be_u16(s, p + 10) % 0x4000;
        let (w, h) = bounds_size(s, p + 12);
        rows_end(pixel_rows_at(s, p + 56 + color_table_len(s, p + 56), rb, h, true))
    }
}

/// The state after the colour-pattern opcode `op` sets its slot to
/// the fallback `pat1` and the tile `colour`.
pub open spec fn pix_pat_set(op: u16, st0: PictState, st1: PictState, pat1: Pattern, colour: Option<PixPattern>) -> bool {
    if op == OP_PN_PIX_PAT {
        st1 == (PictState { pen_pat: pat1, pen_pix_pat: colour, ..st0 })
    } else if op == OP_BK_PIX_PAT {
        st1 == (PictState { back_pat: pat1, back_pix_pat: colour, ..st0 })
    } else {
        st1 == (PictState { fill_pat: pat1, fill_pix_pat: colour, ..st0 })
    }
}

/// Decode a PixPat record (after a `BkPixPat` / `PnPixPat` /
/// `FillPixPat` opcode): `patType`, the 8-byte `Pat1Data` fallback,
/// then for `patType = 1` a PixMap without baseAddr, a ColorTable and
/// the rows (an index outside the palette takes black where the
/// fallback bit is set, white elsewhere), giving a colour tile when
/// both sides are powers of two (`None` otherwise), and for
/// `patType = 2` an RGB colour painted in every cell. Other types are
/// unsupported.
fn decode_pix_pat(r: &mut Reader<'_>) -> (res: Result<(Pattern, Option<PixPattern>)>)
    requires
        old(r).pos <= old(r).bytes@.len(),
    ensures
        final(r).bytes@ == old(r).bytes@,
        res is Ok ==> final(r).pos <= final(r).bytes@.len() && final(r).pos > old(r).pos,
        res matches Ok((_, Some(pp))) ==> pp.wf(),
        ({
            let s = old(r).bytes@;
            let p = old(r).pos as int;
            let pat_type = be_u16(s, p);
            &&& old(r).rem() < 10 ==> (res matches Err(e) && e is InvalidData)
            &&& res matches Ok((pat1, _)) ==> pat1.0@ == s.subrange(p + 2, p + 10)
            &&& (old(r).rem() >= 10 && pat_type != 1 && pat_type != 2) ==> (res matches Err(e) && e is Unsupported)
            &&& (old(r).rem() >= 10 && pat_type == 2) ==> (res is Ok <==> old(r).rem() >= 16)
            &&& (res is Ok && pat_type == 2) ==> final(r).pos == p + 16
            &&& (res is Ok && pat_type == 2) ==> (res matches Ok((_, Some(pp))) && pp.width == 8 && pp.height == 8 && (
            forall|i: int| 0 <= i < 64 ==> pp.pixels@[i] == rgb16_at(s, p + 10)))
            &&& res matches Ok((_, None)) ==> pat_type == 1
            &&& (old(r).rem() >= 10 && pat_type == 1) ==> (res is Ok <==> pix_pat1_ok(s, p))
            &&& (res is Ok && pat_type == 1) ==> ({
                let rb = be_u16(s, p + 10) % 0x4000;
                let (w, h) = bounds_size(s, p + 12);
                let d = be_u16(s, p + 38);
                let c = p + 56 + color_table_len(s, p + 56);
                let rows = pixel_rows_at(s, c, rb, h, true);
                &&& final(r).pos == rows_end(rows)
                &&& (res matches Ok((_, None)) <==> !pix_pat_tiled(w, h))
                &&& res matches Ok((pat1, Some(pp))) ==> {
                    &&& pp.width == w
                    &&& pp.height == h
                    &&& pp.fallback == pat1
                    &&& forall|k: int|
                        0 <= k < w * h ==> #[trigger] pp.pixels@[k] == pix_pat_cell(
                            rows_data(rows),
                            rb,
                            d,
                            color_table_at(s, p + 56)->0,
                            pat1,
                            k % w,
                            k / w,
                        )
                }
            })
        }),
{
    let ghost r0 = *r;
    let pat_type = r.read_u16()?;
    let pat1_bytes = r.read_bytes(8)?;
    let pat1 = Pattern([
        pat1_bytes[0],
        pat1_bytes[1],
        pat1_bytes[2],
        pat1_bytes[3],
        pat1_bytes[4],
        pat1_bytes[5],
        pat1_bytes[6],
        pat1_bytes[7],
    ]);
    proof {
        let p = r0.pos as int;
        assert(pat1.0@ =~= r0.bytes@.subrange(p + 2, p + 10));
    }
    if pat_type == 1 {
        let row_bytes_raw = r.read_u16()?;
        proof {
            assert(row_bytes_raw & 0x8000 == 0 <==> row_bytes_raw < 0x8000) by (bit_vector);
            assert(row_bytes_raw & 0x3FFF == row_bytes_raw % 0x4000) by (bit_vector);
        }
        if row_bytes_raw & 0x8000 == 0 && row_bytes_raw > 0 {
            return Err(PictError::invalid("PixPat PixMap rowBytes high bit clear"));
        }
        proof {
            assert(row_bytes_raw & 0x3FFF <= 0x3FFF) by (bit_vector);
        }
        let row_bytes = (row_bytes_raw & 0x3FFF) as usize;
        let pm = read_pixmap_tail(r)?;
        let width = extent_exec(pm.bounds.1, pm.bounds.3);
        let height = extent_exec(pm.bounds.0, pm.bounds.2);
        let palette = read_color_table(r)?;
        proof {
            assert(row_bytes * height <= 0x3FFF * 65535) by (nonlinear_arith)
                requires row_bytes <= 0x3FFF, height <= 65535;
        }
        if row_bytes * (height as usize) > MAX_RASTER_BYTES {
            return Err(PictError::invalid("PixPat rows exceed the raster budget"));
        }
        let pix = read_pixel_rows(r, row_bytes, height as usize, true)?;
        if width == 0 || height == 0 || !crate::encoder::is_power_of_two(width as u16)
            || !crate::encoder::is_power_of_two(height as u16) {
            return Ok((pat1, None));
        }
        if !fits_budget(width, height) {
            return Err(PictError::invalid("PixPat tile exceeds the raster budget"));
        }
        let d = pm.pixel_size;
        if !(d == 1 || d == 2 || d == 4 || d == 8) {
            return Err(PictError::unsupported("PixPat pixel size must be 1, 2, 4 or 8"));
        }
        let per: usize = 8 / (d as usize);
        proof {
            assert(row_bytes * per <= 0x3FFF * 8) by (nonlinear_arith)
                requires row_bytes <= 0x3FFF, per <= 8;
        }
        if row_bytes * per < width as usize {
            return Err(PictError::invalid("PixPat rowBytes too small for its bounds"));
        }
        let w = width as usize;
        let h = height as usize;
        let mut pixels: Vec<Rgba> = Vec::new();
        let mut y: usize = 0;
        while y < h
            invariant
                y <= h,
                pixels@.len() == y * w,
                pix@.len() == row_bytes * h,
                row_bytes * per >= w,
                w <= 65535,
                h <= 65535,
                per == 8int / (d as int),
                d == 1 || d == 2 || d == 4 || d == 8,
                w * h * 4 <= MAX_RASTER_BYTES,
                w > 0,
                forall|k: int|
                    0 <= k < pixels@.len() ==> #[trigger] pixels@[k] == pix_pat_cell(
                        pix@,
                        row_bytes as int,
                        d as int,
                        palette@,
                        pat1,
                        k % (w as int),
                        k / (w as int),
                    ),
            decreases h - y,
        {
            let mut x: usize = 0;
            while x < w
                invariant
                    y < h,
                    x <= w,
                    pixels@.len() == y * w + x,
                    pix@.len() == row_bytes * h,
                    row_bytes * per >= w,
                    w <= 65535,
                    h <= 65535,
                    per == 8int / (d as int),
                    d == 1 || d == 2 || d == 4 || d == 8,
                    w * h * 4 <= MAX_RASTER_BYTES,
                    w > 0,
                    forall|k: int|
                        0 <= k < pixels@.len() ==> #[trigger] pixels@[k] == pix_pat_cell(
                            pix@,
                            row_bytes as int,
                            d as int,
                            palette@,
                            pat1,
                            k % (w as int),
                            k / (w as int),
                        ),
                decreases w - x,
            {
                proof {
                    assert(row_bytes * (y + 1) <= row_bytes * h) by (nonlinear_arith)
                        requires y < h, row_bytes >= 0;
                    assert(y * w + x < w * h) by (nonlinear_arith)
                        requires y < h, x < w;
                    assert((y * w + x) % (w as int) == x && (y * w + x) / (w as int) == y) by {
                        vstd::arithmetic::div_mod::lemma_fundamental_div_mod_converse(
                            (y * w + x) as int,
                            w as int,
                            y as int,
                            x as int,
                        );
                        assert((y as int) * (w as int) == (w as int) * (y as int)) by (nonlinear_arith);
                    }
                }
                let idx = crate::rows::read_indexed_pixel(pix.as_slice(), x, y, row_bytes, d)?;
                let c = if (idx as usize) < palette.len() {
                    palette[idx as usize]
                } else if pat1.sample(x as i32, y as i32) {
                    Rgba::black()
                } else {
                    Rgba::white()
                };
                pixels.push(c);
                x += 1;
            }
            proof {
                assert(y * w + w == (y + 1) * w) by (nonlinear_arith);
            }
            y += 1;
        }
        proof {
            assert(h * w == width as int * height as int) by (nonlinear_arith)
                requires h == height, w == width;
        }
        Ok((pat1, Some(PixPattern::new(width as u16, height as u16, pixels, pat1))))
    } else if pat_type == 2 {
        let r16 = r.read_u16()?;
        let g16 = r.read_u16()?;
        let b16 = r.read_u16()?;
        let rgb = Rgba::from_rgb16(r16, g16, b16);
        Ok((pat1, Some(PixPattern::from_dither_rgb(rgb, pat1))))
    } else {
        Err(PictError::unsupported("PixPat patType must be 1 (colour pixmap) or 2 (dither)"))
    }
}


/// A picture coordinate relative to the running origin (two's
/// complement wrap-around on overflow).
fn to_canvas(state: &PictState, x: i32, y: i32) -> (p: (i32, i32))
    ensures
        p == (x.wrapping_sub(state.origin.0), y.wrapping_sub(state.origin.1)),
        i32::MIN <= x - state.origin.0 <= i32::MAX ==> p.0 == x - state.origin.0,
        i32::MIN <= y - state.origin.1 <= i32::MAX ==> p.1 == y - state.origin.1,
{
    (x.wrapping_sub(state.origin.0), y.wrapping_sub(state.origin.1))
}

/// A picture rectangle relative to the running origin, as
/// `(top, left, bottom, right)`.
fn rect_to_canvas(state: &PictState, rect: RectI32) -> (t: (i32, i32, i32, i32))
    ensures
        t == canvas_rect(*state, rect),
        i32::MIN <= rect.top - state.origin.1 <= i32::MAX ==> t.0 == rect.top - state.origin.1,
        i32::MIN <= rect.left - state.origin.0 <= i32::MAX ==> t.1 == rect.left - state.origin.0,
        i32::MIN <= rect.bottom - state.origin.1 <= i32::MAX ==> t.2 == rect.bottom - state.origin.1,
        i32::MIN <= rect.right - state.origin.0 <= i32::MAX ==> t.3 == rect.right - state.origin.0,
{
    let (x0, y0) = to_canvas(state, rect.left, rect.top);
    let (x1, y1) = to_canvas(state, rect.right, rect.bottom);
    (y0, x0, y1, x1)
}

/// A picture rectangle relative to the running origin, as
/// `(top, left, bottom, right)` (two's complement wrap-around).
pub open spec fn canvas_rect(state: PictState, rect: RectI32) -> (i32, i32, i32, i32) {
    (
        rect.top.wrapping_sub(state.origin.1),
        rect.left.wrapping_sub(state.origin.0),
        rect.bottom.wrapping_sub(state.origin.1),
        rect.right.wrapping_sub(state.origin.0),
    )
}

/// The rectangle figure of `rect` on the canvas.
pub open spec fn canvas_rect_figure(state: PictState, rect: RectI32) -> Figure {
    let (t, l, b, r) = canvas_rect(state, rect);
    Figure::Rect { top: t, left: l, bottom: b, right: r }
}

/// The ink of a pattern slot: its colour tile when one is set,
/// otherwise its pattern in `fg` / `bg` under the state's pen mode.
pub open spec fn slot_ink<'a>(
    state: &'a PictState,
    tile: &'a Option<PixPattern>,
    pat: Pattern,
    fg: Rgba,
    bg: Rgba,
) -> Ink<'a> {
    match tile {
        Some(pp) => Ink::Tile(pp),
        None => Ink::Pattern {
            pat,
            fg,
            bg,
            mode: crate::raster::pn_mode_with_spec(state.text_state.pn_mode, state.text_state.op_color, state.bg),
        },
    }
}

/// `b` is `a` after shape verb `verb` (0 frame, 1 paint, 2 erase,
/// 3 invert, 4 fill; higher verbs draw nothing): the frame shape in
/// `frame_ink`, otherwise the filled shape in the pen, background
/// (colours swapped) or fill slot's ink, or inverted.
pub open spec fn verb_painted(
    a: Canvas,
    b: Canvas,
    state: &PictState,
    verb: u16,
    frame: Shape,
    frame_ink: Ink,
    fill: Shape,
) -> bool {
    &&& verb == 0 ==> painted(a, b, frame, frame_ink)
    &&& verb == 1 ==> painted(a, b, fill, slot_ink(state, &state.pen_pix_pat, state.pen_pat, state.fg, state.bg))
    &&& verb == 2 ==> painted(a, b, fill, slot_ink(state, &state.back_pix_pat, state.back_pat, state.bg, state.fg))
    &&& verb == 3 ==> painted(a, b, fill, Ink::Invert)
    &&& verb == 4 ==> painted(a, b, fill, slot_ink(state, &state.fill_pix_pat, state.fill_pat, state.fg, state.bg))
    &&& verb > 4 ==> b == a
}

/// The pattern transfer mode of the state: `PnMode` with the
/// `OpColor` and background colour for the arithmetic modes.
fn pattern_mode(state: &PictState) -> (m: PatternMode)
    ensures
        m == crate::raster::pn_mode_with_spec(state.text_state.pn_mode, state.text_state.op_color, state.bg),
{
    PatternMode::from_pn_mode_with(state.text_state.pn_mode, state.text_state.op_color, state.bg)
}

/// The canvas stays well formed with the same size and clip.
pub open spec fn canvas_kept(old_c: Canvas, new_c: Canvas) -> bool {
    old_c.same_frame(&new_c)
}

/// `b` is the canvas `a` after the verb of `opcode` on `rect` (see
/// [`apply_rect_verb`]).
pub open spec fn rect_verb_done(c0: Canvas, c1: Canvas, state: &PictState, opcode: u16, rect: RectI32) -> bool {
    let fig = canvas_rect_figure(*state, rect);
    verb_painted(
        c0,
        c1,
        state,
        opcode % 16,
        Shape::Frame {
            fig,
            pen_h: crate::raster::pen_extent(state.pen_size.0),
            pen_v: crate::raster::pen_extent(state.pen_size.1),
        },
        slot_ink(state, &state.pen_pix_pat, state.pen_pat, state.fg, state.bg),
        Shape::Fill(fig),
    )
}

/// `b` is the canvas `a` after the verb of `opcode` on `rect` (see
/// [`apply_rrect_verb`]).
pub open spec fn rrect_verb_done(c0: Canvas, c1: Canvas, state: &PictState, opcode: u16, rect: RectI32) -> bool {
    let (t, l, b, r) = canvas_rect(*state, rect);
    let fig = Figure::RoundRect {
        top: t,
        left: l,
        bottom: b,
        right: r,
        oval_w: state.oval_size.0,
        oval_h: state.oval_size.1,
    };
    verb_painted(
        c0,
        c1,
        state,
        opcode % 16,
        Shape::Frame { fig, pen_h: 1, pen_v: 1 },
        Ink::Solid(state.fg),
        Shape::Fill(fig),
    )
}

/// `b` is the canvas `a` after the verb of `opcode` on `rect` (see
/// [`apply_oval_verb`]).
pub open spec fn oval_verb_done(c0: Canvas, c1: Canvas, state: &PictState, opcode: u16, rect: RectI32) -> bool {
    let (t, l, b, r) = canvas_rect(*state, rect);
    let fig = Figure::Oval { top: t, left: l, bottom: b, right: r };
    verb_painted(
        c0,
        c1,
        state,
        opcode % 16,
        Shape::Frame {
            fig,
            pen_h: crate::raster::pen_extent(state.pen_size.0),
            pen_v: crate::raster::pen_extent(state.pen_size.1),
        },
        Ink::Solid(state.fg),
        Shape::Fill(fig),
    )
}

/// `b` is the canvas `a` after the verb of `opcode` on `rect` (see
/// [`apply_arc_verb`]).
pub open spec fn arc_verb_done(c0: Canvas, c1: Canvas, state: &PictState, opcode: u16, rect: RectI32, start: i32, arc: i32) -> bool {
    let (t, l, b, r) = canvas_rect(*state, rect);
    let fig = Figure::Wedge { top: t, left: l, bottom: b, right: r, start, arc };
    let verb = opcode % 16;
    &&& verb == 0 ==> painted(
        c0,
        c1,
        Shape::Frame { fig, pen_h: 1, pen_v: 1 },
        Ink::Solid(state.fg),
    )
    &&& (verb == 1 || verb == 4) ==> painted(c0, c1, Shape::Fill(fig), Ink::Solid(state.fg))
    &&& verb == 2 ==> painted(c0, c1, Shape::Fill(fig), Ink::Solid(state.bg))
    &&& verb == 3 ==> painted(c0, c1, Shape::Fill(fig), Ink::Invert)
    &&& verb > 4 ==> c1 == c0
}

/// Frame / paint / erase / invert / fill (low nibble 0 to 4) of a
/// rectangle: frame and paint use the pen pattern, erase the
/// background pattern with foreground and background swapped, fill the
/// fill pattern, each a colour tile when one is set; invert inverts.
fn apply_rect_verb(canvas: &mut Canvas, state: &PictState, opcode: u16, rect: RectI32)
    requires
        old(canvas).wf(),
        state.wf(),
    ensures
        canvas_kept(*old(canvas), *final(canvas)),
        rect_verb_done(*old(canvas), *final(canvas), state, opcode, rect),
{
    let (top, left, bottom, right) = rect_to_canvas(state, rect);
    let (ph, pv) = state.pen_size;
    let mode = pattern_mode(state);
    let verb = opcode % 16;
    if verb == 0 {
        match &state.pen_pix_pat {
            Some(pp) => frame_rect_pix_pattern_thick(canvas, top, left, bottom, right, ph, pv, pp),
            None => frame_rect_pattern_thick_mode(
                canvas,
                top,
                left,
                bottom,
                right,
                ph,
                pv,
                state.pen_pat,
                state.fg,
                state.bg,
                mode,
            ),
        }
    } else if verb == 1 {
        match &state.pen_pix_pat {
            Some(pp) => fill_rect_pix_pattern(canvas, top, left, bottom, right, pp),
            None => fill_rect_pattern_mode(canvas, top, left, bottom, right, state.pen_pat, state.fg, state.bg, mode),
        }
    } else if verb == 2 {
        match &state.back_pix_pat {
            Some(pp) => fill_rect_pix_pattern(canvas, top, left, bottom, right, pp),
            None => fill_rect_pattern_mode(canvas, top, left, bottom, right, state.back_pat, state.bg, state.fg, mode),
        }
    } else if verb == 3 {
        invert_rect(canvas, top, left, bottom, right);
    } else if verb == 4 {
        match &state.fill_pix_pat {
            Some(pp) => fill_rect_pix_pattern(canvas, top, left, bottom, right, pp),
            None => fill_rect_pattern_mode(canvas, top, left, bottom, right, state.fill_pat, state.fg, state.bg, mode),
        }
    }
}

/// Invert the RGB channels of every pixel of a rectangle.
fn invert_rect(canvas: &mut Canvas, top: i32, left: i32, bottom: i32, right: i32)
    requires
        old(canvas).wf(),
    ensures
        crate::raster::painted(
            *old(canvas),
            *final(canvas),
            Shape::Fill(Figure::Rect { top, left, bottom, right }),
            Ink::Invert,
        ),
{
    canvas.paint(&Shape::Fill(Figure::Rect { top, left, bottom, right }), &Ink::Invert);
}

/// The rounded-rectangle verbs, with the state's oval size; frame
/// draws a one-pixel outline in the foreground colour.
fn apply_rrect_verb(canvas: &mut Canvas, state: &PictState, opcode: u16, rect: RectI32)
    requires
        old(canvas).wf(),
        state.wf(),
    ensures
        canvas_kept(*old(canvas), *final(canvas)),
        rrect_verb_done(*old(canvas), *final(canvas), state, opcode, rect),
{
    let (top, left, bottom, right) = rect_to_canvas(state, rect);
    let (ow, oh) = state.oval_size;
    let mode = pattern_mode(state);
    let verb = opcode % 16;
    if verb == 0 {
        frame_round_rect(canvas, top, left, bottom, right, ow, oh, state.fg);
    } else if verb == 1 {
        match &state.pen_pix_pat {
            Some(pp) => fill_round_rect_pix_pattern(canvas, top, left, bottom, right, ow, oh, pp),
            None => fill_round_rect_pattern_mode(canvas, top, left, bottom, right, ow, oh, state.pen_pat, state.fg, state.bg, mode),
        }
    } else if verb == 2 {
        match &state.back_pix_pat {
            Some(pp) => fill_round_rect_pix_pattern(canvas, top, left, bottom, right, ow, oh, pp),
            None => fill_round_rect_pattern_mode(canvas, top, left, bottom, right, ow, oh, state.back_pat, state.bg, state.fg, mode),
        }
    } else if verb == 3 {
        invert_round_rect(canvas, top, left, bottom, right, ow, oh);
    } else if verb == 4 {
        match &state.fill_pix_pat {
            Some(pp) => fill_round_rect_pix_pattern(canvas, top, left, bottom, right, ow, oh, pp),
            None => fill_round_rect_pattern_mode(canvas, top, left, bottom, right, ow, oh, state.fill_pat, state.fg, state.bg, mode),
        }
    }
}

/// The oval verbs; frame draws the outline with the pen size in the
/// foreground colour.
fn apply_oval_verb(canvas: &mut Canvas, state: &PictState, opcode: u16, rect: RectI32)
    requires
        old(canvas).wf(),
        state.wf(),
    ensures
        canvas_kept(*old(canvas), *final(canvas)),
        oval_verb_done(*old(canvas), *final(canvas), state, opcode, rect),
{
    let (top, left, bottom, right) = rect_to_canvas(state, rect);
    let (ph, pv) = state.pen_size;
    let mode = pattern_mode(state);
    let verb = opcode % 16;
    if verb == 0 {
        frame_oval_thick(canvas, top, left, bottom, right, ph, pv, state.fg);
    } else if verb == 1 {
        match &state.pen_pix_pat {
            Some(pp) => fill_oval_pix_pattern(canvas, top, left, bottom, right, pp),
            None => fill_oval_pattern_mode(canvas, top, left, bottom, right, state.pen_pat, state.fg, state.bg, mode),
        }
    } else if verb == 2 {
        match &state.back_pix_pat {
            Some(pp) => fill_oval_pix_pattern(canvas, top, left, bottom, right, pp),
            None => fill_oval_pattern_mode(canvas, top, left, bottom, right, state.back_pat, state.bg, state.fg, mode),
        }
    } else if verb == 3 {
        invert_oval(canvas, top, left, bottom, right);
    } else if verb == 4 {
        match &state.fill_pix_pat {
            Some(pp) => fill_oval_pix_pattern(canvas, top, left, bottom, right, pp),
            None => fill_oval_pattern_mode(canvas, top, left, bottom, right, state.fill_pat, state.fg, state.bg, mode),
        }
    }
}

/// The arc verbs: frame, paint and fill draw in the foreground colour,
/// erase in the background colour, invert inverts the wedge.
fn apply_arc_verb(canvas: &mut Canvas, state: &PictState, opcode: u16, rect: RectI32, start: i32, arc: i32)
    requires
        old(canvas).wf(),
    ensures
        canvas_kept(*old(canvas), *final(canvas)),
        arc_verb_done(*old(canvas), *final(canvas), state, opcode, rect, start, arc),
{
    let (top, left, bottom, right) = rect_to_canvas(state, rect);
    let verb = opcode % 16;
    if verb == 0 {
        frame_arc(canvas, top, left, bottom, right, start, arc, state.fg);
    } else if verb == 1 || verb == 4 {
        fill_arc(canvas, top, left, bottom, right, start, arc, state.fg);
    } else if verb == 2 {
        fill_arc(canvas, top, left, bottom, right, start, arc, state.bg);
    } else if verb == 3 {
        invert_arc(canvas, top, left, bottom, right, start, arc);
    }
}

/// What the polygon verb of `op` does with the canvas-space vertices
/// `verts` (see [`apply_poly_verb`]).
pub open spec fn poly_done(op: u16, c0: Canvas, c1: Canvas, st: PictState, verts: &[(i32, i32)]) -> bool {
    let verb = op % 16;
    &&& canvas_kept(c0, c1)
    &&& verb == 0 ==> crate::raster::drawn(
        c0,
        c1,
        |x: int, y: int| verts@.len() >= 2 && crate::raster::outline_upto(verts@, verts@.len() as int, x, y),
        st.fg,
    )
    &&& verb != 0 ==> verb_painted(c0, c1, &st, verb, Shape::Polygon(verts), Ink::Invert, Shape::Polygon(verts))
}

/// The polygon record at `p` is whole.
pub open spec fn poly_ok(s: Seq<u8>, p: int) -> bool {
    &&& s.len() - p >= 2
    &&& be_u16(s, p) >= 10
    &&& s.len() - p >= poly_len(s, p)
}

/// The bytes the polygon record at `p` takes: size word, bounding box,
/// four bytes a vertex.
pub open spec fn poly_len(s: Seq<u8>, p: int) -> int {
    10 + 4 * ((be_u16(s, p) - 10) / 4)
}

/// `v` holds the vertices of the polygon record at `p`, mapped to the
/// canvas through the state's origin.
pub open spec fn poly_verts_at(s: Seq<u8>, p: int, st: PictState, v: Seq<(i32, i32)>) -> bool {
    let k = (be_u16(s, p) - 10) / 4;
    &&& v.len() == k
    &&& forall|i: int|
        0 <= i < k ==> #[trigger] v[i] == (
            (be_i16(s, p + 10 + 4 * i + 2) as i32).wrapping_sub(st.origin.0),
            (be_i16(s, p + 10 + 4 * i) as i32).wrapping_sub(st.origin.1),
        )
}

/// The polygon verbs; frame draws one-pixel edges in the foreground
/// colour.
fn apply_poly_verb(canvas: &mut Canvas, state: &PictState, opcode: u16, verts: &[(i32, i32)])
    requires
        old(canvas).wf(),
        state.wf(),
    ensures
        canvas_kept(*old(canvas), *final(canvas)),
        ({
            let verb = opcode % 16;
            &&& verb == 0 ==> crate::raster::drawn(
                *old(canvas),
                *final(canvas),
                |x: int, y: int| verts@.len() >= 2 && crate::raster::outline_upto(verts@, verts@.len() as int, x, y),
                state.fg,
            )
            &&& verb != 0 ==> verb_painted(
                *old(canvas),
                *final(canvas),
                state,
                verb,
                Shape::Polygon(verts),
                Ink::Invert,
                Shape::Polygon(verts),
            )
        }),
{
    let mode = pattern_mode(state);
    let verb = opcode % 16;
    if verb == 0 {
        frame_polygon(canvas, verts, state.fg);
    } else if verb == 1 {
        match &state.pen_pix_pat {
            Some(pp) => fill_polygon_pix_pattern(canvas, verts, pp),
            None => fill_polygon_pattern_mode(canvas, verts, state.pen_pat, state.fg, state.bg, mode),
        }
    } else if verb == 2 {
        match &state.back_pix_pat {
            Some(pp) => fill_polygon_pix_pattern(canvas, verts, pp),
            None => fill_polygon_pattern_mode(canvas, verts, state.back_pat, state.bg, state.fg, mode),
        }
    } else if verb == 3 {
        invert_polygon(canvas, verts);
    } else if verb == 4 {
        match &state.fill_pix_pat {
            Some(pp) => fill_polygon_pix_pattern(canvas, verts, pp),
            None => fill_polygon_pattern_mode(canvas, verts, state.fill_pat, state.fg, state.bg, mode),
        }
    }
}

/// Paint a region's pixels with a pattern between `fg` (1 bits) and
/// `bg` (0 bits) under the state's pattern mode.
fn paint_region_pattern(canvas: &mut Canvas, state: &PictState, rgn: &Region, pat: Pattern, fg: Rgba, bg: Rgba)
    requires
        old(canvas).wf(),
        rgn.wf(),
    ensures
        crate::raster::painted(
            *old(canvas),
            *final(canvas),
            Shape::Region { rgn, ox: state.origin.0, oy: state.origin.1 },
            Ink::Pattern { pat, fg, bg, mode: crate::raster::pn_mode_with_spec(state.text_state.pn_mode, state.text_state.op_color, state.bg) },
        ),
{
    let mode = pattern_mode(state);
    canvas.paint(&Shape::Region { rgn, ox: state.origin.0, oy: state.origin.1 }, &Ink::Pattern { pat, fg, bg, mode });
}

/// Paint a region's pixels from a colour tile.
fn paint_region_pix_pattern(canvas: &mut Canvas, state: &PictState, rgn: &Region, pp: &PixPattern)
    requires
        old(canvas).wf(),
        rgn.wf(),
        pp.wf(),
    ensures
        crate::raster::painted(*old(canvas), *final(canvas), Shape::Region { rgn, ox: state.origin.0, oy: state.origin.1 }, Ink::Tile(pp)),
{
    canvas.paint(&Shape::Region { rgn, ox: state.origin.0, oy: state.origin.1 }, &Ink::Tile(pp));
}

/// Paint a region's edge pixels (inside, with a 4-neighbour outside)
/// in the foreground colour.
fn paint_region_outline(canvas: &mut Canvas, state: &PictState, rgn: &Region)
    requires
        old(canvas).wf(),
        rgn.wf(),
    ensures
        crate::raster::painted(*old(canvas), *final(canvas), Shape::RegionEdge { rgn, ox: state.origin.0, oy: state.origin.1 }, Ink::Solid(state.fg)),
{
    canvas.paint(&Shape::RegionEdge { rgn, ox: state.origin.0, oy: state.origin.1 }, &Ink::Solid(state.fg));
}

/// Invert a region's pixels.
fn invert_region(canvas: &mut Canvas, state: &PictState, rgn: &Region)
    requires
        old(canvas).wf(),
        rgn.wf(),
    ensures
        crate::raster::painted(*old(canvas), *final(canvas), Shape::Region { rgn, ox: state.origin.0, oy: state.origin.1 }, Ink::Invert),
{
    canvas.paint(&Shape::Region { rgn, ox: state.origin.0, oy: state.origin.1 }, &Ink::Invert);
}

/// The canvas-sized mask of the pixels whose picture point (canvas
/// point plus `(ox, oy)`) lies in the region and, when `prev` is
/// given, inside `prev` too.
fn region_mask(rgn: &Region, ox: i32, oy: i32, w: u32, h: u32, prev: &Option<Vec<bool>>) -> (m: Vec<bool>)
    requires
        rgn.wf(),
        w <= MAX_SIDE,
        h <= MAX_SIDE,
        w * h <= usize::MAX,
        prev matches Some(p) ==> p@.len() == w * h,
    ensures
        m@.len() == w * h,
        forall|x: int, y: int|
            0 <= x < w && 0 <= y < h ==> #[trigger] m@[y * w + x] == (rgn.contains_spec(x + ox, y + oy) && match prev {
                None => true,
                Some(p) => p@[y * w + x],
            }),
{
    let mut m: Vec<bool> = Vec::new();
    let mut y: u32 = 0;
    while y < h
        invariant
            rgn.wf(),
            y <= h <= MAX_SIDE,
            w <= MAX_SIDE,
            w * h <= usize::MAX,
            prev matches Some(p) ==> p@.len() == w * h,
            m@.len() == y * w,
            forall|xx: int, yy: int|
                0 <= xx < w && 0 <= yy < y ==> #[trigger] m@[yy * w + xx] == (rgn.contains_spec(xx + ox, yy + oy) && match prev {
                    None => true,
                    Some(p) => p@[yy * w + xx],
                }),
        decreases h - y,
    {
        let mut x: u32 = 0;
        while x < w
            invariant
                rgn.wf(),
                y < h <= MAX_SIDE,
                x <= w <= MAX_SIDE,
                w * h <= usize::MAX,
                prev matches Some(p) ==> p@.len() == w * h,
                m@.len() == y * w + x,
                forall|xx: int, yy: int|
                    (0 <= xx < w && 0 <= yy < y) || (yy == y && 0 <= xx < x) ==> #[trigger] m@[yy * w + xx] == (
                    rgn.contains_spec(xx + ox, yy + oy) && match prev {
                        None => true,
                        Some(p) => p@[yy * w + xx],
                    }),
            decreases w - x,
        {
            proof {
                crate::raster::lemma_pixel_index(w as int, h as int, x as int, y as int);
            }
            let inside = crate::raster::region_test(rgn, ox, oy, x as i64, y as i64);
            let keep = match prev {
                None => true,
                Some(p) => p[(y as usize) * (w as usize) + (x as usize)],
            };
            let ghost before = m@;
            m.push(inside && keep);
            proof {
                assert forall|xx: int, yy: int|
                    (0 <= xx < w && 0 <= yy < y) || (yy == y && 0 <= xx < x + 1) implies #[trigger] m@[yy * w + xx] == (
                    rgn.contains_spec(xx + ox, yy + oy) && match prev {
                        None => true,
                        Some(p) => p@[yy * w + xx],
                    }) by {
                    if !(yy == y && xx == x) {
                        assert(yy * w + xx < y * w + x) by (nonlinear_arith)
                            requires
                                (0 <= xx < w && 0 <= yy < y) || (yy == y && 0 <= xx < x),
                                x < w;
                        assert(0 <= yy * w + xx) by (nonlinear_arith)
                            requires 0 <= xx, 0 <= yy, 0 <= w;
                        assert(m@[yy * w + xx] == before[yy * w + xx]);
                    }
                }
            }
            x += 1;
        }
        proof {
            assert(y * w + w == (y + 1) * w) by (nonlinear_arith);
        }
        y += 1;
    }
    proof {
        assert(h * w == w * h) by (nonlinear_arith);
    }
    m
}

/// Install a region as the clip: from now on only canvas pixels whose
/// picture point lies in the region are drawn. A canvas with a zero
/// side is left alone.
fn install_clip_region(canvas: &mut Canvas, state: &PictState, rgn: &Region)
    requires
        old(canvas).wf(),
        rgn.wf(),
    ensures
        final(canvas).wf(),
        final(canvas).width == old(canvas).width,
        final(canvas).height == old(canvas).height,
        final(canvas).data == old(canvas).data,
        final(canvas).dirty == old(canvas).dirty,
        old(canvas).width == 0 || old(canvas).height == 0 ==> final(canvas).clip == old(canvas).clip,
        old(canvas).width > 0 && old(canvas).height > 0 ==> (final(canvas).clip matches Some(m) && forall|x: int, y: int|
            0 <= x < old(canvas).width && 0 <= y < old(canvas).height ==> #[trigger] m@[y * old(canvas).width + x]
                == rgn.contains_spec(x + state.origin.0, y + state.origin.1)),
{
    if canvas.width == 0 || canvas.height == 0 {
        return;
    }
    proof {
        assert(canvas.width * canvas.height <= canvas.width * canvas.height * 4) by (nonlinear_arith);
    }
    let mask = region_mask(rgn, state.origin.0, state.origin.1, canvas.width, canvas.height, &None);
    canvas.clip = Some(mask);
}

/// Whether the region `g`, when there is one, admits canvas pixel
/// `(x, y)` (its picture point is the canvas point plus the origin).
pub open spec fn region_admits(g: Option<Region>, st: PictState, x: int, y: int) -> bool {
    match g {
        None => true,
        Some(rg) => rg.contains_spec(x + st.origin.0, y + st.origin.1),
    }
}

/// `c1` is `c0` with the raster `img` composited onto `dst` (mapped to
/// the canvas through the origin) by the record's transfer mode, scaled
/// nearest-neighbour, inside the clip and, when `g` is given, inside
/// that region; an empty raster or destination leaves `c0` as it was.
pub open spec fn raster_blit_done(c0: Canvas, c1: Canvas, st: PictState, img: RasterSub, dst: RectI32, g: Option<Region>) -> bool {
    let (t, l, b, r) = canvas_rect(st, dst);
    let mode = mode_word_spec(img.mode as i16, st.text_state.op_color, st.bg);
    if img.width == 0 || img.height == 0 || r <= l || b <= t {
        c1 == c0
    } else {
        &&& c0.same_frame(&c1)
        &&& c1.dirty
        &&& forall|x: int, y: int|
            #[trigger] c0.inside(x, y) ==> c1.px(x, y) == (if c0.clip_ok(x, y) && region_admits(g, st, x, y) && rect_has(
                t as int,
                l as int,
                b as int,
                r as int,
                x,
                y,
            ) {
                blend_source_spec(
                    mode,
                    raster_sample(img.data@, img.width as int, img.height as int, r - l, b - t, x - l, y - t),
                    c0.px(x, y),
                    st.fg,
                    st.bg,
                )
            } else {
                c0.px(x, y)
            })
    }
}

/// The `DirectBitsRect` record at `p` (after the opcode) is one the
/// reader decodes: a pixel map within the raster budget, of a packing
/// it knows, whose rows are all there.
pub open spec fn direct_record_ok(s: Seq<u8>, p: int) -> bool {
    let hd = pixmap_header_at(s, p);
    &&& 0 <= p
    &&& s.len() - p >= 68
    &&& be_u16(s, p + 4) >= 0x8000
    &&& hd.width * hd.height * 4 <= MAX_RASTER_BYTES
    &&& direct_layout(hd) is Some
    &&& direct_pixels(hd, s.subrange(p + 68, s.len() as int)) is Some
}

/// What the `DirectBitsRect` record at `p` decodes to, ending at `e`.
pub open spec fn direct_record_decoded(s: Seq<u8>, p: int, sub: RasterSub, dst: RectI32, e: int) -> bool {
    let hd = pixmap_header_at(s, p);
    let l = direct_layout(hd)->0;
    let (pix, stride, used) = direct_pixels(hd, s.subrange(p + 68, s.len() as int))->0;
    &&& sub.wf()
    &&& sub.width == hd.width
    &&& sub.height == hd.height
    &&& sub.mode == be_u16(s, p + 66)
    &&& dst == rect_at(s, p + 58)
    &&& e == p + 68 + used
    &&& forall|x: int, y: int|
        0 <= x < hd.width && 0 <= y < hd.height ==> #[trigger] rgba_at(sub.data@, hd.width as int, x, y) == layout_pixel(
            l,
            pix,
            stride,
            hd.width as int,
            Seq::empty(),
            x,
            y,
        )
}

/// Where the direct pixels of the `DirectBitsRgn` record at `p` start:
/// past the region that follows the transfer mode.
pub open spec fn direct_rgn_pixels_at(s: Seq<u8>, p: int) -> int {
    p + 68 + be_u16(s, p + 68)
}

/// The `DirectBitsRgn` record at `p` decodes: a pixel-map header, the
/// rectangles and mode, a whole region, then direct pixels the layout
/// reads.
pub open spec fn direct_rgn_record_ok(s: Seq<u8>, p: int) -> bool {
    let hd = pixmap_header_at(s, p);
    &&& 0 <= p
    &&& s.len() - p >= 68
    &&& be_u16(s, p + 4) >= 0x8000
    &&& rgn_ok(s.subrange(p + 68, s.len() as int))
    &&& hd.width * hd.height * 4 <= MAX_RASTER_BYTES
    &&& direct_layout(hd) is Some
    &&& direct_pixels(hd, s.subrange(direct_rgn_pixels_at(s, p), s.len() as int)) is Some
}

/// The bytes the direct pixel rows of the `DirectBitsRgn` record at `p`
/// take.
pub open spec fn direct_rgn_used(s: Seq<u8>, p: int) -> int {
    match direct_pixels(pixmap_header_at(s, p), s.subrange(direct_rgn_pixels_at(s, p), s.len() as int)) {
        Some((_, _, used)) => used as int,
        None => 0,
    }
}

/// What the `DirectBitsRgn` record at `p` decodes to, ending at `e`:
/// the raster, its destination, and the region read after the mode.
pub open spec fn direct_rgn_record_decoded(s: Seq<u8>, p: int, sub: RasterSub, dst: RectI32, g: Region, e: int) -> bool {
    let hd = pixmap_header_at(s, p);
    let l = direct_layout(hd)->0;
    let (pix, stride, used) = direct_pixels(hd, s.subrange(direct_rgn_pixels_at(s, p), s.len() as int))->0;
    &&& sub.wf()
    &&& sub.width == hd.width
    &&& sub.height == hd.height
    &&& sub.mode == be_u16(s, p + 66)
    &&& dst == rect_at(s, p + 58)
    &&& region_read(s, p + 68, g)
    &&& e == direct_rgn_pixels_at(s, p) + used
    &&& forall|x: int, y: int|
        0 <= x < hd.width && 0 <= y < hd.height ==> #[trigger] rgba_at(sub.data@, hd.width as int, x, y) == layout_pixel(
            l,
            pix,
            stride,
            hd.width as int,
            Seq::empty(),
            x,
            y,
        )
}

/// The raster opcodes whose step the reader's contract states: all of
/// them, `BitsRect`, `BitsRgn`, `PackBitsRect`, `PackBitsRgn`,
/// `DirectBitsRect` and `DirectBitsRgn`.
pub open spec fn stated_raster_op(op: u16) -> bool {
    op == OP_BITS_RECT || op == OP_BITS_RGN || op == OP_PACK_BITS_RECT || op == OP_PACK_BITS_RGN || op
        == OP_DIRECT_BITS_RECT || op == OP_DIRECT_BITS_RGN
}

/// The raster record of `op` at `p` decodes.
pub open spec fn raster_ok(op: u16, s: Seq<u8>, p: int) -> bool {
    if op == OP_DIRECT_BITS_RECT {
        direct_record_ok(s, p)
    } else if op == OP_DIRECT_BITS_RGN {
        direct_rgn_record_ok(s, p)
    } else {
        bits_record_ok(s, p, op_packed(op), op_with_rgn(op))
    }
}

/// The raster opcode's rows are PackBits-coded.
pub open spec fn op_packed(op: u16) -> bool {
    op == OP_PACK_BITS_RECT || op == OP_PACK_BITS_RGN
}

/// The raster opcode carries a region.
pub open spec fn op_with_rgn(op: u16) -> bool {
    op == OP_BITS_RGN || op == OP_PACK_BITS_RGN
}

/// What the raster opcode `op` whose record at `p` ends at `e` draws:
/// its decoded raster composited as [`raster_blit_done`] says.
pub open spec fn raster_effect(op: u16, s: Seq<u8>, p: int, c0: Canvas, c1: Canvas, st: PictState, e: int) -> bool {
    if op == OP_DIRECT_BITS_RECT {
        exists|sub: RasterSub, dst: RectI32|
            #![trigger direct_record_decoded(s, p, sub, dst, e)]
            direct_record_decoded(s, p, sub, dst, e) && raster_blit_done(c0, c1, st, sub, dst, None)
    } else if op == OP_DIRECT_BITS_RGN {
        exists|sub: RasterSub, dst: RectI32, g: Region|
            #![trigger direct_rgn_record_decoded(s, p, sub, dst, g, e)]
            direct_rgn_record_decoded(s, p, sub, dst, g, e) && raster_blit_done(c0, c1, st, sub, dst, Some(g))
    } else {
        exists|sub: RasterSub, dst: RectI32, g: Option<Region>|
            #![trigger bits_record_decoded(s, p, op_packed(op), op_with_rgn(op), sub, dst, g, e)]
            bits_record_decoded(s, p, op_packed(op), op_with_rgn(op), sub, dst, g, e) && raster_blit_done(
                c0,
                c1,
                st,
                sub,
                dst,
                g,
            )
    }
}

/// One step of a raster opcode: it succeeds when its record decodes
/// (exactly then, for the bit-map family), keeps the state, and draws
/// [`raster_effect`].
pub open spec fn raster_step(op: u16, s: Seq<u8>, p: int, c0: Canvas, c1: Canvas, st0: PictState, st1: PictState, ok: bool, e: int) -> bool {
    &&& (op != OP_DIRECT_BITS_RECT && op != OP_DIRECT_BITS_RGN) ==> (ok <==> raster_ok(op, s, p))
    &&& raster_ok(op, s, p) ==> ok
    &&& (ok && raster_ok(op, s, p)) ==> (st1 == st0 && e == raster_end(op, s, p) && raster_effect(op, s, p, c0, c1, st0, e))
}

/// The bytes the direct pixel rows of the record at `p` take.
pub open spec fn direct_used(s: Seq<u8>, p: int) -> int {
    match direct_pixels(pixmap_header_at(s, p), s.subrange(p + 68, s.len() as int)) {
        Some((_, _, used)) => used as int,
        None => 0,
    }
}

/// Where the raster record of `op` at `p` ends.
pub open spec fn raster_end(op: u16, s: Seq<u8>, p: int) -> int {
    if op == OP_DIRECT_BITS_RECT {
        p + 68 + direct_used(s, p)
    } else if op == OP_DIRECT_BITS_RGN {
        direct_rgn_pixels_at(s, p) + direct_rgn_used(s, p)
    } else {
        let packed = op_packed(op);
        let with_region = op_with_rgn(op);
        let rbr = be_u16(s, p);
        let b = p + 2;
        let (w, h) = bounds_size(s, b);
        if rbr >= 0x8000 {
            let c = indexed_rects_at(s, b);
            rows_end(pixel_rows_at(s, after_region(s, c + 18, with_region), rbr % 0x4000, h, packed))
        } else {
            rows_end(pixel_rows_at(s, after_region(s, b + 26, with_region), rbr, h, packed))
        }
    }
}

/// Composite a decoded raster onto its destination rectangle through
/// the record's transfer mode.
fn blit_subimage(canvas: &mut Canvas, state: &PictState, img: &RasterSub, dst: &RectI32)
    requires
        old(canvas).wf(),
        img.wf(),
    ensures
        raster_blit_done(*old(canvas), *final(canvas), *state, *img, *dst, None),
        final(canvas).wf(),
        final(canvas).width == old(canvas).width,
        final(canvas).height == old(canvas).height,
        final(canvas).clip == old(canvas).clip,
        plain_copy(*old(canvas), *state, *img, *dst) ==> final(canvas).data@ == img.data@ && final(canvas).dirty,
{
    let (top, left, bottom, right) = rect_to_canvas(state, *dst);
    let mode = SourceMode::from_mode_word(img.mode as i16, state.text_state.op_color, state.bg);
    let ghost c0 = *canvas;
    canvas.blit_mode(img.data.as_slice(), img.width, img.height, top, left, bottom, right, mode, state.fg, state.bg);
    proof {
        if plain_copy(c0, *state, *img, *dst) {
            let w = img.width as int;
            let h = img.height as int;
            assert(0i16 & 64 == 0) by (bit_vector);
            assert(mode == SourceMode::SrcCopy);
            assert forall|x: int, y: int| 0 <= x < w && 0 <= y < h implies #[trigger] rgba_at(canvas.data@, w, x, y)
                == rgba_at(img.data@, w, x, y) by {
                assert(c0.inside(x, y));
                assert(rect_has(0, 0, h, w, x, y));
                assert(y * h / h == y) by (nonlinear_arith)
                    requires
                        h > 0,
                ;
                assert(x * w / w == x) by (nonlinear_arith)
                    requires
                        w > 0,
                ;
                lemma_identity_copy_reproduces_source(cell(img.data@, y * w + x), c0.px(x, y));
                assert(canvas.px(x, y) == rgba_at(canvas.data@, w, x, y));
            }
            crate::roundtrip::lemma_cells_equal(canvas.data@, img.data@, w, h);
        }
    }
}

/// A clip-free `w x h` canvas at the picture origin, with the default
/// black and white colours.
pub open spec fn plain_target(c: Canvas, state: PictState, w: u32, h: u32) -> bool {
    &&& c.clip is None
    &&& c.width == w
    &&& c.height == h
    &&& state.origin == (0i32, 0i32)
    &&& state.fg == black_spec()
    &&& state.bg == white_spec()
}

/// A raster that covers the whole clip-free canvas at the picture
/// origin in `srcCopy`, with the default black and white colours.
pub open spec fn plain_copy(c: Canvas, state: PictState, img: RasterSub, dst: RectI32) -> bool {
    &&& c.clip is None
    &&& state.origin == (0i32, 0i32)
    &&& state.fg == black_spec()
    &&& state.bg == white_spec()
    &&& img.mode == 0
    &&& img.width == c.width
    &&& img.height == c.height
    &&& img.width > 0
    &&& img.height > 0
    &&& dst == (RectI32 { top: 0, left: 0, bottom: img.height as i32, right: img.width as i32 })
}

/// Composite a decoded raster with a region clip for this record only:
/// the region is intersected with any installed clip, and the installed
/// clip is restored afterwards.
fn blit_subimage_with_rgn(canvas: &mut Canvas, state: &PictState, img: &RasterSub, dst: &RectI32, rgn: Option<&Region>)
    requires
        old(canvas).wf(),
        img.wf(),
        rgn matches Some(g) ==> g.wf(),
    ensures
        final(canvas).wf(),
        final(canvas).width == old(canvas).width,
        final(canvas).height == old(canvas).height,
        final(canvas).clip == old(canvas).clip,
        (rgn is None && plain_copy(*old(canvas), *state, *img, *dst)) ==> final(canvas).data@ == img.data@
            && final(canvas).dirty,
        raster_blit_done(
            *old(canvas),
            *final(canvas),
            *state,
            *img,
            *dst,
            match rgn {
                Some(g) => Some(*g),
                None => None,
            },
        ),
{
    match rgn {
        None => {
            let ghost c0 = *canvas;
            blit_subimage(canvas, state, img, dst);
            proof {
                assert(raster_blit_done(c0, *canvas, *state, *img, *dst, None));
                let gs: Option<Region> = match rgn {
                    Some(g) => Some(*g),
                    None => None,
                };
                assert(gs == None::<Region>);
                assert(raster_blit_done(c0, *canvas, *state, *img, *dst, gs));
            }
        },
        Some(g) => {
            let prev = canvas.clip.take();
            proof {
                assert(canvas.width * canvas.height <= canvas.width * canvas.height * 4) by (nonlinear_arith);
            }
            let ghost c0 = *old(canvas);
            let transient = region_mask(g, state.origin.0, state.origin.1, canvas.width, canvas.height, &prev);
            canvas.clip = Some(transient);
            let ghost cm = *canvas;
            proof {
                assert forall|x: int, y: int| c0.inside(x, y) implies #[trigger] cm.clip_ok(x, y) == (c0.clip_ok(x, y)
                    && region_admits(Some(*g), *state, x, y)) by {
                    assert(cm.index_of(x, y) == y * cm.width + x);
                }
            }
            blit_subimage(canvas, state, img, dst);
            let ghost c2 = *canvas;
            canvas.clip = prev;
            proof {
                let (t, l, b, r) = canvas_rect(*state, *dst);
                let gs: Option<Region> = Some(*g);
                assert(cm.data == c0.data && cm.width == c0.width && cm.height == c0.height && cm.dirty == c0.dirty);
                if img.width == 0 || img.height == 0 || r <= l || b <= t {
                    assert(c2 == cm);
                    assert(*canvas == c0);
                } else {
                    let mode = mode_word_spec(img.mode as i16, state.text_state.op_color, state.bg);
                    assert(c0.same_frame(&*canvas));
                    assert forall|x: int, y: int| #[trigger] c0.inside(x, y) implies canvas.px(x, y) == (if c0.clip_ok(x, y)
                        && region_admits(gs, *state, x, y) && rect_has(t as int, l as int, b as int, r as int, x, y) {
                        blend_source_spec(
                            mode,
                            raster_sample(img.data@, img.width as int, img.height as int, r - l, b - t, x - l, y - t),
                            c0.px(x, y),
                            state.fg,
                            state.bg,
                        )
                    } else {
                        c0.px(x, y)
                    }) by {
                        assert(cm.inside(x, y));
                        assert(cm.px(x, y) == c0.px(x, y));
                        assert(canvas.px(x, y) == c2.px(x, y));
                        assert(region_admits(None, *state, x, y));
                    }
                }
            }
        },
    }
}


/// Read a rectangle operand.
fn read_rect_op(r: &mut Reader<'_>) -> (res: Result<RectI32>)
    ensures
        final(r).bytes@ == old(r).bytes@,
        match res {
            Ok(rect) => {
                let p = old(r).pos as int;
                let s = old(r).bytes@;
                &&& final(r).pos == p + 8
                &&& old(r).rem() >= 8
                &&& rect == (RectI32 {
                    top: crate::wire::be_i16(s, p) as i32,
                    left: crate::wire::be_i16(s, p + 2) as i32,
                    bottom: crate::wire::be_i16(s, p + 4) as i32,
                    right: crate::wire::be_i16(s, p + 6) as i32,
                })
            },
            Err(e) => old(r).rem() < 8 && e is InvalidData,
        },
{
    let (top, left, bottom, right) = r.read_rect()?;
    Ok(RectI32::from_be(top, left, bottom, right))
}

/// Read a 16-bit-per-channel `RGBColor`.
fn read_rgb16(r: &mut Reader<'_>) -> (res: Result<(u16, u16, u16)>)
    ensures
        final(r).bytes@ == old(r).bytes@,
        match res {
            Ok(c) => {
                let p = old(r).pos as int;
                let s = old(r).bytes@;
                &&& final(r).pos == p + 6
                &&& old(r).rem() >= 6
                &&& c.0 == crate::wire::be_u16(s, p)
                &&& c.1 == crate::wire::be_u16(s, p + 2)
                &&& c.2 == crate::wire::be_u16(s, p + 4)
            },
            Err(e) => old(r).rem() < 6 && e is InvalidData,
        },
{
    let r_ = r.read_u16()?;
    let g_ = r.read_u16()?;
    let b_ = r.read_u16()?;
    Ok((r_, g_, b_))
}

/// Read an 8-byte monochrome pattern.
fn read_pattern(r: &mut Reader<'_>) -> (res: Result<Pattern>)
    requires
        old(r).pos <= old(r).bytes@.len(),
    ensures
        final(r).bytes@ == old(r).bytes@,
        match res {
            Ok(p) => old(r).rem() >= 8 && final(r).pos == old(r).pos + 8 && p.0@ == old(r).rest().subrange(0, 8)
                && p.0@ == old(r).bytes@.subrange(old(r).pos as int, old(r).pos + 8),
            Err(e) => old(r).rem() < 8 && e is InvalidData,
        },
{
    let ghost r0 = *r;
    let b = r.read_bytes(8)?;
    let p = Pattern([b[0], b[1], b[2], b[3], b[4], b[5], b[6], b[7]]);
    proof {
        assert(p.0@ =~= b@);
        assert(r0.rest().subrange(0, 8) =~= r0.bytes@.subrange(r0.pos as int, r0.pos + 8));
    }
    Ok(p)
}

/// Move the text pen by `(dh, dv)` from where the previous text opcode
/// left it (the origin when none did) and count the text opcode.
fn advance_text_pen(state: &mut PictState, dh: i32, dv: i32)
    ensures
        ({
            let (h, v) = match old(state).text_state.text_pen {
                Some(p) => p,
                None => (0i32, 0i32),
            };
            i32::MIN <= h + dh <= i32::MAX && i32::MIN <= v + dv <= i32::MAX ==> final(state).text_state.text_pen
                == Some(((h + dh) as i32, (v + dv) as i32))
        }),
        final(state).text_state.text_pen is Some,
        final(state).wf() == old(state).wf(),
        ({
            let (h, v) = match old(state).text_state.text_pen {
                Some(p) => p,
                None => (0i32, 0i32),
            };
            *final(state) == (PictState {
                text_state: PictTextState {
                    text_pen: Some((h.wrapping_add(dh), v.wrapping_add(dv))),
                    text_op_count: old(state).text_state.text_op_count.wrapping_add(1),
                    ..old(state).text_state
                },
                ..*old(state)
            })
        }),
{
    let (h, v) = match state.text_state.text_pen {
        Some(p) => p,
        None => (0, 0),
    };
    state.text_state.text_pen = Some((h.wrapping_add(dh), v.wrapping_add(dv)));
    state.text_state.text_op_count = state.text_state.text_op_count.wrapping_add(1);
}


/// The pen-position prefix of a text opcode: `LongText` 4 bytes,
/// `DHText` and `DVText` 1, `DHDVText` 2.
pub open spec fn text_op_prefix(op: u16) -> int {
    if op == OP_LONG_TEXT {
        4
    } else if op == OP_DHDV_TEXT {
        2
    } else {
        1
    }
}

/// The bytes a text opcode whose payload starts at `p` takes: the pen
/// prefix, the count byte and that many text bytes.
pub open spec fn text_op_len(op: u16, s: Seq<u8>, p: int) -> int {
    text_op_prefix(op) + 1 + s[p + text_op_prefix(op)]
}

/// The text pen after a text opcode: `LongText` sets it to its point,
/// the others move it by their unsigned deltas from where it was (the
/// origin when no text was drawn yet); each counts one text opcode.
pub open spec fn text_op_effect(op: u16, s: Seq<u8>, p: int, a: PictState, b: PictState) -> bool {
    let (h, v) = match a.text_state.text_pen {
        Some(q) => q,
        None => (0i32, 0i32),
    };
    let pen = if op == OP_LONG_TEXT {
        (be_i16(s, p + 2) as i32, be_i16(s, p) as i32)
    } else if op == OP_DH_TEXT {
        (h.wrapping_add(s[p] as i32), v)
    } else if op == OP_DV_TEXT {
        (h, v.wrapping_add(s[p] as i32))
    } else {
        (h.wrapping_add(s[p] as i32), v.wrapping_add(s[p + 1] as i32))
    };
    b == (PictState {
        text_state: PictTextState {
            text_pen: Some(pen),
            text_op_count: a.text_state.text_op_count.wrapping_add(1),
            ..a.text_state
        },
        ..a
    })
}

/// Step past a text opcode (the glyphs are not drawn here) and move
/// the text pen.
fn apply_text_op(r: &mut Reader<'_>, opcode: u16, state: &mut PictState) -> (res: Result<()>)
    requires
        old(r).pos <= old(r).bytes@.len(),
        OP_LONG_TEXT <= opcode <= OP_DHDV_TEXT,
    ensures
        final(r).bytes@ == old(r).bytes@,
        final(r).pos <= final(r).bytes@.len(),
        ({
            let s = old(r).bytes@;
            let p = old(r).pos as int;
            &&& (res is Ok <==> (old(r).rem() >= text_op_prefix(opcode) + 1 && old(r).rem() >= text_op_len(
                opcode,
                s,
                p,
            )))
            &&& res matches Err(e) ==> e is InvalidData
            &&& res is Ok ==> final(r).pos == p + text_op_len(opcode, s, p) && text_op_effect(
                opcode,
                s,
                p,
                *old(state),
                *final(state),
            )
            &&& final(state).wf() == old(state).wf()
        }),
{
    if opcode == OP_LONG_TEXT {
        let v = r.read_i16()? as i32;
        let h = r.read_i16()? as i32;
        let n = r.read_u8()? as usize;
        r.skip(n)?;
        state.text_state.text_pen = Some((h, v));
        state.text_state.text_op_count = state.text_state.text_op_count.wrapping_add(1);
        return Ok(());
    }
    if opcode == OP_DH_TEXT {
        let dh = r.read_u8()? as i32;
        let n = r.read_u8()? as usize;
        r.skip(n)?;
        advance_text_pen(state, dh, 0);
        return Ok(());
    }
    if opcode == OP_DV_TEXT {
        let dv = r.read_u8()? as i32;
        let n = r.read_u8()? as usize;
        r.skip(n)?;
        advance_text_pen(state, 0, dv);
        return Ok(());
    }
    if opcode == OP_DHDV_TEXT {
        let dh = r.read_u8()? as i32;
        let dv = r.read_u8()? as i32;
        let n = r.read_u8()? as usize;
        r.skip(n)?;
        advance_text_pen(state, dh, dv);
        return Ok(());
    }
    Ok(())
}

/// Walk past a reserved v2 opcode's payload.
pub(crate) fn skip_reserved_v2_payload(r: &mut Reader<'_>, skip: ReservedV2Skip) -> (res: Result<()>)
    requires
        old(r).pos <= old(r).bytes@.len(),
    ensures
        final(r).bytes@ == old(r).bytes@,
        final(r).pos <= final(r).bytes@.len(),
        res is Ok ==> old(r).pos <= final(r).pos,
        skip matches ReservedV2Skip::Fixed(n) ==> (res is Ok <==> old(r).rem() >= n),
        skip matches ReservedV2Skip::Fixed(n) ==> (res is Ok ==> final(r).pos == old(r).pos + n),
{
    match skip {
        ReservedV2Skip::Fixed(n) => r.skip(n),
        ReservedV2Skip::U16Prefixed => {
            let n = r.read_u16()? as usize;
            r.skip(n)
        },
        ReservedV2Skip::U32Prefixed => {
            let n = r.read_u32()? as usize;
            r.skip(n)
        },
        ReservedV2Skip::PolygonSized => {
            let n = r.read_u16()? as usize;
            if n < 2 {
                return Err(PictError::invalid("reserved polygon size smaller than its size word"));
            }
            r.skip(n - 2)
        },
        ReservedV2Skip::RegionSized => {
            let n = r.read_u16()? as usize;
            if n < 2 {
                return Err(PictError::invalid("reserved region size smaller than its size word"));
            }
            r.skip(n - 2)
        },
    }
}

/// Read a polygon operand: size word (at least 10), bounding box, then
/// `(size - 10) / 4` points, each made relative to the origin.
fn read_polygon(r: &mut Reader<'_>, state: &PictState) -> (res: Result<Vec<(i32, i32)>>)
    requires
        old(r).pos <= old(r).bytes@.len(),
    ensures
        final(r).bytes@ == old(r).bytes@,
        res is Ok ==> old(r).pos < final(r).pos <= final(r).bytes@.len(),
        res matches Ok(v) ==> v@.len() == (crate::wire::be_u16(old(r).bytes@, old(r).pos as int) - 10) / 4,
        ({
            let s = old(r).bytes@;
            let p = old(r).pos as int;
            let k = (be_u16(s, p) - 10) / 4;
            &&& (res is Ok <==> (old(r).rem() >= 2 && be_u16(s, p) >= 10 && old(r).rem() >= 10 + 4 * k))
            &&& res matches Err(e) ==> e is InvalidData
            &&& res matches Ok(v) ==> {
                &&& final(r).pos == p + 10 + 4 * k
                &&& forall|i: int|
                    0 <= i < k ==> #[trigger] v@[i] == (
                        (be_i16(s, p + 10 + 4 * i + 2) as i32).wrapping_sub(state.origin.0),
                        (be_i16(s, p + 10 + 4 * i) as i32).wrapping_sub(state.origin.1),
                    )
            }
        }),
{
    let ghost s = r.bytes@;
    let ghost p = r.pos as int;
    let poly_size = r.read_u16()? as usize;
    if poly_size < 10 {
        return Err(PictError::invalid("polygon size smaller than its 10-byte header"));
    }
    let _bbox = r.read_rect()?;
    let n_verts = (poly_size - 10) / 4;
    let mut verts: Vec<(i32, i32)> = Vec::new();
    let mut i: usize = 0;
    while i < n_verts
        invariant
            r.bytes@ == old(r).bytes@,
            s == old(r).bytes@,
            p == old(r).pos,
            old(r).pos < r.pos <= r.bytes@.len(),
            r.pos == p + 10 + 4 * i,
            n_verts == (be_u16(s, p) - 10) / 4,
            i <= n_verts,
            verts@.len() == i,
            forall|j: int|
                0 <= j < i ==> #[trigger] verts@[j] == (
                    (be_i16(s, p + 10 + 4 * j + 2) as i32).wrapping_sub(state.origin.0),
                    (be_i16(s, p + 10 + 4 * j) as i32).wrapping_sub(state.origin.1),
                ),
        decreases n_verts - i,
    {
        let v = r.read_i16()? as i32;
        let h = r.read_i16()? as i32;
        verts.push(to_canvas(state, h, v));
        i += 1;
    }
    Ok(verts)
}

/// A line from `(x0, y0)` to `(x1, y1)` (picture coordinates) with the
/// state's pen, in the foreground colour.
fn draw_line(canvas: &mut Canvas, state: &PictState, x0: i32, y0: i32, x1: i32, y1: i32)
    requires
        old(canvas).wf(),
    ensures
        old(canvas).same_frame(&*final(canvas)),
        ({
            let a0 = x0.wrapping_sub(state.origin.0) as int;
            let b0 = y0.wrapping_sub(state.origin.1) as int;
            let a1 = x1.wrapping_sub(state.origin.0) as int;
            let b1 = y1.wrapping_sub(state.origin.1) as int;
            crate::raster::drawn(
                *old(canvas),
                *final(canvas),
                |x: int, y: int|
                    crate::raster::line_has(
                        a0,
                        b0,
                        a1,
                        b1,
                        crate::raster::max_int(state.pen_size.0 as int, 1),
                        crate::raster::max_int(state.pen_size.1 as int, 1),
                        x,
                        y,
                    ),
                state.fg,
            )
        }),
{
    let (a0, b0) = to_canvas(state, x0, y0);
    let (a1, b1) = to_canvas(state, x1, y1);
    let (ph, pv) = state.pen_size;
    line_thick(canvas, a0, b0, a1, b1, ph, pv, state.fg);
}

/// A line from `(x0, y0)` to `(x1, y1)` (picture coordinates) drawn
/// with the state's pen in its foreground colour (see [`draw_line`]).
pub open spec fn line_done(c0: Canvas, c1: Canvas, st: PictState, x0: i32, y0: i32, x1: i32, y1: i32) -> bool {
    let a0 = x0.wrapping_sub(st.origin.0) as int;
    let b0 = y0.wrapping_sub(st.origin.1) as int;
    let a1 = x1.wrapping_sub(st.origin.0) as int;
    let b1 = y1.wrapping_sub(st.origin.1) as int;
    &&& c0.same_frame(&c1)
    &&& crate::raster::drawn(
        c0,
        c1,
        |x: int, y: int|
            crate::raster::line_has(
                a0,
                b0,
                a1,
                b1,
                crate::raster::max_int(st.pen_size.0 as int, 1),
                crate::raster::max_int(st.pen_size.1 as int, 1),
                x,
                y,
            ),
        st.fg,
    )
}

/// A byte read as a two's-complement delta.
pub open spec fn signed_spec(b: u8) -> i32 {
    if b < 128 { b as i32 } else { (b as int - 256) as i32 }
}

/// The payload size of the line opcode `op`.
pub open spec fn line_payload(op: u16) -> int {
    if op == OP_LINE { 8 } else if op == OP_LINE_FROM { 4 } else if op == OP_SHORT_LINE { 6 } else { 2 }
}

/// What the line opcode `op` whose payload starts at `p` does: draw
/// its line and move the pen to the line's end.
pub open spec fn line_op_effect(op: u16, s: Seq<u8>, p: int, c0: Canvas, c1: Canvas, st0: PictState, st1: PictState) -> bool {
    if op == OP_LINE {
        let v0 = be_i16(s, p) as i32;
        let h0 = be_i16(s, p + 2) as i32;
        let v1 = be_i16(s, p + 4) as i32;
        let h1 = be_i16(s, p + 6) as i32;
        line_done(c0, c1, st0, h0, v0, h1, v1) && st1 == (PictState { pen: (h1, v1), ..st0 })
    } else if op == OP_LINE_FROM {
        let v = be_i16(s, p) as i32;
        let h = be_i16(s, p + 2) as i32;
        line_done(c0, c1, st0, st0.pen.0, st0.pen.1, h, v) && st1 == (PictState { pen: (h, v), ..st0 })
    } else if op == OP_SHORT_LINE {
        let v = be_i16(s, p) as i32;
        let h = be_i16(s, p + 2) as i32;
        let nx = h.wrapping_add(signed_spec(s[p + 4]));
        let ny = v.wrapping_add(signed_spec(s[p + 5]));
        line_done(c0, c1, st0, h, v, nx, ny) && st1 == (PictState { pen: (nx, ny), ..st0 })
    } else {
        let nx = st0.pen.0.wrapping_add(signed_spec(s[p]));
        let ny = st0.pen.1.wrapping_add(signed_spec(s[p + 1]));
        line_done(c0, c1, st0, st0.pen.0, st0.pen.1, nx, ny) && st1 == (PictState { pen: (nx, ny), ..st0 })
    }
}

/// `g` is the region stored at `p` in `s` (see [`parse_region`]).
pub open spec fn region_read(s: Seq<u8>, p: int, g: Region) -> bool {
    let t = s.subrange(p, s.len() as int);
    &&& g.wf()
    &&& g.bbox == rgn_bbox(t)
    &&& match g.mask {
        None => be_u16(t, 0) == 10,
        Some(m) => be_u16(t, 0) > 10 && inversion_mask(rgn_payload(t), rgn_bbox(t)) == Some(m@),
    }
}

/// What the region verb of `op` paints with region `g`: the frame its
/// edge in the foreground colour, invert its pixels, paint / erase /
/// fill them with the pen, background or fill colour pattern (or the
/// pattern between foreground and background under the pen mode).
pub open spec fn region_paint_done(op: u16, c0: Canvas, c1: Canvas, st: PictState, g: Region) -> bool {
    let verb = op % 16;
    let sh = Shape::Region { rgn: &g, ox: st.origin.0, oy: st.origin.1 };
    if verb == 0 {
        crate::raster::painted(c0, c1, Shape::RegionEdge { rgn: &g, ox: st.origin.0, oy: st.origin.1 }, Ink::Solid(st.fg))
    } else if verb == 3 {
        crate::raster::painted(c0, c1, sh, Ink::Invert)
    } else {
        let slot = if verb == 1 {
            st.pen_pix_pat
        } else if verb == 2 {
            st.back_pix_pat
        } else {
            st.fill_pix_pat
        };
        let mode = crate::raster::pn_mode_with_spec(st.text_state.pn_mode, st.text_state.op_color, st.bg);
        match slot {
            Some(pp) => crate::raster::painted(c0, c1, sh, Ink::Tile(&pp)),
            None => if verb == 1 {
                crate::raster::painted(c0, c1, sh, Ink::Pattern { pat: st.pen_pat, fg: st.fg, bg: st.bg, mode })
            } else if verb == 2 {
                crate::raster::painted(c0, c1, sh, Ink::Pattern { pat: st.back_pat, fg: st.bg, bg: st.fg, mode })
            } else {
                crate::raster::painted(c0, c1, sh, Ink::Pattern { pat: st.fill_pat, fg: st.fg, bg: st.bg, mode })
            },
        }
    }
}

/// `c1` is `c0` clipped to the region `g` (see [`install_clip_region`]).
pub open spec fn clip_installed(c0: Canvas, c1: Canvas, st: PictState, g: Region) -> bool {
    &&& c1.wf()
    &&& c1.width == c0.width
    &&& c1.height == c0.height
    &&& c1.data == c0.data
    &&& c1.dirty == c0.dirty
    &&& (c0.width == 0 || c0.height == 0) ==> c1.clip == c0.clip
    &&& (c0.width > 0 && c0.height > 0) ==> (c1.clip matches Some(m) && forall|x: int, y: int|
        0 <= x < c0.width && 0 <= y < c0.height ==> #[trigger] m@[y * c0.width + x] == g.contains_spec(
            x + st.origin.0,
            y + st.origin.1,
        ))
}

/// What every opcode step keeps: the reader's buffer, a well-formed
/// canvas of the same size, a well-formed state.
pub open spec fn step_kept(r0: Reader, r1: Reader, c0: Canvas, c1: Canvas, s1: PictState) -> bool {
    &&& r1.bytes@ == r0.bytes@
    &&& c1.wf()
    &&& c1.width == c0.width
    &&& c1.height == c0.height
    &&& s1.wf()
}

/// Apply one drawing verb of a shape family (`base` is the family's
/// first opcode; the low nibble selects the verb).
fn shape_verb(canvas: &mut Canvas, state: &PictState, family: u16, opcode: u16, rect: RectI32, start: i32, arc: i32)
    requires
        old(canvas).wf(),
        state.wf(),
    ensures
        canvas_kept(*old(canvas), *final(canvas)),
        family == 0x30 ==> rect_verb_done(*old(canvas), *final(canvas), state, opcode, rect),
        family == 0x40 ==> rrect_verb_done(*old(canvas), *final(canvas), state, opcode, rect),
        family == 0x50 ==> oval_verb_done(*old(canvas), *final(canvas), state, opcode, rect),
        (family != 0x30 && family != 0x40 && family != 0x50) ==> arc_verb_done(
            *old(canvas),
            *final(canvas),
            state,
            opcode,
            rect,
            start,
            arc,
        ),
{
    if family == 0x30 {
        apply_rect_verb(canvas, state, opcode, rect);
    } else if family == 0x40 {
        apply_rrect_verb(canvas, state, opcode, rect);
    } else if family == 0x50 {
        apply_oval_verb(canvas, state, opcode, rect);
    } else {
        apply_arc_verb(canvas, state, opcode, rect, start, arc);
    }
}

/// The rectangle, rounded-rectangle, oval and arc verb opcodes and
/// their `Same` forms (the polygon family is apart).
pub open spec fn shape_family_op(op: u16) -> bool {
    ||| 0x30 <= op <= 0x34
    ||| 0x38 <= op <= 0x3C
    ||| 0x40 <= op <= 0x44
    ||| 0x48 <= op <= 0x4C
    ||| 0x50 <= op <= 0x54
    ||| 0x58 <= op <= 0x5C
    ||| 0x60 <= op <= 0x64
    ||| 0x68 <= op <= 0x6C
}

/// The payload of such an opcode: the rectangle of the explicit forms
/// and the two angles of the arc forms.
pub open spec fn shape_payload(op: u16) -> int {
    (if op % 16 <= 4 { 8int } else { 0int }) + (if op / 16 == 6 { 4int } else { 0int })
}

/// The verb `op` of shape family `family` on `rect` (angles `start`,
/// `arc` for the arc family) turns canvas `c0` into `c1`.
pub open spec fn family_verb_done(
    family: int,
    c0: Canvas,
    c1: Canvas,
    st: &PictState,
    op: u16,
    rect: RectI32,
    start: i32,
    arc: i32,
) -> bool {
    if family == 0x30 {
        rect_verb_done(c0, c1, st, op, rect)
    } else if family == 0x40 {
        rrect_verb_done(c0, c1, st, op, rect)
    } else if family == 0x50 {
        oval_verb_done(c0, c1, st, op, rect)
    } else {
        arc_verb_done(c0, c1, st, op, rect, start, arc)
    }
}

/// What the shape opcode `op` whose payload starts at `p` does: the
/// explicit forms record their rectangle as the family's last one and
/// draw it; the `Same` forms draw the family's last rectangle, or
/// nothing when there is none, and keep the state.
pub open spec fn shape_op_effect(op: u16, s: Seq<u8>, p: int, c0: Canvas, c1: Canvas, st0: PictState, st1: PictState) -> bool {
    let family = op / 16 * 16;
    if op % 16 <= 4 {
        let rect = rect_at(s, p);
        &&& st1 == (if family == 0x30 {
            PictState { last_rect: Some(rect), ..st0 }
        } else if family == 0x40 {
            PictState { last_rrect: Some(rect), ..st0 }
        } else if family == 0x50 {
            PictState { last_oval: Some(rect), ..st0 }
        } else {
            PictState { last_arc_rect: Some(rect), ..st0 }
        })
        &&& family_verb_done(family, c0, c1, &st1, op, rect, be_i16(s, p + 8) as i32, be_i16(s, p + 10) as i32)
    } else {
        let last = if family == 0x30 {
            st0.last_rect
        } else if family == 0x40 {
            st0.last_rrect
        } else if family == 0x50 {
            st0.last_oval
        } else {
            st0.last_arc_rect
        };
        &&& st1 == st0
        &&& match last {
            Some(rect) => family_verb_done(
                family,
                c0,
                c1,
                &st1,
                (op - 8) as u16,
                rect,
                be_i16(s, p) as i32,
                be_i16(s, p + 2) as i32,
            ),
            None => c1 == c0,
        }
    }
}

/// The shape-verb opcodes shared by v1 and v2: the rectangle, rounded
/// rectangle, oval and arc families and their `Same` forms, and the
/// polygon family. Returns `false` when `opcode` is none of them.
fn dispatch_shape_opcode(r: &mut Reader<'_>, opcode: u16, canvas: &mut Canvas, state: &mut PictState) -> (res: Result<bool>)
    requires
        old(r).pos <= old(r).bytes@.len(),
        old(canvas).wf(),
        old(state).wf(),
    ensures
        step_kept(*old(r), *final(r), *old(canvas), *final(canvas), *final(state)),
        final(canvas).clip == old(canvas).clip,
        res is Ok ==> old(r).pos <= final(r).pos <= final(r).bytes@.len(),
        res matches Ok(handled) ==> (handled <==> (0x30 <= opcode <= 0x34 || 0x38 <= opcode <= 0x3C || 0x40 <= opcode <= 0x44
            || 0x48 <= opcode <= 0x4C || 0x50 <= opcode <= 0x54 || 0x58 <= opcode <= 0x5C || 0x60 <= opcode <= 0x64 || 0x68
            <= opcode <= 0x6C || 0x70 <= opcode <= 0x74)),
        !(0x30 <= opcode <= 0x34 || 0x38 <= opcode <= 0x3C || 0x40 <= opcode <= 0x44 || 0x48 <= opcode <= 0x4C || 0x50
            <= opcode <= 0x54 || 0x58 <= opcode <= 0x5C || 0x60 <= opcode <= 0x64 || 0x68 <= opcode <= 0x6C || 0x70
            <= opcode <= 0x74) ==> res == Ok::<bool, PictError>(false) && final(r).pos == old(r).pos
            && *final(canvas) == *old(canvas) && *final(state) == *old(state),
        shape_family_op(opcode) ==> ({
            &&& (res is Ok <==> old(r).rem() >= shape_payload(opcode))
            &&& res is Ok ==> {
                &&& res == Ok::<bool, PictError>(true)
                &&& final(r).pos == old(r).pos + shape_payload(opcode)
                &&& shape_op_effect(
                    opcode,
                    old(r).bytes@,
                    old(r).pos as int,
                    *old(canvas),
                    *final(canvas),
                    *old(state),
                    *final(state),
                )
            }
        }),
        (0x70 <= opcode <= 0x74) ==> ({
            &&& (res is Ok <==> poly_ok(old(r).bytes@, old(r).pos as int))
            &&& res is Ok ==> {
                &&& res == Ok::<bool, PictError>(true)
                &&& final(r).pos == old(r).pos + poly_len(old(r).bytes@, old(r).pos as int)
                &&& *final(state) == *old(state)
                &&& exists|v: &[(i32, i32)]|
                    #![trigger poly_verts_at(old(r).bytes@, old(r).pos as int, *old(state), v@)]
                    poly_verts_at(old(r).bytes@, old(r).pos as int, *old(state), v@) && poly_done(
                        opcode,
                        *old(canvas),
                        *final(canvas),
                        *old(state),
                        v,
                    )
            }
        }),
{
    let family = opcode / 16 * 16;
    let low = opcode % 16;
    if 0x30 <= opcode && opcode <= 0x64 && low <= 4 {
        let rect = read_rect_op(r)?;
        let (start, arc) = if family == 0x60 {
            let s0 = r.read_i16()? as i32;
            let a0 = r.read_i16()? as i32;
            (s0, a0)
        } else {
            (0, 0)
        };
        if family == 0x30 {
            state.last_rect = Some(rect);
        } else if family == 0x40 {
            state.last_rrect = Some(rect);
        } else if family == 0x50 {
            state.last_oval = Some(rect);
        } else {
            state.last_arc_rect = Some(rect);
        }
        shape_verb(canvas, state, family, opcode, rect, start, arc);
        return Ok(true);
    }
    if 0x38 <= opcode && opcode <= 0x6C && 8 <= low && low <= 12 {
        let (start, arc) = if family == 0x60 {
            let s0 = r.read_i16()? as i32;
            let a0 = r.read_i16()? as i32;
            (s0, a0)
        } else {
            (0, 0)
        };
        let last = if family == 0x30 {
            state.last_rect
        } else if family == 0x40 {
            state.last_rrect
        } else if family == 0x50 {
            state.last_oval
        } else {
            state.last_arc_rect
        };
        if let Some(rect) = last {
            shape_verb(canvas, state, family, opcode - 8, rect, start, arc);
        }
        return Ok(true);
    }
    if 0x70 <= opcode && opcode <= 0x74 {
        let ghost r0 = *r;
        let ghost c0 = *canvas;
        let verts = read_polygon(r, state)?;
        let vs = verts.as_slice();
        apply_poly_verb(canvas, state, opcode, vs);
        proof {
            assert(poly_verts_at(r0.bytes@, r0.pos as int, *state, vs@));
            assert(poly_done(opcode, c0, *canvas, *state, vs));
        }
        return Ok(true);
    }
    Ok(false)
}


/// The opcodes of both versions that only set drawing or text state
/// (or record a `ShortComment`), each with a fixed-size payload.
pub open spec fn state_opcode(op: u16) -> bool {
    ||| op == OP_NOP
    ||| op == OP_BK_PAT
    ||| op == OP_PN_PAT
    ||| op == OP_FILL_PAT
    ||| op == OP_TX_FONT
    ||| op == OP_TX_FACE
    ||| op == OP_TX_MODE
    ||| op == OP_SP_EXTRA
    ||| op == OP_PN_SIZE
    ||| op == OP_PN_MODE
    ||| op == OP_OV_SIZE
    ||| op == OP_ORIGIN
    ||| op == OP_TX_SIZE
    ||| op == OP_FG_COLOR
    ||| op == OP_BG_COLOR
    ||| op == OP_TX_RATIO
    ||| op == OP_SHORT_COMMENT
}

/// The state opcodes of a v2 picture: those of both versions, the RGB
/// colours, and the fixed-size highlight and text-state opcodes.
pub open spec fn v2_state_opcode(op: u16) -> bool {
    ||| state_opcode(op)
    ||| op == OP_RGB_FG_COL
    ||| op == OP_RGB_BK_COL
    ||| op == OP_PN_LOC_HFRAC
    ||| op == OP_CH_EXTRA
    ||| op == OP_HILITE_MODE
    ||| op == OP_HILITE_COLOR
    ||| op == OP_DEF_HILITE
    ||| op == OP_OP_COLOR
}

/// `b` is the state `a` after the state opcode `op` whose payload
/// starts at `p` in `s`.
pub open spec fn state_op_effect(op: u16, s: Seq<u8>, p: int, a: PictState, b: PictState) -> bool {
    if op == OP_BK_PAT {
        b == (PictState { back_pat: b.back_pat, back_pix_pat: None, ..a }) && b.back_pat.0@ == s.subrange(p, p + 8)
    } else if op == OP_PN_PAT {
        b == (PictState { pen_pat: b.pen_pat, pen_pix_pat: None, ..a }) && b.pen_pat.0@ == s.subrange(p, p + 8)
    } else if op == OP_FILL_PAT {
        b == (PictState { fill_pat: b.fill_pat, fill_pix_pat: None, ..a }) && b.fill_pat.0@ == s.subrange(p, p + 8)
    } else if op == OP_PN_SIZE {
        b == (PictState { pen_size: (be_i16(s, p + 2) as i32, be_i16(s, p) as i32), ..a })
    } else if op == OP_OV_SIZE {
        b == (PictState { oval_size: (be_i16(s, p + 2) as i32, be_i16(s, p) as i32), ..a })
    } else if op == OP_ORIGIN {
        b == (PictState {
            origin: (a.origin.0.wrapping_add(be_i16(s, p) as i32), a.origin.1.wrapping_add(be_i16(s, p + 2) as i32)),
            ..a
        })
    } else if op == OP_FG_COLOR {
        b == (PictState { fg: pascal_colour_spec(be_u32(s, p) as u32), ..a })
    } else if op == OP_BG_COLOR {
        b == (PictState { bg: pascal_colour_spec(be_u32(s, p) as u32), ..a })
    } else if op == OP_RGB_FG_COL {
        b == (PictState { fg: rgb16_at(s, p), ..a })
    } else if op == OP_RGB_BK_COL {
        b == (PictState { bg: rgb16_at(s, p), ..a })
    } else if op == OP_SHORT_COMMENT {
        &&& b == (PictState { comments: b.comments, ..a })
        &&& b.comments@.len() == a.comments@.len() + 1
        &&& b.comments@.drop_last() == a.comments@
        &&& comment_matches(b.comments@.last(), s, p, false)
    } else {
        b == (PictState { text_state: text_state_after(op, s, p, a.text_state), ..a })
    }
}

/// Whether `op` is one of [`state_opcode`].
fn is_state_opcode(op: u16) -> (b: bool)
    ensures
        b == state_opcode(op),
{
    op == OP_NOP || op == OP_BK_PAT || op == OP_PN_PAT || op == OP_FILL_PAT || op == OP_TX_FONT || op == OP_TX_FACE
        || op == OP_TX_MODE || op == OP_SP_EXTRA || op == OP_PN_SIZE || op == OP_PN_MODE || op == OP_OV_SIZE || op
        == OP_ORIGIN || op == OP_TX_SIZE || op == OP_FG_COLOR || op == OP_BG_COLOR || op == OP_TX_RATIO || op
        == OP_SHORT_COMMENT
}

/// Whether `op` is one of [`v2_state_opcode`].
fn is_v2_state_opcode(op: u16) -> (b: bool)
    ensures
        b == v2_state_opcode(op),
{
    is_state_opcode(op) || op == OP_RGB_FG_COL || op == OP_RGB_BK_COL || op == OP_PN_LOC_HFRAC || op == OP_CH_EXTRA
        || op == OP_HILITE_MODE || op == OP_HILITE_COLOR || op == OP_DEF_HILITE || op == OP_OP_COLOR
}

/// Read the payload of a state opcode and update the drawing or text
/// state (or record the `ShortComment`).
#[verifier::rlimit(40)]
fn apply_state_op(r: &mut Reader<'_>, opcode: u16, state: &mut PictState) -> (res: Result<()>)
    requires
        old(r).pos <= old(r).bytes@.len(),
        old(state).wf(),
        v2_state_opcode(opcode),
    ensures
        final(r).bytes@ == old(r).bytes@,
        final(state).wf(),
        ({
            let n = v2_fixed_size(opcode)->0;
            &&& (res is Ok <==> old(r).rem() >= n)
            &&& res is Ok ==> final(r).pos == old(r).pos + n && state_op_effect(
                opcode,
                old(r).bytes@,
                old(r).pos as int,
                *old(state),
                *final(state),
            )
            &&& res matches Err(e) ==> e is InvalidData
        }),
{
    if opcode == OP_BK_PAT {
        state.back_pat = read_pattern(r)?;
        state.back_pix_pat = None;
        return Ok(());
    }
    if opcode == OP_PN_PAT {
        state.pen_pat = read_pattern(r)?;
        state.pen_pix_pat = None;
        return Ok(());
    }
    if opcode == OP_FILL_PAT {
        state.fill_pat = read_pattern(r)?;
        state.fill_pix_pat = None;
        return Ok(());
    }
    if opcode == OP_TX_FONT {
        state.text_state.tx_font = r.read_i16()?;
        return Ok(());
    }
    if opcode == OP_TX_FACE {
        state.text_state.tx_face = PictTextFace::from_bits(r.read_u8()?);
        return Ok(());
    }
    if opcode == OP_TX_MODE {
        state.text_state.tx_mode = r.read_i16()?;
        return Ok(());
    }
    if opcode == OP_SP_EXTRA {
        state.text_state.sp_extra = Fixed(r.read_i32()?);
        return Ok(());
    }
    if opcode == OP_PN_SIZE {
        let v = r.read_i16()?;
        let h = r.read_i16()?;
        state.pen_size = (h as i32, v as i32);
        return Ok(());
    }
    if opcode == OP_PN_MODE {
        state.text_state.pn_mode = r.read_i16()?;
        return Ok(());
    }
    if opcode == OP_OV_SIZE {
        let v = r.read_i16()?;
        let h = r.read_i16()?;
        state.oval_size = (h as i32, v as i32);
        return Ok(());
    }
    if opcode == OP_ORIGIN {
        let dh = r.read_i16()?;
        let dv = r.read_i16()?;
        state.origin = (state.origin.0.wrapping_add(dh as i32), state.origin.1.wrapping_add(dv as i32));
        return Ok(());
    }
    if opcode == OP_TX_SIZE {
        state.text_state.tx_size = r.read_i16()?;
        return Ok(());
    }
    if opcode == OP_FG_COLOR {
        state.fg = Rgba::from_pascal_colour(r.read_u32()?);
        return Ok(());
    }
    if opcode == OP_BG_COLOR {
        state.bg = Rgba::from_pascal_colour(r.read_u32()?);
        return Ok(());
    }
    if opcode == OP_TX_RATIO {
        let numer_v = r.read_i16()?;
        let numer_h = r.read_i16()?;
        let denom_v = r.read_i16()?;
        let denom_h = r.read_i16()?;
        state.text_state.tx_ratio = TextRatio { numer_v, numer_h, denom_v, denom_h };
        return Ok(());
    }
    if opcode == OP_SHORT_COMMENT {
        let ghost before = state.comments@;
        let kind = r.read_u16()?;
        state.comments.push(PictComment::short(kind));
        proof {
            assert(state.comments@.drop_last() =~= before);
            assert(state.comments@.last().data@ =~= Seq::<u8>::empty());
        }
        return Ok(());
    }
    if opcode == OP_RGB_FG_COL {
        let (rr, gg, bb) = read_rgb16(r)?;
        state.fg = Rgba::from_rgb16(rr, gg, bb);
        return Ok(());
    }
    if opcode == OP_RGB_BK_COL {
        let (rr, gg, bb) = read_rgb16(r)?;
        state.bg = Rgba::from_rgb16(rr, gg, bb);
        return Ok(());
    }
    if opcode == OP_PN_LOC_HFRAC {
        state.text_state.pn_loc_h_frac = r.read_i16()?;
        return Ok(());
    }
    if opcode == OP_CH_EXTRA {
        state.text_state.ch_extra = r.read_i16()?;
        return Ok(());
    }
    if opcode == OP_HILITE_MODE {
        state.text_state.hilite_mode_flag = true;
        return Ok(());
    }
    if opcode == OP_HILITE_COLOR {
        let (rr, gg, bb) = read_rgb16(r)?;
        state.text_state.hilite_color = Some(Rgba::from_rgb16(rr, gg, bb));
        state.text_state.hilite_default = false;
        return Ok(());
    }
    if opcode == OP_DEF_HILITE {
        state.text_state.hilite_default = true;
        state.text_state.hilite_color = None;
        return Ok(());
    }
    if opcode == OP_OP_COLOR {
        let (rr, gg, bb) = read_rgb16(r)?;
        state.text_state.op_color = Some(Rgba::from_rgb16(rr, gg, bb));
        return Ok(());
    }
    Ok(())
}

/// Read a `LongComment` (kind, size, data) and record it.
fn read_long_comment(r: &mut Reader<'_>, state: &mut PictState) -> (res: Result<()>)
    requires
        old(r).pos <= old(r).bytes@.len(),
    ensures
        final(r).bytes@ == old(r).bytes@,
        final(r).pos <= final(r).bytes@.len(),
        ({
            let s = old(r).bytes@;
            let p = old(r).pos as int;
            &&& (res is Ok <==> (old(r).rem() >= 4 && old(r).rem() >= 4 + be_u16(s, p + 2)))
            &&& res matches Err(e) ==> e is InvalidData && *final(state) == *old(state)
            &&& res is Ok ==> {
                &&& final(r).pos == p + 4 + be_u16(s, p + 2)
                &&& *final(state) == (PictState { comments: final(state).comments, ..*old(state) })
                &&& final(state).comments@.len() == old(state).comments@.len() + 1
                &&& final(state).comments@.drop_last() == old(state).comments@
                &&& comment_matches(final(state).comments@.last(), s, p, true)
            }
        }),
{
    let ghost r0 = *r;
    let ghost before = state.comments@;
    let kind = r.read_u16()?;
    let n = r.read_u16()? as usize;
    let data = read_raw(r, n)?;
    state.comments.push(PictComment::long(kind, data));
    proof {
        let p = r0.pos as int;
        assert(state.comments@.drop_last() =~= before);
        assert(r0.bytes@.subrange(p + 4, p + 4 + n) =~= r0.bytes@.subrange(p + 4, r0.bytes@.len() as int).subrange(
            0,
            n as int,
        ));
    }
    Ok(())
}

/// The least `dataLength` of the sized text-state records.
pub open spec fn text_record_min(op: u16) -> int {
    if op == OP_FONT_NAME {
        5
    } else if op == OP_LINE_JUSTIFY {
        8
    } else {
        4
    }
}

/// The bytes a sized text-state record with `dataLength` `n` takes:
/// `fontName` counts its length word in `n`, the others do not.
pub open spec fn text_record_len(op: u16, n: int) -> int {
    if op == OP_FONT_NAME {
        n
    } else {
        2 + n
    }
}

/// Whether the sized text-state record of `op` at `p` in `s` is whole:
/// its length word, at least its fixed fields, all of its data, and
/// for `fontName` a name that fits.
pub open spec fn text_record_ok(op: u16, s: Seq<u8>, p: int) -> bool {
    let n = be_u16(s, p);
    &&& p + 2 <= s.len()
    &&& n >= text_record_min(op)
    &&& p + text_record_len(op, n) <= s.len()
    &&& op == OP_FONT_NAME ==> s[p + 4] <= n - 5
}

/// `b` is the state `a` after the whole sized text-state record of `op`
/// at `p` in `s`.
pub open spec fn text_record_effect(op: u16, s: Seq<u8>, p: int, a: PictState, b: PictState) -> bool {
    &&& b == (PictState { text_state: b.text_state, ..a })
    &&& op != OP_FONT_NAME ==> b.text_state == text_state_after(op, s, p, a.text_state)
    &&& op == OP_FONT_NAME ==> {
        &&& b.text_state == (PictTextState { font_name: b.text_state.font_name, ..a.text_state })
        &&& b.text_state.font_name matches Some(f) && f.old_font_id == be_i16(s, p + 2) && f.name@ == s.subrange(
            p + 5,
            p + 5 + s[p + 4],
        )
    }
}

/// Read one of the sized v2 text-state records (`fontName`,
/// `lineJustify`, `glyphState`: a `dataLength` word, then the data)
/// into the text state.
#[verifier::rlimit(40)]
fn apply_text_record(r: &mut Reader<'_>, opcode: u16, state: &mut PictState) -> (res: Result<()>)
    requires
        old(r).pos <= old(r).bytes@.len(),
        opcode == OP_FONT_NAME || opcode == OP_LINE_JUSTIFY || opcode == OP_GLYPH_STATE,
    ensures
        final(r).bytes@ == old(r).bytes@,
        final(r).pos <= final(r).bytes@.len(),
        res is Ok <==> text_record_ok(opcode, old(r).bytes@, old(r).pos as int),
        res matches Err(e) ==> e is InvalidData && *final(state) == *old(state),
        res is Ok ==> final(r).pos == old(r).pos + text_record_len(opcode, be_u16(old(r).bytes@, old(r).pos as int))
            && text_record_effect(opcode, old(r).bytes@, old(r).pos as int, *old(state), *final(state)),
{
    let ghost r0 = *r;
    if opcode == OP_FONT_NAME {
        let n = r.read_u16()? as usize;
        if n < 5 {
            return Err(PictError::invalid("fontName dataLength smaller than the 5-byte minimum"));
        }
        let old_font_id = r.read_i16()?;
        let name_len = r.read_u8()? as usize;
        let remaining = n - 5;
        if name_len > remaining {
            return Err(PictError::invalid("fontName nameLength exceeds the remaining bytes"));
        }
        let name = read_raw(r, name_len)?;
        proof {
            let p = r0.pos as int;
            assert(r0.bytes@.subrange(p + 5, p + 5 + name_len) =~= r0.bytes@.subrange(
                p + 5,
                r0.bytes@.len() as int,
            ).subrange(0, name_len as int));
        }
        r.skip(remaining - name_len)?;
        state.text_state.font_name = Some(PictFontName::new(old_font_id, name));
        return Ok(());
    }
    if opcode == OP_LINE_JUSTIFY {
        let n = r.read_u16()? as usize;
        if n < 8 {
            return Err(PictError::invalid("lineJustify dataLength smaller than the 8-byte payload"));
        }
        let inter = Fixed(r.read_i32()?);
        let extra = Fixed(r.read_i32()?);
        r.skip(n - 8)?;
        state.text_state.line_justify = Some(PictLineJustify { inter_char_spacing: inter, total_extra: extra });
        return Ok(());
    }
    if opcode == OP_GLYPH_STATE {
        let n = r.read_u16()? as usize;
        if n < 4 {
            return Err(PictError::invalid("glyphState dataLength smaller than the 4-byte payload"));
        }
        let outline_preferred = r.read_u8()? != 0;
        let preserve_glyph = r.read_u8()? != 0;
        let fractional_widths = r.read_u8()? != 0;
        let scaling_disabled = r.read_u8()? != 0;
        r.skip(n - 4)?;
        state.text_state.glyph_state = Some(PictGlyphState {
            outline_preferred,
            preserve_glyph,
            fractional_widths,
            scaling_disabled,
        });
        return Ok(());
    }
    Ok(())
}

/// The opcodes whose number and meaning v1 and v2 share (state,
/// pattern, line, text, shape, region, raster and comment opcodes,
/// `NOP` and `OpEndPic`). Returns `Some(false)` for `OpEndPic`,
/// `Some(true)` for another shared opcode, `None` (consuming nothing)
/// for any other opcode.
#[verifier::rlimit(60)]
fn dispatch_common(r: &mut Reader<'_>, opcode: u16, canvas: &mut Canvas, state: &mut PictState) -> (res: Result<Option<bool>>)
    requires
        old(r).pos <= old(r).bytes@.len(),
        old(canvas).wf(),
        old(state).wf(),
    ensures
        step_kept(*old(r), *final(r), *old(canvas), *final(canvas), *final(state)),
        res is Ok ==> old(r).pos <= final(r).pos <= final(r).bytes@.len(),
        opcode == OP_OP_END_PIC ==> res == Ok::<Option<bool>, PictError>(Some(false)),
        res == Ok::<Option<bool>, PictError>(Some(false)) ==> opcode == OP_OP_END_PIC,
        res == Ok::<Option<bool>, PictError>(None) ==> final(r).pos == old(r).pos,
        opcode == OP_OP_END_PIC ==> *final(canvas) == *old(canvas) && final(r).pos == old(r).pos && *final(state)
            == *old(state),
        (OP_LONG_TEXT <= opcode <= OP_DHDV_TEXT) ==> ({
            let s = old(r).bytes@;
            let p = old(r).pos as int;
            &&& (res is Ok <==> (old(r).rem() >= text_op_prefix(opcode) + 1 && old(r).rem() >= text_op_len(
                opcode,
                s,
                p,
            )))
            &&& res is Ok ==> {
                &&& res == Ok::<Option<bool>, PictError>(Some(true))
                &&& final(r).pos == p + text_op_len(opcode, s, p)
                &&& *final(canvas) == *old(canvas)
                &&& text_op_effect(opcode, s, p, *old(state), *final(state))
            }
        }),
        (reserved_skip_spec(opcode) is Some || opcode == OP_COMPRESSED_QUICKTIME || opcode
            == OP_UNCOMPRESSED_QUICKTIME) ==> (res == Ok::<Option<bool>, PictError>(None) && *final(canvas)
            == *old(canvas) && *final(state) == *old(state)),
        shape_family_op(opcode) ==> ({
            &&& (res is Ok <==> old(r).rem() >= shape_payload(opcode))
            &&& res is Ok ==> {
                &&& res == Ok::<Option<bool>, PictError>(Some(true))
                &&& final(r).pos == old(r).pos + shape_payload(opcode)
                &&& shape_op_effect(
                    opcode,
                    old(r).bytes@,
                    old(r).pos as int,
                    *old(canvas),
                    *final(canvas),
                    *old(state),
                    *final(state),
                )
            }
        }),
        opcode == OP_LONG_COMMENT ==> ({
            let s = old(r).bytes@;
            let p = old(r).pos as int;
            &&& (res is Ok <==> (old(r).rem() >= 4 && old(r).rem() >= 4 + be_u16(s, p + 2)))
            &&& res is Ok ==> {
                &&& res == Ok::<Option<bool>, PictError>(Some(true))
                &&& final(r).pos == p + 4 + be_u16(s, p + 2)
                &&& *final(canvas) == *old(canvas)
                &&& *final(state) == (PictState { comments: final(state).comments, ..*old(state) })
                &&& final(state).comments@.len() == old(state).comments@.len() + 1
                &&& final(state).comments@.drop_last() == old(state).comments@
                &&& comment_matches(final(state).comments@.last(), s, p, true)
            }
        }),
        ((v2_state_opcode(opcode) && !state_opcode(opcode)) || opcode == OP_FONT_NAME || opcode == OP_LINE_JUSTIFY
            || opcode == OP_GLYPH_STATE) ==> (res == Ok::<Option<bool>, PictError>(None)
            && *final(canvas) == *old(canvas) && *final(state) == *old(state)),
        state_opcode(opcode) ==> ({
            let n = v2_fixed_size(opcode)->0;
            &&& (res is Ok <==> old(r).rem() >= n)
            &&& res is Ok ==> {
                &&& res == Ok::<Option<bool>, PictError>(Some(true))
                &&& final(r).pos == old(r).pos + n
                &&& *final(canvas) == *old(canvas)
                &&& state_op_effect(opcode, old(r).bytes@, old(r).pos as int, *old(state), *final(state))
            }
        }),
        forall|pk: PackType, w: u32, h: u32, data: Seq<u8>|
            #![trigger record_at(old(r).bytes@, old(r).pos as int, pk, w, h, data)]
            (opcode == OP_DIRECT_BITS_RECT && record_at(old(r).bytes@, old(r).pos as int, pk, w, h, data) && plain_target(
                *old(canvas),
                *old(state),
                w,
                h,
            )) ==> (res == Ok::<Option<bool>, PictError>(Some(true)) && final(r).pos == old(r).pos + record_len(
                pk,
                w,
                h,
                data,
            ) && final(canvas).data@ == opaque_rgba(data) && final(canvas).dirty && final(canvas).clip is None),
        forall|w: u32, h: u32, idx: Seq<u8>, pal: Seq<[u8; 4]>, ps: IndexedPixelSize|
            #![trigger indexed_record_at(old(r).bytes@, old(r).pos as int, w, h, idx, pal, ps)]
            (opcode == OP_BITS_RECT && indexed_record_at(old(r).bytes@, old(r).pos as int, w, h, idx, pal, ps)
                && plain_target(*old(canvas), *old(state), w, h)) ==> (res == Ok::<Option<bool>, PictError>(Some(true))
                && final(r).pos == old(r).pos + indexed_record(w, h, idx, pal, ps).len() && final(canvas).dirty
                && final(canvas).clip is None && forall|x: int, y: int|
                0 <= x < w && 0 <= y < h ==> #[trigger] rgba_at(final(canvas).data@, w as int, x, y) == palette_pixel(
                    idx,
                    pal,
                    ps,
                    w as int,
                    x,
                    y,
                )),
        stated_raster_op(opcode) ==> raster_step(
            opcode,
            old(r).bytes@,
            old(r).pos as int,
            *old(canvas),
            *final(canvas),
            *old(state),
            *final(state),
            res is Ok,
            final(r).pos as int,
        ) && (res is Ok ==> res == Ok::<Option<bool>, PictError>(Some(true))),
        (OP_LINE <= opcode <= OP_SHORT_LINE_FROM) ==> ({
            &&& (res is Ok <==> old(r).rem() >= line_payload(opcode))
            &&& res is Ok ==> {
                &&& res == Ok::<Option<bool>, PictError>(Some(true))
                &&& final(r).pos == old(r).pos + line_payload(opcode)
                &&& line_op_effect(opcode, old(r).bytes@, old(r).pos as int, *old(canvas), *final(canvas), *old(state), *final(state))
            }
        }),
        (OP_FRAME_RGN <= opcode <= OP_FILL_RGN || opcode == OP_CLIP_RGN) ==> ({
            let t = old(r).rest();
            &&& (res is Ok <==> rgn_ok(t))
            &&& res is Ok ==> {
                &&& res == Ok::<Option<bool>, PictError>(Some(true))
                &&& final(r).pos == old(r).pos + be_u16(t, 0)
                &&& *final(state) == *old(state)
                &&& exists|g: Region|
                    #![trigger region_read(old(r).bytes@, old(r).pos as int, g)]
                    region_read(old(r).bytes@, old(r).pos as int, g) && (if opcode == OP_CLIP_RGN {
                        clip_installed(*old(canvas), *final(canvas), *old(state), g)
                    } else {
                        region_paint_done(opcode, *old(canvas), *final(canvas), *old(state), g)
                    })
            }
        }),
        (OP_BK_PIX_PAT <= opcode <= OP_FILL_PIX_PAT) ==> (res == Ok::<Option<bool>, PictError>(None) && final(r).pos
            == old(r).pos && *final(canvas) == *old(canvas) && *final(state) == *old(state)),
        (0x70 <= opcode <= 0x74) ==> ({
            &&& (res is Ok <==> poly_ok(old(r).bytes@, old(r).pos as int))
            &&& res is Ok ==> {
                &&& res == Ok::<Option<bool>, PictError>(Some(true))
                &&& final(r).pos == old(r).pos + poly_len(old(r).bytes@, old(r).pos as int)
                &&& *final(state) == *old(state)
                &&& exists|v: &[(i32, i32)]|
                    #![trigger poly_verts_at(old(r).bytes@, old(r).pos as int, *old(state), v@)]
                    poly_verts_at(old(r).bytes@, old(r).pos as int, *old(state), v@) && poly_done(
                        opcode,
                        *old(canvas),
                        *final(canvas),
                        *old(state),
                        v,
                    )
            }
        }),
{
    if is_state_opcode(opcode) {
        apply_state_op(r, opcode, state)?;
        return Ok(Some(true));
    }
    if opcode == OP_OP_END_PIC {
        return Ok(Some(false));
    }
    if opcode == OP_CLIP_RGN {
        let ghost r0 = *r;
        let rgn = parse_region(r)?;
        install_clip_region(canvas, state, &rgn);
        proof {
            assert(r0.rest() =~= r0.bytes@.subrange(r0.pos as int, r0.bytes@.len() as int));
            assert(region_read(r0.bytes@, r0.pos as int, rgn));
        }
        return Ok(Some(true));
    }
    if opcode == OP_LINE {
        let v0 = r.read_i16()? as i32;
        let h0 = r.read_i16()? as i32;
        let v1 = r.read_i16()? as i32;
        let h1 = r.read_i16()? as i32;
        draw_line(canvas, state, h0, v0, h1, v1);
        state.pen = (h1, v1);
        return Ok(Some(true));
    }
    if opcode == OP_LINE_FROM {
        let v = r.read_i16()? as i32;
        let h = r.read_i16()? as i32;
        draw_line(canvas, state, state.pen.0, state.pen.1, h, v);
        state.pen = (h, v);
        return Ok(Some(true));
    }
    if opcode == OP_SHORT_LINE {
        let v = r.read_i16()? as i32;
        let h = r.read_i16()? as i32;
        let dh = r.read_u8()?;
        let dv = r.read_u8()?;
        let nx = h.wrapping_add(signed_byte(dh));
        let ny = v.wrapping_add(signed_byte(dv));
        draw_line(canvas, state, h, v, nx, ny);
        state.pen = (nx, ny);
        return Ok(Some(true));
    }
    if opcode == OP_SHORT_LINE_FROM {
        let dh = r.read_u8()?;
        let dv = r.read_u8()?;
        let nx = state.pen.0.wrapping_add(signed_byte(dh));
        let ny = state.pen.1.wrapping_add(signed_byte(dv));
        draw_line(canvas, state, state.pen.0, state.pen.1, nx, ny);
        state.pen = (nx, ny);
        return Ok(Some(true));
    }
    if OP_LONG_TEXT <= opcode && opcode <= OP_DHDV_TEXT {
        apply_text_op(r, opcode, state)?;
        return Ok(Some(true));
    }
    if OP_FRAME_RGN <= opcode && opcode <= OP_FILL_RGN {
        let ghost r0 = *r;
        let ghost c0 = *canvas;
        let rgn = parse_region(r)?;
        proof {
            assert(r0.rest() =~= r0.bytes@.subrange(r0.pos as int, r0.bytes@.len() as int));
            assert(region_read(r0.bytes@, r0.pos as int, rgn));
        }
        let verb = opcode % 16;
        if verb == 0 {
            paint_region_outline(canvas, state, &rgn);
        } else if verb == 3 {
            invert_region(canvas, state, &rgn);
        } else {
            let slot = if verb == 1 {
                &state.pen_pix_pat
            } else if verb == 2 {
                &state.back_pix_pat
            } else {
                &state.fill_pix_pat
            };
            match slot {
                Some(pp) => paint_region_pix_pattern(canvas, state, &rgn, pp),
                None => {
                    if verb == 1 {
                        paint_region_pattern(canvas, state, &rgn, state.pen_pat, state.fg, state.bg);
                    } else if verb == 2 {
                        paint_region_pattern(canvas, state, &rgn, state.back_pat, state.bg, state.fg);
                    } else {
                        paint_region_pattern(canvas, state, &rgn, state.fill_pat, state.fg, state.bg);
                    }
                },
            }
        }
        return Ok(Some(true));
    }
    if opcode == OP_BITS_RECT || opcode == OP_BITS_RGN {
        let ghost r0 = *r;
        let ghost c0 = *canvas;
        let decoded = decode_bits_rect_v2(r, opcode == OP_BITS_RGN);
        proof {
            assert forall|w: u32, h: u32, idx: Seq<u8>, pal: Seq<[u8; 4]>, ps: IndexedPixelSize|
                #![trigger indexed_record_at(r0.bytes@, r0.pos as int, w, h, idx, pal, ps)]
                opcode == OP_BITS_RECT && indexed_record_at(r0.bytes@, r0.pos as int, w, h, idx, pal, ps) && plain_target(
                    c0,
                    *state,
                    w,
                    h,
                ) implies (decoded matches Ok((img, dst, g)) && g is None && r.pos == r0.pos + indexed_record(
                    w,
                    h,
                    idx,
                    pal,
                    ps,
                ).len() && plain_copy(c0, *state, img, dst) && forall|x: int, y: int|
                    0 <= x < w && 0 <= y < h ==> #[trigger] rgba_at(img.data@, w as int, x, y) == palette_pixel(
                        idx,
                        pal,
                        ps,
                        w as int,
                        x,
                        y,
                    )) by {
                lemma_indexed_record_reads_back(r0.bytes@, r0.pos as int, w, h, idx, pal, ps);
                let (img, dst, g) = decoded->Ok_0;
                assert(crate::decoder::bits_record_decoded(r0.bytes@, r0.pos as int, false, false, img, dst, None, r.pos as int));
            }
        }
        let (img, dst, rgn) = decoded?;
        let ghost cb = *canvas;
        blit_subimage_with_rgn(canvas, state, &img, &dst, rgn.as_ref());
        proof {
            let packed = opcode == OP_PACK_BITS_RECT || opcode == OP_PACK_BITS_RGN;
            let wr = opcode == OP_BITS_RGN || opcode == OP_PACK_BITS_RGN;
            assert(bits_record_decoded(r0.bytes@, r0.pos as int, packed, wr, img, dst, rgn, r.pos as int));
            assert(raster_blit_done(cb, *canvas, *state, img, dst, rgn));
        }
        return Ok(Some(true));
    }
    if opcode == OP_PACK_BITS_RECT {
        let ghost r0 = *r;
        let (img, dst) = decode_pack_bits_rect(r)?;
        let ghost cb = *canvas;
        blit_subimage(canvas, state, &img, &dst);
        proof {
            assert(bits_record_decoded(r0.bytes@, r0.pos as int, true, false, img, dst, None, r.pos as int));
        }
        return Ok(Some(true));
    }
    if opcode == OP_PACK_BITS_RGN {
        let ghost r0 = *r;
        let (img, dst, rgn) = decode_pack_bits_rgn(r)?;
        let ghost cb = *canvas;
        blit_subimage_with_rgn(canvas, state, &img, &dst, Some(&rgn));
        proof {
            assert(bits_record_decoded(r0.bytes@, r0.pos as int, true, true, img, dst, Some(rgn), r.pos as int));
            assert(raster_blit_done(cb, *canvas, *state, img, dst, Some(rgn)));
        }
        return Ok(Some(true));
    }
    if opcode == OP_DIRECT_BITS_RECT || opcode == OP_DIRECT_BITS_RGN {
        let ghost r0 = *r;
        let ghost c0 = *canvas;
        let decoded = decode_direct_bits(r, opcode == OP_DIRECT_BITS_RGN);
        proof {
            assert forall|pk: PackType, w: u32, h: u32, data: Seq<u8>|
                #![trigger record_at(r0.bytes@, r0.pos as int, pk, w, h, data)]
                opcode == OP_DIRECT_BITS_RECT && record_at(r0.bytes@, r0.pos as int, pk, w, h, data) && plain_target(
                    c0,
                    *state,
                    w,
                    h,
                ) implies (decoded matches Ok((img, dst, g)) && g is None && r.pos == r0.pos + record_len(pk, w, h, data)
                && img.data@ == opaque_rgba(data) && plain_copy(c0, *state, img, dst)) by {
                lemma_record_decodes(r0.bytes@, r0.pos as int, pk, w, h, data);
                let (img, dst, g) = decoded->Ok_0;
                assert forall|x: int, y: int| 0 <= x < w && 0 <= y < h implies #[trigger] rgba_at(
                    img.data@,
                    w as int,
                    x,
                    y,
                ) == rgba_at(opaque_rgba(data), w as int, x, y) by {
                    lemma_opaque_cells(data, w as int, h as int, x, y);
                }
                lemma_cells_equal(img.data@, opaque_rgba(data), w as int, h as int);
            }
        }
        let (img, dst, rgn) = decoded?;
        let ghost cb = *canvas;
        blit_subimage_with_rgn(canvas, state, &img, &dst, rgn.as_ref());
        proof {
            if opcode == OP_DIRECT_BITS_RECT && direct_record_ok(r0.bytes@, r0.pos as int) {
                assert(direct_record_decoded(r0.bytes@, r0.pos as int, img, dst, r.pos as int));
                assert(raster_blit_done(cb, *canvas, *state, img, dst, None));
            }
            if opcode == OP_DIRECT_BITS_RGN && direct_rgn_record_ok(r0.bytes@, r0.pos as int) {
                let g = rgn->0;
                assert(direct_rgn_record_decoded(r0.bytes@, r0.pos as int, img, dst, g, r.pos as int));
                assert(raster_blit_done(cb, *canvas, *state, img, dst, Some(g)));
            }
        }
        return Ok(Some(true));
    }
    if opcode == OP_LONG_COMMENT {
        read_long_comment(r, state)?;
        return Ok(Some(true));
    }
    let handled = dispatch_shape_opcode(r, opcode, canvas, state)?;
    if handled {
        Ok(Some(true))
    } else {
        Ok(None)
    }
}

/// A byte read as a two's-complement signed delta.
fn signed_byte(b: u8) -> (v: i32)
    ensures
        v == (if b < 128 { b as int } else { b as int - 256 }),
{
    if b < 128 { b as i32 } else { b as i32 - 256 }
}


/// One v2 opcode: the shared opcodes, then the v2-only ones (colour
/// patterns, RGB colours, highlight and `OpColor`, `fontName`,
/// `lineJustify`, `glyphState`, the QuickTime opcodes, whose payload is
/// walked past), then the reserved opcodes of known size. `Ok(false)`
/// exactly for `OpEndPic`; any other opcode is `Unsupported`.
#[verifier::rlimit(60)]
fn dispatch_v2_opcode(r: &mut Reader<'_>, opcode: u16, canvas: &mut Canvas, state: &mut PictState) -> (res: Result<bool>)
    requires
        old(r).pos <= old(r).bytes@.len(),
        old(canvas).wf(),
        old(state).wf(),
    ensures
        step_kept(*old(r), *final(r), *old(canvas), *final(canvas), *final(state)),
        res is Ok ==> old(r).pos <= final(r).pos <= final(r).bytes@.len(),
        opcode == OP_OP_END_PIC ==> res == Ok::<bool, PictError>(false),
        res == Ok::<bool, PictError>(false) ==> opcode == OP_OP_END_PIC,
        opcode == OP_OP_END_PIC ==> *final(canvas) == *old(canvas) && final(r).pos == old(r).pos && *final(state)
            == *old(state),
        (OP_LONG_TEXT <= opcode <= OP_DHDV_TEXT) ==> ({
            let s = old(r).bytes@;
            let p = old(r).pos as int;
            &&& (res is Ok <==> (old(r).rem() >= text_op_prefix(opcode) + 1 && old(r).rem() >= text_op_len(
                opcode,
                s,
                p,
            )))
            &&& res is Ok ==> {
                &&& res == Ok::<bool, PictError>(true)
                &&& final(r).pos == p + text_op_len(opcode, s, p)
                &&& *final(canvas) == *old(canvas)
                &&& text_op_effect(opcode, s, p, *old(state), *final(state))
            }
        }),
        (opcode == OP_COMPRESSED_QUICKTIME || opcode == OP_UNCOMPRESSED_QUICKTIME) ==> ({
            let n = be_u32(old(r).bytes@, old(r).pos as int);
            &&& (res is Ok <==> (old(r).rem() >= 4 && old(r).rem() >= 4 + n))
            &&& res is Ok ==> (res == Ok::<bool, PictError>(true) && final(r).pos == old(r).pos + 4 + n
                && *final(canvas) == *old(canvas) && *final(state) == *old(state))
        }),
        reserved_skip_spec(opcode) matches Some(ReservedV2Skip::Fixed(n)) ==> ((res is Ok <==> old(r).rem() >= n)
            && (res is Ok ==> (res == Ok::<bool, PictError>(true) && final(r).pos == old(r).pos + n
            && *final(canvas) == *old(canvas) && *final(state) == *old(state)))),
        shape_family_op(opcode) ==> ({
            &&& (res is Ok <==> old(r).rem() >= shape_payload(opcode))
            &&& res is Ok ==> {
                &&& res == Ok::<bool, PictError>(true)
                &&& final(r).pos == old(r).pos + shape_payload(opcode)
                &&& shape_op_effect(
                    opcode,
                    old(r).bytes@,
                    old(r).pos as int,
                    *old(canvas),
                    *final(canvas),
                    *old(state),
                    *final(state),
                )
            }
        }),
        opcode == OP_LONG_COMMENT ==> ({
            let s = old(r).bytes@;
            let p = old(r).pos as int;
            &&& (res is Ok <==> (old(r).rem() >= 4 && old(r).rem() >= 4 + be_u16(s, p + 2)))
            &&& res is Ok ==> {
                &&& res == Ok::<bool, PictError>(true)
                &&& final(r).pos == p + 4 + be_u16(s, p + 2)
                &&& *final(canvas) == *old(canvas)
                &&& *final(state) == (PictState { comments: final(state).comments, ..*old(state) })
                &&& final(state).comments@.len() == old(state).comments@.len() + 1
                &&& final(state).comments@.drop_last() == old(state).comments@
                &&& comment_matches(final(state).comments@.last(), s, p, true)
            }
        }),
        (opcode == OP_FONT_NAME || opcode == OP_LINE_JUSTIFY || opcode == OP_GLYPH_STATE) ==> ({
            let s = old(r).bytes@;
            let p = old(r).pos as int;
            &&& (res is Ok <==> text_record_ok(opcode, s, p))
            &&& res is Ok ==> {
                &&& res == Ok::<bool, PictError>(true)
                &&& final(r).pos == p + text_record_len(opcode, be_u16(s, p))
                &&& *final(canvas) == *old(canvas)
                &&& text_record_effect(opcode, s, p, *old(state), *final(state))
            }
        }),
        v2_state_opcode(opcode) ==> ({
            let n = v2_fixed_size(opcode)->0;
            &&& (res is Ok <==> old(r).rem() >= n)
            &&& res is Ok ==> {
                &&& res == Ok::<bool, PictError>(true)
                &&& final(r).pos == old(r).pos + n
                &&& *final(canvas) == *old(canvas)
                &&& state_op_effect(opcode, old(r).bytes@, old(r).pos as int, *old(state), *final(state))
            }
        }),
        forall|pk: PackType, w: u32, h: u32, data: Seq<u8>|
            #![trigger record_at(old(r).bytes@, old(r).pos as int, pk, w, h, data)]
            (opcode == OP_DIRECT_BITS_RECT && record_at(old(r).bytes@, old(r).pos as int, pk, w, h, data) && plain_target(
                *old(canvas),
                *old(state),
                w,
                h,
            )) ==> (res == Ok::<bool, PictError>(true) && final(r).pos == old(r).pos + record_len(pk, w, h, data)
                && final(canvas).data@ == opaque_rgba(data) && final(canvas).dirty && final(canvas).clip is None),
        forall|w: u32, h: u32, idx: Seq<u8>, pal: Seq<[u8; 4]>, ps: IndexedPixelSize|
            #![trigger indexed_record_at(old(r).bytes@, old(r).pos as int, w, h, idx, pal, ps)]
            (opcode == OP_BITS_RECT && indexed_record_at(old(r).bytes@, old(r).pos as int, w, h, idx, pal, ps)
                && plain_target(*old(canvas), *old(state), w, h)) ==> (res == Ok::<bool, PictError>(true) && final(r).pos
                == old(r).pos + indexed_record(w, h, idx, pal, ps).len() && final(canvas).dirty && final(canvas).clip is None
                && forall|x: int, y: int|
                0 <= x < w && 0 <= y < h ==> #[trigger] rgba_at(final(canvas).data@, w as int, x, y) == palette_pixel(
                    idx,
                    pal,
                    ps,
                    w as int,
                    x,
                    y,
                )),
        (OP_BK_PIX_PAT <= opcode <= OP_FILL_PIX_PAT) ==> ({
            &&& (res is Ok <==> pix_pat_ok(old(r).bytes@, old(r).pos as int))
            &&& res is Ok ==> {
                &&& res == Ok::<bool, PictError>(true)
                &&& *final(canvas) == *old(canvas)
                &&& final(r).pos == pix_pat_end(old(r).bytes@, old(r).pos as int)
                &&& exists|pat1: Pattern, colour: Option<PixPattern>|
                    #![trigger pix_pat_decoded(old(r).bytes@, old(r).pos as int, pat1, colour, final(r).pos as int)]
                    pix_pat_decoded(old(r).bytes@, old(r).pos as int, pat1, colour, final(r).pos as int) && pix_pat_set(
                        opcode,
                        *old(state),
                        *final(state),
                        pat1,
                        colour,
                    )
            }
        }),
        (OP_LINE <= opcode <= OP_SHORT_LINE_FROM) ==> ({
            &&& (res is Ok <==> old(r).rem() >= line_payload(opcode))
            &&& res is Ok ==> {
                &&& res == Ok::<bool, PictError>(true)
                &&& final(r).pos == old(r).pos + line_payload(opcode)
                &&& line_op_effect(opcode, old(r).bytes@, old(r).pos as int, *old(canvas), *final(canvas), *old(state), *final(state))
            }
        }),
        (OP_FRAME_RGN <= opcode <= OP_FILL_RGN || opcode == OP_CLIP_RGN) ==> ({
            let t = old(r).rest();
            &&& (res is Ok <==> rgn_ok(t))
            &&& res is Ok ==> {
                &&& res == Ok::<bool, PictError>(true)
                &&& final(r).pos == old(r).pos + be_u16(t, 0)
                &&& *final(state) == *old(state)
                &&& exists|g: Region|
                    #![trigger region_read(old(r).bytes@, old(r).pos as int, g)]
                    region_read(old(r).bytes@, old(r).pos as int, g) && (if opcode == OP_CLIP_RGN {
                        clip_installed(*old(canvas), *final(canvas), *old(state), g)
                    } else {
                        region_paint_done(opcode, *old(canvas), *final(canvas), *old(state), g)
                    })
            }
        }),
        (0x70 <= opcode <= 0x74) ==> ({
            &&& (res is Ok <==> poly_ok(old(r).bytes@, old(r).pos as int))
            &&& res is Ok ==> {
                &&& res == Ok::<bool, PictError>(true)
                &&& final(r).pos == old(r).pos + poly_len(old(r).bytes@, old(r).pos as int)
                &&& *final(state) == *old(state)
                &&& exists|v: &[(i32, i32)]|
                    #![trigger poly_verts_at(old(r).bytes@, old(r).pos as int, *old(state), v@)]
                    poly_verts_at(old(r).bytes@, old(r).pos as int, *old(state), v@) && poly_done(
                        opcode,
                        *old(canvas),
                        *final(canvas),
                        *old(state),
                        v,
                    )
            }
        }),
        stated_raster_op(opcode) ==> raster_step(
            opcode,
            old(r).bytes@,
            old(r).pos as int,
            *old(canvas),
            *final(canvas),
            *old(state),
            *final(state),
            res is Ok,
            final(r).pos as int,
        ) && (res is Ok ==> res == Ok::<bool, PictError>(true)),
{
    match dispatch_common(r, opcode, canvas, state)? {
        Some(cont) => {
            return Ok(cont);
        },
        None => {},
    }
    if is_v2_state_opcode(opcode) {
        apply_state_op(r, opcode, state)?;
        return Ok(true);
    }
    if opcode == OP_BK_PIX_PAT || opcode == OP_PN_PIX_PAT || opcode == OP_FILL_PIX_PAT {
        let ghost r0 = *r;
        let ghost st0 = *state;
        let (pat1, colour) = decode_pix_pat(r)?;
        proof {
            assert(pix_pat_decoded(r0.bytes@, r0.pos as int, pat1, colour, r.pos as int));
        }
        if opcode == OP_PN_PIX_PAT {
            state.pen_pat = pat1;
            state.pen_pix_pat = colour;
        } else if opcode == OP_BK_PIX_PAT {
            state.back_pat = pat1;
            state.back_pix_pat = colour;
        } else {
            state.fill_pat = pat1;
            state.fill_pix_pat = colour;
        }
        return Ok(true);
    }
    if opcode == OP_FONT_NAME || opcode == OP_LINE_JUSTIFY || opcode == OP_GLYPH_STATE {
        apply_text_record(r, opcode, state)?;
        return Ok(true);
    }
    if opcode == OP_COMPRESSED_QUICKTIME || opcode == OP_UNCOMPRESSED_QUICKTIME {
        let payload_size = r.read_u32()? as usize;
        r.skip(payload_size)?;
        return Ok(true);
    }
    match reserved_v2_payload_size(opcode) {
        Some(skip) => {
            skip_reserved_v2_payload(r, skip)?;
            Ok(true)
        },
        None => Err(PictError::Unsupported(crate::error::message_with_hex("unknown / unsupported v2 opcode ", opcode))),
    }
}

/// One v1 opcode: the shared opcodes, the `Same` polygon and region
/// forms (no operand, nothing drawn); `Ok(false)` exactly for
/// `OpEndPic` (`0xFF`); any other opcode is `Unsupported`.
fn dispatch_v1_opcode(r: &mut Reader<'_>, opcode: u16, canvas: &mut Canvas, state: &mut PictState) -> (res: Result<bool>)
    requires
        old(r).pos <= old(r).bytes@.len(),
        old(canvas).wf(),
        old(state).wf(),
        opcode <= 0xFF,
    ensures
        step_kept(*old(r), *final(r), *old(canvas), *final(canvas), *final(state)),
        res is Ok ==> old(r).pos <= final(r).pos <= final(r).bytes@.len(),
        opcode == 0xFF ==> res == Ok::<bool, PictError>(false),
        res == Ok::<bool, PictError>(false) ==> opcode == 0xFF,
        opcode == 0xFF ==> *final(canvas) == *old(canvas) && final(r).pos == old(r).pos && *final(state) == *old(
            state,
        ),
        ((0x78 <= opcode <= 0x7C) || (0x88 <= opcode <= 0x8C)) ==> (res == Ok::<bool, PictError>(true) && final(r).pos
            == old(r).pos && *final(canvas) == *old(canvas) && *final(state) == *old(state)),
        (OP_LONG_TEXT <= opcode <= OP_DHDV_TEXT) ==> ({
            let s = old(r).bytes@;
            let p = old(r).pos as int;
            &&& (res is Ok <==> (old(r).rem() >= text_op_prefix(opcode) + 1 && old(r).rem() >= text_op_len(
                opcode,
                s,
                p,
            )))
            &&& res is Ok ==> {
                &&& res == Ok::<bool, PictError>(true)
                &&& final(r).pos == p + text_op_len(opcode, s, p)
                &&& *final(canvas) == *old(canvas)
                &&& text_op_effect(opcode, s, p, *old(state), *final(state))
            }
        }),
        shape_family_op(opcode) ==> ({
            &&& (res is Ok <==> old(r).rem() >= shape_payload(opcode))
            &&& res is Ok ==> {
                &&& res == Ok::<bool, PictError>(true)
                &&& final(r).pos == old(r).pos + shape_payload(opcode)
                &&& shape_op_effect(
                    opcode,
                    old(r).bytes@,
                    old(r).pos as int,
                    *old(canvas),
                    *final(canvas),
                    *old(state),
                    *final(state),
                )
            }
        }),
        opcode == OP_LONG_COMMENT ==> ({
            let s = old(r).bytes@;
            let p = old(r).pos as int;
            &&& (res is Ok <==> (old(r).rem() >= 4 && old(r).rem() >= 4 + be_u16(s, p + 2)))
            &&& res is Ok ==> {
                &&& res == Ok::<bool, PictError>(true)
                &&& final(r).pos == p + 4 + be_u16(s, p + 2)
                &&& *final(canvas) == *old(canvas)
                &&& *final(state) == (PictState { comments: final(state).comments, ..*old(state) })
                &&& final(state).comments@.len() == old(state).comments@.len() + 1
                &&& final(state).comments@.drop_last() == old(state).comments@
                &&& comment_matches(final(state).comments@.last(), s, p, true)
            }
        }),
        state_opcode(opcode) ==> ({
            let n = v2_fixed_size(opcode)->0;
            &&& (res is Ok <==> old(r).rem() >= n)
            &&& res is Ok ==> {
                &&& res == Ok::<bool, PictError>(true)
                &&& final(r).pos == old(r).pos + n
                &&& *final(canvas) == *old(canvas)
                &&& state_op_effect(opcode, old(r).bytes@, old(r).pos as int, *old(state), *final(state))
            }
        }),
        forall|pk: PackType, w: u32, h: u32, data: Seq<u8>|
            #![trigger record_at(old(r).bytes@, old(r).pos as int, pk, w, h, data)]
            (opcode == OP_DIRECT_BITS_RECT && record_at(old(r).bytes@, old(r).pos as int, pk, w, h, data) && plain_target(
                *old(canvas),
                *old(state),
                w,
                h,
            )) ==> (res == Ok::<bool, PictError>(true) && final(r).pos == old(r).pos + record_len(pk, w, h, data)
                && final(canvas).data@ == opaque_rgba(data) && final(canvas).dirty && final(canvas).clip is None),
        (OP_LINE <= opcode <= OP_SHORT_LINE_FROM) ==> ({
            &&& (res is Ok <==> old(r).rem() >= line_payload(opcode))
            &&& res is Ok ==> {
                &&& res == Ok::<bool, PictError>(true)
                &&& final(r).pos == old(r).pos + line_payload(opcode)
                &&& line_op_effect(opcode, old(r).bytes@, old(r).pos as int, *old(canvas), *final(canvas), *old(state), *final(state))
            }
        }),
        (OP_FRAME_RGN <= opcode <= OP_FILL_RGN || opcode == OP_CLIP_RGN) ==> ({
            let t = old(r).rest();
            &&& (res is Ok <==> rgn_ok(t))
            &&& res is Ok ==> {
                &&& res == Ok::<bool, PictError>(true)
                &&& final(r).pos == old(r).pos + be_u16(t, 0)
                &&& *final(state) == *old(state)
                &&& exists|g: Region|
                    #![trigger region_read(old(r).bytes@, old(r).pos as int, g)]
                    region_read(old(r).bytes@, old(r).pos as int, g) && (if opcode == OP_CLIP_RGN {
                        clip_installed(*old(canvas), *final(canvas), *old(state), g)
                    } else {
                        region_paint_done(opcode, *old(canvas), *final(canvas), *old(state), g)
                    })
            }
        }),
        (0x70 <= opcode <= 0x74) ==> ({
            &&& (res is Ok <==> poly_ok(old(r).bytes@, old(r).pos as int))
            &&& res is Ok ==> {
                &&& res == Ok::<bool, PictError>(true)
                &&& final(r).pos == old(r).pos + poly_len(old(r).bytes@, old(r).pos as int)
                &&& *final(state) == *old(state)
                &&& exists|v: &[(i32, i32)]|
                    #![trigger poly_verts_at(old(r).bytes@, old(r).pos as int, *old(state), v@)]
                    poly_verts_at(old(r).bytes@, old(r).pos as int, *old(state), v@) && poly_done(
                        opcode,
                        *old(canvas),
                        *final(canvas),
                        *old(state),
                        v,
                    )
            }
        }),
        stated_raster_op(opcode) ==> raster_step(
            opcode,
            old(r).bytes@,
            old(r).pos as int,
            *old(canvas),
            *final(canvas),
            *old(state),
            *final(state),
            res is Ok,
            final(r).pos as int,
        ) && (res is Ok ==> res == Ok::<bool, PictError>(true)),
{
    if (0x78 <= opcode && opcode <= 0x7C) || (0x88 <= opcode && opcode <= 0x8C) {
        return Ok(true);
    }
    match dispatch_common(r, opcode, canvas, state)? {
        Some(cont) => Ok(cont),
        None => Err(PictError::Unsupported(crate::error::message_with_hex("unknown / unsupported v1 opcode ", opcode))),
    }
}

/// The canvas as the decoded image, or `NoRaster` when nothing was
/// drawn.
fn finalise_canvas(canvas: Canvas, state: PictState) -> (res: Result<PictImage>)
    requires
        canvas.wf(),
    ensures
        res is Err <==> !canvas.dirty,
        res matches Err(e) ==> e is NoRaster,
        res matches Ok(img) ==> img.width == canvas.width && img.height == canvas.height && img.data@ == canvas.data@
            && img.pixel_format == PictPixelFormat::Rgba && img.pts is None && img.header is None && img.comments@ == state.comments@,
{
    if !canvas.dirty {
        return Err(PictError::NoRaster);
    }
    Ok(PictImage {
        width: canvas.width,
        height: canvas.height,
        pixel_format: PictPixelFormat::Rgba,
        data: canvas.data,
        pts: None,
        header: None,
        comments: state.comments,
        text_state: state.text_state,
    })
}

/// The opcode at `b`: a word in a v2 stream, a byte in a v1 stream.
pub open spec fn op_at(s: Seq<u8>, b: int, v2: bool) -> u16 {
    if v2 {
        be_u16(s, b) as u16
    } else {
        s[b] as u16
    }
}

/// The payload size of opcode `op` whose payload starts at `q`, for the
/// opcodes whose step the reader's contract states in full: state and
/// text-state opcodes, comments, text opcodes, the rectangle, rounded
/// rectangle, oval and arc verbs, lines, region verbs and `ClipRgn`,
/// polygon verbs, the raster opcodes (when their record decodes), and
/// (v2) the colour patterns, the sized text records, the QuickTime
/// records and the fixed-size reserved opcodes, (v1) the operand-free
/// polygon and region repeats. `None` for any
/// other.
pub open spec fn known_op_len(s: Seq<u8>, op: u16, q: int, v2: bool) -> Option<int> {
    if op == OP_LONG_COMMENT {
        Some(4 + be_u16(s, q + 2))
    } else if OP_LONG_TEXT <= op <= OP_DHDV_TEXT {
        Some(text_op_len(op, s, q))
    } else if shape_family_op(op) {
        Some(shape_payload(op))
    } else if (if v2 { v2_state_opcode(op) } else { state_opcode(op) }) {
        v2_fixed_size(op)
    } else if OP_LINE <= op <= OP_SHORT_LINE_FROM {
        Some(line_payload(op))
    } else if OP_FRAME_RGN <= op <= OP_FILL_RGN || op == OP_CLIP_RGN {
        if rgn_ok(s.subrange(q, s.len() as int)) {
            Some(be_u16(s, q))
        } else {
            None
        }
    } else if 0x70 <= op <= 0x74 {
        if poly_ok(s, q) {
            Some(poly_len(s, q))
        } else {
            None
        }
    } else if stated_raster_op(op) {
        if raster_ok(op, s, q) {
            Some(raster_end(op, s, q) - q)
        } else {
            None
        }
    } else if v2 && OP_BK_PIX_PAT <= op <= OP_FILL_PIX_PAT {
        if pix_pat_ok(s, q) {
            Some(pix_pat_end(s, q) - q)
        } else {
            None
        }
    } else if !v2 {
        if (0x78 <= op <= 0x7C) || (0x88 <= op <= 0x8C) {
            Some(0)
        } else {
            None
        }
    } else if op == OP_FONT_NAME || op == OP_LINE_JUSTIFY || op == OP_GLYPH_STATE {
        if text_record_ok(op, s, q) {
            Some(text_record_len(op, be_u16(s, q)))
        } else {
            None
        }
    } else if op == OP_COMPRESSED_QUICKTIME || op == OP_UNCOMPRESSED_QUICKTIME {
        Some(4 + be_u32(s, q))
    } else {
        match reserved_skip_spec(op) {
            Some(ReservedV2Skip::Fixed(n)) => Some(n as int),
            _ => None,
        }
    }
}

/// The opcodes of a walk of [`known_walk`] that may change the canvas:
/// shape verbs, lines, region verbs and `ClipRgn`, polygon verbs and
/// the raster opcodes.
pub open spec fn canvas_op(op: u16) -> bool {
    ||| shape_family_op(op)
    ||| OP_LINE <= op <= OP_SHORT_LINE_FROM
    ||| OP_FRAME_RGN <= op <= OP_FILL_RGN
    ||| op == OP_CLIP_RGN
    ||| 0x70 <= op <= 0x74
    ||| stated_raster_op(op)
}

/// The opcode walk from `a` (word-aligned opcodes when `v2`) when every
/// opcode up to an `OpEndPic` is one of [`known_op_len`]'s and is all
/// there: the comments it records (payload position, `LongComment`)
/// and whether it holds an opcode that may change the canvas
/// ([`canvas_op`]). `None` for any other walk.
pub open spec fn known_walk(s: Seq<u8>, a: int, v2: bool) -> Option<(Seq<(int, bool)>, bool)>
    decreases s.len() - a,
{
    let b = if v2 { word_aligned(a) } else { a };
    let w = if v2 { 2int } else { 1int };
    if a < 0 || b + w > s.len() {
        None
    } else if op_at(s, b, v2) == OP_OP_END_PIC {
        Some((Seq::empty(), false))
    } else {
        let op = op_at(s, b, v2);
        match known_op_len(s, op, b + w, v2) {
            Some(n) => if 0 <= n && b + w + n <= s.len() {
                match known_walk(s, b + w + n, v2) {
                    Some((cs, d)) => Some(
                        (
                            if op == OP_SHORT_COMMENT {
                                seq![(b + w, false)] + cs
                            } else if op == OP_LONG_COMMENT {
                                seq![(b + w, true)] + cs
                            } else {
                                cs
                            },
                            d || canvas_op(op),
                        ),
                    ),
                    None => None,
                }
            } else {
                None
            },
            None => None,
        }
    }
}

/// `b` is `a` followed by `k` comments, the first `k` of `cs`.
pub open spec fn comments_taken(s: Seq<u8>, cs: Seq<(int, bool)>, k: int, a: Seq<PictComment>, b: Seq<PictComment>) -> bool {
    &&& b.len() == a.len() + k
    &&& b.subrange(0, a.len() as int) == a
    &&& forall|i: int| 0 <= i < k ==> #[trigger] comment_matches(b[a.len() + i], s, cs[i].0, cs[i].1)
}

/// Where a walk of [`known_walk`] from `p0` stands at `pos`, having
/// recorded `k` of its comments and drawn (`drew`) or not.
pub open spec fn walk_progress(
    s: Seq<u8>,
    p0: int,
    v2: bool,
    pos: int,
    k: int,
    drew: bool,
    c0: Canvas,
    cv: Canvas,
    s0: PictState,
    st: PictState,
) -> bool {
    match known_walk(s, p0, v2) {
        Some((cs0, d0)) => match known_walk(s, pos, v2) {
            Some((cs, d)) => {
                &&& 0 <= k <= cs0.len()
                &&& cs == cs0.subrange(k, cs0.len() as int)
                &&& d0 == (drew || d)
                &&& !drew ==> cv == c0
                &&& comments_taken(s, cs0, k, s0.comments@, st.comments@)
            },
            None => false,
        },
        None => true,
    }
}

/// The walk of [`known_walk`] from `p0` is over: all its comments are
/// recorded, and the canvas is untouched unless it held a shape verb.
pub open spec fn walk_done(s: Seq<u8>, p0: int, v2: bool, k: int, drew: bool, c0: Canvas, cv: Canvas, s0: PictState, st: PictState) -> bool {
    match known_walk(s, p0, v2) {
        Some((cs0, d0)) => {
            &&& k == cs0.len()
            &&& d0 == drew
            &&& !drew ==> cv == c0
            &&& comments_taken(s, cs0, k, s0.comments@, st.comments@)
        },
        None => true,
    }
}

/// What the reader makes of a stream of [`known_walk`]: a picture whose
/// comments are the state's followed by the walk's, or `NoRaster`, and
/// `NoRaster` when the walk holds no shape verb and nothing was drawn
/// before.
pub open spec fn known_walk_result(
    s: Seq<u8>,
    p0: int,
    v2: bool,
    canvas: Canvas,
    state: PictState,
    res: Result<PictImage>,
) -> bool {
    walk_outcome(s, p0, v2, canvas.dirty, state.comments@, res)
}

/// The same, given whether the canvas was drawn on before and the
/// comments recorded before.
pub open spec fn walk_outcome(
    s: Seq<u8>,
    p0: int,
    v2: bool,
    dirty: bool,
    comments: Seq<PictComment>,
    res: Result<PictImage>,
) -> bool {
    match known_walk(s, p0, v2) {
        Some((cs, d)) => {
            &&& (res is Ok || (res matches Err(e) && e is NoRaster))
            &&& (!d && !dirty) ==> (res matches Err(e) && e is NoRaster)
            &&& res matches Ok(img) ==> comments_taken(s, cs, cs.len() as int, comments, img.comments@)
        },
        None => true,
    }
}

/// What one opcode `op` of a walk of [`known_walk`], whose payload
/// starts at `q`, does to the canvas and the state (as the reader's
/// contract states it for each such opcode).
pub open spec fn known_step(
    op: u16,
    s: Seq<u8>,
    q: int,
    v2: bool,
    c0: Canvas,
    st0: PictState,
    c1: Canvas,
    st1: PictState,
) -> bool {
    if op == OP_LONG_COMMENT {
        &&& c1 == c0
        &&& st1 == (PictState { comments: st1.comments, ..st0 })
        &&& st1.comments@.len() == st0.comments@.len() + 1
        &&& st1.comments@.drop_last() == st0.comments@
        &&& comment_matches(st1.comments@.last(), s, q, true)
    } else if OP_LONG_TEXT <= op <= OP_DHDV_TEXT {
        c1 == c0 && text_op_effect(op, s, q, st0, st1)
    } else if shape_family_op(op) {
        shape_op_effect(op, s, q, c0, c1, st0, st1)
    } else if (if v2 { v2_state_opcode(op) } else { state_opcode(op) }) {
        c1 == c0 && state_op_effect(op, s, q, st0, st1)
    } else if OP_LINE <= op <= OP_SHORT_LINE_FROM {
        line_op_effect(op, s, q, c0, c1, st0, st1)
    } else if OP_FRAME_RGN <= op <= OP_FILL_RGN || op == OP_CLIP_RGN {
        &&& st1 == st0
        &&& exists|g: Region|
            #![trigger region_read(s, q, g)]
            region_read(s, q, g) && (if op == OP_CLIP_RGN {
                clip_installed(c0, c1, st0, g)
            } else {
                region_paint_done(op, c0, c1, st0, g)
            })
    } else if 0x70 <= op <= 0x74 {
        &&& st1 == st0
        &&& exists|v: &[(i32, i32)]|
            #![trigger poly_verts_at(s, q, st0, v@)]
            poly_verts_at(s, q, st0, v@) && poly_done(op, c0, c1, st0, v)
    } else if stated_raster_op(op) {
        st1 == st0 && raster_effect(op, s, q, c0, c1, st0, raster_end(op, s, q))
    } else if v2 && OP_BK_PIX_PAT <= op <= OP_FILL_PIX_PAT {
        &&& c1 == c0
        &&& exists|pat1: Pattern, colour: Option<PixPattern>|
            #![trigger pix_pat_decoded(s, q, pat1, colour, pix_pat_end(s, q))]
            pix_pat_decoded(s, q, pat1, colour, pix_pat_end(s, q)) && pix_pat_set(op, st0, st1, pat1, colour)
    } else if v2 && (op == OP_FONT_NAME || op == OP_LINE_JUSTIFY || op == OP_GLYPH_STATE) {
        c1 == c0 && text_record_effect(op, s, q, st0, st1)
    } else {
        c1 == c0 && st1 == st0
    }
}

/// Where the opcode read at `a` starts (word-aligned in a v2 stream).
pub open spec fn op_start(a: int, v2: bool) -> int {
    if v2 {
        word_aligned(a)
    } else {
        a
    }
}

/// Where the payload of the opcode read at `a` starts.
pub open spec fn payload_start(a: int, v2: bool) -> int {
    op_start(a, v2) + if v2 {
        2int
    } else {
        1int
    }
}

/// The walk of [`known_walk`] from `a`, started on canvas `c0` and
/// state `st0`, can end (at its `OpEndPic`) on canvas `c1` and state
/// `st1`: each opcode on the way does its [`known_step`].
pub open spec fn walk_reaches(
    s: Seq<u8>,
    a: int,
    v2: bool,
    c0: Canvas,
    st0: PictState,
    c1: Canvas,
    st1: PictState,
) -> bool
    decreases s.len() - a,
{
    let b = op_start(a, v2);
    let q = payload_start(a, v2);
    if a < 0 || q > s.len() {
        false
    } else if op_at(s, b, v2) == OP_OP_END_PIC {
        c1 == c0 && st1 == st0
    } else {
        match known_op_len(s, op_at(s, b, v2), q, v2) {
            Some(n) => if 0 <= n && q + n <= s.len() {
                exists|cm: Canvas, sm: PictState|
                    #![trigger known_step(op_at(s, op_start(a, v2), v2), s, payload_start(a, v2), v2, c0, st0, cm, sm)]
                    known_step(op_at(s, b, v2), s, q, v2, c0, st0, cm, sm) && walk_reaches(s, q + n, v2, cm, sm, c1, st1)
            } else {
                false
            },
            None => false,
        }
    }
}

/// One stated step of a walk: what the rest of the walk reaches from
/// after the step, the whole walk reaches from its start.
proof fn lemma_walk_step(
    s: Seq<u8>,
    before: int,
    at: int,
    v2: bool,
    n: int,
    cv0: Canvas,
    st0: PictState,
    cv: Canvas,
    st: PictState,
    p0: int,
    c0: Canvas,
    s0: PictState,
    next: int,
)
    requires
        0 <= before,
        at == (if v2 { word_aligned(before) } else { before }),
        at + (if v2 { 2int } else { 1int }) <= s.len(),
        op_at(s, at, v2) != OP_OP_END_PIC,
        known_op_len(s, op_at(s, at, v2), at + (if v2 { 2int } else { 1int }), v2) == Some(n),
        0 <= n,
        next == at + (if v2 { 2int } else { 1int }) + n,
        next <= s.len(),
        known_step(op_at(s, at, v2), s, at + (if v2 { 2int } else { 1int }), v2, cv0, st0, cv, st),
        forall|cc: Canvas, ss: PictState|
            #[trigger] walk_reaches(s, before, v2, cv0, st0, cc, ss) ==> walk_reaches(s, p0, v2, c0, s0, cc, ss),
    ensures
        forall|cc: Canvas, ss: PictState|
            #[trigger] walk_reaches(s, next, v2, cv, st, cc, ss) ==> walk_reaches(s, p0, v2, c0, s0, cc, ss),
{
    assert(op_start(before, v2) == at);
    assert(payload_start(before, v2) + n == next);
    assert forall|cc: Canvas, ss: PictState|
        #[trigger] walk_reaches(s, next, v2, cv, st, cc, ss) implies walk_reaches(s, p0, v2, c0, s0, cc, ss) by {
        assert(known_step(
            op_at(s, op_start(before, v2), v2),
            s,
            payload_start(before, v2),
            v2,
            cv0,
            st0,
            cv,
            st,
        ) && walk_reaches(s, next, v2, cv, st, cc, ss));
        assert(walk_reaches(s, before, v2, cv0, st0, cc, ss));
    }
}

/// What the reader makes of a walk of [`known_walk`] from `p0` on
/// canvas `c0` and state `st0`: the image of the canvas the walk
/// reaches, or `NoRaster` exactly when that canvas was never drawn on.
pub open spec fn walk_image(s: Seq<u8>, p0: int, v2: bool, c0: Canvas, st0: PictState, res: Result<PictImage>) -> bool {
    match known_walk(s, p0, v2) {
        Some(_) => exists|c: Canvas, st: PictState|
            #![trigger walk_reaches(s, p0, v2, c0, st0, c, st)]
            {
                &&& walk_reaches(s, p0, v2, c0, st0, c, st)
                &&& (res is Ok <==> c.dirty)
                &&& res matches Ok(img) ==> img.data@ == c.data@
            },
        None => true,
    }
}

/// What the reader makes of the opcodes of the picture record `b`: the
/// image [`walk_image`] gives from white paper the size of the frame
/// and the initial state.
pub open spec fn record_image(b: Seq<u8>, res: Result<PictImage>) -> bool {
    match opcodes_start(b) {
        Some((q, v2)) => (frame_width(b, 0) > 0 && frame_height(b, 0) > 0 && frame_width(b, 0) * frame_height(b, 0)
            * 4 <= MAX_RASTER_BYTES) ==> exists|c0: Canvas, st0: PictState|
            #![trigger c0.is_blank(frame_width(b, 0) as int, frame_height(b, 0) as int, white_spec()), st0.is_initial((be_i16(b, 4) as i32, be_i16(b, 2) as i32))]
            {
                &&& c0.is_blank(frame_width(b, 0) as int, frame_height(b, 0) as int, white_spec())
                &&& st0.is_initial((be_i16(b, 4) as i32, be_i16(b, 2) as i32))
                &&& walk_image(b, q, v2, c0, st0, res)
            },
        None => true,
    }
}

/// Where the opcodes of the picture record `b` start, and whether they
/// are v2 opcodes: after the v1 stanza `11 01`, or after the v2 stanza
/// and the 26 bytes of `HeaderOp`.
pub open spec fn opcodes_start(b: Seq<u8>) -> Option<(int, bool)> {
    if b.len() >= 12 && be_u16(b, 10) == 0x1101 {
        Some((12, false))
    } else if b.len() >= 40 && be_u16(b, 10) == 0x0011 && be_u16(b, 12) == 0x02FF && be_u16(b, 14) == OP_HEADER_OP {
        Some((40, true))
    } else {
        None
    }
}

/// What the reader makes of the opcodes of the picture record `b` on
/// its fresh canvas: see [`walk_outcome`].
pub open spec fn record_walk_outcome(b: Seq<u8>, res: Result<PictImage>) -> bool {
    match opcodes_start(b) {
        Some((q, v2)) => (frame_width(b, 0) > 0 && frame_height(b, 0) > 0 && frame_width(b, 0) * frame_height(
            b,
            0,
        ) * 4 <= MAX_RASTER_BYTES) ==> walk_outcome(b, q, v2, false, Seq::empty(), res),
        None => true,
    }
}

/// The comments of a walk of [`known_walk`] from `a`.
pub open spec fn walk_comments(s: Seq<u8>, a: int, v2: bool) -> Seq<(int, bool)> {
    match known_walk(s, a, v2) {
        Some((cs, _)) => cs,
        None => Seq::empty(),
    }
}

/// Recording the walk's next comment extends what was taken by one.
proof fn lemma_comment_taken(
    s: Seq<u8>,
    cs: Seq<(int, bool)>,
    k: int,
    a: Seq<PictComment>,
    b: Seq<PictComment>,
    b2: Seq<PictComment>,
    q: int,
    long: bool,
)
    requires
        0 <= k < cs.len(),
        cs[k] == (q, long),
        comments_taken(s, cs, k, a, b),
        b2.len() == b.len() + 1,
        b2.drop_last() == b,
        comment_matches(b2.last(), s, q, long),
    ensures
        comments_taken(s, cs, k + 1, a, b2),
{
    assert(b2.subrange(0, a.len() as int) =~= b.subrange(0, a.len() as int));
    assert forall|i: int| 0 <= i < k + 1 implies #[trigger] comment_matches(b2[a.len() + i], s, cs[i].0, cs[i].1) by {
        if i < k {
            assert(b2[a.len() + i] == b[a.len() + i]);
        }
    }
}

/// Walk a v2 opcode stream (each opcode word-aligned) until `OpEndPic`
/// or the end of the data, then return the canvas.
#[verifier::rlimit(100)]
#[verifier::spinoff_prover]
fn parse_v2_opcodes(r: &mut Reader<'_>, canvas: Canvas, state: PictState) -> (res: Result<PictImage>)
    requires
        old(r).pos <= old(r).bytes@.len(),
        canvas.wf(),
        state.wf(),
    ensures
        res matches Ok(img) ==> img.width == canvas.width && img.height == canvas.height && img.data@.len()
            == canvas.width * canvas.height * 4 && img.pixel_format == PictPixelFormat::Rgba,
        forall|pk: PackType, w: u32, h: u32, data: Seq<u8>|
            #![trigger v2_tail_at(old(r).bytes@, old(r).pos as int, pk, w, h, data)]
            (v2_tail_at(old(r).bytes@, old(r).pos as int, pk, w, h, data) && plain_target(canvas, state, w, h)) ==> (
            res matches Ok(img) && img.data@ == opaque_rgba(data)),
        forall|w: u32, h: u32, idx: Seq<u8>, pal: Seq<[u8; 4]>, ps: IndexedPixelSize|
            #![trigger v2_indexed_tail_at(old(r).bytes@, old(r).pos as int, w, h, idx, pal, ps)]
            (v2_indexed_tail_at(old(r).bytes@, old(r).pos as int, w, h, idx, pal, ps) && plain_target(canvas, state, w, h))
                ==> (res matches Ok(img) && palette_image_is(img.data@, w, h, idx, pal, ps)),
        known_walk_result(old(r).bytes@, old(r).pos as int, true, canvas, state, res),
        walk_image(old(r).bytes@, old(r).pos as int, true, canvas, state, res),
{
    let ghost s = r.bytes@;
    let ghost p0 = r.pos as int;
    let ghost c0 = canvas;
    let ghost s0 = state;
    let mut cv = canvas;
    let mut st = state;
    let ghost w = cv.width;
    let ghost h = cv.height;
    let ghost mut k: int = 0;
    let ghost mut drew = false;
    proof {
        assert(st.comments@.subrange(0, s0.comments@.len() as int) =~= s0.comments@);
        assert(walk_comments(s, p0, true).subrange(0, walk_comments(s, p0, true).len() as int) =~= walk_comments(
            s,
            p0,
            true,
        ));
    }
    loop
        invariant_except_break
            forall|pk: PackType, ww: u32, hh: u32, data: Seq<u8>|
                #![trigger v2_tail_at(s, p0, pk, ww, hh, data)]
                (v2_tail_at(s, p0, pk, ww, hh, data) && plain_target(c0, s0, ww, hh)) ==> ((r.pos == p0 && cv
                    == c0 && st == s0) || (r.pos == p0 + 2 + record_len(pk, ww, hh, data) && cv.data@
                    == opaque_rgba(data) && cv.dirty)),
            forall|ww: u32, hh: u32, idx: Seq<u8>, pal: Seq<[u8; 4]>, ps: IndexedPixelSize|
                #![trigger v2_indexed_tail_at(s, p0, ww, hh, idx, pal, ps)]
                (v2_indexed_tail_at(s, p0, ww, hh, idx, pal, ps) && plain_target(c0, s0, ww, hh)) ==> ((r.pos == p0
                    && cv == c0 && st == s0) || (r.pos == p0 + 2 + indexed_record(ww, hh, idx, pal, ps).len()
                    && palette_image_is(cv.data@, ww, hh, idx, pal, ps) && cv.dirty)),
            walk_progress(s, p0, true, r.pos as int, k, drew, c0, cv, s0, st),
            known_walk(s, p0, true) is Some ==> forall|cc: Canvas, ss: PictState|
                #[trigger] walk_reaches(s, r.pos as int, true, cv, st, cc, ss) ==> walk_reaches(s, p0, true, c0, s0, cc, ss),
        invariant
            s == old(r).bytes@,
            p0 == old(r).pos,
            c0 == canvas,
            s0 == state,
            r.bytes@ == old(r).bytes@,
            r.pos <= r.bytes@.len(),
            cv.wf(),
            cv.width == w,
            cv.height == h,
            st.wf(),
        ensures
            forall|pk: PackType, ww: u32, hh: u32, data: Seq<u8>|
                #![trigger v2_tail_at(s, p0, pk, ww, hh, data)]
                (v2_tail_at(s, p0, pk, ww, hh, data) && plain_target(c0, s0, ww, hh)) ==> (cv.data@ == opaque_rgba(
                    data,
                ) && cv.dirty),
            forall|ww: u32, hh: u32, idx: Seq<u8>, pal: Seq<[u8; 4]>, ps: IndexedPixelSize|
                #![trigger v2_indexed_tail_at(s, p0, ww, hh, idx, pal, ps)]
                (v2_indexed_tail_at(s, p0, ww, hh, idx, pal, ps) && plain_target(c0, s0, ww, hh)) ==> (
                palette_image_is(cv.data@, ww, hh, idx, pal, ps) && cv.dirty),
            walk_done(s, p0, true, k, drew, c0, cv, s0, st),
            known_walk(s, p0, true) is Some ==> walk_reaches(s, p0, true, c0, s0, cv, st),
        decreases r.bytes@.len() - r.pos,
    {
        if r.at_eof() {
            break;
        }
        let ghost before = r.pos as int;
        r.align_word()?;
        proof {
            assert forall|pk: PackType, ww: u32, hh: u32, data: Seq<u8>|
                #![trigger v2_tail_at(s, p0, pk, ww, hh, data)]
                (v2_tail_at(s, p0, pk, ww, hh, data) && plain_target(c0, s0, ww, hh)) implies ({
                    let q = p0 + 2 + record_len(pk, ww, hh, data);
                    let e = if q % 2 == 1 { q + 1 } else { q };
                    ||| (r.pos == p0 && cv == c0 && st == s0 && r.rem() >= 2 && be_u16(s, r.pos as int)
                        == OP_DIRECT_BITS_RECT)
                    ||| (r.pos == e && cv.data@ == opaque_rgba(data) && cv.dirty && r.rem() >= 2 && be_u16(
                        s,
                        r.pos as int,
                    ) == OP_OP_END_PIC)
                }) by {
                let q = p0 + 2 + record_len(pk, ww, hh, data);
                assert(record_len(pk, ww, hh, data) >= 0);
                if before == p0 {
                    assert(r.pos == p0);
                } else {
                    assert(before == q);
                }
            }
        }
        proof {
            assert forall|ww: u32, hh: u32, idx: Seq<u8>, pal: Seq<[u8; 4]>, ps: IndexedPixelSize|
                #![trigger v2_indexed_tail_at(s, p0, ww, hh, idx, pal, ps)]
                (v2_indexed_tail_at(s, p0, ww, hh, idx, pal, ps) && plain_target(c0, s0, ww, hh)) implies ({
                    let q = p0 + 2 + indexed_record(ww, hh, idx, pal, ps).len();
                    let e = if q % 2 == 1 { q + 1 } else { q };
                    ||| (r.pos == p0 && cv == c0 && st == s0 && r.rem() >= 2 && be_u16(s, r.pos as int) == OP_BITS_RECT)
                    ||| (r.pos == e && palette_image_is(cv.data@, ww, hh, idx, pal, ps) && cv.dirty && r.rem() >= 2
                        && be_u16(s, r.pos as int) == OP_OP_END_PIC)
                }) by {
                let q = p0 + 2 + indexed_record(ww, hh, idx, pal, ps).len();
                if before == p0 {
                    assert(r.pos == p0);
                } else {
                    assert(before == q);
                }
            }
        }
        if r.at_eof() {
            break;
        }
        let ghost at = r.pos as int;
        let opcode = r.read_u16()?;
        let ghost cv0 = cv;
        let ghost st0 = st;
        let cont = dispatch_v2_opcode(r, opcode, &mut cv, &mut st)?;
        proof {
            if known_walk(s, p0, true) is Some {
                let cs0 = walk_comments(s, p0, true);
                let cs = walk_comments(s, before, true);
                assert(at == word_aligned(before));
                assert(opcode == op_at(s, at, true));
                if opcode != OP_OP_END_PIC {
                    let n = known_op_len(s, opcode, at + 2, true)->0;
                    let cs2 = walk_comments(s, at + 2 + n, true);
                    assert(r.pos == at + 2 + n);
                    if opcode == OP_SHORT_COMMENT || opcode == OP_LONG_COMMENT {
                        assert(cs == seq![(at + 2, opcode == OP_LONG_COMMENT)] + cs2);
                        assert(cs == cs0.subrange(k, cs0.len() as int));
                        let k_old = k;
                        assert(cs.len() >= 1);
                        assert(cs0[k] == cs[0]);
                        assert forall|i: int| 0 <= i < cs2.len() implies cs2[i] == cs0[k_old + 1 + i] by {
                            assert(cs[i + 1] == cs2[i]);
                            assert(cs[i + 1] == cs0[k_old + i + 1]);
                        }
                        lemma_comment_taken(
                            s,
                            cs0,
                            k,
                            s0.comments@,
                            st0.comments@,
                            st.comments@,
                            at + 2,
                            opcode == OP_LONG_COMMENT,
                        );
                        k = k + 1;
                        assert(cs2 =~= cs0.subrange(k, cs0.len() as int));
                    } else {
                        assert(cs == cs2);
                        assert(st.comments@ == st0.comments@);
                    }
                    if canvas_op(opcode) {
                        drew = true;
                    }
                    assert(known_step(opcode, s, at + 2, true, cv0, st0, cv, st));
                    lemma_walk_step(s, before, at, true, n, cv0, st0, cv, st, p0, c0, s0, r.pos as int);
                } else {
                    assert(cs.len() == 0);
                    assert(walk_reaches(s, before, true, cv0, st0, cv0, st0));
                }
            }
        }
        if !cont {
            break;
        }
    }
    finalise_canvas(cv, st)
}

/// A v2 opcode stream at `p` that is exactly the writer's indexed
/// raster: the `BitsRect` opcode word, its record, a pad byte to the
/// next word when needed, and `OpEndPic`.
pub open spec fn v2_indexed_tail_at(
    s: Seq<u8>,
    p: int,
    w: u32,
    h: u32,
    idx: Seq<u8>,
    pal: Seq<[u8; 4]>,
    ps: IndexedPixelSize,
) -> bool {
    let q = p + 2 + indexed_record(w, h, idx, pal, ps).len();
    let e = if q % 2 == 1 { q + 1 } else { q };
    &&& 0 <= p
    &&& p % 2 == 0
    &&& be_u16(s, p) == OP_BITS_RECT
    &&& indexed_record_at(s, p + 2, w, h, idx, pal, ps)
    &&& e + 2 <= s.len()
    &&& be_u16(s, e) == OP_OP_END_PIC
}

/// `data` holds the `w x h` image [`palette_pixel`] describes.
pub open spec fn palette_image_is(data: Seq<u8>, w: u32, h: u32, idx: Seq<u8>, pal: Seq<[u8; 4]>, ps: IndexedPixelSize) -> bool {
    forall|x: int, y: int|
        0 <= x < w && 0 <= y < h ==> #[trigger] rgba_at(data, w as int, x, y) == palette_pixel(idx, pal, ps, w as int, x, y)
}

/// A v2 opcode stream at `p` that is exactly the writer's raster: the
/// `DirectBitsRect` opcode word, its record, a pad byte to the next
/// word when needed, and `OpEndPic`.
pub open spec fn v2_tail_at(s: Seq<u8>, p: int, pk: PackType, w: u32, h: u32, data: Seq<u8>) -> bool {
    let q = p + 2 + record_len(pk, w, h, data);
    let e = if q % 2 == 1 { q + 1 } else { q };
    &&& 0 <= p
    &&& p % 2 == 0
    &&& be_u16(s, p) == OP_DIRECT_BITS_RECT
    &&& record_at(s, p + 2, pk, w, h, data)
    &&& e + 2 <= s.len()
    &&& be_u16(s, e) == OP_OP_END_PIC
}

/// Walk a v1 opcode stream (one-byte opcodes, no alignment) until
/// `OpEndPic` or the end of the data, then return the canvas.
#[verifier::rlimit(60)]
#[verifier::spinoff_prover]
fn parse_v1_opcodes(r: &mut Reader<'_>, canvas: Canvas, state: PictState) -> (res: Result<PictImage>)
    requires
        old(r).pos <= old(r).bytes@.len(),
        canvas.wf(),
        state.wf(),
    ensures
        res matches Ok(img) ==> img.width == canvas.width && img.height == canvas.height && img.data@.len()
            == canvas.width * canvas.height * 4 && img.pixel_format == PictPixelFormat::Rgba,
        forall|pk: PackType, w: u32, h: u32, data: Seq<u8>|
            #![trigger v1_tail_at(old(r).bytes@, old(r).pos as int, pk, w, h, data)]
            (v1_tail_at(old(r).bytes@, old(r).pos as int, pk, w, h, data) && plain_target(canvas, state, w, h)) ==> (
            res matches Ok(img) && img.data@ == opaque_rgba(data)),
        known_walk_result(old(r).bytes@, old(r).pos as int, false, canvas, state, res),
        walk_image(old(r).bytes@, old(r).pos as int, false, canvas, state, res),
{
    let ghost s = r.bytes@;
    let ghost p0 = r.pos as int;
    let ghost c0 = canvas;
    let ghost s0 = state;
    let mut cv = canvas;
    let mut st = state;
    let ghost w = cv.width;
    let ghost h = cv.height;
    let ghost mut k: int = 0;
    let ghost mut drew = false;
    proof {
        assert(st.comments@.subrange(0, s0.comments@.len() as int) =~= s0.comments@);
        assert(walk_comments(s, p0, false).subrange(0, walk_comments(s, p0, false).len() as int) =~= walk_comments(
            s,
            p0,
            false,
        ));
    }
    loop
        invariant_except_break
            forall|pk: PackType, ww: u32, hh: u32, data: Seq<u8>|
                #![trigger v1_tail_at(s, p0, pk, ww, hh, data)]
                (v1_tail_at(s, p0, pk, ww, hh, data) && plain_target(c0, s0, ww, hh)) ==> ((r.pos == p0 && cv
                    == c0 && st == s0) || (r.pos == p0 + 1 + record_len(pk, ww, hh, data) && cv.data@
                    == opaque_rgba(data) && cv.dirty)),
            walk_progress(s, p0, false, r.pos as int, k, drew, c0, cv, s0, st),
            known_walk(s, p0, false) is Some ==> forall|cc: Canvas, ss: PictState|
                #[trigger] walk_reaches(s, r.pos as int, false, cv, st, cc, ss) ==> walk_reaches(s, p0, false, c0, s0, cc, ss),
        invariant
            s == old(r).bytes@,
            p0 == old(r).pos,
            c0 == canvas,
            s0 == state,
            r.bytes@ == old(r).bytes@,
            r.pos <= r.bytes@.len(),
            cv.wf(),
            cv.width == w,
            cv.height == h,
            st.wf(),
        ensures
            forall|pk: PackType, ww: u32, hh: u32, data: Seq<u8>|
                #![trigger v1_tail_at(s, p0, pk, ww, hh, data)]
                (v1_tail_at(s, p0, pk, ww, hh, data) && plain_target(c0, s0, ww, hh)) ==> (cv.data@ == opaque_rgba(
                    data,
                ) && cv.dirty),
            walk_done(s, p0, false, k, drew, c0, cv, s0, st),
            known_walk(s, p0, false) is Some ==> walk_reaches(s, p0, false, c0, s0, cv, st),
        decreases r.bytes@.len() - r.pos,
    {
        if r.at_eof() {
            break;
        }
        let ghost before = r.pos as int;
        let opcode = r.read_u8()? as u16;
        proof {
            assert forall|pk: PackType, ww: u32, hh: u32, data: Seq<u8>|
                #![trigger v1_tail_at(s, p0, pk, ww, hh, data)]
                (v1_tail_at(s, p0, pk, ww, hh, data) && plain_target(c0, s0, ww, hh)) implies ({
                    ||| (r.pos == p0 + 1 && cv == c0 && st == s0 && opcode == OP_DIRECT_BITS_RECT && record_at(
                        s,
                        r.pos as int,
                        pk,
                        ww,
                        hh,
                        data,
                    ))
                    ||| (r.pos == p0 + 2 + record_len(pk, ww, hh, data) && cv.data@ == opaque_rgba(data) && cv.dirty
                        && opcode == 0xFF)
                }) by {
                assert(record_len(pk, ww, hh, data) >= 0);
            }
        }
        let ghost at = before;
        let ghost cv0 = cv;
        let ghost st0 = st;
        let cont = dispatch_v1_opcode(r, opcode, &mut cv, &mut st)?;
        proof {
            if known_walk(s, p0, false) is Some {
                let cs0 = walk_comments(s, p0, false);
                let cs = walk_comments(s, before, false);
                assert(opcode == op_at(s, at, false));
                if opcode != OP_OP_END_PIC {
                    let n = known_op_len(s, opcode, at + 1, false)->0;
                    let cs2 = walk_comments(s, at + 1 + n, false);
                    assert(r.pos == at + 1 + n);
                    if opcode == OP_SHORT_COMMENT || opcode == OP_LONG_COMMENT {
                        assert(cs == seq![(at + 1, opcode == OP_LONG_COMMENT)] + cs2);
                        assert(cs == cs0.subrange(k, cs0.len() as int));
                        let k_old = k;
                        assert(cs.len() >= 1);
                        assert(cs0[k] == cs[0]);
                        assert forall|i: int| 0 <= i < cs2.len() implies cs2[i] == cs0[k_old + 1 + i] by {
                            assert(cs[i + 1] == cs2[i]);
                            assert(cs[i + 1] == cs0[k_old + i + 1]);
                        }
                        lemma_comment_taken(
                            s,
                            cs0,
                            k,
                            s0.comments@,
                            st0.comments@,
                            st.comments@,
                            at + 1,
                            opcode == OP_LONG_COMMENT,
                        );
                        k = k + 1;
                        assert(cs2 =~= cs0.subrange(k, cs0.len() as int));
                    } else {
                        assert(cs == cs2);
                        assert(st.comments@ == st0.comments@);
                    }
                    if canvas_op(opcode) {
                        drew = true;
                    }
                    assert(known_step(opcode, s, at + 1, false, cv0, st0, cv, st));
                    lemma_walk_step(s, before, at, false, n, cv0, st0, cv, st, p0, c0, s0, r.pos as int);
                } else {
                    assert(cs.len() == 0);
                    assert(walk_reaches(s, before, false, cv0, st0, cv0, st0));
                }
            }
        }
        if !cont {
            break;
        }
    }
    finalise_canvas(cv, st)
}

/// A v1 opcode stream at `p` that is exactly the writer's raster: the
/// one-byte `DirectBitsRect` opcode, its record and the one-byte
/// `OpEndPic`.
pub open spec fn v1_tail_at(s: Seq<u8>, p: int, pk: PackType, w: u32, h: u32, data: Seq<u8>) -> bool {
    let q = p + 1 + record_len(pk, w, h, data);
    &&& 0 <= p < s.len()
    &&& s[p] == 0x9A
    &&& record_at(s, p + 1, pk, w, h, data)
    &&& q < s.len()
    &&& s[q] == 0xFF
}


/// A picture record starts here: at least 12 bytes, and at offset 10
/// either the v2 stanza `00 11 02 FF` or the v1 stanza `11 01`.
pub open spec fn looks_like_record(s: Seq<u8>) -> bool {
    &&& s.len() >= 12
    &&& ((s.len() >= 14 && s[10] == 0 && s[11] == 0x11 && s[12] == 2 && s[13] == 0xFF) || (s[10] == 0x11 && s[11]
        == 1))
}

/// Where the picture record starts: at 0, or after a 512-byte file
/// header, or nowhere.
pub open spec fn body_offset_spec(s: Seq<u8>) -> Option<int> {
    if looks_like_record(s) {
        Some(0)
    } else if s.len() >= 512 + 12 && looks_like_record(s.subrange(512, s.len() as int)) {
        Some(512)
    } else {
        None
    }
}

fn looks_like_picture_record(bytes: &[u8]) -> (b: bool)
    ensures
        b == looks_like_record(bytes@),
{
    if bytes.len() < 12 {
        return false;
    }
    if bytes.len() >= 14 && bytes[10] == 0 && bytes[11] == 0x11 && bytes[12] == 2 && bytes[13] == 0xFF {
        return true;
    }
    bytes[10] == 0x11 && bytes[11] == 0x01
}

/// Offset of the picture record: 0, or 512 past a file header.
pub(crate) fn detect_body_offset(bytes: &[u8]) -> (res: Result<usize>)
    ensures
        match body_offset_spec(bytes@) {
            Some(o) => res == Ok::<usize, PictError>(o as usize),
            None => res matches Err(e) && e is InvalidData,
        },
{
    if looks_like_picture_record(bytes) {
        return Ok(0);
    }
    if bytes.len() >= 512 + 12 {
        let tail = vstd::slice::slice_subrange(bytes, 512, bytes.len());
        if looks_like_picture_record(tail) {
            return Ok(512);
        }
    }
    Err(PictError::invalid("no PICT picture record at offset 0 or 512"))
}

/// The version stanza after the 10-byte picture header.
#[derive(Debug, Clone, Copy, PartialEq, Eq, Structural)]
pub enum PictVersion {
    V1,
    V2,
}

/// Read the version stanza. `00 11 02 FF 0C 00` is v2 followed by the
/// 24-byte header payload (kept when its version word is known,
/// stepped past otherwise); `00 11 01 ..` is v1 whose first opcode is
/// the byte after `01`; `11 01` is v1. Anything else is `InvalidData`.
fn detect_version(r: &mut Reader<'_>) -> (res: Result<(PictVersion, Option<PictHeader>)>)
    requires
        old(r).pos <= old(r).bytes@.len(),
    ensures
        final(r).bytes@ == old(r).bytes@,
        res is Ok ==> old(r).pos < final(r).pos <= final(r).bytes@.len(),
        ({
            let s = old(r).bytes@;
            let p = old(r).pos as int;
            let v = crate::wire::be_u16(s, p);
            &&& (old(r).rem() >= 2 && v != 0x0011 && v != 0x1101) ==> (res matches Err(e) && e is InvalidData)
            &&& (old(r).rem() >= 2 && v == 0x1101) ==> (res matches Ok((ver, hd)) && ver == PictVersion::V1 && hd is None
                && final(r).pos == p + 2)
            &&& (res matches Ok((ver, hd)) ==> (ver == PictVersion::V1 ==> hd is None))
            &&& (res matches Ok((ver, hd)) ==> (ver == PictVersion::V2 <==> (v == 0x0011 && crate::wire::be_u16(
                s,
                p + 2,
            ) == 0x02FF)))
            &&& (res matches Ok((ver, hd)) ==> (ver == PictVersion::V2 ==> hd == (if header_version_known(s, p + 6) {
                Some(header_from_bytes(s, p + 6))
            } else {
                None::<PictHeader>
            })))
            &&& (old(r).rem() >= 30 && v == 0x0011 && crate::wire::be_u16(s, p + 2) == 0x02FF && crate::wire::be_u16(
                s,
                p + 4,
            ) == OP_HEADER_OP) ==> (res matches Ok((ver, hd)) && ver == PictVersion::V2 && final(r).pos == p + 30)
        }),
{
    let v_word = r.read_u16()?;
    if v_word == 0x0011 {
        let next = r.read_u16()?;
        if next == 0x02FF {
            let header_op = r.read_u16()?;
            if header_op != OP_HEADER_OP {
                return Err(PictError::invalid("expected headerOp 0x0C00 after the v2 version stanza"));
            }
            let start = r.pos;
            let header = match PictHeader::parse(r) {
                Ok(h) => Some(h),
                Err(_) => {
                    r.pos = start;
                    r.skip(24)?;
                    None
                },
            };
            return Ok((PictVersion::V2, header));
        }
        if next / 256 == 0x01 {
            r.pos = r.pos - 1;
            return Ok((PictVersion::V1, None));
        }
        return Err(PictError::invalid("unrecognised version stanza after 0x0011"));
    }
    if v_word == 0x1101 {
        return Ok((PictVersion::V1, None));
    }
    Err(PictError::invalid("expected version opcode 0x0011 or 0x1101"))
}

/// Width of the picture frame of the record at `o`.
pub open spec fn frame_width(s: Seq<u8>, o: int) -> int {
    let left = crate::wire::be_i16(s, o + 4);
    let right = crate::wire::be_i16(s, o + 8);
    if right > left { right - left } else { 0 }
}

/// Height of the picture frame of the record at `o`.
pub open spec fn frame_height(s: Seq<u8>, o: int) -> int {
    let top = crate::wire::be_i16(s, o + 2);
    let bottom = crate::wire::be_i16(s, o + 6);
    if bottom > top { bottom - top } else { 0 }
}

/// The `HeaderOp` payload a picture record `b` carries: a v2 record
/// whose header version word is a known one has it, any other has none.
pub open spec fn record_header(b: Seq<u8>) -> Option<PictHeader> {
    if be_u16(b, 10) == 0x0011 && be_u16(b, 12) == 0x02FF && header_version_known(b, 16) {
        Some(header_from_bytes(b, 16))
    } else {
        None
    }
}

/// Decode the picture record `body` (picture header, version stanza,
/// opcodes) into one RGBA image the size of its picture frame, on
/// white paper.
#[verifier::rlimit(40)]
#[verifier::spinoff_prover]
fn decode_record(body: &[u8]) -> (res: Result<PictImage>)
    ensures
        res matches Ok(img) ==> ({
            &&& img.width == frame_width(body@, 0)
            &&& img.height == frame_height(body@, 0)
            &&& img.width > 0 && img.height > 0
            &&& img.data@.len() == img.width * img.height * 4
            &&& img.data@.len() <= MAX_RASTER_BYTES
            &&& img.pixel_format == PictPixelFormat::Rgba
            &&& img.header == record_header(body@)
        }),
        record_walk_outcome(body@, res),
        record_image(body@, res),
        (body@.len() >= 10 && (frame_width(body@, 0) == 0 || frame_height(body@, 0) == 0)) ==> res is Err,
        forall|w: u32, h: u32, data: Seq<u8>, pk: PackType|
            #![trigger v2_record_shape(body@, w, h, data, pk)]
            (v2_record_shape(body@, w, h, data, pk) && roundtrip_ok(w, h, data, pk)) ==> (res matches Ok(img)
                && img.width == w && img.height == h && img.data@ == opaque_rgba(data)),
        forall|w: u32, h: u32, data: Seq<u8>, pk: PackType|
            #![trigger v1_record_shape(body@, w, h, data, pk)]
            (v1_record_shape(body@, w, h, data, pk) && roundtrip_ok(w, h, data, pk)) ==> (res matches Ok(img)
                && img.width == w && img.height == h && img.data@ == opaque_rgba(data)),
        forall|w: u32, h: u32, idx: Seq<u8>, pal: Seq<[u8; 4]>, ps: IndexedPixelSize|
            #![trigger v2_indexed_record_shape(body@, w, h, idx, pal, ps)]
            (v2_indexed_record_shape(body@, w, h, idx, pal, ps) && indexed_roundtrip_ok(w, h, idx, pal, ps)) ==> (
            res matches Ok(img) && img.width == w && img.height == h && palette_image_is(img.data@, w, h, idx, pal, ps)),
{
    let mut r = Reader::new(body);
    let _pic_size = r.read_u16()?;
    let (t, l, b, rt) = r.read_rect()?;
    let width = extent_exec(l, rt);
    let height = extent_exec(t, b);
    let (version, header) = detect_version(&mut r)?;
    if width == 0 || height == 0 {
        return Err(PictError::invalid("picFrame has a zero side"));
    }
    if !fits_budget(width, height) {
        return Err(PictError::invalid("picFrame exceeds the raster budget"));
    }
    let canvas = Canvas::new(width, height, Rgba::white());
    let state = PictState::initial((l as i32, t as i32));
    proof {
        assert(state.comments@ =~= Seq::<PictComment>::empty());
        assert(canvas.is_blank(frame_width(body@, 0) as int, frame_height(body@, 0) as int, white_spec()));
        assert(state.is_initial((be_i16(body@, 4) as i32, be_i16(body@, 2) as i32)));
    }
    let mut img = match version {
        PictVersion::V1 => parse_v1_opcodes(&mut r, canvas, state)?,
        PictVersion::V2 => parse_v2_opcodes(&mut r, canvas, state)?,
    };
    img.header = header;
    Ok(img)
}

/// Decode a complete PICT byte stream (with or without the 512-byte
/// file header) into one RGBA image the size of its picture frame,
/// on white paper. No picture record, a frame with a zero side or
/// larger than the raster budget is `InvalidData`; a stream that draws
/// nothing is `NoRaster`. A picture whose opcodes are all of the kinds
/// [`known_walk`] lists decodes to the canvas its stated steps draw from
/// white paper (see [`record_image`]). The writer's v1 and v2 pictures
/// of a raster that round-trips decode to that raster, made opaque; its
/// indexed `BitsRect` picture decodes to the palette colour of each
/// index (black past the end of the palette).
pub fn parse_pict(bytes: &[u8]) -> (res: Result<PictImage>)
    ensures
        body_offset_spec(bytes@) is None ==> (res matches Err(e) && e is InvalidData),
        res matches Ok(img) ==> ({
            let o = body_offset_spec(bytes@)->0;
            &&& body_offset_spec(bytes@) is Some
            &&& img.width == frame_width(bytes@, o)
            &&& img.height == frame_height(bytes@, o)
            &&& img.width > 0 && img.height > 0
            &&& img.data@.len() == img.width * img.height * 4
            &&& img.data@.len() <= MAX_RASTER_BYTES
            &&& img.pixel_format == PictPixelFormat::Rgba
            &&& img.header == record_header(bytes@.subrange(o, bytes@.len() as int))
        }),
        body_offset_spec(bytes@) matches Some(o) ==> record_walk_outcome(bytes@.subrange(o, bytes@.len() as int), res),
        body_offset_spec(bytes@) matches Some(o) ==> record_image(bytes@.subrange(o, bytes@.len() as int), res),
        (body_offset_spec(bytes@) matches Some(o) && bytes@.len() >= o + 10 && (frame_width(bytes@, o) == 0
            || frame_height(bytes@, o) == 0)) ==> res is Err,
        forall|w: u32, h: u32, data: Seq<u8>, pk: PackType|
            #![trigger pict_v2_spec(w, h, data, pk)]
            (bytes@ == pict_v2_spec(w, h, data, pk) && roundtrip_ok(w, h, data, pk)) ==> (res matches Ok(img)
                && img.width == w && img.height == h && img.data@ == opaque_rgba(data)),
        forall|w: u32, h: u32, data: Seq<u8>, pk: PackType|
            #![trigger pict_v1_spec(w, h, data, pk)]
            (bytes@ == pict_v1_spec(w, h, data, pk) && roundtrip_ok(w, h, data, pk)) ==> (res matches Ok(img)
                && img.width == w && img.height == h && img.data@ == opaque_rgba(data) && img.header is None),
        forall|w: u32, h: u32, idx: Seq<u8>, pal: Seq<[u8; 4]>, ps: IndexedPixelSize|
            #![trigger indexed_spec(w, h, idx, pal, ps, false, None::<[i16; 4]>)]
            (bytes@ == indexed_spec(w, h, idx, pal, ps, false, None) && indexed_roundtrip_ok(w, h, idx, pal, ps)) ==> (
            res matches Ok(img) && img.width == w && img.height == h && palette_image_is(img.data@, w, h, idx, pal, ps)),
{
    proof {
        assert(bytes@.subrange(0, bytes@.len() as int) =~= bytes@);
        assert forall|w: u32, h: u32, data: Seq<u8>, pk: PackType|
            #![trigger pict_v1_spec(w, h, data, pk)]
            bytes@ == pict_v1_spec(w, h, data, pk) && roundtrip_ok(w, h, data, pk) implies v1_stream_shape(
                bytes@,
                w,
                h,
                data,
                pk,
            ) && body_offset_spec(bytes@) == Some(0int) by {
            lemma_v1_stream_shape(w, h, data, pk);
        }
        assert forall|w: u32, h: u32, data: Seq<u8>, pk: PackType|
            #![trigger pict_v2_spec(w, h, data, pk)]
            bytes@ == pict_v2_spec(w, h, data, pk) && roundtrip_ok(w, h, data, pk) implies v2_stream_shape(
                bytes@,
                w,
                h,
                data,
                pk,
            ) && body_offset_spec(bytes@) == Some(512int) by {
            lemma_v2_stream_shape(w, h, data, pk);
        }
        assert forall|w: u32, h: u32, idx: Seq<u8>, pal: Seq<[u8; 4]>, ps: IndexedPixelSize|
            #![trigger indexed_spec(w, h, idx, pal, ps, false, None::<[i16; 4]>)]
            bytes@ == indexed_spec(w, h, idx, pal, ps, false, None) && indexed_roundtrip_ok(w, h, idx, pal, ps) implies
                v2_indexed_stream_shape(bytes@, w, h, idx, pal, ps) && body_offset_spec(bytes@) == Some(512int) by {
            lemma_v2_indexed_stream_shape(w, h, idx, pal, ps);
        }
    }
    let body_offset = detect_body_offset(bytes)?;
    let body = vstd::slice::slice_subrange(bytes, body_offset, bytes.len());
    proof {
        let o = body_offset as int;
        assert(body@ =~= bytes@.subrange(o, bytes@.len() as int));
        assert(crate::wire::be_i16(body@, 2) == crate::wire::be_i16(bytes@, o + 2));
        assert(crate::wire::be_i16(body@, 4) == crate::wire::be_i16(bytes@, o + 4));
        assert(crate::wire::be_i16(body@, 6) == crate::wire::be_i16(bytes@, o + 6));
        assert(crate::wire::be_i16(body@, 8) == crate::wire::be_i16(bytes@, o + 8));
    }
    decode_record(body)
}

} // verus!

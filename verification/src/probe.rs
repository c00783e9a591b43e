//! Read-only introspection of a PICT byte stream: which framing, what
//! picture frame, whether a 512-byte file header precedes the record,
//! and how many opcodes of each kind the stream carries, without
//! rasterising anything.
//!
//! The walker follows the same opcode layout as the decoder. Where the
//! decoder draws, the probe counts; where the decoder gives up, the
//! probe records why and keeps the statistics gathered so far.
use vstd::prelude::*;
use crate::error::{PictError, Result};
use crate::header::{header_from_bytes, header_version_known, Fixed, PictHeader};
use crate::image::PictComment;
use crate::opcodes::{
    reserved_skip_spec, reserved_v2_payload_size, ReservedV2Skip, OP_BG_COLOR, OP_BITS_RECT,
    OP_BITS_RGN, OP_BK_PAT, OP_BK_PIX_PAT, OP_CH_EXTRA, OP_CLIP_RGN, OP_COMPRESSED_QUICKTIME,
    OP_DEF_HILITE, OP_DHDV_TEXT, OP_DH_TEXT, OP_DIRECT_BITS_RECT, OP_DIRECT_BITS_RGN, OP_DV_TEXT,
    OP_FG_COLOR, OP_FILL_PAT, OP_FILL_PIX_PAT, OP_FONT_NAME, OP_GLYPH_STATE, OP_HEADER_OP,
    OP_HILITE_COLOR, OP_HILITE_MODE, OP_LINE_JUSTIFY, OP_LONG_COMMENT, OP_LONG_TEXT, OP_NOP,
    OP_OP_COLOR, OP_OP_END_PIC, OP_ORIGIN, OP_OV_SIZE, OP_PACK_BITS_RECT, OP_PACK_BITS_RGN,
    OP_PN_LOC_HFRAC, OP_PN_MODE, OP_PN_PAT, OP_PN_PIX_PAT, OP_PN_SIZE, OP_RGB_BK_COL,
    OP_RGB_FG_COL, OP_SHORT_COMMENT, OP_SP_EXTRA, OP_TX_FACE, OP_TX_FONT, OP_TX_MODE,
    OP_TX_RATIO, OP_TX_SIZE, OP_UNCOMPRESSED_QUICKTIME,
};
use crate::reader::Reader;
use crate::decoder::{body_offset_spec, frame_height, frame_width};
use crate::roundtrip::{
    lemma_direct_record_fields, lemma_rows_len_fixed, lemma_v2_stream_shape, record_at, record_len, roundtrip_ok,
    v2_stream_shape,
};
use crate::encoder::PackType;
use crate::state::{
    PictFontName, PictGlyphState, PictLineJustify, PictTextFace, PictTextState, RectI32, Rgba,
    TextRatio,
};
use crate::ops::{expand_spec, long_comment_body, rgb_payload};
use crate::wire::{be_i16, be_i32, be_u16, be_u32, lemma_u16_roundtrip, u16_bytes};

verus! {

/// `picFrame` in the on-disk (top, left, bottom, right) order.
#[derive(Debug, Clone, Copy, PartialEq, Eq, Structural)]
pub struct ProbeRect {
    pub top: i32,
    pub left: i32,
    pub bottom: i32,
    pub right: i32,
}

impl From<RectI32> for ProbeRect {
    fn from(r: RectI32) -> (p: Self) {
        ProbeRect { top: r.top, left: r.left, bottom: r.bottom, right: r.right }
    }
}

impl vstd::std_specs::convert::FromSpecImpl<RectI32> for ProbeRect {
    open spec fn obeys_from_spec() -> bool {
        true
    }

    open spec fn from_spec(r: RectI32) -> Self {
        ProbeRect { top: r.top, left: r.left, bottom: r.bottom, right: r.right }
    }
}

/// The framing version the version stanza announced.
#[derive(Debug, Clone, Copy, PartialEq, Eq, Structural)]
pub enum ProbeVersion {
    /// 8-bit opcodes, stanza `11 01`.
    V1,
    /// 16-bit word-aligned opcodes, stanza `00 11 02 FF`.
    V2,
}

/// Why the opcode walk stopped.
#[derive(Debug, Clone, PartialEq, Eq)]
pub enum ProbeTermination {
    /// An `OpEndPic` opcode: the clean end.
    EndPic,
    /// The input ran out before any `OpEndPic`.
    Eof,
    /// An opcode the decoder does not handle; the message it would give.
    Unsupported(String),
    /// A malformed opcode payload; the message the decoder would give.
    Invalid(String),
}

/// Metadata gathered by [`probe_pict`]; never holds pixels.
#[derive(Debug, Clone, PartialEq, Eq)]
pub struct PictProbe {
    /// Framing version.
    pub version: ProbeVersion,
    /// `picFrame` in picture coordinates.
    pub frame: ProbeRect,
    /// `right - left`, or 0 when that is negative.
    pub width: u32,
    /// `bottom - top`, or 0 when that is negative.
    pub height: u32,
    /// `true` when the record starts after a 512-byte file header.
    pub has_launch_stub: bool,
    /// Raster opcodes (`BitsRect` .. `DirectBitsRgn`).
    pub raster_count: u32,
    /// Raster opcodes of the bit/packbits families carrying an indexed
    /// pixel map (row-bytes word with its top bit set).
    pub indexed_raster_count: u32,
    /// Line, rectangle, round-rectangle, oval, arc, polygon and region
    /// verbs with their own operands (and, in v1, the text opcodes).
    pub drawing_count: u32,
    /// "Same as last" shape verbs.
    pub same_shape_count: u32,
    /// Text-drawing opcodes of a v2 stream.
    pub text_count: u32,
    /// `ShortComment` and `LongComment` opcodes.
    pub comment_count: u32,
    /// The comments, in stream order.
    pub comments: Vec<PictComment>,
    /// `ClipRgn` opcodes.
    pub clip_rgn_count: u32,
    /// Monochrome pattern opcodes (`BkPat`, `PnPat`, `FillPat`).
    pub pattern_set_count: u32,
    /// Colour pattern opcodes (`BkPixPat`, `PnPixPat`, `FillPixPat`).
    pub pix_pattern_set_count: u32,
    /// `CompressedQuickTime` opcodes.
    pub compressed_quicktime_count: u32,
    /// `UncompressedQuickTime` opcodes.
    pub uncompressed_quicktime_count: u32,
    /// Reserved v2 opcodes stepped past by their documented size.
    pub reserved_op_count: u32,
    /// `true` when the walk ended at `OpEndPic`.
    pub end_pic_seen: bool,
    /// Why the walk ended.
    pub termination: ProbeTermination,
    /// Offset in the whole input at which the walk ended.
    pub terminated_at: usize,
    /// The v2 header payload, when its version word is a known one.
    pub header: Option<PictHeader>,
    /// Text, pen-mode and highlight state after the walk.
    pub text_state: PictTextState,
    /// Opcodes that updated `text_state`.
    pub text_state_op_count: u32,
}

impl PictProbe {
    /// `true` when any drawing or raster opcode was seen.
    pub fn has_visible_content(&self) -> (b: bool)
        ensures
            b == (self.raster_count > 0 || self.drawing_count > 0 || self.same_shape_count > 0),
    {
        self.raster_count > 0 || self.drawing_count > 0 || self.same_shape_count > 0
    }

    /// `true` when any embedded QuickTime payload was seen.
    pub fn has_quicktime(&self) -> (b: bool)
        ensures
            b == (self.compressed_quicktime_count > 0 || self.uncompressed_quicktime_count > 0),
    {
        self.compressed_quicktime_count > 0 || self.uncompressed_quicktime_count > 0
    }

    /// The comment list and its count agree (the count wraps at 2^32).
    pub open spec fn wf(&self) -> bool {
        self.comments@.len() % 0x1_0000_0000 == self.comment_count as int
    }

    /// The counters, as one value.
    pub open spec fn counts(&self) -> ProbeCounts {
        ProbeCounts {
            raster: self.raster_count,
            indexed_raster: self.indexed_raster_count,
            drawing: self.drawing_count,
            same_shape: self.same_shape_count,
            text: self.text_count,
            comment: self.comment_count,
            clip_rgn: self.clip_rgn_count,
            pattern_set: self.pattern_set_count,
            pix_pattern_set: self.pix_pattern_set_count,
            compressed_quicktime: self.compressed_quicktime_count,
            uncompressed_quicktime: self.uncompressed_quicktime_count,
            reserved_op: self.reserved_op_count,
            text_state_op: self.text_state_op_count,
        }
    }

    /// Everything but the counters, the comments and the text state.
    pub open spec fn same_frame(&self, other: &PictProbe) -> bool {
        &&& self.version == other.version
        &&& self.frame == other.frame
        &&& self.width == other.width
        &&& self.height == other.height
        &&& self.has_launch_stub == other.has_launch_stub
        &&& self.end_pic_seen == other.end_pic_seen
        &&& self.termination == other.termination
        &&& self.terminated_at == other.terminated_at
        &&& self.header == other.header
    }
}

/// The counters of a [`PictProbe`].
#[derive(Debug, Clone, Copy, PartialEq, Eq, Structural)]
pub struct ProbeCounts {
    pub raster: u32,
    pub indexed_raster: u32,
    pub drawing: u32,
    pub same_shape: u32,
    pub text: u32,
    pub comment: u32,
    pub clip_rgn: u32,
    pub pattern_set: u32,
    pub pix_pattern_set: u32,
    pub compressed_quicktime: u32,
    pub uncompressed_quicktime: u32,
    pub reserved_op: u32,
    pub text_state_op: u32,
}

/// Which counter an opcode bumps.
#[derive(Debug, Clone, Copy, PartialEq, Eq, Structural)]
pub enum ProbeClass {
    /// No counter (colours, pen size, origin, `NOP`, `OpEndPic`).
    Plain,
    Drawing,
    SameShape,
    Clip,
    Text,
    Pattern,
    PixPattern,
    Raster,
    CompressedQuickTime,
    UncompressedQuickTime,
    Reserved,
    TextState,
    Comment,
    /// An opcode the walker cannot step past.
    Unknown,
}

/// A counter plus one, wrapping at 2^32.
pub open spec fn bump(c: u32) -> u32 {
    if c == u32::MAX {
        0
    } else {
        (c + 1) as u32
    }
}

fn bump_exec(c: u32) -> (n: u32)
    ensures
        n == bump(c),
{
    if c == u32::MAX {
        0
    } else {
        c + 1
    }
}

/// The counters after one opcode of class `k` (`indexed`: the raster
/// opcode carried an indexed pixel map).
pub open spec fn counts_after(c: ProbeCounts, k: ProbeClass, indexed: bool) -> ProbeCounts {
    ProbeCounts {
        raster: if k == ProbeClass::Raster { bump(c.raster) } else { c.raster },
        indexed_raster: if k == ProbeClass::Raster && indexed { bump(c.indexed_raster) } else { c.indexed_raster },
        drawing: if k == ProbeClass::Drawing { bump(c.drawing) } else { c.drawing },
        same_shape: if k == ProbeClass::SameShape { bump(c.same_shape) } else { c.same_shape },
        text: if k == ProbeClass::Text { bump(c.text) } else { c.text },
        comment: if k == ProbeClass::Comment { bump(c.comment) } else { c.comment },
        clip_rgn: if k == ProbeClass::Clip { bump(c.clip_rgn) } else { c.clip_rgn },
        pattern_set: if k == ProbeClass::Pattern { bump(c.pattern_set) } else { c.pattern_set },
        pix_pattern_set: if k == ProbeClass::PixPattern { bump(c.pix_pattern_set) } else { c.pix_pattern_set },
        compressed_quicktime: if k == ProbeClass::CompressedQuickTime {
            bump(c.compressed_quicktime)
        } else {
            c.compressed_quicktime
        },
        uncompressed_quicktime: if k == ProbeClass::UncompressedQuickTime {
            bump(c.uncompressed_quicktime)
        } else {
            c.uncompressed_quicktime
        },
        reserved_op: if k == ProbeClass::Reserved { bump(c.reserved_op) } else { c.reserved_op },
        text_state_op: if k == ProbeClass::TextState { bump(c.text_state_op) } else { c.text_state_op },
    }
}

/// Whether a raster opcode whose payload starts at `i` carries an
/// indexed pixel map: a bit/packbits opcode whose row-bytes word has
/// its top bit set.
pub open spec fn raster_indexed(s: Seq<u8>, i: int, op: u16) -> bool {
    op != OP_DIRECT_BITS_RECT && op != OP_DIRECT_BITS_RGN && be_u16(s, i) >= 0x8000
}

/// The counter class of a v2 opcode.
pub open spec fn v2_class(op: u16) -> ProbeClass {
    if op == OP_NOP || op == OP_OP_END_PIC || op == OP_RGB_FG_COL || op == OP_RGB_BK_COL || op
        == OP_FG_COLOR || op == OP_BG_COLOR || op == OP_PN_SIZE || op == OP_OV_SIZE || op
        == OP_ORIGIN {
        ProbeClass::Plain
    } else if op == OP_CLIP_RGN {
        ProbeClass::Clip
    } else if (0x0080 <= op <= 0x0084) || (0x0020 <= op <= 0x0023) || (0x0030 <= op <= 0x0034)
        || (0x0040 <= op <= 0x0044) || (0x0050 <= op <= 0x0054) || (0x0060 <= op <= 0x0064) || (
    0x0070 <= op <= 0x0074) {
        ProbeClass::Drawing
    } else if (0x0038 <= op <= 0x003C) || (0x0048 <= op <= 0x004C) || (0x0058 <= op <= 0x005C)
        || (0x0068 <= op <= 0x006C) {
        ProbeClass::SameShape
    } else if 0x0028 <= op <= 0x002B {
        ProbeClass::Text
    } else if op == OP_BK_PAT || op == OP_PN_PAT || op == OP_FILL_PAT {
        ProbeClass::Pattern
    } else if 0x0012 <= op <= 0x0014 {
        ProbeClass::PixPattern
    } else if op == OP_TX_FONT || op == OP_TX_FACE || op == OP_TX_MODE || op == OP_SP_EXTRA || op
        == OP_PN_MODE || op == OP_TX_SIZE || op == OP_TX_RATIO || op == OP_PN_LOC_HFRAC || op
        == OP_CH_EXTRA || (0x001C <= op <= 0x001F) || (0x002C <= op <= 0x002E) {
        ProbeClass::TextState
    } else if op == OP_SHORT_COMMENT || op == OP_LONG_COMMENT {
        ProbeClass::Comment
    } else if op == OP_BITS_RECT || op == OP_BITS_RGN || (0x0098 <= op <= 0x009B) {
        ProbeClass::Raster
    } else if op == OP_COMPRESSED_QUICKTIME {
        ProbeClass::CompressedQuickTime
    } else if op == OP_UNCOMPRESSED_QUICKTIME {
        ProbeClass::UncompressedQuickTime
    } else if reserved_skip_spec(op) is Some {
        ProbeClass::Reserved
    } else {
        ProbeClass::Unknown
    }
}

/// Payload size of the v2 opcodes whose payload has a fixed size.
pub open spec fn v2_fixed_size(op: u16) -> Option<int> {
    if op == OP_NOP || op == OP_OP_END_PIC || op == OP_HILITE_MODE || op == OP_DEF_HILITE || (0x0038 <= op <= 0x003C) || (
    0x0048 <= op <= 0x004C) || (0x0058 <= op <= 0x005C) {
        Some(0)
    } else if op == OP_TX_FACE {
        Some(1)
    } else if op == OP_TX_FONT || op == OP_TX_MODE || op == OP_PN_MODE || op == OP_TX_SIZE || op
        == OP_PN_LOC_HFRAC || op == OP_CH_EXTRA || op == OP_SHORT_COMMENT || op == 0x0023 {
        Some(2)
    } else if op == OP_FG_COLOR || op == OP_BG_COLOR || op == OP_PN_SIZE || op == OP_OV_SIZE || op
        == OP_ORIGIN || op == OP_SP_EXTRA || op == 0x0021 || (0x0068 <= op <= 0x006C) {
        Some(4)
    } else if op == OP_RGB_FG_COL || op == OP_RGB_BK_COL || op == OP_HILITE_COLOR || op
        == OP_OP_COLOR || op == 0x0022 {
        Some(6)
    } else if op == OP_TX_RATIO || op == 0x0020 || op == OP_BK_PAT || op == OP_PN_PAT || op
        == OP_FILL_PAT || (0x0030 <= op <= 0x0034) || (0x0040 <= op <= 0x0044) || (0x0050 <= op
        <= 0x0054) {
        Some(8)
    } else if 0x0060 <= op <= 0x0064 {
        Some(12)
    } else {
        None
    }
}

/// The colour an `RGBColor` record at `i` names.
pub open spec fn rgb16_at(s: Seq<u8>, i: int) -> Rgba {
    Rgba {
        r: (be_u16(s, i) / 256) as u8,
        g: (be_u16(s, i + 2) / 256) as u8,
        b: (be_u16(s, i + 4) / 256) as u8,
        a: 255,
    }
}

/// The text state after a fixed-size text-state opcode whose payload
/// starts at `i` (the variable-size `fontName` record is stated apart).
pub open spec fn text_state_after(op: u16, s: Seq<u8>, i: int, t: PictTextState) -> PictTextState {
    if op == OP_TX_FONT {
        PictTextState { tx_font: be_i16(s, i) as i16, ..t }
    } else if op == OP_TX_FACE {
        PictTextState { tx_face: PictTextFace(s[i]), ..t }
    } else if op == OP_TX_MODE {
        PictTextState { tx_mode: be_i16(s, i) as i16, ..t }
    } else if op == OP_SP_EXTRA {
        PictTextState { sp_extra: Fixed(be_i32(s, i) as i32), ..t }
    } else if op == OP_PN_MODE {
        PictTextState { pn_mode: be_i16(s, i) as i16, ..t }
    } else if op == OP_TX_SIZE {
        PictTextState { tx_size: be_i16(s, i) as i16, ..t }
    } else if op == OP_TX_RATIO {
        PictTextState {
            tx_ratio: TextRatio {
                numer_v: be_i16(s, i) as i16,
                numer_h: be_i16(s, i + 2) as i16,
                denom_v: be_i16(s, i + 4) as i16,
                denom_h: be_i16(s, i + 6) as i16,
            },
            ..t
        }
    } else if op == OP_PN_LOC_HFRAC {
        PictTextState { pn_loc_h_frac: be_i16(s, i) as i16, ..t }
    } else if op == OP_CH_EXTRA {
        PictTextState { ch_extra: be_i16(s, i) as i16, ..t }
    } else if op == OP_HILITE_MODE {
        PictTextState { hilite_mode_flag: true, ..t }
    } else if op == OP_HILITE_COLOR {
        PictTextState { hilite_color: Some(rgb16_at(s, i)), hilite_default: false, ..t }
    } else if op == OP_DEF_HILITE {
        PictTextState { hilite_default: true, hilite_color: None, ..t }
    } else if op == OP_OP_COLOR {
        PictTextState { op_color: Some(rgb16_at(s, i)), ..t }
    } else if op == OP_LINE_JUSTIFY {
        PictTextState {
            line_justify: Some(
                PictLineJustify {
                    inter_char_spacing: Fixed(be_i32(s, i + 2) as i32),
                    total_extra: Fixed(be_i32(s, i + 6) as i32),
                },
            ),
            ..t
        }
    } else if op == OP_GLYPH_STATE {
        PictTextState {
            glyph_state: Some(
                PictGlyphState {
                    outline_preferred: s[i + 2] != 0,
                    preserve_glyph: s[i + 3] != 0,
                    fractional_widths: s[i + 4] != 0,
                    scaling_disabled: s[i + 5] != 0,
                },
            ),
            ..t
        }
    } else {
        t
    }
}

/// Walk the per-row byte counts of `height` packed rows (a word count
/// when `row_bytes > 250`, a byte count otherwise) and the rows.
/// Where `rows` packed rows starting at `q` end: each is a byte count
/// (a word when `wide`) and that many bytes; `None` when one runs past
/// the end of `s`.
pub open spec fn packed_rows_end(s: Seq<u8>, q: int, rows: nat, wide: bool) -> Option<int>
    decreases rows,
{
    if rows == 0 {
        Some(q)
    } else {
        match packed_rows_end(s, q, (rows - 1) as nat, wide) {
            Some(e) => {
                let c = if wide { 2int } else { 1int };
                if e + c > s.len() {
                    None
                } else {
                    let n = if wide { be_u16(s, e) } else { s[e] as int };
                    if e + c + n > s.len() {
                        None
                    } else {
                        Some(e + c + n)
                    }
                }
            },
            None => None,
        }
    }
}

/// Once the packed rows run past the end, more rows do too.
proof fn lemma_packed_rows_end_none(s: Seq<u8>, q: int, k: nat, m: nat, wide: bool)
    requires
        k <= m,
        packed_rows_end(s, q, k, wide) is None,
    ensures
        packed_rows_end(s, q, m, wide) is None,
    decreases m - k,
{
    if k < m {
        lemma_packed_rows_end_none(s, q, k, (m - 1) as nat, wide);
    }
}

fn skip_packed_rows(r: &mut Reader<'_>, row_bytes: usize, height: usize) -> (res: Result<()>)
    requires
        old(r).pos <= old(r).bytes@.len(),
    ensures
        final(r).bytes@ == old(r).bytes@,
        final(r).pos <= final(r).bytes@.len(),
        res is Ok ==> old(r).pos <= final(r).pos,
        match packed_rows_end(old(r).bytes@, old(r).pos as int, height as nat, row_bytes > 250) {
            Some(e) => res is Ok && final(r).pos == e,
            None => res matches Err(e) && e is InvalidData,
        },
{
    let ghost s = r.bytes@;
    let ghost q = r.pos as int;
    let ghost wide = row_bytes > 250;
    let mut row: usize = 0;
    while row < height
        invariant
            r.bytes@ == old(r).bytes@,
            s == old(r).bytes@,
            q == old(r).pos,
            wide == (row_bytes > 250),
            old(r).pos <= r.pos <= r.bytes@.len(),
            row <= height,
            packed_rows_end(s, q, row as nat, wide) == Some(r.pos as int),
        decreases height - row,
    {
        let byte_count: usize = if row_bytes > 250 {
            match r.read_u16() {
                Ok(v) => v as usize,
                Err(e) => {
                    proof {
                        lemma_packed_rows_end_none(s, q, (row + 1) as nat, height as nat, wide);
                    }
                    return Err(e);
                },
            }
        } else {
            match r.read_u8() {
                Ok(v) => v as usize,
                Err(e) => {
                    proof {
                        lemma_packed_rows_end_none(s, q, (row + 1) as nat, height as nat, wide);
                    }
                    return Err(e);
                },
            }
        };
        match r.skip(byte_count) {
            Ok(()) => {},
            Err(e) => {
                proof {
                    lemma_packed_rows_end_none(s, q, (row + 1) as nat, height as nat, wide);
                }
                return Err(e);
            },
        }
        row += 1;
    }
    Ok(())
}

/// `row_bytes * height`, which cannot overflow for on-disk sizes.
fn rows_size(row_bytes: usize, height: usize) -> (n: usize)
    requires
        row_bytes < 0x8000,
        height <= 0xFFFF,
    ensures
        n == row_bytes * height,
{
    assert(row_bytes * height <= 0x8000 * 0xFFFF) by (nonlinear_arith)
        requires
            row_bytes < 0x8000,
            height <= 0xFFFF,
    ;
    row_bytes * height
}

/// `bottom - top` of an on-disk rectangle, or 0 when negative.
fn rect_rows(top: i16, bottom: i16) -> (n: usize)
    ensures
        n == (if bottom > top { bottom - top } else { 0 }),
        n <= 0xFFFF,
{
    if bottom > top {
        (bottom as i32 - top as i32) as usize
    } else {
        0
    }
}

/// `bottom - top` of the edges at `i` and `i + 4`, or 0 when negative.
pub open spec fn rows_at(s: Seq<u8>, i: int) -> int {
    if be_i16(s, i + 4) > be_i16(s, i) {
        be_i16(s, i + 4) - be_i16(s, i)
    } else {
        0
    }
}

/// The header of the raster record of `op` at `p` (through the colour
/// table of an indexed PixMap, before srcRect): where it ends, the row
/// bytes, the rows and the packType. `None` when it is cut short or a
/// field is out of range.
pub open spec fn raster_head(s: Seq<u8>, p: int, op: u16) -> Option<(int, int, int, int)> {
    if op == OP_DIRECT_BITS_RECT || op == OP_DIRECT_BITS_RGN {
        if p + 6 <= s.len() && be_u16(s, p + 4) >= 0x8000 && p + 50 <= s.len() {
            Some((p + 50, be_u16(s, p + 4) % 0x4000, rows_at(s, p + 6), be_u16(s, p + 16)))
        } else {
            None
        }
    } else if p + 2 <= s.len() && be_u16(s, p) >= 0x8000 {
        let n = be_i16(s, p + 52) + 1;
        if p + 54 <= s.len() && 1 <= n <= 256 && p + 54 + 8 * n <= s.len() {
            Some((p + 54 + 8 * n, be_u16(s, p) % 0x4000, rows_at(s, p + 2), be_u16(s, p + 12)))
        } else {
            None
        }
    } else if p + 10 <= s.len() {
        Some((p + 10, be_u16(s, p), rows_at(s, p + 2), 0))
    } else {
        None
    }
}

/// `rows` rows of `row_bytes` bytes stored as they are at `q`: where
/// they end.
pub open spec fn plain_rows_end(s: Seq<u8>, q: int, row_bytes: int, rows: int) -> Option<int> {
    if q + row_bytes * rows <= s.len() {
        Some(q + row_bytes * rows)
    } else {
        None
    }
}

/// Where the raster record of `op` at `p` ends: header, srcRect,
/// dstRect and mode, the region of the `Rgn` forms, then the rows,
/// laid out by the opcode and (for direct pixels) the packType.
pub open spec fn raster_skip_end(s: Seq<u8>, p: int, op: u16) -> Option<int> {
    match raster_head(s, p, op) {
        Some((h, rb, rows, pt)) => {
            let m = h + 18;
            let with_rgn = op == OP_BITS_RGN || op == OP_PACK_BITS_RGN || op == OP_DIRECT_BITS_RGN;
            if m > s.len() || (with_rgn && (m + 2 > s.len() || be_u16(s, m) < 10 || m + be_u16(s, m) > s.len())) {
                None
            } else {
                let q = if with_rgn { m + be_u16(s, m) } else { m };
                if op == OP_BITS_RECT || op == OP_BITS_RGN || ((op == OP_PACK_BITS_RECT || op == OP_PACK_BITS_RGN)
                    && rb < 8) || ((op == OP_DIRECT_BITS_RECT || op == OP_DIRECT_BITS_RGN) && (pt == 0 || pt
                    == 1)) {
                    plain_rows_end(s, q, rb, rows)
                } else if op == OP_PACK_BITS_RECT || op == OP_PACK_BITS_RGN || pt == 3 || pt == 4 {
                    packed_rows_end(s, q, rows as nat, rb > 250)
                } else if pt == 2 {
                    plain_rows_end(s, q, (rb / 4) * 3, rows)
                } else {
                    None
                }
            }
        },
        None => None,
    }
}

/// The writer's component-packed rows, stored at `q`, end where the
/// row byte counts say.
proof fn lemma_cpb_rows_end(s: Seq<u8>, q: int, data: Seq<u8>, w: int, n: int)
    requires
        0 <= q,
        1 <= w,
        w * 4 <= 0x3FFF,
        n >= 0,
        q + crate::encoder::rows_spec(PackType::ComponentPackBits, data, w, n).len() <= s.len(),
        s.subrange(q, q + crate::encoder::rows_spec(PackType::ComponentPackBits, data, w, n).len())
            == crate::encoder::rows_spec(PackType::ComponentPackBits, data, w, n),
    ensures
        packed_rows_end(s, q, n as nat, w * 4 > 250) == Some(
            q + crate::encoder::rows_spec(PackType::ComponentPackBits, data, w, n).len(),
        ),
    decreases n,
{
    if n > 0 {
        let p = PackType::ComponentPackBits;
        let s1 = crate::encoder::rows_spec(p, data, w, n - 1);
        let row = crate::encoder::rgba_row(data, w, n - 1);
        let rs = crate::encoder::row_spec(p, row, w);
        let all = crate::encoder::rows_spec(p, data, w, n);
        assert(all == s1 + rs);
        assert(s.subrange(q, q + s1.len()) =~= s1) by {
            assert forall|i: int| 0 <= i < s1.len() implies #[trigger] s.subrange(q, q + s1.len())[i] == s1[i] by {
                assert(s.subrange(q, q + all.len())[i] == all[i]);
            }
        }
        lemma_cpb_rows_end(s, q, data, w, n - 1);
        let pr = crate::encoder::plane(row, w, 0);
        let pg = crate::encoder::plane(row, w, 1);
        let pb = crate::encoder::plane(row, w, 2);
        crate::packbits::lemma_pb_encode_len(pr);
        crate::packbits::lemma_pb_encode_len(pg);
        crate::packbits::lemma_pb_encode_len(pb);
        let rc = crate::packbits::pb_encode(pr);
        let gc = crate::packbits::pb_encode(pg);
        let bc = crate::packbits::pb_encode(pb);
        let l: int = (rc.len() + gc.len() + bc.len()) as int;
        assert(l <= 3 * (w + 1 + w / 128));
        let e = q + s1.len();
        assert forall|i: int| 0 <= i < rs.len() implies #[trigger] s[e + i] == rs[i] by {
            assert(s.subrange(q, q + all.len())[s1.len() + i] == all[s1.len() + i]);
        }
        assert(s.subrange(q, q + all.len())[s1.len() as int] == all[s1.len() as int]);
        assert(all[s1.len() as int] == rs[0]);
        if w * 4 > 250 {
            assert(l < 65536);
            let bcount = u16_bytes(l);
            assert(rs == bcount + rc + gc + bc);
            lemma_u16_roundtrip(l, Seq::empty(), rc + gc + bc);
            assert(Seq::<u8>::empty() + bcount + (rc + gc + bc) =~= rs);
            assert(s[e] == rs[0] && s[e + 1] == rs[1]);
            assert(be_u16(s, e) == be_u16(rs, 0));
        } else {
            assert(w <= 62);
            assert(l < 256);
            assert(rs[0] == l);
            assert(s[e] == rs[0]);
        }
    }
}

/// Stepping past the writer's `DirectBitsRect` record whose
/// uncompressed stride fits 14 bits consumes exactly that record.
pub proof fn lemma_skip_writer_direct_record(s: Seq<u8>, p: int, pk: PackType, w: u32, h: u32, data: Seq<u8>)
    requires
        record_at(s, p, pk, w, h, data),
        w * 4 < 0x4000,
    ensures
        raster_skip_end(s, p, OP_DIRECT_BITS_RECT) == Some(p + record_len(pk, w, h, data)),
{
    lemma_direct_record_fields(s, p, pk, w, h, data);
    if !(pk is ComponentPackBits) {
        lemma_rows_len_fixed(pk, data, w as int, h as int);
    }
    let body = crate::encoder::direct_bits_body(pk, w, h, crate::encoder::frame_bytes(w, h), 0, data);
    let rows = crate::encoder::rows_spec(pk, data, w as int, h as int);
    let tail = s.subrange(p + body.len(), s.len() as int);
    assert(s.subrange(p + 68, s.len() as int).len() == rows.len() + tail.len());
    assert(body.len() == 68 + rows.len());
    assert((w * 4 + 0x8000) % 0x4000 == w * 4);
    assert(rows_at(s, p + 6) == h);
    if pk is Raw {
        assert(h * (4 * w) == (w * 4) * h) by (nonlinear_arith);
    } else if pk is Packed24 {
        assert((w * 4) / 4 * 3 == 3 * w);
        assert(h * (3 * w) == (3 * w) * h) by (nonlinear_arith);
    } else {
        assert(s.subrange(p + 68, p + 68 + rows.len()) =~= rows) by {
            assert forall|i: int| 0 <= i < rows.len() implies #[trigger] s.subrange(p + 68, p + 68 + rows.len())[i]
                == rows[i] by {
                assert(s.subrange(p + 68, s.len() as int)[i] == (rows + tail)[i]);
            }
        }
        lemma_cpb_rows_end(s, p + 68, data, w as int, h as int);
    }
}

/// The fields the raster walker reads in a `DirectBitsRect` opcode
/// word followed by the writer's record for `dst`.
#[verifier::rlimit(60)]
#[verifier::spinoff_prover]
proof fn lemma_direct_op_fields(w: u32, h: u32, dst: Seq<u8>, data: Seq<u8>, pk: PackType)
    requires
        1 <= w <= 4095,
        1 <= h <= 32767,
        dst.len() == 8,
        !(pk is Rle16),
    ensures
        ({
            let s = u16_bytes(0x009A) + crate::encoder::direct_bits_body(pk, w, h, dst, 0, data);
            let rows = crate::encoder::rows_spec(pk, data, w as int, h as int);
            &&& s.len() == 70 + rows.len()
            &&& be_u16(s, 6) == w * 4 + 0x8000
            &&& rows_at(s, 8) == h
            &&& be_u16(s, 18) == crate::encoder::pack_word(pk)
            &&& s.subrange(70, s.len() as int) == rows
        }),
{
    let body = crate::encoder::direct_bits_body(pk, w, h, dst, 0, data);
    let s = u16_bytes(0x009A) + body;
    let fb = crate::encoder::frame_bytes(w, h);
    let dp = crate::encoder::direct_pixmap(pk, w, h);
    let rows = crate::encoder::rows_spec(pk, data, w as int, h as int);
    let hdr = crate::wire::u32_bytes(0xFF) + dp + fb + dst + u16_bytes(0);
    assert(body =~= hdr + rows);
    assert(dp.len() == 46);
    assert(hdr.len() == 68);
    assert(h as int % 65536 == h as int && w as int % 65536 == w as int);
    assert(fb =~= u16_bytes(0) + u16_bytes(0) + u16_bytes(h as int) + u16_bytes(w as int));
    assert(s[6] == dp[0] && s[7] == dp[1]);
    assert(s[8] == dp[2] && s[9] == dp[3] && s[12] == dp[6] && s[13] == dp[7]);
    assert(s[8] == 0 && s[9] == 0);
    assert(be_i16(s, 8) == 0);
    assert(be_i16(s, 12) == h);
    assert(s[18] == dp[12] && s[19] == dp[13]);
    assert(s.subrange(70, s.len() as int) =~= rows);
}

/// The raster walker on a `DirectBitsRect` opcode word whose fields
/// announce `h` rows of `w` pixels in packing `pk`, followed by `n`
/// bytes of rows that end where the packing says, reaches the end.
#[verifier::spinoff_prover]
proof fn lemma_direct_skip_from_fields(s: Seq<u8>, w: int, h: int, pk: PackType, n: int)
    requires
        1 <= w,
        w * 4 <= 0x3FFF,
        h >= 1,
        n >= 0,
        s.len() == 70 + n,
        be_u16(s, 6) == w * 4 + 0x8000,
        rows_at(s, 8) == h,
        be_u16(s, 18) == crate::encoder::pack_word(pk),
        pk is Raw ==> n == (w * 4) * h,
        pk is Packed24 ==> n == (3 * w) * h,
        pk is ComponentPackBits ==> packed_rows_end(s, 70, h as nat, w * 4 > 250) == Some(70 + n),
        pk is Raw || pk is Packed24 || pk is ComponentPackBits,
    ensures
        raster_skip_end(s, 2, OP_DIRECT_BITS_RECT) == Some(s.len() as int),
{
    assert((w * 4 + 0x8000) % 0x4000 == w * 4);
    assert(raster_head(s, 2, OP_DIRECT_BITS_RECT) == Some((52int, w * 4, h, crate::encoder::pack_word(pk))));
    if pk is Packed24 {
        assert((w * 4) / 4 * 3 == 3 * w);
        assert(plain_rows_end(s, 70, (w * 4) / 4 * 3, h) == Some(70 + n));
    } else if pk is Raw {
        assert(plain_rows_end(s, 70, w * 4, h) == Some(70 + n));
    }
}

/// The opcode word and writer's record for `dst`, `w` by `h` pixels
/// in a lossless packing other than `Rle16`, walk to their end.
#[verifier::spinoff_prover]
proof fn lemma_skip_direct_op_body(w: u32, h: u32, dst: Seq<u8>, data: Seq<u8>, pk: PackType)
    requires
        1 <= w,
        w * 4 <= 0x3FFF,
        1 <= h <= 32767,
        dst.len() == 8,
        pk is Raw || pk is Packed24 || pk is ComponentPackBits,
    ensures
        ({
            let s = u16_bytes(0x009A) + crate::encoder::direct_bits_body(pk, w, h, dst, 0, data);
            raster_skip_end(s, 2, OP_DIRECT_BITS_RECT) == Some(s.len() as int)
        }),
{
    let s = u16_bytes(0x009A) + crate::encoder::direct_bits_body(pk, w, h, dst, 0, data);
    let rows = crate::encoder::rows_spec(pk, data, w as int, h as int);
    lemma_direct_op_fields(w, h, dst, data, pk);
    if pk is Raw || pk is Packed24 {
        lemma_rows_len_fixed(pk, data, w as int, h as int);
        assert(h * (4 * w) == (w * 4) * h) by (nonlinear_arith);
        assert(h * (3 * w) == (3 * w) * h) by (nonlinear_arith);
    } else {
        lemma_cpb_rows_end(s, 70, data, w as int, h as int);
    }
    lemma_direct_skip_from_fields(s, w as int, h as int, pk, rows.len() as int);
}

/// Stepping past the `DirectBitsRect` opcode that
/// `build_direct_bits_rect_op` produces with raw, `Packed24` or
/// component-packed rows consumes exactly its record, and the raster
/// does not count as indexed, when its height fits the signed bounds.
pub proof fn lemma_skip_built_direct_op(top: i16, left: i16, bottom: i16, right: i16, data: Seq<u8>, pk: PackType)
    requires
        top < bottom,
        bottom - top <= 32767,
        left < right,
        data.len() == (right - left) * (bottom - top) * 4,
        crate::encoder::row_bytes_raw(pk, right - left) <= 0x3FFF,
        pk is Raw || pk is Packed24 || pk is ComponentPackBits,
    ensures
        ({
            let w = (right - left) as u32;
            let h = (bottom - top) as u32;
            let dst = crate::wire::i16_bytes(top as int) + crate::wire::i16_bytes(left as int)
                + crate::wire::i16_bytes(bottom as int) + crate::wire::i16_bytes(right as int);
            let s = u16_bytes(0x009A) + crate::encoder::direct_bits_body(pk, w, h, dst, 0, data);
            &&& raster_skip_end(s, 2, OP_DIRECT_BITS_RECT) == Some(s.len() as int)
            &&& !raster_indexed(s, 2, OP_DIRECT_BITS_RECT)
        }),
{
    let w = (right - left) as u32;
    let h = (bottom - top) as u32;
    let dst = crate::wire::i16_bytes(top as int) + crate::wire::i16_bytes(left as int)
        + crate::wire::i16_bytes(bottom as int) + crate::wire::i16_bytes(right as int);
    assert(dst.len() == 8);
    lemma_skip_direct_op_body(w, h, dst, data, pk);
}

/// Walk past the payload of a v2 raster opcode (`BitsRect`, `BitsRgn`,
/// `PackBitsRect`, `PackBitsRgn`, `DirectBitsRect`, `DirectBitsRgn`)
/// without decoding pixels. `Ok(true)` when the opcode carried an
/// indexed pixel map. A direct opcode whose row-bytes word does not
/// announce a pixel map is `InvalidData`; a direct pixel map of an
/// unknown packing is `Unsupported`.
fn skip_raster_opcode_v2(r: &mut Reader<'_>, opcode: u16) -> (res: Result<bool>)
    requires
        old(r).pos <= old(r).bytes@.len(),
        opcode == OP_BITS_RECT || opcode == OP_BITS_RGN || opcode == OP_PACK_BITS_RECT || opcode
            == OP_PACK_BITS_RGN || opcode == OP_DIRECT_BITS_RECT || opcode == OP_DIRECT_BITS_RGN,
    ensures
        final(r).bytes@ == old(r).bytes@,
        final(r).pos <= final(r).bytes@.len(),
        res is Ok ==> old(r).pos < final(r).pos,
        res matches Ok(b) ==> b == raster_indexed(old(r).bytes@, old(r).pos as int, opcode),
        ((opcode == OP_DIRECT_BITS_RECT || opcode == OP_DIRECT_BITS_RGN) && old(r).rem() >= 6
            && be_u16(old(r).bytes@, old(r).pos + 4) < 0x8000) ==> (res matches Err(e)
            && e is InvalidData),
        match raster_skip_end(old(r).bytes@, old(r).pos as int, opcode) {
            Some(e) => res is Ok && final(r).pos == e,
            None => res is Err,
        },
{
    let is_direct = opcode == OP_DIRECT_BITS_RECT || opcode == OP_DIRECT_BITS_RGN;
    let with_rgn = opcode == OP_BITS_RGN || opcode == OP_PACK_BITS_RGN || opcode == OP_DIRECT_BITS_RGN;
    let ghost s = r.bytes@;
    let ghost p0 = r.pos as int;
    let mut indexed = false;
    let row_bytes: usize;
    let height: usize;
    let pack_type: u16;
    if is_direct {
        let _base = r.read_u32()?;
        let rb_raw = r.read_u16()?;
        if rb_raw < 0x8000 {
            return Err(PictError::invalid("DirectBitsRect row-bytes word announces a bitmap, not a pixel map"));
        }
        row_bytes = (rb_raw % 0x4000) as usize;
        let (top, _left, bottom, _right) = r.read_rect()?;
        height = rect_rows(top, bottom);
        let _pm_version = r.read_u16()?;
        pack_type = r.read_u16()?;
        r.skip(32)?;
    } else {
        let rb_raw = r.read_u16()?;
        if rb_raw >= 0x8000 {
            indexed = true;
            row_bytes = (rb_raw % 0x4000) as usize;
            let (top, _left, bottom, _right) = r.read_rect()?;
            height = rect_rows(top, bottom);
            let _pm_version = r.read_u16()?;
            pack_type = r.read_u16()?;
            r.skip(32)?;
            let _ct_seed = r.read_u32()?;
            let _ct_flags = r.read_i16()?;
            let ct_size = r.read_i16()?;
            if ct_size < 0 || ct_size > 255 {
                return Err(PictError::invalid("raster opcode colour table size out of range"));
            }
            let n_entries = ct_size as usize + 1;
            r.skip(n_entries * 8)?;
        } else {
            row_bytes = rb_raw as usize;
            let (top, _left, bottom, _right) = r.read_rect()?;
            height = rect_rows(top, bottom);
            pack_type = 0;
        }
    }
    assert(indexed == raster_indexed(s, p0, opcode));
    // srcRect, dstRect and the transfer mode.
    r.skip(18)?;
    if with_rgn {
        let rgn_size = r.read_u16()? as usize;
        if rgn_size < 10 {
            return Err(PictError::invalid("raster opcode region size smaller than its 10-byte header"));
        }
        r.skip(rgn_size - 2)?;
    }
    if opcode == OP_BITS_RECT || opcode == OP_BITS_RGN {
        r.skip(rows_size(row_bytes, height))?;
    } else if opcode == OP_PACK_BITS_RECT || opcode == OP_PACK_BITS_RGN {
        if row_bytes < 8 {
            r.skip(rows_size(row_bytes, height))?;
        } else {
            skip_packed_rows(r, row_bytes, height)?;
        }
    } else {
        if pack_type == 0 || pack_type == 1 {
            r.skip(rows_size(row_bytes, height))?;
        } else if pack_type == 2 {
            r.skip(rows_size((row_bytes / 4) * 3, height))?;
        } else if pack_type == 3 || pack_type == 4 {
            skip_packed_rows(r, row_bytes, height)?;
        } else {
            return Err(PictError::unsupported("DirectBitsRect packType whose row layout the probe does not know"));
        }
    }
    Ok(indexed)
}

/// The v1 raster opcodes share the v2 layout; only the opcode width
/// differs.
fn skip_raster_opcode_v1(r: &mut Reader<'_>, opcode: u16) -> (res: Result<bool>)
    requires
        old(r).pos <= old(r).bytes@.len(),
        opcode == 0x90 || opcode == 0x91 || (0x98 <= opcode <= 0x9B),
    ensures
        final(r).bytes@ == old(r).bytes@,
        final(r).pos <= final(r).bytes@.len(),
        res is Ok ==> old(r).pos < final(r).pos,
        res matches Ok(b) ==> b == raster_indexed(old(r).bytes@, old(r).pos as int, opcode),
        match raster_skip_end(old(r).bytes@, old(r).pos as int, opcode) {
            Some(e) => res is Ok && final(r).pos == e,
            None => res is Err,
        },
{
    skip_raster_opcode_v2(r, opcode)
}

/// Walk past a colour-pattern record (`BkPixPat`, `PnPixPat`,
/// `FillPixPat`): the pattern type, the 8-byte fallback, then a colour
/// pixel map with its colour table and packed rows (type 1) or an
/// `RGBColor` (type 2). Any other type is `Unsupported`.
fn skip_pix_pat(r: &mut Reader<'_>) -> (res: Result<()>)
    requires
        old(r).pos <= old(r).bytes@.len(),
    ensures
        final(r).bytes@ == old(r).bytes@,
        final(r).pos <= final(r).bytes@.len(),
        res is Ok ==> old(r).pos < final(r).pos,
        (old(r).rem() >= 10 && be_u16(old(r).bytes@, old(r).pos as int) != 1 && be_u16(
            old(r).bytes@,
            old(r).pos as int,
        ) != 2) ==> (res matches Err(e) && e is Unsupported),
        (old(r).rem() >= 16 && be_u16(old(r).bytes@, old(r).pos as int) == 2) ==> (res is Ok
            && final(r).pos == old(r).pos + 16),
{
    let pat_type = r.read_u16()?;
    r.skip(8)?;
    if pat_type == 1 {
        let rb_raw = r.read_u16()?;
        let row_bytes = (rb_raw % 0x4000) as usize;
        let (top, _left, bottom, _right) = r.read_rect()?;
        let height = rect_rows(top, bottom);
        r.skip(36)?;
        let _ct_seed = r.read_u32()?;
        let _ct_flags = r.read_i16()?;
        let ct_size = r.read_i16()?;
        let n_entries: usize = if ct_size < 0 { 0 } else { ct_size as usize + 1 };
        r.skip(n_entries * 8)?;
        if row_bytes < 8 {
            r.skip(rows_size(row_bytes, height))?;
        } else {
            skip_packed_rows(r, row_bytes, height)?;
        }
        Ok(())
    } else if pat_type == 2 {
        r.skip(6)
    } else {
        Err(PictError::unsupported("PixPat of a pattern type other than 1 (colour pixel map) or 2 (dither)"))
    }
}

/// Walk past a record that starts with its own 16-bit size (the size
/// word included); a size under `min` is `InvalidData`.
fn skip_sized(r: &mut Reader<'_>, min: usize) -> (res: Result<()>)
    requires
        old(r).pos <= old(r).bytes@.len(),
        2 <= min,
    ensures
        final(r).bytes@ == old(r).bytes@,
        final(r).pos <= final(r).bytes@.len(),
        ({
            let s = old(r).bytes@;
            let n = be_u16(s, old(r).pos as int);
            &&& res is Ok <==> (old(r).rem() >= 2 && n >= min && old(r).rem() >= n)
            &&& res is Ok ==> final(r).pos == old(r).pos + n
            &&& (old(r).rem() >= 2 && n < min) ==> (res matches Err(e) && e is InvalidData)
        }),
{
    let n = r.read_u16()? as usize;
    if n < min {
        return Err(PictError::invalid("record size smaller than its header"));
    }
    r.skip(n - 2)
}

/// Walk past a text-drawing payload: `pre` bytes of pen movement, a
/// count byte, then that many characters.
fn skip_text(r: &mut Reader<'_>, pre: usize) -> (res: Result<()>)
    requires
        old(r).pos <= old(r).bytes@.len(),
        pre <= 4,
    ensures
        final(r).bytes@ == old(r).bytes@,
        final(r).pos <= final(r).bytes@.len(),
        ({
            let s = old(r).bytes@;
            let p = old(r).pos as int;
            &&& res is Ok <==> (old(r).rem() >= pre + 1 && old(r).rem() >= pre + 1 + s[p + pre])
            &&& res is Ok ==> final(r).pos == p + pre + 1 + s[p + pre]
        }),
{
    r.skip(pre)?;
    let n = r.read_u8()? as usize;
    r.skip(n)
}

/// The comment record whose payload starts at `i` (`long`: a
/// `LongComment` with its size word and data).
pub open spec fn comment_matches(c: PictComment, s: Seq<u8>, i: int, long: bool) -> bool {
    &&& c.kind == be_u16(s, i)
    &&& c.is_long == long
    &&& c.data@ == (if long { s.subrange(i + 4, i + 4 + be_u16(s, i + 2)) } else { Seq::<u8>::empty() })
}

/// A `LongComment` reads back as its kind and data, and the same in
/// both framings: after the v2 opcode word and after the v1 opcode
/// byte.
pub proof fn lemma_long_comment_framings(kind: u16, data: Seq<u8>, c: PictComment)
    requires
        data.len() <= 0xFFFF,
    ensures
        comment_matches(c, u16_bytes(0x00A1) + long_comment_body(kind, data), 2, true) <==> (c.kind == kind
            && c.data@ == data && c.is_long),
        comment_matches(c, seq![0xA1u8] + long_comment_body(kind, data), 1, true) <==> (c.kind == kind
            && c.data@ == data && c.is_long),
{
    let body = long_comment_body(kind, data);
    let n = data.len() as int;
    let s2 = u16_bytes(0x00A1) + body;
    let s1 = seq![0xA1u8] + body;
    lemma_u16_roundtrip(kind as int, u16_bytes(0x00A1), u16_bytes(n) + data);
    assert(s2 =~= u16_bytes(0x00A1) + u16_bytes(kind as int) + (u16_bytes(n) + data));
    lemma_u16_roundtrip(n, u16_bytes(0x00A1) + u16_bytes(kind as int), data);
    assert(s2 =~= (u16_bytes(0x00A1) + u16_bytes(kind as int)) + u16_bytes(n) + data);
    assert(s2.subrange(6, 6 + n) =~= data);
    lemma_u16_roundtrip(kind as int, seq![0xA1u8], u16_bytes(n) + data);
    assert(s1 =~= seq![0xA1u8] + u16_bytes(kind as int) + (u16_bytes(n) + data));
    lemma_u16_roundtrip(n, seq![0xA1u8] + u16_bytes(kind as int), data);
    assert(s1 =~= (seq![0xA1u8] + u16_bytes(kind as int)) + u16_bytes(n) + data);
    assert(s1.subrange(5, 5 + n) =~= data);
}

/// A colour as the builders write it (each 8-bit channel repeated in
/// both bytes of its 16-bit word) reads back as that colour, opaque.
pub proof fn lemma_rgb_payload_reads_back(r: u8, g: u8, b: u8)
    ensures
        rgb16_at(rgb_payload(r, g, b), 0) == (Rgba { r, g, b, a: 255 }),
{
    let er = expand_spec(r);
    let eg = expand_spec(g);
    let eb = expand_spec(b);
    assert(er / 256 == r && er < 65536) by (nonlinear_arith)
        requires er == r as int * 257, r < 256;
    assert(eg / 256 == g && eg < 65536) by (nonlinear_arith)
        requires eg == g as int * 257, g < 256;
    assert(eb / 256 == b && eb < 65536) by (nonlinear_arith)
        requires eb == b as int * 257, b < 256;
    let s = rgb_payload(r, g, b);
    lemma_u16_roundtrip(er, Seq::empty(), u16_bytes(eg) + u16_bytes(eb));
    assert(s =~= Seq::<u8>::empty() + u16_bytes(er) + (u16_bytes(eg) + u16_bytes(eb)));
    lemma_u16_roundtrip(eg, u16_bytes(er), u16_bytes(eb));
    assert(s =~= u16_bytes(er) + u16_bytes(eg) + u16_bytes(eb));
    lemma_u16_roundtrip(eb, u16_bytes(er) + u16_bytes(eg), Seq::empty());
    assert(s =~= (u16_bytes(er) + u16_bytes(eg)) + u16_bytes(eb) + Seq::<u8>::empty());
}

/// Read a `ShortComment` (kind word) or `LongComment` (kind, size,
/// data) and append it to `comments`.
fn read_comment(r: &mut Reader<'_>, long: bool, comments: &mut Vec<PictComment>) -> (res: Result<()>)
    requires
        old(r).pos <= old(r).bytes@.len(),
    ensures
        final(r).bytes@ == old(r).bytes@,
        final(r).pos <= final(r).bytes@.len(),
        ({
            let s = old(r).bytes@;
            let p = old(r).pos as int;
            &&& !long ==> (res is Ok <==> old(r).rem() >= 2)
            &&& long ==> (res is Ok <==> (old(r).rem() >= 4 && old(r).rem() >= 4 + be_u16(s, p + 2)))
            &&& res is Ok ==> final(r).pos == p + (if long { 4 + be_u16(s, p + 2) } else { 2 })
            &&& res is Ok ==> final(comments)@.len() == old(comments)@.len() + 1
            &&& res is Ok ==> final(comments)@.subrange(0, old(comments)@.len() as int) == old(comments)@
            &&& res is Ok ==> comment_matches(final(comments)@.last(), s, p, long)
            &&& res is Err ==> final(comments)@ == old(comments)@
        }),
{
    let kind = r.read_u16()?;
    if long {
        let n = r.read_u16()? as usize;
        let data = r.read_bytes(n)?;
        let mut v: Vec<u8> = Vec::new();
        let mut i: usize = 0;
        while i < data.len()
            invariant
                i <= data@.len(),
                v@ == data@.subrange(0, i as int),
            decreases data@.len() - i,
        {
            v.push(data[i]);
            i += 1;
        }
        assert(v@ =~= data@);
        let c = PictComment::long(kind, v);
        assert(comment_matches(c, old(r).bytes@, old(r).pos as int, long));
        comments.push(c);
    } else {
        let c = PictComment::short(kind);
        assert(c.data@ =~= Seq::<u8>::empty());
        assert(comment_matches(c, old(r).bytes@, old(r).pos as int, long));
        comments.push(c);
    }
    assert(comments@.subrange(0, old(comments)@.len() as int) =~= old(comments)@);
    Ok(())
}

/// Read the payload of a text / pen-mode / highlight state opcode
/// (`TxFont`, `TxFace`, `TxMode`, `SpExtra`, `PnMode`, `TxSize`,
/// `TxRatio`, `PnLocHFrac`, `ChExtra`, `HiliteMode`, `HiliteColor`,
/// `DefHilite`, `OpColor`, `fontName`, `lineJustify`, `glyphState`)
/// into `t`. The three size-prefixed records reject a size smaller
/// than their fixed part (`InvalidData`).
fn read_text_state_op(r: &mut Reader<'_>, opcode: u16, t: &mut PictTextState) -> (res: Result<()>)
    requires
        old(r).pos <= old(r).bytes@.len(),
        v2_class(opcode) == ProbeClass::TextState,
    ensures
        final(r).bytes@ == old(r).bytes@,
        final(r).pos <= final(r).bytes@.len(),
        res is Ok ==> old(r).pos <= final(r).pos,
        res is Err ==> *final(t) == *old(t),
        ({
            let s = old(r).bytes@;
            let p = old(r).pos as int;
            &&& v2_fixed_size(opcode) matches Some(n) ==> ((res is Ok <==> old(r).rem() >= n) && (res is Ok
                ==> final(r).pos == p + n))
            &&& (res is Ok && opcode != OP_FONT_NAME) ==> *final(t) == text_state_after(opcode, s, p, *old(t))
            &&& (res is Ok && opcode == OP_FONT_NAME) ==> {
                &&& *final(t) == (PictTextState { font_name: final(t).font_name, ..*old(t) })
                &&& final(t).font_name matches Some(f) && f.old_font_id == be_i16(s, p + 2) && f.name@
                    == s.subrange(p + 5, p + 5 + s[p + 4])
            }
            &&& (opcode == OP_FONT_NAME && old(r).rem() >= 2 && be_u16(s, p) < 5) ==> (res matches Err(e)
                && e is InvalidData)
            &&& (opcode == OP_LINE_JUSTIFY && old(r).rem() >= 2 && be_u16(s, p) < 8) ==> (res matches Err(e)
                && e is InvalidData)
            &&& (opcode == OP_GLYPH_STATE && old(r).rem() >= 2 && be_u16(s, p) < 4) ==> (res matches Err(e)
                && e is InvalidData)
        }),
{
    let ghost s = r.bytes@;
    let ghost p = r.pos as int;
    if opcode == OP_TX_FONT {
        t.tx_font = r.read_i16()?;
    } else if opcode == OP_TX_FACE {
        t.tx_face = PictTextFace::from(r.read_u8()?);
    } else if opcode == OP_TX_MODE {
        t.tx_mode = r.read_i16()?;
    } else if opcode == OP_SP_EXTRA {
        t.sp_extra = Fixed(r.read_i32()?);
    } else if opcode == OP_PN_MODE {
        t.pn_mode = r.read_i16()?;
    } else if opcode == OP_TX_SIZE {
        t.tx_size = r.read_i16()?;
    } else if opcode == OP_TX_RATIO {
        if r.remaining() < 8 {
            return Err(PictError::invalid("truncated TxRatio"));
        }
        let numer_v = r.read_i16()?;
        let numer_h = r.read_i16()?;
        let denom_v = r.read_i16()?;
        let denom_h = r.read_i16()?;
        t.tx_ratio = TextRatio { numer_v, numer_h, denom_v, denom_h };
    } else if opcode == OP_PN_LOC_HFRAC {
        t.pn_loc_h_frac = r.read_i16()?;
    } else if opcode == OP_CH_EXTRA {
        t.ch_extra = r.read_i16()?;
    } else if opcode == OP_HILITE_MODE {
        t.hilite_mode_flag = true;
    } else if opcode == OP_HILITE_COLOR || opcode == OP_OP_COLOR {
        if r.remaining() < 6 {
            return Err(PictError::invalid("truncated RGBColor"));
        }
        let rr = r.read_u16()?;
        let gg = r.read_u16()?;
        let bb = r.read_u16()?;
        if opcode == OP_HILITE_COLOR {
            t.hilite_color = Some(Rgba::from_rgb16(rr, gg, bb));
            t.hilite_default = false;
        } else {
            t.op_color = Some(Rgba::from_rgb16(rr, gg, bb));
        }
    } else if opcode == OP_DEF_HILITE {
        t.hilite_default = true;
        t.hilite_color = None;
    } else if opcode == OP_FONT_NAME {
        let n = r.read_u16()? as usize;
        if n < 5 {
            return Err(PictError::invalid("fontName data length smaller than its 5-byte minimum"));
        }
        let old_font_id = r.read_i16()?;
        let name_len = r.read_u8()? as usize;
        let remaining = n - 5;
        if name_len > remaining {
            return Err(PictError::invalid("fontName name length exceeds its record"));
        }
        let name = r.read_bytes(name_len)?;
        r.skip(remaining - name_len)?;
        let mut v: Vec<u8> = Vec::new();
        let mut i: usize = 0;
        while i < name.len()
            invariant
                i <= name@.len(),
                v@ == name@.subrange(0, i as int),
            decreases name@.len() - i,
        {
            v.push(name[i]);
            i += 1;
        }
        t.font_name = Some(PictFontName::new(old_font_id, v));
    } else if opcode == OP_LINE_JUSTIFY {
        let n = r.read_u16()? as usize;
        if n < 8 {
            return Err(PictError::invalid("lineJustify data length smaller than its 8-byte payload"));
        }
        if r.remaining() < n {
            return Err(PictError::invalid("truncated lineJustify"));
        }
        let inter = Fixed(r.read_i32()?);
        let extra = Fixed(r.read_i32()?);
        r.skip(n - 8)?;
        t.line_justify = Some(PictLineJustify { inter_char_spacing: inter, total_extra: extra });
    } else {
        let n = r.read_u16()? as usize;
        if n < 4 {
            return Err(PictError::invalid("glyphState data length smaller than its 4-byte payload"));
        }
        if r.remaining() < n {
            return Err(PictError::invalid("truncated glyphState"));
        }
        let outline_preferred = r.read_u8()? != 0;
        let preserve_glyph = r.read_u8()? != 0;
        let fractional_widths = r.read_u8()? != 0;
        let scaling_disabled = r.read_u8()? != 0;
        r.skip(n - 4)?;
        t.glyph_state = Some(PictGlyphState { outline_preferred, preserve_glyph, fractional_widths, scaling_disabled });
    }
    Ok(())
}

/// A wrapping count of `n` items agrees with `n` plus one item.
proof fn lemma_wrap_bump(n: int, c: u32)
    requires
        n >= 0,
        n % 0x1_0000_0000 == c as int,
    ensures
        (n + 1) % 0x1_0000_0000 == bump(c) as int,
{
    vstd::arithmetic::div_mod::lemma_fundamental_div_mod(n, 0x1_0000_0000);
    vstd::arithmetic::div_mod::lemma_fundamental_div_mod(n + 1, 0x1_0000_0000);
    let q = n / 0x1_0000_0000;
    if c == u32::MAX {
        vstd::arithmetic::div_mod::lemma_mod_multiples_basic(q + 1, 0x1_0000_0000);
        assert(n + 1 == (q + 1) * 0x1_0000_0000) by (nonlinear_arith)
            requires
                n == 0x1_0000_0000 * q + c,
                c == u32::MAX,
        ;
    } else {
        vstd::arithmetic::div_mod::lemma_mod_add_multiples_vanish(c + 1, 0x1_0000_0000);
        assert(n + 1 == q * 0x1_0000_0000 + (c + 1)) by (nonlinear_arith)
            requires
                n == 0x1_0000_0000 * q + c,
        ;
        vstd::arithmetic::div_mod::lemma_mod_multiples_vanish(q, c + 1, 0x1_0000_0000);
    }
}

/// Bump the counter of class `k` (and the indexed-raster counter when
/// `k` is a raster opcode and `indexed`).
fn bump_class(p: &mut PictProbe, k: ProbeClass, indexed: bool)
    requires
        k != ProbeClass::Comment,
    ensures
        final(p).counts() == counts_after(old(p).counts(), k, indexed),
        final(p).comments@ == old(p).comments@,
        final(p).text_state == old(p).text_state,
        final(p).same_frame(&*old(p)),
{
    match k {
        ProbeClass::Drawing => p.drawing_count = bump_exec(p.drawing_count),
        ProbeClass::SameShape => p.same_shape_count = bump_exec(p.same_shape_count),
        ProbeClass::Clip => p.clip_rgn_count = bump_exec(p.clip_rgn_count),
        ProbeClass::Text => p.text_count = bump_exec(p.text_count),
        ProbeClass::Pattern => p.pattern_set_count = bump_exec(p.pattern_set_count),
        ProbeClass::PixPattern => p.pix_pattern_set_count = bump_exec(p.pix_pattern_set_count),
        ProbeClass::Raster => {
            p.raster_count = bump_exec(p.raster_count);
            if indexed {
                p.indexed_raster_count = bump_exec(p.indexed_raster_count);
            }
        },
        ProbeClass::CompressedQuickTime => p.compressed_quicktime_count = bump_exec(p.compressed_quicktime_count),
        ProbeClass::UncompressedQuickTime => p.uncompressed_quicktime_count = bump_exec(p.uncompressed_quicktime_count),
        ProbeClass::Reserved => p.reserved_op_count = bump_exec(p.reserved_op_count),
        ProbeClass::TextState => p.text_state_op_count = bump_exec(p.text_state_op_count),
        _ => {},
    }
}

/// Read a comment opcode into the probe and count it.
fn probe_comment(r: &mut Reader<'_>, long: bool, p: &mut PictProbe) -> (res: Result<()>)
    requires
        old(r).pos <= old(r).bytes@.len(),
        old(p).wf(),
    ensures
        final(r).bytes@ == old(r).bytes@,
        final(r).pos <= final(r).bytes@.len(),
        final(p).wf(),
        final(p).same_frame(&*old(p)),
        final(p).text_state == old(p).text_state,
        res is Err ==> final(p).counts() == old(p).counts() && final(p).comments@ == old(p).comments@,
        ({
            let s = old(r).bytes@;
            let i = old(r).pos as int;
            &&& !long ==> (res is Ok <==> old(r).rem() >= 2)
            &&& long ==> (res is Ok <==> (old(r).rem() >= 4 && old(r).rem() >= 4 + be_u16(s, i + 2)))
            &&& res is Ok ==> final(r).pos == i + (if long { 4 + be_u16(s, i + 2) } else { 2 })
            &&& res is Ok ==> final(p).counts() == counts_after(old(p).counts(), ProbeClass::Comment, false)
            &&& res is Ok ==> final(p).comments@.len() == old(p).comments@.len() + 1
            &&& res is Ok ==> final(p).comments@.subrange(0, old(p).comments@.len() as int) == old(p).comments@
            &&& res is Ok ==> comment_matches(final(p).comments@.last(), s, i, long)
        }),
{
    read_comment(r, long, &mut p.comments)?;
    proof {
        lemma_wrap_bump(old(p).comments@.len() as int, p.comment_count);
    }
    p.comment_count = bump_exec(p.comment_count);
    Ok(())
}

/// What one probe step promises, for a walker whose opcode `op` has
/// counter class `k`, fixed payload size `fixed` (when it has one), and
/// whose end opcode is `OpEndPic`.
pub open spec fn probe_step(
    r0: Reader,
    r1: Reader,
    p0: PictProbe,
    p1: PictProbe,
    res: Result<bool>,
    op: u16,
    k: ProbeClass,
    fixed: Option<int>,
) -> bool {
    let s = r0.bytes@;
    let i = r0.pos as int;
    &&& r1.bytes@ == s
    &&& r1.pos <= s.len()
    &&& res is Ok ==> r0.pos <= r1.pos
    &&& (res == Ok::<bool, PictError>(false)) == (op == OP_OP_END_PIC)
    &&& p1.wf()
    &&& p1.same_frame(&p0)
    &&& res is Err ==> (p1.counts() == p0.counts() && p1.comments@ == p0.comments@ && p1.text_state == p0.text_state)
    &&& res is Ok ==> p1.counts() == counts_after(p0.counts(), k, raster_indexed(s, i, op))
    &&& (res is Ok && k != ProbeClass::Comment) ==> p1.comments@ == p0.comments@
    &&& (res is Ok && k == ProbeClass::Comment) ==> {
        &&& p1.comments@.len() == p0.comments@.len() + 1
        &&& p1.comments@.subrange(0, p0.comments@.len() as int) == p0.comments@
        &&& comment_matches(p1.comments@.last(), s, i, op == OP_LONG_COMMENT)
    }
    &&& (res is Ok && op != OP_FONT_NAME) ==> p1.text_state == text_state_after(op, s, i, p0.text_state)
    &&& (res is Ok && op == OP_FONT_NAME) ==> {
        &&& p1.text_state == (PictTextState { font_name: p1.text_state.font_name, ..p0.text_state })
        &&& p1.text_state.font_name matches Some(f) && f.old_font_id == be_i16(s, i + 2) && f.name@
            == s.subrange(i + 5, i + 5 + s[i + 4])
    }
    &&& fixed matches Some(n) ==> ((res is Ok <==> r0.rem() >= n) && (res is Ok ==> r1.pos == r0.pos + n))
    &&& k == ProbeClass::Unknown ==> (res matches Err(e) && e is Unsupported)
}

/// One v2 opcode of the probe walk: its payload is stepped past and
/// its counter bumped (see [`v2_class`]); text-state opcodes update the
/// probed text state and comments are collected. `Ok(false)` exactly
/// for `OpEndPic`.
#[verifier::rlimit(60)]
fn probe_v2_opcode(r: &mut Reader<'_>, opcode: u16, p: &mut PictProbe) -> (res: Result<bool>)
    requires
        old(r).pos <= old(r).bytes@.len(),
        old(p).wf(),
    ensures
        probe_step(*old(r), *final(r), *old(p), *final(p), res, opcode, v2_class(opcode), v2_fixed_size(opcode)),
        (opcode == OP_COMPRESSED_QUICKTIME || opcode == OP_UNCOMPRESSED_QUICKTIME) ==> ({
            let n = be_u32(old(r).bytes@, old(r).pos as int);
            &&& (res is Ok <==> (old(r).rem() >= 4 && old(r).rem() >= 4 + n))
            &&& res is Ok ==> final(r).pos == old(r).pos + 4 + n
        }),
        v2_class(opcode) == ProbeClass::Reserved ==> (reserved_skip_spec(opcode) matches Some(ReservedV2Skip::Fixed(n))
            ==> ((res is Ok <==> old(r).rem() >= n) && (res is Ok ==> final(r).pos == old(r).pos + n))),
        v2_raster_op(opcode) ==> match raster_skip_end(old(r).bytes@, old(r).pos as int, opcode) {
            Some(e) => res is Ok && final(r).pos == e,
            None => res is Err,
        },
{
    let ghost s = r.bytes@;
    let ghost i = r.pos as int;
    if opcode == OP_OP_END_PIC {
        return Ok(false);
    }
    if opcode == OP_NOP {
        return Ok(true);
    }
    if opcode == OP_RGB_FG_COL || opcode == OP_RGB_BK_COL {
        r.skip(6)?;
        return Ok(true);
    }
    if opcode == OP_FG_COLOR || opcode == OP_BG_COLOR || opcode == OP_PN_SIZE || opcode == OP_OV_SIZE
        || opcode == OP_ORIGIN {
        r.skip(4)?;
        return Ok(true);
    }
    if opcode == OP_CLIP_RGN || (0x0080 <= opcode && opcode <= 0x0084) {
        skip_sized(r, 10)?;
        if opcode == OP_CLIP_RGN {
            bump_class(p, ProbeClass::Clip, false);
        } else {
            bump_class(p, ProbeClass::Drawing, false);
        }
        return Ok(true);
    }
    if (0x0020 <= opcode && opcode <= 0x0023) || (0x0030 <= opcode && opcode <= 0x0034) || (0x0040
        <= opcode && opcode <= 0x0044) || (0x0050 <= opcode && opcode <= 0x0054) || (0x0060 <= opcode
        && opcode <= 0x0064) {
        let n: usize = if opcode == 0x0021 {
            4
        } else if opcode == 0x0022 {
            6
        } else if opcode == 0x0023 {
            2
        } else if opcode >= 0x0060 {
            12
        } else {
            8
        };
        r.skip(n)?;
        bump_class(p, ProbeClass::Drawing, false);
        return Ok(true);
    }
    if (0x0038 <= opcode && opcode <= 0x003C) || (0x0048 <= opcode && opcode <= 0x004C) || (0x0058
        <= opcode && opcode <= 0x005C) || (0x0068 <= opcode && opcode <= 0x006C) {
        if opcode >= 0x0068 {
            r.skip(4)?;
        }
        bump_class(p, ProbeClass::SameShape, false);
        return Ok(true);
    }
    if 0x0070 <= opcode && opcode <= 0x0074 {
        skip_sized(r, 10)?;
        bump_class(p, ProbeClass::Drawing, false);
        return Ok(true);
    }
    if 0x0028 <= opcode && opcode <= 0x002B {
        let pre: usize = if opcode == OP_LONG_TEXT {
            4
        } else if opcode == OP_DHDV_TEXT {
            2
        } else {
            1
        };
        skip_text(r, pre)?;
        bump_class(p, ProbeClass::Text, false);
        return Ok(true);
    }
    if opcode == OP_BK_PAT || opcode == OP_PN_PAT || opcode == OP_FILL_PAT {
        r.skip(8)?;
        bump_class(p, ProbeClass::Pattern, false);
        return Ok(true);
    }
    if 0x0012 <= opcode && opcode <= 0x0014 {
        skip_pix_pat(r)?;
        bump_class(p, ProbeClass::PixPattern, false);
        return Ok(true);
    }
    if opcode == OP_TX_FONT || opcode == OP_TX_FACE || opcode == OP_TX_MODE || opcode == OP_SP_EXTRA
        || opcode == OP_PN_MODE || opcode == OP_TX_SIZE || opcode == OP_TX_RATIO || opcode
        == OP_PN_LOC_HFRAC || opcode == OP_CH_EXTRA || (0x001C <= opcode && opcode <= 0x001F) || (
    0x002C <= opcode && opcode <= 0x002E) {
        read_text_state_op(r, opcode, &mut p.text_state)?;
        bump_class(p, ProbeClass::TextState, false);
        return Ok(true);
    }
    if opcode == OP_SHORT_COMMENT || opcode == OP_LONG_COMMENT {
        probe_comment(r, opcode == OP_LONG_COMMENT, p)?;
        return Ok(true);
    }
    if opcode == OP_BITS_RECT || opcode == OP_BITS_RGN || (0x0098 <= opcode && opcode <= 0x009B) {
        let indexed = skip_raster_opcode_v2(r, opcode)?;
        bump_class(p, ProbeClass::Raster, indexed);
        return Ok(true);
    }
    if opcode == OP_COMPRESSED_QUICKTIME || opcode == OP_UNCOMPRESSED_QUICKTIME {
        let size = r.read_u32()? as usize;
        r.skip(size)?;
        if opcode == OP_COMPRESSED_QUICKTIME {
            bump_class(p, ProbeClass::CompressedQuickTime, false);
        } else {
            bump_class(p, ProbeClass::UncompressedQuickTime, false);
        }
        return Ok(true);
    }
    match reserved_v2_payload_size(opcode) {
        Some(skip) => {
            crate::decoder::skip_reserved_v2_payload(r, skip)?;
            bump_class(p, ProbeClass::Reserved, false);
            Ok(true)
        },
        None => Err(PictError::unsupported("unknown or unsupported v2 opcode")),
    }
}

/// The counter class of a v1 opcode. The v1 text opcodes count as
/// drawing; the unimplemented "same polygon / region" verbs count as
/// same-shape repeats.
pub open spec fn v1_class(op: u16) -> ProbeClass {
    if op == 0x00 || op == 0xFF || op == 0x07 || op == 0x0B || op == 0x0C || op == 0x0E || op == 0x0F {
        ProbeClass::Plain
    } else if op == 0x01 {
        ProbeClass::Clip
    } else if op == 0x02 || op == 0x09 || op == 0x0A {
        ProbeClass::Pattern
    } else if op == 0x03 || op == 0x04 || op == 0x05 || op == 0x06 || op == 0x08 || op == 0x0D || op
        == 0x10 {
        ProbeClass::TextState
    } else if (0x20 <= op <= 0x23) || (0x28 <= op <= 0x2B) || (0x30 <= op <= 0x34) || (0x40 <= op
        <= 0x44) || (0x50 <= op <= 0x54) || (0x60 <= op <= 0x64) || (0x70 <= op <= 0x74) || (0x80
        <= op <= 0x84) {
        ProbeClass::Drawing
    } else if (0x38 <= op <= 0x3C) || (0x48 <= op <= 0x4C) || (0x58 <= op <= 0x5C) || (0x68 <= op
        <= 0x6C) || (0x78 <= op <= 0x7C) || (0x88 <= op <= 0x8C) {
        ProbeClass::SameShape
    } else if op == 0x90 || op == 0x91 || (0x98 <= op <= 0x9B) {
        ProbeClass::Raster
    } else if op == 0xA0 || op == 0xA1 {
        ProbeClass::Comment
    } else {
        ProbeClass::Unknown
    }
}

/// Payload size of the v1 opcodes whose payload has a fixed size.
pub open spec fn v1_fixed_size(op: u16) -> Option<int> {
    if v1_class(op) == ProbeClass::Unknown {
        None
    } else if (0x78 <= op <= 0x7C) || (0x88 <= op <= 0x8C) {
        Some(0)
    } else {
        v2_fixed_size(op)
    }
}

/// One v1 opcode of the probe walk (see [`v1_class`]). `Ok(false)`
/// exactly for `OpEndPic` (`$FF`).
#[verifier::rlimit(60)]
fn probe_v1_opcode(r: &mut Reader<'_>, opcode: u16, p: &mut PictProbe) -> (res: Result<bool>)
    requires
        old(r).pos <= old(r).bytes@.len(),
        old(p).wf(),
        opcode <= 0xFF,
    ensures
        probe_step(*old(r), *final(r), *old(p), *final(p), res, opcode, v1_class(opcode), v1_fixed_size(opcode)),
{
    if opcode == 0xFF {
        return Ok(false);
    }
    if opcode == 0x00 {
        return Ok(true);
    }
    if opcode == 0x07 || opcode == 0x0B || opcode == 0x0C || opcode == 0x0E || opcode == 0x0F {
        r.skip(4)?;
        return Ok(true);
    }
    if opcode == 0x01 || (0x80 <= opcode && opcode <= 0x84) {
        skip_sized(r, 10)?;
        if opcode == 0x01 {
            bump_class(p, ProbeClass::Clip, false);
        } else {
            bump_class(p, ProbeClass::Drawing, false);
        }
        return Ok(true);
    }
    if opcode == 0x02 || opcode == 0x09 || opcode == 0x0A {
        r.skip(8)?;
        bump_class(p, ProbeClass::Pattern, false);
        return Ok(true);
    }
    if opcode == 0x03 || opcode == 0x04 || opcode == 0x05 || opcode == 0x06 || opcode == 0x08 || opcode
        == 0x0D || opcode == 0x10 {
        read_text_state_op(r, opcode, &mut p.text_state)?;
        bump_class(p, ProbeClass::TextState, false);
        return Ok(true);
    }
    if (0x20 <= opcode && opcode <= 0x23) || (0x30 <= opcode && opcode <= 0x34) || (0x40 <= opcode
        && opcode <= 0x44) || (0x50 <= opcode && opcode <= 0x54) || (0x60 <= opcode && opcode <= 0x64) {
        let n: usize = if opcode == 0x21 {
            4
        } else if opcode == 0x22 {
            6
        } else if opcode == 0x23 {
            2
        } else if opcode >= 0x60 {
            12
        } else {
            8
        };
        r.skip(n)?;
        bump_class(p, ProbeClass::Drawing, false);
        return Ok(true);
    }
    if 0x28 <= opcode && opcode <= 0x2B {
        let pre: usize = if opcode == 0x28 {
            4
        } else if opcode == 0x2B {
            2
        } else {
            1
        };
        skip_text(r, pre)?;
        bump_class(p, ProbeClass::Drawing, false);
        return Ok(true);
    }
    if 0x70 <= opcode && opcode <= 0x74 {
        skip_sized(r, 10)?;
        bump_class(p, ProbeClass::Drawing, false);
        return Ok(true);
    }
    if (0x38 <= opcode && opcode <= 0x3C) || (0x48 <= opcode && opcode <= 0x4C) || (0x58 <= opcode
        && opcode <= 0x5C) || (0x68 <= opcode && opcode <= 0x6C) || (0x78 <= opcode && opcode <= 0x7C)
        || (0x88 <= opcode && opcode <= 0x8C) {
        if 0x68 <= opcode && opcode <= 0x6C {
            r.skip(4)?;
        }
        bump_class(p, ProbeClass::SameShape, false);
        return Ok(true);
    }
    if opcode == 0x90 || opcode == 0x91 || (0x98 <= opcode && opcode <= 0x9B) {
        let indexed = skip_raster_opcode_v1(r, opcode)?;
        bump_class(p, ProbeClass::Raster, indexed);
        return Ok(true);
    }
    if opcode == 0xA0 || opcode == 0xA1 {
        probe_comment(r, opcode == 0xA1, p)?;
        return Ok(true);
    }
    Err(PictError::unsupported("unknown or unsupported v1 opcode"))
}

/// The word-aligned position of `a`.
pub open spec fn word_aligned(a: int) -> int {
    if a % 2 == 1 {
        a + 1
    } else {
        a
    }
}

/// Whether `op` is one of the v2 raster opcodes.
pub open spec fn v2_raster_op(op: u16) -> bool {
    op == OP_BITS_RECT || op == OP_BITS_RGN || (0x0098 <= op <= 0x009B)
}

/// The payload size of the v2 opcode `op` whose payload starts at `i`,
/// when the walker knows it without reading: the fixed sizes, and the
/// raster records whose end [`raster_skip_end`] finds.
pub open spec fn v2_op_size(s: Seq<u8>, i: int, op: u16) -> Option<int> {
    if v2_raster_op(op) {
        match raster_skip_end(s, i, op) {
            Some(e) => Some(e - i),
            None => None,
        }
    } else {
        v2_fixed_size(op)
    }
}

/// Where the v2 walk from `a` ends when every opcode on the way (each
/// at a word boundary) has a payload of known size ([`v2_op_size`])
/// that is all there, until an `OpEndPic`: just past that `OpEndPic`.
/// `None` for any other walk.
pub open spec fn v2_fixed_walk(s: Seq<u8>, a: int) -> Option<int>
    decreases s.len() - a,
{
    let b = word_aligned(a);
    if a < 0 || b + 2 > s.len() {
        None
    } else if be_u16(s, b) == OP_OP_END_PIC {
        Some(b + 2)
    } else {
        match v2_op_size(s, b + 2, be_u16(s, b) as u16) {
            Some(n) => if 0 <= n && b + 2 + n <= s.len() {
                v2_fixed_walk(s, b + 2 + n)
            } else {
                None
            },
            None => None,
        }
    }
}

/// The same for a v1 walk (one-byte opcodes, no alignment, `OpEndPic`
/// is `FF`).
pub open spec fn v1_fixed_walk(s: Seq<u8>, a: int) -> Option<int>
    decreases s.len() - a,
{
    if a < 0 || a + 1 > s.len() {
        None
    } else if s[a] == 0xFF {
        Some(a + 1)
    } else {
        match v1_fixed_size(s[a] as u16) {
            Some(n) => if 0 <= n && a + 1 + n <= s.len() {
                v1_fixed_walk(s, a + 1 + n)
            } else {
                None
            },
            None => None,
        }
    }
}

/// The counters after the v2 walk from `a` that [`v2_fixed_walk`]
/// describes, starting from `c`.
pub open spec fn v2_fixed_counts(s: Seq<u8>, a: int, c: ProbeCounts) -> ProbeCounts
    decreases s.len() - a,
{
    let b = word_aligned(a);
    if a < 0 || b + 2 > s.len() || be_u16(s, b) == OP_OP_END_PIC {
        c
    } else {
        let op = be_u16(s, b) as u16;
        match v2_op_size(s, b + 2, op) {
            Some(n) => if 0 <= n && b + 2 + n <= s.len() {
                v2_fixed_counts(s, b + 2 + n, counts_after(c, v2_class(op), raster_indexed(s, b + 2, op)))
            } else {
                c
            },
            None => c,
        }
    }
}

/// The counters after the v1 walk from `a` that [`v1_fixed_walk`]
/// describes, starting from `c`.
pub open spec fn v1_fixed_counts(s: Seq<u8>, a: int, c: ProbeCounts) -> ProbeCounts
    decreases s.len() - a,
{
    if a < 0 || a + 1 > s.len() || s[a] == 0xFF {
        c
    } else {
        let op = s[a] as u16;
        match v1_fixed_size(op) {
            Some(n) => if 0 <= n && a + 1 + n <= s.len() {
                v1_fixed_counts(s, a + 1 + n, counts_after(c, v1_class(op), raster_indexed(s, a + 1, op)))
            } else {
                c
            },
            None => c,
        }
    }
}

/// All counters at zero.
pub open spec fn zero_counts() -> ProbeCounts {
    ProbeCounts {
        raster: 0,
        indexed_raster: 0,
        drawing: 0,
        same_shape: 0,
        text: 0,
        comment: 0,
        clip_rgn: 0,
        pattern_set: 0,
        pix_pattern_set: 0,
        compressed_quicktime: 0,
        uncompressed_quicktime: 0,
        reserved_op: 0,
        text_state_op: 0,
    }
}

/// Where the opcodes of the picture record `s` start, and whether they
/// are v2 opcodes, when its version stanza (and, for v2, its header)
/// is well formed.
pub open spec fn opcodes_at(s: Seq<u8>) -> Option<(bool, int)> {
    if v2_stanza_at(s, 0) && s.len() >= 40 && be_u16(s, 14) == OP_HEADER_OP {
        Some((true, 40))
    } else if s.len() >= 12 && s[10] == 0x11 && s[11] == 1 {
        Some((false, 12))
    } else if s.len() >= 14 && s[10] == 0 && s[11] == 0x11 && s[12] == 1 {
        Some((false, 13))
    } else {
        None
    }
}

/// Where the opcode walk of the record `s` ends (just past its
/// `OpEndPic`) when every opcode on the way has a payload of a size
/// the walker knows ([`v2_fixed_walk`], [`v1_fixed_walk`]).
pub open spec fn record_fixed_end(s: Seq<u8>) -> Option<int> {
    match opcodes_at(s) {
        Some((true, a)) => v2_fixed_walk(s, a),
        Some((false, a)) => v1_fixed_walk(s, a),
        None => None,
    }
}

/// The counters of that walk.
pub open spec fn record_fixed_counts(s: Seq<u8>) -> ProbeCounts {
    match opcodes_at(s) {
        Some((true, a)) => v2_fixed_counts(s, a, zero_counts()),
        Some((false, a)) => v1_fixed_counts(s, a, zero_counts()),
        None => zero_counts(),
    }
}

/// Walk v2 opcodes (word-aligned) until `OpEndPic` (`Ok(true)`), the
/// end of the input (`Ok(false)`), or an opcode the probe cannot step
/// past (`Err`).
fn probe_v2(r: &mut Reader<'_>, p: &mut PictProbe) -> (res: Result<bool>)
    requires
        old(r).pos <= old(r).bytes@.len(),
        old(p).wf(),
    ensures
        final(r).bytes@ == old(r).bytes@,
        final(r).pos <= final(r).bytes@.len(),
        res is Ok ==> old(r).pos <= final(r).pos,
        final(p).wf(),
        final(p).same_frame(&*old(p)),
        res == Ok::<bool, PictError>(false) ==> final(r).pos == final(r).bytes@.len(),
        res == Ok::<bool, PictError>(true) ==> final(r).pos >= 2 && be_u16(final(r).bytes@, final(r).pos - 2)
            == OP_OP_END_PIC,
        ({
            let s = old(r).bytes@;
            let b = word_aligned(old(r).pos as int);
            &&& v2_fixed_walk(s, old(r).pos as int) matches Some(e) ==> (res == Ok::<bool, PictError>(true)
                && final(r).pos == e && final(p).counts() == v2_fixed_counts(s, old(r).pos as int, old(p).counts()))
            &&& b == s.len() ==> res == Ok::<bool, PictError>(false)
            &&& (b + 2 <= s.len() && v2_class(be_u16(s, b) as u16) == ProbeClass::Unknown) ==> (res matches Err(e)
                && e is Unsupported)
        }),
{
    let ghost s = r.bytes@;
    let ghost a0 = r.pos as int;
    let ghost mut first = true;
    loop
        invariant
            r.bytes@ == old(r).bytes@,
            s == old(r).bytes@,
            a0 == old(r).pos,
            old(r).pos <= r.pos <= r.bytes@.len(),
            p.wf(),
            p.same_frame(&*old(p)),
            first ==> r.pos == a0,
            !first ==> word_aligned(a0) != s.len(),
            !first ==> !(word_aligned(a0) + 2 <= s.len() && v2_class(be_u16(s, word_aligned(a0)) as u16)
                == ProbeClass::Unknown),
            v2_fixed_walk(s, a0) matches Some(e) ==> v2_fixed_walk(s, r.pos as int) == Some(e),
            v2_fixed_walk(s, a0) is Some ==> v2_fixed_counts(s, a0, old(p).counts()) == v2_fixed_counts(
                s,
                r.pos as int,
                p.counts(),
            ),
        decreases r.bytes@.len() - r.pos,
    {
        let ghost a = r.pos as int;
        r.align_word()?;
        if r.at_eof() {
            return Ok(false);
        }
        let at = r.pos;
        let opcode = r.read_u16()?;
        let cont = probe_v2_opcode(r, opcode, p)?;
        proof {
            first = false;
        }
        if !cont {
            assert(r.pos == at + 2);
            return Ok(true);
        }
    }
}

/// Walk v1 opcodes (one byte each) until `OpEndPic` (`Ok(true)`), the
/// end of the input (`Ok(false)`), or an opcode the probe cannot step
/// past (`Err`).
fn probe_v1(r: &mut Reader<'_>, p: &mut PictProbe) -> (res: Result<bool>)
    requires
        old(r).pos <= old(r).bytes@.len(),
        old(p).wf(),
    ensures
        final(r).bytes@ == old(r).bytes@,
        final(r).pos <= final(r).bytes@.len(),
        res is Ok ==> old(r).pos <= final(r).pos,
        final(p).wf(),
        final(p).same_frame(&*old(p)),
        res == Ok::<bool, PictError>(false) ==> final(r).pos == final(r).bytes@.len(),
        res == Ok::<bool, PictError>(true) ==> final(r).pos >= 1 && final(r).bytes@[final(r).pos - 1] == 0xFF,
        ({
            let s = old(r).bytes@;
            let a = old(r).pos as int;
            &&& v1_fixed_walk(s, a) matches Some(e) ==> (res == Ok::<bool, PictError>(true) && final(r).pos == e
                && final(p).counts() == v1_fixed_counts(s, a, old(p).counts()))
            &&& a == s.len() ==> res == Ok::<bool, PictError>(false)
            &&& (a < s.len() && v1_class(s[a] as u16) == ProbeClass::Unknown) ==> (res matches Err(e) && e is Unsupported)
        }),
{
    let ghost s = r.bytes@;
    let ghost a0 = r.pos as int;
    let ghost mut first = true;
    loop
        invariant
            r.bytes@ == old(r).bytes@,
            s == old(r).bytes@,
            a0 == old(r).pos,
            old(r).pos <= r.pos <= r.bytes@.len(),
            p.wf(),
            p.same_frame(&*old(p)),
            first ==> r.pos == a0,
            !first ==> a0 != s.len(),
            !first ==> !(a0 < s.len() && v1_class(s[a0] as u16) == ProbeClass::Unknown),
            v1_fixed_walk(s, a0) matches Some(e) ==> v1_fixed_walk(s, r.pos as int) == Some(e),
            v1_fixed_walk(s, a0) is Some ==> v1_fixed_counts(s, a0, old(p).counts()) == v1_fixed_counts(
                s,
                r.pos as int,
                p.counts(),
            ),
        decreases r.bytes@.len() - r.pos,
    {
        if r.at_eof() {
            return Ok(false);
        }
        let at = r.pos;
        let opcode = r.read_u8()? as u16;
        let cont = probe_v1_opcode(r, opcode, p)?;
        proof {
            first = false;
        }
        if !cont {
            assert(r.pos == at + 1);
            return Ok(true);
        }
    }
}

/// Read the version stanza after the 10-byte picture header:
/// `00 11 02 FF 0C 00` is v2 followed by the 24-byte header payload
/// (kept when its version word is known, stepped past otherwise);
/// `00 11 01 ..` is v1 whose first opcode is the byte after `01`;
/// `11 01` is v1. Anything else is `InvalidData`.
fn detect_version_probe(r: &mut Reader<'_>) -> (res: Result<(ProbeVersion, Option<PictHeader>)>)
    requires
        old(r).pos <= old(r).bytes@.len(),
    ensures
        final(r).bytes@ == old(r).bytes@,
        final(r).pos <= final(r).bytes@.len(),
        res is Ok ==> old(r).pos < final(r).pos,
        ({
            let s = old(r).bytes@;
            let p = old(r).pos as int;
            let v = be_u16(s, p);
            let w = be_u16(s, p + 2);
            &&& (old(r).rem() >= 2 && v != 0x0011 && v != 0x1101) ==> (res matches Err(e) && e is InvalidData)
            &&& (old(r).rem() >= 2 && v == 0x1101) ==> (res == Ok::<(ProbeVersion, Option<PictHeader>), PictError>(
                (ProbeVersion::V1, None),
            ) && final(r).pos == p + 2)
            &&& (old(r).rem() >= 4 && v == 0x0011 && w / 256 == 1 && w != 0x02FF) ==> (res == Ok::<
                (ProbeVersion, Option<PictHeader>),
                PictError,
            >((ProbeVersion::V1, None)) && final(r).pos == p + 3)
            &&& (old(r).rem() >= 6 && v == 0x0011 && w == 0x02FF && be_u16(s, p + 4) != 0x0C00) ==> (res matches Err(
                e,
            ) && e is InvalidData)
            &&& (old(r).rem() >= 30 && v == 0x0011 && w == 0x02FF && be_u16(s, p + 4) == 0x0C00) ==> (res == Ok::<
                (ProbeVersion, Option<PictHeader>),
                PictError,
            >(
                (
                    ProbeVersion::V2,
                    if header_version_known(s, p + 6) {
                        Some(header_from_bytes(s, p + 6))
                    } else {
                        None
                    },
                ),
            ) && final(r).pos == p + 30)
            &&& res matches Ok((ver, hd)) ==> (ver == ProbeVersion::V1 ==> hd is None)
            &&& res matches Ok((ver, hd)) ==> (ver == ProbeVersion::V2 <==> (old(r).rem() >= 4 && v == 0x0011 && w
                == 0x02FF))
            &&& res matches Ok((ver, hd)) ==> (ver == ProbeVersion::V2 ==> old(r).rem() >= 30)
        }),
{
    let v_word = r.read_u16()?;
    if v_word == 0x0011 {
        let next = r.read_u16()?;
        if next == 0x02FF {
            let header_op = r.read_u16()?;
            if header_op != OP_HEADER_OP {
                return Err(PictError::invalid("expected headerOp 0x0C00 after the v2 version stanza"));
            }
            let start = r.pos;
            let header = match PictHeader::parse(r) {
                Ok(h) => Some(h),
                Err(_) => {
                    r.pos = start;
                    r.skip(24)?;
                    None
                },
            };
            return Ok((ProbeVersion::V2, header));
        }
        if next / 256 == 0x01 {
            r.pos = r.pos - 1;
            return Ok((ProbeVersion::V1, None));
        }
        return Err(PictError::invalid("unrecognised version stanza after 0x0011"));
    }
    if v_word == 0x1101 {
        return Ok((ProbeVersion::V1, None));
    }
    Err(PictError::invalid("expected version opcode 0x0011 or 0x1101"))
}

/// The `picFrame` of the record at `o`.
pub open spec fn frame_at(s: Seq<u8>, o: int) -> ProbeRect {
    ProbeRect {
        top: be_i16(s, o + 2) as i32,
        left: be_i16(s, o + 4) as i32,
        bottom: be_i16(s, o + 6) as i32,
        right: be_i16(s, o + 8) as i32,
    }
}

/// Whether the record at `o` opens with the v2 version stanza.
pub open spec fn v2_stanza_at(s: Seq<u8>, o: int) -> bool {
    s.len() >= o + 14 && s[o + 10] == 0 && s[o + 11] == 0x11 && s[o + 12] == 2 && s[o + 13] == 0xFF
}

/// The probe of the picture record `s` (found at `base` in the whole
/// input), as [`probe_pict`] states it.
pub open spec fn probe_of_record(s: Seq<u8>, base: int, pr: PictProbe) -> bool {
    &&& pr.has_launch_stub == (base > 0)
    &&& pr.frame == frame_at(s, 0)
    &&& pr.width == frame_width(s, 0)
    &&& pr.height == frame_height(s, 0)
    &&& (pr.version == ProbeVersion::V2) == v2_stanza_at(s, 0)
    &&& pr.header == (if v2_stanza_at(s, 0) && header_version_known(s, 16) {
        Some(header_from_bytes(s, 16))
    } else {
        None::<PictHeader>
    })
    &&& pr.wf()
    &&& pr.end_pic_seen == (pr.termination == ProbeTermination::EndPic)
    &&& base <= pr.terminated_at <= base + s.len()
    &&& pr.termination == ProbeTermination::EndPic ==> {
        &&& pr.version == ProbeVersion::V2 ==> be_u16(s, pr.terminated_at - base - 2) == OP_OP_END_PIC
        &&& pr.version == ProbeVersion::V1 ==> s[pr.terminated_at - base - 1] == 0xFF
    }
}

/// Probe the picture record `body`, which starts at `base` in the
/// whole input.
fn probe_record(body: &[u8], base: usize) -> (res: Result<PictProbe>)
    requires
        base + body@.len() <= usize::MAX,
    ensures
        ({
            let s = body@;
            &&& (s.len() >= 12 && s[10] == 0x11 && s[11] == 1) ==> res is Ok
            &&& (v2_stanza_at(s, 0) && s.len() >= 40 && be_u16(s, 14) == OP_HEADER_OP) ==> res is Ok
            &&& (v2_stanza_at(s, 0) && s.len() >= 16 && be_u16(s, 14) != OP_HEADER_OP) ==> (res matches Err(e)
                && e is InvalidData)
            &&& res matches Ok(pr) ==> probe_of_record(s, base as int, pr)
            &&& record_fixed_end(s) matches Some(e) ==> (res matches Ok(pr) && pr.termination
                == ProbeTermination::EndPic && pr.terminated_at == base + e && pr.counts() == record_fixed_counts(s))
        }),
{
    let ghost s = body@;
    let mut r = Reader::new(body);
    let _pic_size = r.read_u16()?;
    let (top, left, bottom, right) = r.read_rect()?;
    let frame = RectI32::from_be(top, left, bottom, right);
    let (version, header) = detect_version_probe(&mut r)?;
    proof {
        if s.len() >= 14 {
            assert(v2_stanza_at(s, 0) == (be_u16(s, 10) == 0x0011 && be_u16(s, 12) == 0x02FF));
        }
    }
    let width = crate::decoder::extent_exec(left, right);
    let height = crate::decoder::extent_exec(top, bottom);
    let mut p = PictProbe {
        version,
        frame: ProbeRect::from(frame),
        width,
        height,
        has_launch_stub: base > 0,
        raster_count: 0,
        indexed_raster_count: 0,
        drawing_count: 0,
        same_shape_count: 0,
        text_count: 0,
        comment_count: 0,
        comments: Vec::new(),
        clip_rgn_count: 0,
        pattern_set_count: 0,
        pix_pattern_set_count: 0,
        compressed_quicktime_count: 0,
        uncompressed_quicktime_count: 0,
        reserved_op_count: 0,
        end_pic_seen: false,
        termination: ProbeTermination::Eof,
        terminated_at: base + r.pos,
        header,
        text_state: PictTextState::fresh_graf_port(),
        text_state_op_count: 0,
    };
    let result = match version {
        ProbeVersion::V1 => probe_v1(&mut r, &mut p),
        ProbeVersion::V2 => probe_v2(&mut r, &mut p),
    };
    p.terminated_at = base + r.pos;
    match result {
        Ok(true) => {
            p.end_pic_seen = true;
            p.termination = ProbeTermination::EndPic;
        },
        Ok(false) => {
            p.termination = ProbeTermination::Eof;
        },
        Err(PictError::Unsupported(msg)) => {
            p.termination = ProbeTermination::Unsupported(msg);
        },
        Err(PictError::InvalidData(msg)) => {
            p.termination = ProbeTermination::Invalid(msg);
        },
        Err(PictError::NoRaster) => {
            p.termination = ProbeTermination::Eof;
        },
    }
    Ok(p)
}

/// Walk a PICT byte stream and summarise it without rasterising.
///
/// Only broken framing is an `Err`: no picture record at offset 0 or
/// 512 (`InvalidData`), or a v2 stanza without its `HeaderOp` and
/// 24-byte header. A failure inside the opcode walk is recorded in
/// `termination` with the statistics gathered before it.
pub fn probe_pict(bytes: &[u8]) -> (res: Result<PictProbe>)
    ensures
        body_offset_spec(bytes@) is None ==> (res matches Err(e) && e is InvalidData),
        ({
            let s = bytes@;
            let o = body_offset_spec(s)->0;
            let rec = s.subrange(o, s.len() as int);
            &&& (body_offset_spec(s) is Some && !v2_stanza_at(s, o)) ==> res is Ok
            &&& (body_offset_spec(s) is Some && v2_stanza_at(s, o) && s.len() >= o + 40 && be_u16(s, o + 14)
                == OP_HEADER_OP) ==> res is Ok
            &&& (body_offset_spec(s) is Some && v2_stanza_at(s, o) && s.len() >= o + 16 && be_u16(s, o + 14)
                != OP_HEADER_OP) ==> (res matches Err(e) && e is InvalidData)
            &&& body_offset_spec(s) is Some ==> (record_fixed_end(rec) matches Some(e) ==> (res matches Ok(pr)
                && pr.termination == ProbeTermination::EndPic && pr.terminated_at == o + e && pr.counts()
                == record_fixed_counts(rec)))
            &&& res matches Ok(pr) ==> {
                &&& body_offset_spec(s) is Some
                &&& probe_of_record(rec, o, pr)
                &&& pr.frame == frame_at(s, o)
                &&& pr.width == frame_width(s, o)
                &&& pr.height == frame_height(s, o)
                &&& (pr.version == ProbeVersion::V2) == v2_stanza_at(s, o)
            }
        }),
{
    let body_offset = crate::decoder::detect_body_offset(bytes)?;
    let body = vstd::slice::slice_subrange(bytes, body_offset, bytes.len());
    let ghost s = bytes@;
    let ghost o = body_offset as int;
    proof {
        let b = body@;
        assert(b =~= s.subrange(o, s.len() as int));
        assert(b.len() >= 12);
        assert(b[10] == s[o + 10] && b[11] == s[o + 11]);
        if b.len() >= 14 {
            assert(b[12] == s[o + 12] && b[13] == s[o + 13]);
        }
        assert(v2_stanza_at(b, 0) == v2_stanza_at(s, o));
        assert(frame_at(b, 0) == frame_at(s, o));
        assert(frame_width(b, 0) == frame_width(s, o));
        assert(frame_height(b, 0) == frame_height(s, o));
        if s.len() >= o + 16 {
            assert(be_u16(b, 14) == be_u16(s, o + 14));
        }
    }
    probe_record(body, body_offset)
}

/// The length of the writer's v2 picture: the stub, the 42 bytes up to
/// the raster record, the record, a pad byte to the next word, and
/// `OpEndPic`.
proof fn lemma_pict_v2_len(w: u32, h: u32, data: Seq<u8>, pk: PackType)
    ensures
        ({
            let q = 42 + record_len(pk, w, h, data);
            crate::encoder::pict_v2_spec(w, h, data, pk).len() == 512 + word_aligned(q) + 2
        }),
{
    let fb = crate::encoder::frame_bytes(w, h);
    let hw = crate::header::header_wire(crate::encoder::frame_header(w, h));
    assert(hw.len() == 24);
    assert(crate::encoder::v2_start(w, h).len() == 552);
}

/// The walk of the writer's v2 record: its one raster opcode, then the
/// `OpEndPic` that ends it.
#[verifier::rlimit(40)]
proof fn lemma_writer_v2_walk(rec: Seq<u8>, w: u32, h: u32, data: Seq<u8>, pk: PackType)
    requires
        crate::roundtrip::v2_record_shape(rec, w, h, data, pk),
        w * 4 < 0x4000,
        rec.len() == word_aligned(42 + record_len(pk, w, h, data)) + 2,
    ensures
        record_fixed_end(rec) == Some(rec.len() as int),
        record_fixed_counts(rec) == (ProbeCounts { raster: 1, ..zero_counts() }),
{
    let q = 42 + record_len(pk, w, h, data);
    let e = word_aligned(q);
    lemma_skip_writer_direct_record(rec, 42, pk, w, h, data);
    assert(v2_stanza_at(rec, 0));
    assert(opcodes_at(rec) == Some((true, 40int)));
    assert(word_aligned(40) == 40);
    assert(v2_raster_op(0x009A));
    assert(v2_op_size(rec, 42, 0x009A) == Some(record_len(pk, w, h, data)));
    assert(v2_fixed_walk(rec, q) == Some(e + 2));
    assert(v2_fixed_walk(rec, 40) == Some(e + 2));
    assert(!raster_indexed(rec, 42, 0x009A));
    let c1 = counts_after(zero_counts(), ProbeClass::Raster, false);
    assert(v2_fixed_counts(rec, q, c1) == c1);
    assert(v2_fixed_counts(rec, 40, zero_counts()) == c1);
}

/// The probe of the writer's v2 picture of a raster that round-trips
/// (with a stride that fits 14 bits) finds the record after the
/// 512-byte stub, steps past its one raster opcode, and ends at the
/// `OpEndPic` that closes the input, having counted that raster alone.
pub proof fn lemma_probe_of_writer_v2(w: u32, h: u32, data: Seq<u8>, pk: PackType)
    requires
        roundtrip_ok(w, h, data, pk),
        w * 4 < 0x4000,
    ensures
        ({
            let s = crate::encoder::pict_v2_spec(w, h, data, pk);
            let rec = s.subrange(512, s.len() as int);
            &&& body_offset_spec(s) == Some(512int)
            &&& record_fixed_end(rec) == Some(s.len() - 512)
            &&& record_fixed_counts(rec) == (ProbeCounts { raster: 1, ..zero_counts() })
        }),
{
    let s = crate::encoder::pict_v2_spec(w, h, data, pk);
    let rec = s.subrange(512, s.len() as int);
    lemma_v2_stream_shape(w, h, data, pk);
    assert(v2_stream_shape(s, w, h, data, pk));
    lemma_pict_v2_len(w, h, data, pk);
    lemma_writer_v2_walk(rec, w, h, data, pk);
}

} // verus!

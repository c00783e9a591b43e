//! Built-in bitmap glyph face and QuickDraw text rasteriser.
//!
//! A PICT carries no font data: the text opcodes hold bytes and a pen
//! position. What QuickDraw fixes is the geometry, which is what this
//! module implements: the baseline sits at the pen, `txSize` is the
//! cell height (the artwork em is [`DESIGN_EM`]), the `TxRatio`
//! numerators and denominators scale each axis, `fgColor` is the ink,
//! the source mode combines glyph and destination, and the pen moves
//! right by each glyph's advance plus `chExtra`, `spExtra` (spaces)
//! and the `lineJustify` intercharacter spacing.
//!
//! The glyph shapes are the crate's own 5x7 ASCII face (one row mask
//! per scanline, bit 4 the leftmost of five columns) on a 6-pixel
//! advance; bytes outside `0x20..=0x7E` draw the missing-symbol box.
//!
//! `txFace` styles are synthesised from the plain glyph with the screen
//! amounts of the font characterization table: bold (`bold = 1`,
//! `extra + 1`), italic (shear factor 8), outline (ring factor 1,
//! `extra + 1`), shadow (ring factor 2, `extra + 2`), condense
//! (`extra - 1`), extend (`extra + 1`), underline (offset, gap and
//! thickness 1).
use vstd::prelude::*;
use crate::raster::{blend_source, blend_source_spec, cell, Canvas, Figure, Ink, Shape, SourceMode};
use crate::state::{black_spec, white_spec, PictTextFace, Rgba};

verus! {

/// Width of the design cell.
pub const GLYPH_W: i32 = 5;
/// Height of the design cell.
pub const GLYPH_H: i32 = 7;
/// Nominal advance at the design size: the glyph plus a 1-pixel gutter.
pub const ADVANCE: i32 = 6;
/// The em the artwork is drawn at: a `txSize` of this draws at scale 1.
pub const DESIGN_EM: i32 = 8;
/// Design row that sits on the baseline.
pub const BASELINE_ROW: i32 = 6;

/// Glyph scale: `txSize` and the `TxRatio` factors of each axis.
#[derive(Debug, Clone, Copy, PartialEq, Eq, Structural)]
pub struct TextScale {
    pub tx_size: i32,
    pub numer_h: i32,
    pub denom_h: i32,
    pub numer_v: i32,
    pub denom_v: i32,
}

/// `v` saturated to the `i32` range.
pub open spec fn clamp32(v: int) -> int {
    if v < i32::MIN { i32::MIN as int } else if v > i32::MAX { i32::MAX as int } else { v }
}

/// Division truncating toward zero (`b > 0`).
pub open spec fn trunc_div(a: int, b: int) -> int {
    if a >= 0 { a / b } else { -((-a) / b) }
}

/// `len * txSize/DESIGN_EM * numer/denom`, rounded half away from zero
/// (toward zero for the half of negative values), saturated, at least
/// 1. A non-positive `txSize` scales as the design size, a
/// non-positive denominator as 1, a negative numerator as 0.
pub open spec fn ratio_scale_spec(len: int, tx_size: int, numer: int, denom: int) -> int {
    let d = if denom <= 0 { 1 } else { denom };
    let n = if numer < 0 { 0 } else { numer };
    let size = if tx_size <= 0 { 8 } else { tx_size };
    let den = 8 * d;
    let c = clamp32(trunc_div(len * size * n + den / 2, den));
    if c < 1 { 1 } else { c }
}

/// The same scale for a position: no 1-pixel floor, mirrored for
/// negative lengths.
pub open spec fn offset_scale_spec(len: int, tx_size: int, numer: int, denom: int) -> int {
    let d = if denom <= 0 { 1 } else { denom };
    let n = if numer < 0 { 0 } else { numer };
    let size = if tx_size <= 0 { 8 } else { tx_size };
    let den = 8 * d;
    let q = ((if len < 0 { -len } else { len }) * size * n + den / 2) / den;
    let s = if q > i32::MAX { i32::MAX as int } else { q };
    if len < 0 { -s } else { s }
}

proof fn lemma_scale_bounds(len: int, size: int, n: int)
    requires
        -0x8000_0000 <= len < 0x8000_0000,
        0 < size < 0x8000_0000,
        0 <= n < 0x8000_0000,
    ensures
        -0x4000_0000_0000_0000 <= len * size <= 0x4000_0000_0000_0000,
        -0x4_0000_0000_0000_0000_0000_0000 <= len * size * n <= 0x4_0000_0000_0000_0000_0000_0000,
{
    assert(-0x8000_0000 * 0x8000_0000 <= len * size <= 0x8000_0000 * 0x8000_0000) by (nonlinear_arith)
        requires -0x8000_0000 <= len < 0x8000_0000, 0 < size < 0x8000_0000;
    let ls = len * size;
    assert(-0x4000_0000_0000_0000 * 0x8000_0000 <= ls * n <= 0x4000_0000_0000_0000 * 0x8000_0000) by (nonlinear_arith)
        requires -0x4000_0000_0000_0000 <= ls <= 0x4000_0000_0000_0000, 0 <= n < 0x8000_0000;
}

fn ratio_scale(len: i32, tx_size: i32, numer: i32, denom: i32) -> (v: i32)
    ensures
        v == ratio_scale_spec(len as int, tx_size as int, numer as int, denom as int),
        v >= 1,
{
    let d: i128 = if denom <= 0 { 1 } else { denom as i128 };
    let n: i128 = if numer < 0 { 0 } else { numer as i128 };
    let size: i128 = if tx_size <= 0 { 8 } else { tx_size as i128 };
    proof {
        lemma_scale_bounds(len as int, size as int, n as int);
    }
    let num: i128 = (len as i128) * size * n;
    let den: i128 = 8 * d;
    let a: i128 = num + den / 2;
    let scaled: i128 = if a >= 0 { a / den } else { -((-a) / den) };
    let c: i128 = if scaled < i32::MIN as i128 {
        i32::MIN as i128
    } else if scaled > i32::MAX as i128 {
        i32::MAX as i128
    } else {
        scaled
    };
    if c < 1 { 1 } else { c as i32 }
}

fn offset_scale(len: i32, tx_size: i32, numer: i32, denom: i32) -> (v: i32)
    ensures
        v == offset_scale_spec(len as int, tx_size as int, numer as int, denom as int),
{
    let d: i128 = if denom <= 0 { 1 } else { denom as i128 };
    let n: i128 = if numer < 0 { 0 } else { numer as i128 };
    let size: i128 = if tx_size <= 0 { 8 } else { tx_size as i128 };
    let alen: i128 = if len < 0 { -(len as i128) } else { len as i128 };
    proof {
        assert(0 <= alen * size <= 0x8000_0000 * 0x8000_0000) by (nonlinear_arith)
            requires 0 <= alen <= 0x8000_0000, 0 < size < 0x8000_0000;
        let as_ = alen * size;
        assert(0 <= as_ * n <= 0x4000_0000_0000_0000 * 0x8000_0000) by (nonlinear_arith)
            requires 0 <= as_ <= 0x4000_0000_0000_0000, 0 <= n < 0x8000_0000;
    }
    let den: i128 = 8 * d;
    let q: i128 = (alen * size * n + den / 2) / den;
    let s: i128 = if q > i32::MAX as i128 { i32::MAX as i128 } else { q };
    proof {
        assert(q >= 0);
    }
    if len < 0 { -(s as i32) } else { s as i32 }
}

impl TextScale {
    /// `txSize` with a 1/1 ratio on both axes.
    pub fn isotropic(tx_size: i32) -> (s: Self)
        ensures
            s == (TextScale { tx_size, numer_h: 1, denom_h: 1, numer_v: 1, denom_v: 1 }),
    {
        TextScale { tx_size, numer_h: 1, denom_h: 1, numer_v: 1, denom_v: 1 }
    }

    /// A horizontal design length in canvas pixels (at least 1).
    pub fn h(&self, len: i32) -> (v: i32)
        ensures
            v == ratio_scale_spec(len as int, self.tx_size as int, self.numer_h as int, self.denom_h as int),
    {
        ratio_scale(len, self.tx_size, self.numer_h, self.denom_h)
    }

    /// A vertical design length in canvas pixels (at least 1).
    pub fn v(&self, len: i32) -> (v: i32)
        ensures
            v == ratio_scale_spec(len as int, self.tx_size as int, self.numer_v as int, self.denom_v as int),
    {
        ratio_scale(len, self.tx_size, self.numer_v, self.denom_v)
    }

    /// A horizontal design offset in canvas pixels (0 stays 0).
    pub fn h_off(&self, len: i32) -> (v: i32)
        ensures
            v == offset_scale_spec(len as int, self.tx_size as int, self.numer_h as int, self.denom_h as int),
    {
        offset_scale(len, self.tx_size, self.numer_h, self.denom_h)
    }

    /// A vertical design offset in canvas pixels (0 stays 0).
    pub fn v_off(&self, len: i32) -> (v: i32)
        ensures
            v == offset_scale_spec(len as int, self.tx_size as int, self.numer_v as int, self.denom_v as int),
    {
        offset_scale(len, self.tx_size, self.numer_v, self.denom_v)
    }
}

/// The missing-symbol box.
pub open spec fn missing_box() -> [u8; 7] {
    [0b11111, 0b10001, 0b10001, 0b10001, 0b10001, 0b10001, 0b11111]
}

/// The 7 row masks of byte `b` (see [`glyph`]).
pub open spec fn glyph_rows(b: u8) -> [u8; 7] {
    match b {
        0x20 => [0b00000, 0b00000, 0b00000, 0b00000, 0b00000, 0b00000, 0b00000],
        0x21 => [0b00100, 0b00100, 0b00100, 0b00100, 0b00100, 0b00000, 0b00100],
        0x22 => [0b01010, 0b01010, 0b01010, 0b00000, 0b00000, 0b00000, 0b00000],
        0x23 => [0b01010, 0b11111, 0b01010, 0b01010, 0b11111, 0b01010, 0b00000],
        0x24 => [0b00100, 0b01111, 0b10100, 0b01110, 0b00101, 0b11110, 0b00100],
        0x25 => [0b11000, 0b11001, 0b00010, 0b00100, 0b01001, 0b10011, 0b00000],
        0x26 => [0b01100, 0b10010, 0b10100, 0b01000, 0b10101, 0b10010, 0b01101],
        0x27 => [0b00100, 0b00100, 0b00100, 0b00000, 0b00000, 0b00000, 0b00000],
        0x28 => [0b00010, 0b00100, 0b01000, 0b01000, 0b01000, 0b00100, 0b00010],
        0x29 => [0b01000, 0b00100, 0b00010, 0b00010, 0b00010, 0b00100, 0b01000],
        0x2A => [0b00000, 0b00100, 0b10101, 0b01110, 0b10101, 0b00100, 0b00000],
        0x2B => [0b00000, 0b00100, 0b00100, 0b11111, 0b00100, 0b00100, 0b00000],
        0x2C => [0b00000, 0b00000, 0b00000, 0b00000, 0b00100, 0b00100, 0b01000],
        0x2D => [0b00000, 0b00000, 0b00000, 0b11111, 0b00000, 0b00000, 0b00000],
        0x2E => [0b00000, 0b00000, 0b00000, 0b00000, 0b00000, 0b00100, 0b00100],
        0x2F => [0b00001, 0b00010, 0b00100, 0b00100, 0b01000, 0b10000, 0b00000],
        0x30 => [0b01110, 0b10001, 0b10011, 0b10101, 0b11001, 0b10001, 0b01110],
        0x31 => [0b00100, 0b01100, 0b00100, 0b00100, 0b00100, 0b00100, 0b01110],
        0x32 => [0b01110, 0b10001, 0b00001, 0b00110, 0b01000, 0b10000, 0b11111],
        0x33 => [0b11111, 0b00010, 0b00100, 0b00010, 0b00001, 0b10001, 0b01110],
        0x34 => [0b00010, 0b00110, 0b01010, 0b10010, 0b11111, 0b00010, 0b00010],
        0x35 => [0b11111, 0b10000, 0b11110, 0b00001, 0b00001, 0b10001, 0b01110],
        0x36 => [0b00110, 0b01000, 0b10000, 0b11110, 0b10001, 0b10001, 0b01110],
        0x37 => [0b11111, 0b00001, 0b00010, 0b00100, 0b01000, 0b01000, 0b01000],
        0x38 => [0b01110, 0b10001, 0b10001, 0b01110, 0b10001, 0b10001, 0b01110],
        0x39 => [0b01110, 0b10001, 0b10001, 0b01111, 0b00001, 0b00010, 0b01100],
        0x3A => [0b00000, 0b00100, 0b00100, 0b00000, 0b00100, 0b00100, 0b00000],
        0x3B => [0b00000, 0b00100, 0b00100, 0b00000, 0b00100, 0b00100, 0b01000],
        0x3C => [0b00010, 0b00100, 0b01000, 0b10000, 0b01000, 0b00100, 0b00010],
        0x3D => [0b00000, 0b00000, 0b11111, 0b00000, 0b11111, 0b00000, 0b00000],
        0x3E => [0b01000, 0b00100, 0b00010, 0b00001, 0b00010, 0b00100, 0b01000],
        0x3F => [0b01110, 0b10001, 0b00001, 0b00110, 0b00100, 0b00000, 0b00100],
        0x40 => [0b01110, 0b10001, 0b10111, 0b10101, 0b10111, 0b10000, 0b01110],
        0x41 => [0b01110, 0b10001, 0b10001, 0b11111, 0b10001, 0b10001, 0b10001],
        0x42 => [0b11110, 0b10001, 0b10001, 0b11110, 0b10001, 0b10001, 0b11110],
        0x43 => [0b01110, 0b10001, 0b10000, 0b10000, 0b10000, 0b10001, 0b01110],
        0x44 => [0b11100, 0b10010, 0b10001, 0b10001, 0b10001, 0b10010, 0b11100],
        0x45 => [0b11111, 0b10000, 0b10000, 0b11110, 0b10000, 0b10000, 0b11111],
        0x46 => [0b11111, 0b10000, 0b10000, 0b11110, 0b10000, 0b10000, 0b10000],
        0x47 => [0b01110, 0b10001, 0b10000, 0b10111, 0b10001, 0b10001, 0b01111],
        0x48 => [0b10001, 0b10001, 0b10001, 0b11111, 0b10001, 0b10001, 0b10001],
        0x49 => [0b01110, 0b00100, 0b00100, 0b00100, 0b00100, 0b00100, 0b01110],
        0x4A => [0b00111, 0b00010, 0b00010, 0b00010, 0b00010, 0b10010, 0b01100],
        0x4B => [0b10001, 0b10010, 0b10100, 0b11000, 0b10100, 0b10010, 0b10001],
        0x4C => [0b10000, 0b10000, 0b10000, 0b10000, 0b10000, 0b10000, 0b11111],
        0x4D => [0b10001, 0b11011, 0b10101, 0b10101, 0b10001, 0b10001, 0b10001],
        0x4E => [0b10001, 0b11001, 0b10101, 0b10011, 0b10001, 0b10001, 0b10001],
        0x4F => [0b01110, 0b10001, 0b10001, 0b10001, 0b10001, 0b10001, 0b01110],
        0x50 => [0b11110, 0b10001, 0b10001, 0b11110, 0b10000, 0b10000, 0b10000],
        0x51 => [0b01110, 0b10001, 0b10001, 0b10001, 0b10101, 0b10010, 0b01101],
        0x52 => [0b11110, 0b10001, 0b10001, 0b11110, 0b10100, 0b10010, 0b10001],
        0x53 => [0b01111, 0b10000, 0b10000, 0b01110, 0b00001, 0b00001, 0b11110],
        0x54 => [0b11111, 0b00100, 0b00100, 0b00100, 0b00100, 0b00100, 0b00100],
        0x55 => [0b10001, 0b10001, 0b10001, 0b10001, 0b10001, 0b10001, 0b01110],
        0x56 => [0b10001, 0b10001, 0b10001, 0b10001, 0b10001, 0b01010, 0b00100],
        0x57 => [0b10001, 0b10001, 0b10001, 0b10101, 0b10101, 0b10101, 0b01010],
        0x58 => [0b10001, 0b10001, 0b01010, 0b00100, 0b01010, 0b10001, 0b10001],
        0x59 => [0b10001, 0b10001, 0b01010, 0b00100, 0b00100, 0b00100, 0b00100],
        0x5A => [0b11111, 0b00001, 0b00010, 0b00100, 0b01000, 0b10000, 0b11111],
        0x5B => [0b01110, 0b01000, 0b01000, 0b01000, 0b01000, 0b01000, 0b01110],
        0x5C => [0b10000, 0b01000, 0b00100, 0b00100, 0b00010, 0b00001, 0b00000],
        0x5D => [0b01110, 0b00010, 0b00010, 0b00010, 0b00010, 0b00010, 0b01110],
        0x5E => [0b00100, 0b01010, 0b10001, 0b00000, 0b00000, 0b00000, 0b00000],
        0x5F => [0b00000, 0b00000, 0b00000, 0b00000, 0b00000, 0b00000, 0b11111],
        0x60 => [0b01000, 0b00100, 0b00010, 0b00000, 0b00000, 0b00000, 0b00000],
        0x61 => [0b00000, 0b00000, 0b01110, 0b00001, 0b01111, 0b10001, 0b01111],
        0x62 => [0b10000, 0b10000, 0b10110, 0b11001, 0b10001, 0b10001, 0b11110],
        0x63 => [0b00000, 0b00000, 0b01110, 0b10000, 0b10000, 0b10001, 0b01110],
        0x64 => [0b00001, 0b00001, 0b01101, 0b10011, 0b10001, 0b10001, 0b01111],
        0x65 => [0b00000, 0b00000, 0b01110, 0b10001, 0b11111, 0b10000, 0b01110],
        0x66 => [0b00110, 0b01001, 0b01000, 0b11100, 0b01000, 0b01000, 0b01000],
        0x67 => [0b00000, 0b01111, 0b10001, 0b10001, 0b01111, 0b00001, 0b01110],
        0x68 => [0b10000, 0b10000, 0b10110, 0b11001, 0b10001, 0b10001, 0b10001],
        0x69 => [0b00100, 0b00000, 0b01100, 0b00100, 0b00100, 0b00100, 0b01110],
        0x6A => [0b00010, 0b00000, 0b00110, 0b00010, 0b00010, 0b10010, 0b01100],
        0x6B => [0b10000, 0b10000, 0b10010, 0b10100, 0b11000, 0b10100, 0b10010],
        0x6C => [0b01100, 0b00100, 0b00100, 0b00100, 0b00100, 0b00100, 0b01110],
        0x6D => [0b00000, 0b00000, 0b11010, 0b10101, 0b10101, 0b10001, 0b10001],
        0x6E => [0b00000, 0b00000, 0b10110, 0b11001, 0b10001, 0b10001, 0b10001],
        0x6F => [0b00000, 0b00000, 0b01110, 0b10001, 0b10001, 0b10001, 0b01110],
        0x70 => [0b00000, 0b00000, 0b11110, 0b10001, 0b11110, 0b10000, 0b10000],
        0x71 => [0b00000, 0b00000, 0b01101, 0b10011, 0b01111, 0b00001, 0b00001],
        0x72 => [0b00000, 0b00000, 0b10110, 0b11001, 0b10000, 0b10000, 0b10000],
        0x73 => [0b00000, 0b00000, 0b01111, 0b10000, 0b01110, 0b00001, 0b11110],
        0x74 => [0b01000, 0b01000, 0b11100, 0b01000, 0b01000, 0b01001, 0b00110],
        0x75 => [0b00000, 0b00000, 0b10001, 0b10001, 0b10001, 0b10011, 0b01101],
        0x76 => [0b00000, 0b00000, 0b10001, 0b10001, 0b10001, 0b01010, 0b00100],
        0x77 => [0b00000, 0b00000, 0b10001, 0b10001, 0b10101, 0b10101, 0b01010],
        0x78 => [0b00000, 0b00000, 0b10001, 0b01010, 0b00100, 0b01010, 0b10001],
        0x79 => [0b00000, 0b00000, 0b10001, 0b10001, 0b01111, 0b00001, 0b01110],
        0x7A => [0b00000, 0b00000, 0b11111, 0b00010, 0b00100, 0b01000, 0b11111],
        0x7B => [0b00010, 0b00100, 0b00100, 0b01000, 0b00100, 0b00100, 0b00010],
        0x7C => [0b00100, 0b00100, 0b00100, 0b00100, 0b00100, 0b00100, 0b00100],
        0x7D => [0b01000, 0b00100, 0b00100, 0b00010, 0b00100, 0b00100, 0b01000],
        0x7E => [0b00000, 0b00000, 0b01000, 0b10101, 0b00010, 0b00000, 0b00000],
        _ => [0b11111, 0b10001, 0b10001, 0b10001, 0b10001, 0b10001, 0b11111],
    }
}

/// The 7 row masks of byte `b`: the face's glyph for `0x20..=0x7E`,
/// the missing-symbol box otherwise.
pub fn glyph(b: u8) -> (g: [u8; 7])
    ensures
        g == glyph_rows(b),
        !(0x20 <= b <= 0x7E) ==> g == missing_box(),
        b == 0x20 ==> forall|i: int| 0 <= i < 7 ==> g@[i] == 0,
        forall|i: int| 0 <= i < 7 ==> g@[i] < 32,
{
    let g: [u8; 7] = match b {
        0x20 => [0b00000, 0b00000, 0b00000, 0b00000, 0b00000, 0b00000, 0b00000],
        0x21 => [0b00100, 0b00100, 0b00100, 0b00100, 0b00100, 0b00000, 0b00100],
        0x22 => [0b01010, 0b01010, 0b01010, 0b00000, 0b00000, 0b00000, 0b00000],
        0x23 => [0b01010, 0b11111, 0b01010, 0b01010, 0b11111, 0b01010, 0b00000],
        0x24 => [0b00100, 0b01111, 0b10100, 0b01110, 0b00101, 0b11110, 0b00100],
        0x25 => [0b11000, 0b11001, 0b00010, 0b00100, 0b01001, 0b10011, 0b00000],
        0x26 => [0b01100, 0b10010, 0b10100, 0b01000, 0b10101, 0b10010, 0b01101],
        0x27 => [0b00100, 0b00100, 0b00100, 0b00000, 0b00000, 0b00000, 0b00000],
        0x28 => [0b00010, 0b00100, 0b01000, 0b01000, 0b01000, 0b00100, 0b00010],
        0x29 => [0b01000, 0b00100, 0b00010, 0b00010, 0b00010, 0b00100, 0b01000],
        0x2A => [0b00000, 0b00100, 0b10101, 0b01110, 0b10101, 0b00100, 0b00000],
        0x2B => [0b00000, 0b00100, 0b00100, 0b11111, 0b00100, 0b00100, 0b00000],
        0x2C => [0b00000, 0b00000, 0b00000, 0b00000, 0b00100, 0b00100, 0b01000],
        0x2D => [0b00000, 0b00000, 0b00000, 0b11111, 0b00000, 0b00000, 0b00000],
        0x2E => [0b00000, 0b00000, 0b00000, 0b00000, 0b00000, 0b00100, 0b00100],
        0x2F => [0b00001, 0b00010, 0b00100, 0b00100, 0b01000, 0b10000, 0b00000],
        0x30 => [0b01110, 0b10001, 0b10011, 0b10101, 0b11001, 0b10001, 0b01110],
        0x31 => [0b00100, 0b01100, 0b00100, 0b00100, 0b00100, 0b00100, 0b01110],
        0x32 => [0b01110, 0b10001, 0b00001, 0b00110, 0b01000, 0b10000, 0b11111],
        0x33 => [0b11111, 0b00010, 0b00100, 0b00010, 0b00001, 0b10001, 0b01110],
        0x34 => [0b00010, 0b00110, 0b01010, 0b10010, 0b11111, 0b00010, 0b00010],
        0x35 => [0b11111, 0b10000, 0b11110, 0b00001, 0b00001, 0b10001, 0b01110],
        0x36 => [0b00110, 0b01000, 0b10000, 0b11110, 0b10001, 0b10001, 0b01110],
        0x37 => [0b11111, 0b00001, 0b00010, 0b00100, 0b01000, 0b01000, 0b01000],
        0x38 => [0b01110, 0b10001, 0b10001, 0b01110, 0b10001, 0b10001, 0b01110],
        0x39 => [0b01110, 0b10001, 0b10001, 0b01111, 0b00001, 0b00010, 0b01100],
        0x3A => [0b00000, 0b00100, 0b00100, 0b00000, 0b00100, 0b00100, 0b00000],
        0x3B => [0b00000, 0b00100, 0b00100, 0b00000, 0b00100, 0b00100, 0b01000],
        0x3C => [0b00010, 0b00100, 0b01000, 0b10000, 0b01000, 0b00100, 0b00010],
        0x3D => [0b00000, 0b00000, 0b11111, 0b00000, 0b11111, 0b00000, 0b00000],
        0x3E => [0b01000, 0b00100, 0b00010, 0b00001, 0b00010, 0b00100, 0b01000],
        0x3F => [0b01110, 0b10001, 0b00001, 0b00110, 0b00100, 0b00000, 0b00100],
        0x40 => [0b01110, 0b10001, 0b10111, 0b10101, 0b10111, 0b10000, 0b01110],
        0x41 => [0b01110, 0b10001, 0b10001, 0b11111, 0b10001, 0b10001, 0b10001],
        0x42 => [0b11110, 0b10001, 0b10001, 0b11110, 0b10001, 0b10001, 0b11110],
        0x43 => [0b01110, 0b10001, 0b10000, 0b10000, 0b10000, 0b10001, 0b01110],
        0x44 => [0b11100, 0b10010, 0b10001, 0b10001, 0b10001, 0b10010, 0b11100],
        0x45 => [0b11111, 0b10000, 0b10000, 0b11110, 0b10000, 0b10000, 0b11111],
        0x46 => [0b11111, 0b10000, 0b10000, 0b11110, 0b10000, 0b10000, 0b10000],
        0x47 => [0b01110, 0b10001, 0b10000, 0b10111, 0b10001, 0b10001, 0b01111],
        0x48 => [0b10001, 0b10001, 0b10001, 0b11111, 0b10001, 0b10001, 0b10001],
        0x49 => [0b01110, 0b00100, 0b00100, 0b00100, 0b00100, 0b00100, 0b01110],
        0x4A => [0b00111, 0b00010, 0b00010, 0b00010, 0b00010, 0b10010, 0b01100],
        0x4B => [0b10001, 0b10010, 0b10100, 0b11000, 0b10100, 0b10010, 0b10001],
        0x4C => [0b10000, 0b10000, 0b10000, 0b10000, 0b10000, 0b10000, 0b11111],
        0x4D => [0b10001, 0b11011, 0b10101, 0b10101, 0b10001, 0b10001, 0b10001],
        0x4E => [0b10001, 0b11001, 0b10101, 0b10011, 0b10001, 0b10001, 0b10001],
        0x4F => [0b01110, 0b10001, 0b10001, 0b10001, 0b10001, 0b10001, 0b01110],
        0x50 => [0b11110, 0b10001, 0b10001, 0b11110, 0b10000, 0b10000, 0b10000],
        0x51 => [0b01110, 0b10001, 0b10001, 0b10001, 0b10101, 0b10010, 0b01101],
        0x52 => [0b11110, 0b10001, 0b10001, 0b11110, 0b10100, 0b10010, 0b10001],
        0x53 => [0b01111, 0b10000, 0b10000, 0b01110, 0b00001, 0b00001, 0b11110],
        0x54 => [0b11111, 0b00100, 0b00100, 0b00100, 0b00100, 0b00100, 0b00100],
        0x55 => [0b10001, 0b10001, 0b10001, 0b10001, 0b10001, 0b10001, 0b01110],
        0x56 => [0b10001, 0b10001, 0b10001, 0b10001, 0b10001, 0b01010, 0b00100],
        0x57 => [0b10001, 0b10001, 0b10001, 0b10101, 0b10101, 0b10101, 0b01010],
        0x58 => [0b10001, 0b10001, 0b01010, 0b00100, 0b01010, 0b10001, 0b10001],
        0x59 => [0b10001, 0b10001, 0b01010, 0b00100, 0b00100, 0b00100, 0b00100],
        0x5A => [0b11111, 0b00001, 0b00010, 0b00100, 0b01000, 0b10000, 0b11111],
        0x5B => [0b01110, 0b01000, 0b01000, 0b01000, 0b01000, 0b01000, 0b01110],
        0x5C => [0b10000, 0b01000, 0b00100, 0b00100, 0b00010, 0b00001, 0b00000],
        0x5D => [0b01110, 0b00010, 0b00010, 0b00010, 0b00010, 0b00010, 0b01110],
        0x5E => [0b00100, 0b01010, 0b10001, 0b00000, 0b00000, 0b00000, 0b00000],
        0x5F => [0b00000, 0b00000, 0b00000, 0b00000, 0b00000, 0b00000, 0b11111],
        0x60 => [0b01000, 0b00100, 0b00010, 0b00000, 0b00000, 0b00000, 0b00000],
        0x61 => [0b00000, 0b00000, 0b01110, 0b00001, 0b01111, 0b10001, 0b01111],
        0x62 => [0b10000, 0b10000, 0b10110, 0b11001, 0b10001, 0b10001, 0b11110],
        0x63 => [0b00000, 0b00000, 0b01110, 0b10000, 0b10000, 0b10001, 0b01110],
        0x64 => [0b00001, 0b00001, 0b01101, 0b10011, 0b10001, 0b10001, 0b01111],
        0x65 => [0b00000, 0b00000, 0b01110, 0b10001, 0b11111, 0b10000, 0b01110],
        0x66 => [0b00110, 0b01001, 0b01000, 0b11100, 0b01000, 0b01000, 0b01000],
        0x67 => [0b00000, 0b01111, 0b10001, 0b10001, 0b01111, 0b00001, 0b01110],
        0x68 => [0b10000, 0b10000, 0b10110, 0b11001, 0b10001, 0b10001, 0b10001],
        0x69 => [0b00100, 0b00000, 0b01100, 0b00100, 0b00100, 0b00100, 0b01110],
        0x6A => [0b00010, 0b00000, 0b00110, 0b00010, 0b00010, 0b10010, 0b01100],
        0x6B => [0b10000, 0b10000, 0b10010, 0b10100, 0b11000, 0b10100, 0b10010],
        0x6C => [0b01100, 0b00100, 0b00100, 0b00100, 0b00100, 0b00100, 0b01110],
        0x6D => [0b00000, 0b00000, 0b11010, 0b10101, 0b10101, 0b10001, 0b10001],
        0x6E => [0b00000, 0b00000, 0b10110, 0b11001, 0b10001, 0b10001, 0b10001],
        0x6F => [0b00000, 0b00000, 0b01110, 0b10001, 0b10001, 0b10001, 0b01110],
        0x70 => [0b00000, 0b00000, 0b11110, 0b10001, 0b11110, 0b10000, 0b10000],
        0x71 => [0b00000, 0b00000, 0b01101, 0b10011, 0b01111, 0b00001, 0b00001],
        0x72 => [0b00000, 0b00000, 0b10110, 0b11001, 0b10000, 0b10000, 0b10000],
        0x73 => [0b00000, 0b00000, 0b01111, 0b10000, 0b01110, 0b00001, 0b11110],
        0x74 => [0b01000, 0b01000, 0b11100, 0b01000, 0b01000, 0b01001, 0b00110],
        0x75 => [0b00000, 0b00000, 0b10001, 0b10001, 0b10001, 0b10011, 0b01101],
        0x76 => [0b00000, 0b00000, 0b10001, 0b10001, 0b10001, 0b01010, 0b00100],
        0x77 => [0b00000, 0b00000, 0b10001, 0b10001, 0b10101, 0b10101, 0b01010],
        0x78 => [0b00000, 0b00000, 0b10001, 0b01010, 0b00100, 0b01010, 0b10001],
        0x79 => [0b00000, 0b00000, 0b10001, 0b10001, 0b01111, 0b00001, 0b01110],
        0x7A => [0b00000, 0b00000, 0b11111, 0b00010, 0b00100, 0b01000, 0b11111],
        0x7B => [0b00010, 0b00100, 0b00100, 0b01000, 0b00100, 0b00100, 0b00010],
        0x7C => [0b00100, 0b00100, 0b00100, 0b00100, 0b00100, 0b00100, 0b00100],
        0x7D => [0b01000, 0b00100, 0b00100, 0b00010, 0b00100, 0b00100, 0b01000],
        0x7E => [0b00000, 0b00000, 0b01000, 0b10101, 0b00010, 0b00000, 0b00000],
        _ => [0b11111, 0b10001, 0b10001, 0b10001, 0b10001, 0b10001, 0b11111],
    };
    g
}

/// Advance of byte `b` at the design size.
pub fn char_advance_design(b: u8) -> (a: i32)
    ensures
        a == ADVANCE,
{
    ADVANCE
}

/// Style synthesis amounts (design pixels).
#[derive(Debug, Clone, Copy, PartialEq, Eq, Structural)]
pub struct StyleParams {
    /// Bold smear passes.
    pub bold: i32,
    /// Italic shear: a row `d` rows from the baseline shifts by
    /// `(d * italic) >> 4`.
    pub italic: i32,
    /// Underline rows below the baseline.
    pub ul_offset: i32,
    /// Underline gap on either side of ink in its row.
    pub ul_shadow: i32,
    /// Underline thickness.
    pub ul_thick: i32,
    /// Ring factor: 0 solid, 1 hollow ring, 2 ring thickened below and right.
    pub shadow: i32,
    /// Extra advance (negative when condensed).
    pub extra: i32,
}

/// The amounts of a style byte per the screen characterization table.
pub open spec fn style_spec(face: u8) -> StyleParams {
    let bold = face & 1 != 0;
    let italic = face & 2 != 0;
    let underline = face & 4 != 0;
    let outline = face & 8 != 0;
    let shadow = face & 16 != 0;
    let condense = face & 32 != 0;
    let extend = face & 64 != 0;
    StyleParams {
        bold: if bold { 1 } else { 0 },
        italic: if italic { 8 } else { 0 },
        ul_offset: if underline { 1 } else { 0 },
        ul_shadow: if underline { 1 } else { 0 },
        ul_thick: if underline { 1 } else { 0 },
        shadow: if shadow { 2 } else if outline { 1 } else { 0 },
        extra: ((if bold { 1int } else { 0 }) + (if outline { 1int } else { 0 }) + (if shadow { 2int } else { 0 })
            - (if condense { 1int } else { 0 }) + (if extend { 1int } else { 0 })) as i32,
    }
}

impl StyleParams {
    /// Amounts within the ranges the synthesis handles.
    pub open spec fn wf(&self) -> bool {
        &&& 0 <= self.bold <= 16
        &&& 0 <= self.italic <= 32
        &&& -16 <= self.ul_offset <= 16
        &&& 0 <= self.ul_shadow <= 16
        &&& 0 <= self.ul_thick <= 16
        &&& 0 <= self.shadow <= 16
        &&& -16 <= self.extra <= 16
    }

    /// The synthesis amounts of a `txFace` byte.
    pub fn from_face(face: PictTextFace) -> (p: Self)
        ensures
            p == style_spec(face.0),
            p.wf(),
    {
        let mut p = StyleParams { bold: 0, italic: 0, ul_offset: 0, ul_shadow: 0, ul_thick: 0, shadow: 0, extra: 0 };
        if face.bold() {
            p.bold = 1;
            p.extra = p.extra + 1;
        }
        if face.italic() {
            p.italic = 8;
        }
        if face.outline() {
            p.shadow = 1;
            p.extra = p.extra + 1;
        }
        if face.shadow() {
            p.shadow = 2;
            p.extra = p.extra + 2;
        }
        if face.condense() {
            p.extra = p.extra - 1;
        }
        if face.extend() {
            p.extra = p.extra + 1;
        }
        if face.underline() {
            p.ul_offset = 1;
            p.ul_shadow = 1;
            p.ul_thick = 1;
        }
        p
    }

    /// Whether no synthesis pass changes the plain glyph.
    pub fn is_plain(&self) -> (b: bool)
        ensures
            b == (self.bold == 0 && self.italic == 0 && self.ul_offset == 0 && self.ul_shadow == 0 && self.ul_thick
                == 0 && self.shadow == 0 && self.extra == 0),
    {
        self.bold == 0 && self.italic == 0 && self.ul_offset == 0 && self.ul_shadow == 0 && self.ul_thick == 0
            && self.shadow == 0 && self.extra == 0
    }
}

/// Width of the synthesis mask in design columns.
pub const MASK_W: i32 = 16;
/// Design column `-MASK_OX` is mask bit 0.
pub const MASK_OX: i32 = 2;
/// Design row `-MASK_OY` is mask row 0.
pub const MASK_OY: i32 = 1;

/// The glyph's rows as mask bits: design column `c` of row `r` is bit
/// `c + MASK_OX` of mask row `r + MASK_OY`.
fn plain_mask(bmp: [u8; 7]) -> (m: [u32; 12])
    requires
        forall|i: int| 0 <= i < 7 ==> bmp@[i] < 32,
    ensures
        m@[0] == 0,
        forall|i: int| 8 <= i < 12 ==> m@[i] == 0,
        forall|r: int| 0 <= r < 7 ==> #[trigger] m@[r + 1] == (bmp@[r] as u32) << 2u32,
{
    let mut m: [u32; 12] = [0u32; 12];
    let mut r: usize = 0;
    while r < 7
        invariant
            r <= 7,
            m@.len() == 12,
            m@[0] == 0,
            forall|i: int| r + 1 <= i < 12 ==> m@[i] == 0,
            forall|k: int| 0 <= k < r ==> #[trigger] m@[k + 1] == (bmp@[k] as u32) << 2u32,
        decreases 7 - r,
    {
        let v = (bmp[r] as u32) << 2u32;
        m[r + 1] = v;
        r += 1;
    }
    m
}

/// The plain mask of the glyph rows `bmp` (see [`plain_mask`]).
pub open spec fn plain_mask_spec(bmp: Seq<u8>) -> Seq<u32> {
    Seq::new(12, |i: int| if 1 <= i <= 7 { (bmp[i - 1] as u32) << 2u32 } else { 0u32 })
}

/// One bold smear of a mask row: the row or-ed with itself shifted one
/// column.
pub open spec fn smear_row(v: u32) -> u32 {
    v | (v << 1u32)
}

/// The mask after `k` bold smears.
pub open spec fn bold_spec(m: Seq<u32>, k: int) -> Seq<u32>
    decreases k,
{
    if k <= 0 {
        m
    } else {
        let p = bold_spec(m, k - 1);
        Seq::new(12, |i: int| smear_row(p[i]))
    }
}

/// Mask row `i` sheared by the italic amount: rows above the baseline
/// move right, rows below it move left, by `distance * italic / 16`.
pub open spec fn shear_row(v: u32, i: int, italic: int) -> u32 {
    let dist = BASELINE_ROW - (i - MASK_OY);
    if dist > 0 {
        v << (((dist * italic) / 16) as u32)
    } else if dist < 0 {
        v >> ((((-dist) * italic) / 16) as u32)
    } else {
        v
    }
}

/// The mask after the italic shear (none when `italic` is 0).
pub open spec fn italic_spec(m: Seq<u32>, italic: int) -> Seq<u32> {
    if italic > 0 {
        Seq::new(12, |i: int| shear_row(m[i], i, italic))
    } else {
        m
    }
}

/// Row `i` of the one-pixel ring around the solid mask: its 8-neighbour
/// dilation minus the solid body.
pub open spec fn ring_row(solid: Seq<u32>, i: int) -> u32 {
    let above = if i > 0 { solid[i - 1] } else { 0u32 };
    let below = if i + 1 < 12 { solid[i + 1] } else { 0u32 };
    let s = solid[i];
    (s | (s << 1u32) | (s >> 1u32) | above | (above << 1u32) | (above >> 1u32) | below | (below << 1u32) | (below
        >> 1u32)) & !s
}

/// Row `i` of the ring after adding the shadow copy at offset `d`
/// (right, and down where there is a row `d` above).
pub open spec fn shadow_row(ring: Seq<u32>, base: Seq<u32>, i: int, d: int) -> u32 {
    let v = ring[i] | (base[i] << (d as u32));
    if i >= d {
        v | base[i - d] | (base[i - d] << (d as u32))
    } else {
        v
    }
}

/// The ring with the shadow copies at offsets `1 .. d - 1` added.
pub open spec fn shadow_spec(base: Seq<u32>, d: int) -> Seq<u32>
    decreases d,
{
    if d <= 1 {
        base
    } else {
        let r = shadow_spec(base, d - 1);
        Seq::new(12, |i: int| shadow_row(r, base, i, d - 1))
    }
}

/// The outline / shadow pass: the ring (with its shadow copies) minus
/// the solid mask, or the mask itself when `shadow` is 0.
pub open spec fn outline_spec(m: Seq<u32>, shadow: int) -> Seq<u32> {
    if shadow > 0 {
        let base = Seq::new(12, |i: int| ring_row(m, i));
        let ring = shadow_spec(base, shadow);
        Seq::new(12, |i: int| ring[i] & !m[i])
    } else {
        m
    }
}

/// The ink of a row and its copies shifted by up to `n` columns either
/// way: where the underline leaves a gap.
pub open spec fn keep_out_spec(ink: u32, n: int) -> u32
    decreases n,
{
    if n <= 0 {
        ink
    } else {
        keep_out_spec(ink, n - 1) | (ink << (n as u32)) | (ink >> (n as u32))
    }
}

/// The underline's columns: the first `advance` (at most 16) columns
/// of the cell.
pub open spec fn ul_span(advance: i32) -> u32 {
    let cols: u32 = if advance < MASK_W { advance as u32 } else { MASK_W as u32 };
    (((1u32 << cols) - 1) as u32) << 2u32
}

/// The mask row of underline line `t`.
pub open spec fn ul_row(style: StyleParams, t: int) -> int {
    BASELINE_ROW + style.ul_offset + t + MASK_OY
}

/// The mask after the first `t` underline lines: each adds the span,
/// gapped around the ink in its row; the lines stop at the first one
/// outside the mask.
pub open spec fn underline_spec(m: Seq<u32>, style: StyleParams, advance: i32, t: int) -> Seq<u32>
    decreases t,
{
    if t <= 0 {
        m
    } else {
        let p = underline_spec(m, style, advance, t - 1);
        let row = ul_row(style, t - 1);
        if ul_row(style, 0) < 0 || row >= 12 {
            p
        } else {
            p.update(row, p[row] | (ul_span(advance) & !keep_out_spec(p[row], style.ul_shadow as int)))
        }
    }
}

/// The styled ink mask of glyph rows `bmp`: bold smear, italic shear,
/// outline / shadow ring, underline.
pub open spec fn glyph_mask_spec(bmp: Seq<u8>, style: StyleParams, advance: i32) -> Seq<u32> {
    let m1 = bold_spec(plain_mask_spec(bmp), style.bold as int);
    let m2 = italic_spec(m1, style.italic as int);
    let m3 = outline_spec(m2, style.shadow as int);
    if style.ul_thick > 0 && advance > 0 {
        underline_spec(m3, style, advance, style.ul_thick as int)
    } else {
        m3
    }
}

/// Once an underline line falls outside the mask, later lines add
/// nothing.
proof fn lemma_underline_stops(m: Seq<u32>, style: StyleParams, advance: i32, t: int, n: int)
    requires
        0 <= t <= n,
        ul_row(style, 0) < 0 || ul_row(style, t) >= 12,
    ensures
        underline_spec(m, style, advance, n) == underline_spec(m, style, advance, t),
    decreases n - t,
{
    if n > t {
        lemma_underline_stops(m, style, advance, t, n - 1);
    }
}

/// The styled ink mask of one glyph in design space: bold smear, then
/// italic shear, then the outline / shadow ring (the solid body left
/// unpainted), then the underline across `advance` columns, gapped
/// around ink already in its rows.
#[verifier::rlimit(40)]
fn synth_glyph_mask(bmp: [u8; 7], style: &StyleParams, advance: i32) -> (m: [u32; 12])
    requires
        style.wf(),
        forall|i: int| 0 <= i < 7 ==> bmp@[i] < 32,
    ensures
        m@ == glyph_mask_spec(bmp@, *style, advance),
{
    let mut m = plain_mask(bmp);
    proof {
        assert(m@ =~= plain_mask_spec(bmp@)) by {
            assert forall|i: int| 0 <= i < 12 implies m@[i] == plain_mask_spec(bmp@)[i] by {
                if 1 <= i <= 7 {
                    assert(m@[(i - 1) + 1] == (bmp@[i - 1] as u32) << 2u32);
                }
            }
        }
    }
    let ghost m0 = m@;
    let mut k: i32 = 0;
    while k < style.bold
        invariant
            0 <= k <= style.bold,
            m@.len() == 12,
            m@ == bold_spec(m0, k as int),
        decreases style.bold - k,
    {
        let ghost prev = m@;
        let mut i: usize = 0;
        while i < 12
            invariant
                i <= 12,
                m@.len() == 12,
                prev.len() == 12,
                forall|j: int| 0 <= j < i ==> m@[j] == smear_row(prev[j]),
                forall|j: int| i <= j < 12 ==> m@[j] == prev[j],
            decreases 12 - i,
        {
            let v = m[i];
            m[i] = v | (v << 1u32);
            i += 1;
        }
        assert(m@ =~= Seq::new(12, |j: int| smear_row(prev[j])));
        k += 1;
    }
    let ghost m1 = m@;
    if style.italic > 0 {
        let mut i: usize = 0;
        while i < 12
            invariant
                i <= 12,
                m@.len() == 12,
                m1.len() == 12,
                0 < style.italic <= 32,
                forall|j: int| 0 <= j < i ==> m@[j] == shear_row(m1[j], j, style.italic as int),
                forall|j: int| i <= j < 12 ==> m@[j] == m1[j],
            decreases 12 - i,
        {
            let dist: i32 = BASELINE_ROW - (i as i32 - MASK_OY);
            let v = m[i];
            proof {
                assert(-4 <= dist <= 7);
                assert(-128 <= dist * style.italic <= 224) by (nonlinear_arith)
                    requires -4 <= dist <= 7, 0 < style.italic <= 32;
                assert(0 <= (-dist) * style.italic <= 128 || dist >= 0) by (nonlinear_arith)
                    requires -4 <= dist <= 7, 0 < style.italic <= 32;
                assert(dist > 0 ==> 0 <= dist * style.italic) by (nonlinear_arith)
                    requires 0 < style.italic;
            }
            if dist > 0 {
                let sh = (dist * style.italic) / 16;
                m[i] = v << (sh as u32);
            } else if dist < 0 {
                let sh = (-dist * style.italic) / 16;
                m[i] = v >> (sh as u32);
            }
            i += 1;
        }
        assert(m@ =~= Seq::new(12, |j: int| shear_row(m1[j], j, style.italic as int)));
    }
    let ghost m2 = m@;
    assert(m2 == italic_spec(m1, style.italic as int));
    if style.shadow > 0 {
        let solid = m;
        let mut ring: [u32; 12] = [0u32; 12];
        let mut i: usize = 0;
        while i < 12
            invariant
                i <= 12,
                ring@.len() == 12,
                solid@.len() == 12,
                solid@ == m2,
                forall|j: int| 0 <= j < i ==> ring@[j] == ring_row(m2, j),
            decreases 12 - i,
        {
            let above = if i > 0 { solid[i - 1] } else { 0 };
            let below = if i + 1 < 12 { solid[i + 1] } else { 0 };
            let s = solid[i];
            let dil = s | (s << 1u32) | (s >> 1u32) | above | (above << 1u32) | (above >> 1u32) | below | (below << 1u32) | (
            below >> 1u32);
            ring[i] = dil & !s;
            i += 1;
        }
        let base = ring;
        proof {
            assert(base@ =~= Seq::new(12, |j: int| ring_row(m2, j)));
        }
        let mut d: i32 = 1;
        while d < style.shadow
            invariant
                1 <= d <= style.shadow <= 16,
                ring@.len() == 12,
                base@.len() == 12,
                ring@ == shadow_spec(base@, d as int),
            decreases style.shadow - d,
        {
            let du = d as usize;
            let ghost prev = ring@;
            let mut j: usize = 12;
            while j > 0
                invariant
                    j <= 12,
                    1 <= d < 16,
                    du == d,
                    ring@.len() == 12,
                    base@.len() == 12,
                    prev.len() == 12,
                    forall|x: int| j <= x < 12 ==> ring@[x] == shadow_row(prev, base@, x, d as int),
                    forall|x: int| 0 <= x < j ==> ring@[x] == prev[x],
                decreases j,
            {
                let i = j - 1;
                let mut v = ring[i] | (base[i] << (d as u32));
                if i >= du {
                    v = v | base[i - du] | (base[i - du] << (d as u32));
                }
                ring[i] = v;
                j -= 1;
            }
            assert(ring@ =~= Seq::new(12, |x: int| shadow_row(prev, base@, x, d as int)));
            d += 1;
        }
        let mut i: usize = 0;
        while i < 12
            invariant
                i <= 12,
                m@.len() == 12,
                ring@.len() == 12,
                solid@.len() == 12,
                solid@ == m2,
                forall|x: int| 0 <= x < i ==> m@[x] == ring@[x] & !m2[x],
            decreases 12 - i,
        {
            m[i] = ring[i] & !solid[i];
            i += 1;
        }
        assert(m@ =~= Seq::new(12, |x: int| ring@[x] & !m2[x]));
    }
    let ghost m3 = m@;
    assert(m3 == outline_spec(m2, style.shadow as int));
    if style.ul_thick > 0 && advance > 0 {
        let cols: u32 = if advance < MASK_W { advance as u32 } else { MASK_W as u32 };
        proof {
            assert(1u32 << cols >= 1) by (bit_vector)
                requires 1 <= cols <= 16;
        }
        let span: u32 = ((1u32 << cols) - 1) << 2u32;
        assert(span == ul_span(advance));
        let mut t: i32 = 0;
        while t < style.ul_thick
            invariant
                0 <= t <= style.ul_thick <= 16,
                -16 <= style.ul_offset <= 16,
                0 <= style.ul_shadow <= 16,
                m@.len() == 12,
                span == ul_span(advance),
                m@ == underline_spec(m3, *style, advance, t as int),
                t > 0 ==> ul_row(*style, 0) >= 0,
            ensures
                m@ == underline_spec(m3, *style, advance, style.ul_thick as int),
            decreases style.ul_thick - t,
        {
            let row: i32 = BASELINE_ROW + style.ul_offset + t + MASK_OY;
            if row < 0 || row >= 12 {
                proof {
                    lemma_underline_stops(m3, *style, advance, t as int, style.ul_thick as int);
                }
                break;
            }
            let i = row as usize;
            let ink = m[i];
            let mut keep_out = ink;
            let mut sft: i32 = 1;
            while sft <= style.ul_shadow
                invariant
                    1 <= sft <= style.ul_shadow + 1,
                    style.ul_shadow <= 16,
                    keep_out == keep_out_spec(ink, (sft - 1) as int),
                decreases style.ul_shadow + 1 - sft,
            {
                keep_out = keep_out | (ink << (sft as u32)) | (ink >> (sft as u32));
                sft += 1;
            }
            m[i] = m[i] | (span & !keep_out);
            t += 1;
        }
    }
    m
}

/// `a + b` saturated to `i32`.
fn sat_add(a: i32, b: i32) -> (s: i32)
    ensures
        s == clamp32(a + b),
{
    let v: i64 = a as i64 + b as i64;
    if v > i32::MAX as i64 {
        i32::MAX
    } else if v < i32::MIN as i64 {
        i32::MIN
    } else {
        v as i32
    }
}

/// `a - b` saturated to `i32`.
fn sat_sub(a: i32, b: i32) -> (s: i32)
    ensures
        s == clamp32(a - b),
{
    let v: i64 = a as i64 - b as i64;
    if v > i32::MAX as i64 {
        i32::MAX
    } else if v < i32::MIN as i64 {
        i32::MIN
    } else {
        v as i32
    }
}

/// The pen position after the first `k` bytes of `text`, starting at
/// `start`: each byte adds its scaled styled advance, `ch_extra` and
/// `inter_char`, a space also `sp_extra`, every addition saturating.
pub open spec fn pen_walk(text: Seq<u8>, k: int, start: int, scale: TextScale, ch_extra: int, sp_extra: int, inter_char: int, extra: int) -> int
    decreases k,
{
    if k <= 0 {
        start
    } else {
        let prev = pen_walk(text, k - 1, start, scale, ch_extra, sp_extra, inter_char, extra);
        let adv = if ADVANCE + extra < 1 { 1 } else { ADVANCE + extra };
        let a1 = clamp32(prev + ratio_scale_spec(adv, scale.tx_size as int, scale.numer_h as int, scale.denom_h as int));
        let a2 = clamp32(a1 + ch_extra);
        let a3 = clamp32(a2 + inter_char);
        if text[k - 1] == 0x20 { clamp32(a3 + sp_extra) } else { a3 }
    }
}

/// Advance width, in canvas pixels, of drawing `text`: the pen walk
/// from 0 with the style's extra widening.
pub open spec fn measure_spec(text: Seq<u8>, scale: TextScale, ch_extra: int, sp_extra: int, inter_char: int, face: u8) -> int {
    pen_walk(text, text.len() as int, 0, scale, ch_extra, sp_extra, inter_char, style_spec(face).extra as int)
}

/// One byte's step of the pen walk.
fn pen_step(x: i32, b: u8, scale: &TextScale, advance: i32, ch_extra: i32, sp_extra: i32, inter_char: i32) -> (nx: i32)
    ensures
        ({
            let a1 = clamp32(x + ratio_scale_spec(advance as int, scale.tx_size as int, scale.numer_h as int, scale.denom_h as int));
            let a2 = clamp32(a1 + ch_extra);
            let a3 = clamp32(a2 + inter_char);
            nx == if b == 0x20 { clamp32(a3 + sp_extra) } else { a3 }
        }),
{
    let mut nx = sat_add(x, scale.h(advance));
    nx = sat_add(nx, ch_extra);
    nx = sat_add(nx, inter_char);
    if b == 0x20 {
        nx = sat_add(nx, sp_extra);
    }
    nx
}

/// Advance width, in canvas pixels, of drawing `text` at `scale` with
/// the given extras and style.
pub fn measure_text(text: &[u8], scale: TextScale, ch_extra: i32, sp_extra: i32, inter_char: i32, face: PictTextFace) -> (adv: i32)
    ensures
        adv == measure_spec(text@, scale, ch_extra as int, sp_extra as int, inter_char as int, face.0),
{
    let style = StyleParams::from_face(face);
    let advance: i32 = if ADVANCE + style.extra < 1 { 1 } else { ADVANCE + style.extra };
    let mut adv: i32 = 0;
    let mut k: usize = 0;
    while k < text.len()
        invariant
            k <= text@.len(),
            style == style_spec(face.0),
            advance == (if ADVANCE + style.extra < 1 { 1 } else { ADVANCE + style.extra }),
            adv == pen_walk(text@, k as int, 0, scale, ch_extra as int, sp_extra as int, inter_char as int, style.extra as int),
        decreases text@.len() - k,
    {
        adv = pen_step(adv, text[k], &scale, advance, ch_extra, sp_extra, inter_char);
        k += 1;
    }
    adv
}


/// Whether `mode` leaves the off bits of a glyph alone (`srcOr`,
/// `srcBic`, `srcXor`).
pub open spec fn transparent_off(mode: SourceMode) -> bool {
    mode is SrcOr || mode is SrcBic || mode is SrcXor
}

/// The advance in design pixels of a face: six, widened by the style,
/// at least one.
pub open spec fn text_advance(face: u8) -> i32 {
    let e = style_spec(face).extra;
    if ADVANCE + e < 1 {
        1
    } else {
        (ADVANCE + e) as i32
    }
}

/// The top canvas row of mask row `i` for a baseline at `pen_y`.
pub open spec fn glyph_row_top(i: int, pen_y: i32, scale: TextScale) -> int {
    let rd = i - MASK_OY;
    let above = BASELINE_ROW - rd;
    if above >= 0 {
        clamp32(
            clamp32(pen_y - ratio_scale_spec(above + 1, scale.tx_size as int, scale.numer_v as int, scale.denom_v as int))
                + 1,
        )
    } else {
        clamp32(
            clamp32(pen_y + 1) + offset_scale_spec(
                rd - BASELINE_ROW - 1,
                scale.tx_size as int,
                scale.numer_v as int,
                scale.denom_v as int,
            ),
        )
    }
}

/// The block that mask cell `(col, i)` of glyph `k` of `text` paints,
/// when it paints one: its canvas rectangle (top, left, bottom, right)
/// and whether it is an on bit (ink) or an off bit (paper). On bits of
/// a non-empty row paint; off bits paint only in the opaque modes,
/// inside the 5 x 7 cell.
pub open spec fn text_block(
    text: Seq<u8>,
    k: int,
    i: int,
    col: int,
    pen_x: i32,
    pen_y: i32,
    scale: TextScale,
    ch_extra: i32,
    sp_extra: i32,
    inter_char: i32,
    face: u8,
    mode: SourceMode,
) -> Option<(int, int, int, int, bool)> {
    let style = style_spec(face);
    let m = glyph_mask_spec(glyph_rows(text[k])@, style, text_advance(face));
    let rowbits = m[i];
    let on = (rowbits >> (col as u32)) & 1u32 != 0;
    let cd = col - MASK_OX;
    let rd = i - MASK_OY;
    let in_cell_row = 0 <= rd < GLYPH_H;
    let x = pen_walk(text, k, pen_x as int, scale, ch_extra as int, sp_extra as int, inter_char as int, style.extra as int);
    let cw = ratio_scale_spec(1, scale.tx_size as int, scale.numer_h as int, scale.denom_h as int);
    let ch = ratio_scale_spec(1, scale.tx_size as int, scale.numer_v as int, scale.denom_v as int);
    let top = glyph_row_top(i, pen_y, scale);
    let left = clamp32(x + offset_scale_spec(cd, scale.tx_size as int, scale.numer_h as int, scale.denom_h as int));
    if rowbits != 0 && (on || !(transparent_off(mode) || !in_cell_row || !(0 <= cd < GLYPH_W))) {
        Some((top, left, clamp32(top + ch), clamp32(left + cw), on))
    } else {
        None
    }
}

/// Pixel `(x, y)` of canvas `c0` after drawing `text` up to mask cell
/// `(col, i)` of glyph `k` (glyphs in order, rows top to bottom, cells
/// left to right): each painted block within the clip takes its ink
/// (black for on bits, white for off bits) through `blend_source` with
/// `fg` / `bg` over what is there.
pub open spec fn text_px(
    c0: Canvas,
    text: Seq<u8>,
    pen_x: i32,
    pen_y: i32,
    scale: TextScale,
    ch_extra: i32,
    sp_extra: i32,
    inter_char: i32,
    face: u8,
    fg: Rgba,
    bg: Rgba,
    mode: SourceMode,
    k: int,
    i: int,
    col: int,
    x: int,
    y: int,
) -> Rgba
    decreases k, i, col,
{
    if k < 0 || i < 0 || col < 0 {
        c0.px(x, y)
    } else if col > 0 {
        let prev = text_px(c0, text, pen_x, pen_y, scale, ch_extra, sp_extra, inter_char, face, fg, bg, mode, k, i, col - 1, x, y);
        match text_block(text, k, i, col - 1, pen_x, pen_y, scale, ch_extra, sp_extra, inter_char, face, mode) {
            Some((t, l, b, r, on)) => if c0.clip_ok(x, y) && t <= y < b && l <= x < r {
                blend_source_spec(mode, if on { black_spec() } else { white_spec() }, prev, fg, bg)
            } else {
                prev
            },
            None => prev,
        }
    } else if i > 0 {
        text_px(c0, text, pen_x, pen_y, scale, ch_extra, sp_extra, inter_char, face, fg, bg, mode, k, i - 1, MASK_W as int, x, y)
    } else if k > 0 {
        text_px(c0, text, pen_x, pen_y, scale, ch_extra, sp_extra, inter_char, face, fg, bg, mode, k - 1, 12, 0, x, y)
    } else {
        c0.px(x, y)
    }
}

/// A mask row with no bits paints nothing.
proof fn lemma_empty_row(
    c0: Canvas,
    text: Seq<u8>,
    pen_x: i32,
    pen_y: i32,
    scale: TextScale,
    ch_extra: i32,
    sp_extra: i32,
    inter_char: i32,
    face: u8,
    fg: Rgba,
    bg: Rgba,
    mode: SourceMode,
    k: int,
    i: int,
    col: int,
    x: int,
    y: int,
)
    requires
        0 <= k,
        0 <= i,
        0 <= col,
        glyph_mask_spec(glyph_rows(text[k])@, style_spec(face), text_advance(face))[i] == 0,
    ensures
        text_px(c0, text, pen_x, pen_y, scale, ch_extra, sp_extra, inter_char, face, fg, bg, mode, k, i, col, x, y)
            == text_px(c0, text, pen_x, pen_y, scale, ch_extra, sp_extra, inter_char, face, fg, bg, mode, k, i, 0, x, y),
    decreases col,
{
    if col > 0 {
        lemma_empty_row(c0, text, pen_x, pen_y, scale, ch_extra, sp_extra, inter_char, face, fg, bg, mode, k, i, col - 1, x, y);
    }
}

/// Painting the block of mask cell `(col, i)` of glyph `k` takes the
/// canvas from the pixels before that cell to the pixels after it.
#[verifier::spinoff_prover]
proof fn lemma_block_painted(
    c0: Canvas,
    cb: Canvas,
    ca: Canvas,
    text: Seq<u8>,
    pen_x: i32,
    pen_y: i32,
    scale: TextScale,
    ch_extra: i32,
    sp_extra: i32,
    inter_char: i32,
    face: u8,
    fg: Rgba,
    bg: Rgba,
    mode: SourceMode,
    k: int,
    i: int,
    col: int,
    shape: Shape,
    ink: Ink,
    src: Rgba,
    on: bool,
)
    requires
        0 <= k,
        0 <= i,
        0 <= col,
        c0.same_frame(&cb),
        crate::raster::painted(cb, ca, shape, ink),
        text_block(text, k, i, col, pen_x, pen_y, scale, ch_extra, sp_extra, inter_char, face, mode) matches Some((t, l, b, r, o)) && o == on && ({
            let cw = ratio_scale_spec(1, scale.tx_size as int, scale.numer_h as int, scale.denom_h as int);
            let ch = ratio_scale_spec(1, scale.tx_size as int, scale.numer_v as int, scale.denom_v as int);
            &&& shape == Shape::Fill(Figure::Rect { top: t as i32, left: l as i32, bottom: b as i32, right: r as i32 })
            &&& ink matches Ink::Raster { src: sv, src_w, src_h, top, left, dst_w, dst_h, mode: md, fg: f, bg: g } && sv@.len() >= 4
                && cell(sv@, 0) == src && src_w == 1 && src_h == 1 && top == t && left == l && dst_w == cw && dst_h == ch
                && md == mode && f == fg && g == bg
            &&& cw >= 1 && ch >= 1
            &&& b <= t + ch && r <= l + cw
            &&& i32::MIN <= t <= i32::MAX && i32::MIN <= l <= i32::MAX && i32::MIN <= b <= i32::MAX && i32::MIN <= r <= i32::MAX
        }),
        src == (if on { black_spec() } else { white_spec() }),
        forall|px: int, py: int|
            #[trigger] c0.inside(px, py) ==> cb.px(px, py) == text_px(c0, text, pen_x, pen_y, scale, ch_extra, sp_extra, inter_char, face, fg, bg, mode, k, i, col, px, py),
    ensures
        forall|px: int, py: int|
            #[trigger] c0.inside(px, py) ==> ca.px(px, py) == text_px(c0, text, pen_x, pen_y, scale, ch_extra, sp_extra, inter_char, face, fg, bg, mode, k, i, col + 1, px, py),
{
    let (t, l, b, r, o) = text_block(text, k, i, col, pen_x, pen_y, scale, ch_extra, sp_extra, inter_char, face, mode)->0;
    let cw = ratio_scale_spec(1, scale.tx_size as int, scale.numer_h as int, scale.denom_h as int);
    let ch = ratio_scale_spec(1, scale.tx_size as int, scale.numer_v as int, scale.denom_v as int);
    assert forall|px: int, py: int| #[trigger] c0.inside(px, py) implies ca.px(px, py) == text_px(
        c0, text, pen_x, pen_y, scale, ch_extra, sp_extra, inter_char, face, fg, bg, mode, k, i, col + 1, px, py) by {
        assert(cb.inside(px, py));
        assert(cb.clip_ok(px, py) == c0.clip_ok(px, py));
        if t <= py < b && l <= px < r {
            vstd::arithmetic::div_mod::lemma_basic_div(py - t, ch);
            vstd::arithmetic::div_mod::lemma_basic_div(px - l, cw);
        }
    }
}

/// Draw `text` with its baseline-left origin at canvas pixel
/// `(pen_x, pen_y)`: each styled glyph mask is painted in blocks of
/// the scaled design pixel, its on-bits as black and (for the opaque
/// modes, inside the 5x7 cell) its off-bits as white through
/// `blend_source` with `fg` / `bg`; `srcOr`, `srcXor` and `srcBic` leave
/// off-bits alone. Returns how far the pen moved (the pen walk from
/// `pen_x`, minus `pen_x`, saturated).
#[verifier::rlimit(60)]
#[verifier::spinoff_prover]
pub fn draw_text(
    canvas: &mut Canvas,
    text: &[u8],
    pen_x: i32,
    pen_y: i32,
    scale: TextScale,
    ch_extra: i32,
    sp_extra: i32,
    inter_char: i32,
    face: PictTextFace,
    fg: Rgba,
    bg: Rgba,
    mode: SourceMode,
) -> (adv: i32)
    requires
        old(canvas).wf(),
    ensures
        old(canvas).same_frame(&*final(canvas)),
        forall|x: int, y: int|
            #[trigger] old(canvas).inside(x, y) ==> final(canvas).px(x, y) == text_px(
                *old(canvas),
                text@,
                pen_x,
                pen_y,
                scale,
                ch_extra,
                sp_extra,
                inter_char,
                face.0,
                fg,
                bg,
                mode,
                text@.len() as int,
                0,
                0,
                x,
                y,
            ),
        adv == clamp32(
            pen_walk(text@, text@.len() as int, pen_x as int, scale, ch_extra as int, sp_extra as int, inter_char as int, style_spec(face.0).extra as int)
                - pen_x,
        ),
{
    let style = StyleParams::from_face(face);
    let advance: i32 = if ADVANCE + style.extra < 1 { 1 } else { ADVANCE + style.extra };
    let cw = scale.h(1);
    let ch = scale.v(1);
    let transparent_off = matches!(mode, SourceMode::SrcOr) || matches!(mode, SourceMode::SrcBic) || matches!(mode, SourceMode::SrcXor);
    let cwidth = canvas.width as i32;
    let cheight = canvas.height as i32;
    let ghost c0 = *canvas;
    let ghost sx = text@;
    let ghost fc = face.0;
    let mut x: i32 = pen_x;
    let mut k: usize = 0;
    while k < text.len()
        invariant
            k <= text@.len(),
            sx == text@,
            fc == face.0,
            c0.wf(),
            c0.same_frame(canvas),
            cwidth == c0.width,
            cheight == c0.height,
            style == style_spec(face.0),
            style.wf(),
            advance == text_advance(face.0),
            cw == ratio_scale_spec(1, scale.tx_size as int, scale.numer_h as int, scale.denom_h as int),
            ch == ratio_scale_spec(1, scale.tx_size as int, scale.numer_v as int, scale.denom_v as int),
            transparent_off == crate::font::transparent_off(mode),
            x == pen_walk(text@, k as int, pen_x as int, scale, ch_extra as int, sp_extra as int, inter_char as int, style.extra as int),
            forall|px: int, py: int|
                #[trigger] c0.inside(px, py) ==> canvas.px(px, py) == text_px(c0, sx, pen_x, pen_y, scale, ch_extra, sp_extra, inter_char, fc, fg, bg, mode, k as int, 0, 0, px, py),
        decreases text@.len() - k,
    {
        let b = text[k];
        let mask = synth_glyph_mask(glyph(b), &style, advance);
        let mut i: usize = 0;
        while i < 12
            invariant
                i <= 12,
                k < text@.len(),
                b == text@[k as int],
                sx == text@,
                fc == face.0,
                c0.wf(),
                c0.same_frame(canvas),
                cwidth == c0.width,
                cheight == c0.height,
                style == style_spec(face.0),
                advance == text_advance(face.0),
                mask@ == glyph_mask_spec(glyph_rows(b)@, style, advance),
                cw == ratio_scale_spec(1, scale.tx_size as int, scale.numer_h as int, scale.denom_h as int),
                ch == ratio_scale_spec(1, scale.tx_size as int, scale.numer_v as int, scale.denom_v as int),
                transparent_off == crate::font::transparent_off(mode),
                x == pen_walk(text@, k as int, pen_x as int, scale, ch_extra as int, sp_extra as int, inter_char as int, style.extra as int),
                forall|px: int, py: int|
                    #[trigger] c0.inside(px, py) ==> canvas.px(px, py) == text_px(c0, sx, pen_x, pen_y, scale, ch_extra, sp_extra, inter_char, fc, fg, bg, mode, k as int, i as int, 0, px, py),
            decreases 12 - i,
        {
            let rowbits = mask[i];
            if rowbits != 0 {
                let rd: i32 = i as i32 - MASK_OY;
                let above: i32 = BASELINE_ROW - rd;
                let y_top: i32 = if above >= 0 {
                    sat_add(sat_sub(pen_y, scale.v(above + 1)), 1)
                } else {
                    sat_add(sat_add(pen_y, 1), scale.v_off(rd - BASELINE_ROW - 1))
                };
                let in_cell_row = 0 <= rd && rd < GLYPH_H;
                let py_end = sat_add(y_top, ch);
                let mut col: i32 = 0;
                while col < MASK_W
                    invariant
                        0 <= col <= MASK_W,
                        i < 12,
                        k < text@.len(),
                        b == text@[k as int],
                        sx == text@,
                        fc == face.0,
                        c0.wf(),
                        c0.same_frame(canvas),
                        style == style_spec(face.0),
                        advance == text_advance(face.0),
                        mask@ == glyph_mask_spec(glyph_rows(b)@, style, advance),
                        rowbits == mask@[i as int],
                        rowbits != 0,
                        cw == ratio_scale_spec(1, scale.tx_size as int, scale.numer_h as int, scale.denom_h as int),
                        ch == ratio_scale_spec(1, scale.tx_size as int, scale.numer_v as int, scale.denom_v as int),
                        y_top == glyph_row_top(i as int, pen_y, scale),
                        py_end == clamp32(y_top + ch),
                        in_cell_row == (0 <= i - MASK_OY < GLYPH_H),
                        transparent_off == crate::font::transparent_off(mode),
                        x == pen_walk(text@, k as int, pen_x as int, scale, ch_extra as int, sp_extra as int, inter_char as int, style.extra as int),
                        forall|px: int, py: int|
                            #[trigger] c0.inside(px, py) ==> canvas.px(px, py) == text_px(c0, sx, pen_x, pen_y, scale, ch_extra, sp_extra, inter_char, fc, fg, bg, mode, k as int, i as int, col as int, px, py),
                    decreases MASK_W - col,
                {
                    let on = (rowbits >> (col as u32)) & 1 != 0;
                    let cd: i32 = col - MASK_OX;
                    let ghost cb = *canvas;
                    if on || !(transparent_off || !in_cell_row || !(0 <= cd && cd < GLYPH_W)) {
                        let src = if on { Rgba::black() } else { Rgba::white() };
                        let bx = sat_add(x, scale.h_off(cd));
                        let px_end = sat_add(bx, cw);
                        let srcv: Vec<u8> = vec![src.r, src.g, src.b, src.a];
                        let shape = Shape::Fill(Figure::Rect { top: y_top, left: bx, bottom: py_end, right: px_end });
                        let ink = Ink::Raster {
                            src: srcv.as_slice(),
                            src_w: 1,
                            src_h: 1,
                            top: y_top,
                            left: bx,
                            dst_w: cw as u32,
                            dst_h: ch as u32,
                            mode,
                            fg,
                            bg,
                        };
                        canvas.paint(&shape, &ink);
                        proof {
                            assert(text_block(sx, k as int, i as int, col as int, pen_x, pen_y, scale, ch_extra, sp_extra, inter_char, fc, mode)
                                == Some((y_top as int, bx as int, py_end as int, px_end as int, on)));
                            assert(cell(srcv@, 0) == src);
                            lemma_block_painted(c0, cb, *canvas, sx, pen_x, pen_y, scale, ch_extra, sp_extra, inter_char, fc, fg, bg, mode,
                                k as int, i as int, col as int, shape, ink, src, on);
                        }
                    } else {
                        proof {
                            assert(text_block(sx, k as int, i as int, col as int, pen_x, pen_y, scale, ch_extra, sp_extra, inter_char, fc, mode) is None);
                        }
                    }
                    col += 1;
                }
            } else {
                proof {
                    assert forall|px: int, py: int| #[trigger] c0.inside(px, py) implies canvas.px(px, py) == text_px(
                        c0, sx, pen_x, pen_y, scale, ch_extra, sp_extra, inter_char, fc, fg, bg, mode, k as int, i as int, MASK_W as int, px, py) by {
                        lemma_empty_row(c0, sx, pen_x, pen_y, scale, ch_extra, sp_extra, inter_char, fc, fg, bg, mode, k as int, i as int, MASK_W as int, px, py);
                    }
                }
            }
            i += 1;
        }
        x = pen_step(x, b, &scale, advance, ch_extra, sp_extra, inter_char);
        k += 1;
    }
    sat_sub(x, pen_x)
}

/// Drawing from pen column 0 moves the pen by exactly the measured
/// advance of the text.
pub proof fn lemma_draw_advance_is_measure(text: Seq<u8>, scale: TextScale, ch_extra: int, sp_extra: int, inter_char: int, face: u8)
    ensures
        clamp32(pen_walk(text, text.len() as int, 0, scale, ch_extra, sp_extra, inter_char, style_spec(face).extra as int) - 0)
            == measure_spec(text, scale, ch_extra, sp_extra, inter_char, face),
{
    lemma_pen_walk_in_range(text, text.len() as int, 0, scale, ch_extra, sp_extra, inter_char, style_spec(face).extra as int);
}

/// No step of the pen walk of the first `k` bytes from `start`
/// saturates: each sum it forms is an `i32`.
pub open spec fn walk_unclamped(text: Seq<u8>, k: int, start: int, scale: TextScale, ch_extra: int, sp_extra: int, inter_char: int, extra: int) -> bool
    decreases k,
{
    if k <= 0 {
        true
    } else {
        let prev = pen_walk(text, k - 1, start, scale, ch_extra, sp_extra, inter_char, extra);
        let adv = if ADVANCE + extra < 1 { 1 } else { ADVANCE + extra };
        let b1 = prev + ratio_scale_spec(adv, scale.tx_size as int, scale.numer_h as int, scale.denom_h as int);
        let b2 = b1 + ch_extra;
        let b3 = b2 + inter_char;
        &&& walk_unclamped(text, k - 1, start, scale, ch_extra, sp_extra, inter_char, extra)
        &&& clamp32(b1) == b1
        &&& clamp32(b2) == b2
        &&& clamp32(b3) == b3
        &&& text[k - 1] == 0x20 ==> clamp32(b3 + sp_extra) == b3 + sp_extra
    }
}

/// Two pen walks that never saturate stay the same distance apart.
proof fn lemma_pen_walk_shift(text: Seq<u8>, k: int, start: int, scale: TextScale, ch_extra: int, sp_extra: int, inter_char: int, extra: int)
    requires
        walk_unclamped(text, k, start, scale, ch_extra, sp_extra, inter_char, extra),
        walk_unclamped(text, k, 0, scale, ch_extra, sp_extra, inter_char, extra),
    ensures
        pen_walk(text, k, start, scale, ch_extra, sp_extra, inter_char, extra) == start + pen_walk(
            text,
            k,
            0,
            scale,
            ch_extra,
            sp_extra,
            inter_char,
            extra,
        ),
    decreases k,
{
    if k > 0 {
        lemma_pen_walk_shift(text, k - 1, start, scale, ch_extra, sp_extra, inter_char, extra);
    }
}

/// Drawing from any pen column moves the pen by exactly the measured
/// advance of the text, as long as neither the walk from that column
/// nor the walk from column 0 saturates.
pub proof fn lemma_draw_advance_is_measure_at(
    text: Seq<u8>,
    pen_x: int,
    scale: TextScale,
    ch_extra: int,
    sp_extra: int,
    inter_char: int,
    face: u8,
)
    requires
        walk_unclamped(text, text.len() as int, pen_x, scale, ch_extra, sp_extra, inter_char, style_spec(face).extra as int),
        walk_unclamped(text, text.len() as int, 0, scale, ch_extra, sp_extra, inter_char, style_spec(face).extra as int),
    ensures
        clamp32(
            pen_walk(text, text.len() as int, pen_x, scale, ch_extra, sp_extra, inter_char, style_spec(face).extra as int)
                - pen_x,
        ) == measure_spec(text, scale, ch_extra, sp_extra, inter_char, face),
{
    let e = style_spec(face).extra as int;
    lemma_pen_walk_shift(text, text.len() as int, pen_x, scale, ch_extra, sp_extra, inter_char, e);
    lemma_pen_walk_in_range(text, text.len() as int, 0, scale, ch_extra, sp_extra, inter_char, e);
}

proof fn lemma_pen_walk_in_range(text: Seq<u8>, k: int, start: int, scale: TextScale, ch_extra: int, sp_extra: int, inter_char: int, extra: int)
    requires
        i32::MIN <= start <= i32::MAX,
    ensures
        i32::MIN <= pen_walk(text, k, start, scale, ch_extra, sp_extra, inter_char, extra) <= i32::MAX,
    decreases k,
{
    if k > 0 {
        lemma_pen_walk_in_range(text, k - 1, start, scale, ch_extra, sp_extra, inter_char, extra);
    }
}

/// Bold never removes ink: every smear of a mask row keeps the row's
/// pixels.
pub proof fn lemma_bold_keeps_ink(m: Seq<u32>, k: int, i: int)
    requires
        m.len() == 12,
        k >= 0,
        0 <= i < 12,
    ensures
        bold_spec(m, k)[i] & m[i] == m[i],
    decreases k,
{
    if k == 0 {
        let v = m[i];
        assert(v & v == v) by (bit_vector);
    } else {
        lemma_bold_keeps_ink(m, k - 1, i);
        let a = bold_spec(m, k - 1)[i];
        let c = bold_spec(m, k)[i];
        let b = m[i];
        assert(c == smear_row(a));
        assert(smear_row(a) & a == a) by (bit_vector);
        assert((a & b) == b && (c & a) == a ==> (c & b) == b) by (bit_vector);
    }
}

/// The outline and shadow styles ink only around the glyph: their mask
/// holds no pixel of the solid glyph they outline.
pub proof fn lemma_outline_off_body(m: Seq<u32>, shadow: int, i: int)
    requires
        m.len() == 12,
        shadow > 0,
        0 <= i < 12,
    ensures
        outline_spec(m, shadow)[i] & m[i] == 0,
{
    let base = Seq::new(12, |j: int| ring_row(m, j));
    let ring = shadow_spec(base, shadow);
    let a = ring[i];
    let b = m[i];
    assert(outline_spec(m, shadow)[i] == a & !b);
    assert((a & !b) & b == 0) by (bit_vector);
}

/// Underlining never removes ink: each underline line keeps every pixel
/// of the mask it is drawn on.
pub proof fn lemma_underline_keeps_ink(m: Seq<u32>, style: StyleParams, advance: i32, t: int, i: int)
    requires
        m.len() == 12,
        t >= 0,
        0 <= i < 12,
    ensures
        underline_spec(m, style, advance, t).len() == 12,
        underline_spec(m, style, advance, t)[i] & m[i] == m[i],
    decreases t,
{
    if t == 0 {
        let v = m[i];
        assert(v & v == v) by (bit_vector);
    } else {
        lemma_underline_keeps_ink(m, style, advance, t - 1, i);
        let p = underline_spec(m, style, advance, t - 1);
        let row = ul_row(style, t - 1);
        let b = m[i];
        let a = p[i];
        if !(ul_row(style, 0) < 0 || row >= 12) && row == i {
            let add = ul_span(advance) & !keep_out_spec(p[row], style.ul_shadow as int);
            let c = a | add;
            assert(underline_spec(m, style, advance, t)[i] == c);
            assert((a & b) == b ==> ((a | add) & b) == b) by (bit_vector);
        }
    }
}

} // verus!

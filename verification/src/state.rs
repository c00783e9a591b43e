//! QuickDraw drawing state carried through an opcode walk: colours,
//! patterns, pen, origin and the text-drawing state.
use vstd::prelude::*;
use crate::header::Fixed;
use crate::image::PictComment;

verus! {

/// A QuickDraw rectangle widened to `i32` (top, left, bottom, right;
/// bottom and right exclusive).
#[derive(Debug, Clone, Copy, PartialEq, Eq, Structural)]
pub struct RectI32 {
    pub top: i32,
    pub left: i32,
    pub bottom: i32,
    pub right: i32,
}

impl RectI32 {
    /// Widen the four on-disk `i16` edges.
    pub fn from_be(top: i16, left: i16, bottom: i16, right: i16) -> (r: Self)
        ensures
            r.top == top,
            r.left == left,
            r.bottom == bottom,
            r.right == right,
    {
        RectI32 { top: top as i32, left: left as i32, bottom: bottom as i32, right: right as i32 }
    }
}

/// An 8-bit-per-channel colour.
#[derive(Debug, Clone, Copy, PartialEq, Eq, Structural)]
pub struct Rgba {
    pub r: u8,
    pub g: u8,
    pub b: u8,
    pub a: u8,
}

/// Opaque white, the QuickDraw paper colour.
pub open spec fn white_spec() -> Rgba {
    Rgba { r: 255, g: 255, b: 255, a: 255 }
}

/// Opaque black, the default foreground.
pub open spec fn black_spec() -> Rgba {
    Rgba { r: 0, g: 0, b: 0, a: 255 }
}

/// `x` modulo `m` in `[0, m)`, whatever the sign of `x`.
pub fn euclid_mod(x: i32, m: i32) -> (r: i32)
    requires
        m > 0,
    ensures
        r == (x as int) % (m as int),
        0 <= r < m,
{
    if x >= 0 {
        x % m
    } else {
        let nx: i64 = -(x as i64);
        let q: i64 = nx % (m as i64);
        proof {
            vstd::arithmetic::div_mod::lemma_fundamental_div_mod(nx as int, m as int);
            vstd::arithmetic::div_mod::lemma_fundamental_div_mod(x as int, m as int);
            let a = nx as int / m as int;
            let b = (x as int) / (m as int);
            assert(x as int == -(a * m as int) - q as int);
            if q == 0 {
                vstd::arithmetic::div_mod::lemma_mod_multiples_vanish(-a, 0, m as int);
                assert((x as int) % (m as int) == ((-a) * m as int + 0) % (m as int)) by (nonlinear_arith)
                    requires x as int == -(a * m as int) - q as int, q == 0;
                vstd::arithmetic::div_mod::lemma_small_mod(0, m as nat);
            } else {
                assert((x as int) == (-a - 1) * m as int + (m as int - q as int)) by (nonlinear_arith)
                    requires x as int == -(a * m as int) - q as int;
                vstd::arithmetic::div_mod::lemma_mod_multiples_vanish(-a - 1, m as int - q as int, m as int);
                vstd::arithmetic::div_mod::lemma_small_mod((m as int - q as int) as nat, m as nat);
            }
        }
        if q == 0 {
            0
        } else {
            (m as i64 - q) as i32
        }
    }
}

/// The colour a classic QuickDraw colour code names (opaque).
pub open spec fn pascal_colour_spec(code: u32) -> Rgba {
    if code == 30 {
        Rgba { r: 255, g: 255, b: 255, a: 255 }
    } else if code == 69 {
        Rgba { r: 255, g: 255, b: 0, a: 255 }
    } else if code == 137 {
        Rgba { r: 255, g: 0, b: 255, a: 255 }
    } else if code == 205 {
        Rgba { r: 255, g: 0, b: 0, a: 255 }
    } else if code == 273 {
        Rgba { r: 0, g: 255, b: 255, a: 255 }
    } else if code == 341 {
        Rgba { r: 0, g: 255, b: 0, a: 255 }
    } else if code == 409 {
        Rgba { r: 0, g: 0, b: 255, a: 255 }
    } else {
        Rgba { r: 0, g: 0, b: 0, a: 255 }
    }
}

impl Rgba {
    /// Opaque white, the QuickDraw paper colour.
    pub fn white() -> (c: Self)
        ensures
            c == white_spec(),
    {
        Rgba { r: 255, g: 255, b: 255, a: 255 }
    }

    /// Opaque black, the default foreground.
    pub fn black() -> (c: Self)
        ensures
            c == black_spec(),
    {
        Rgba { r: 0, g: 0, b: 0, a: 255 }
    }

    pub fn new(r: u8, g: u8, b: u8, a: u8) -> (c: Self)
        ensures
            c == (Rgba { r, g, b, a }),
    {
        Rgba { r, g, b, a }
    }

    /// Opaque colour from a 16-bit-per-channel `RGBColor`: the high
    /// byte of each channel is the colour, the low byte is resolution
    /// padding.
    pub fn from_rgb16(r: u16, g: u16, b: u16) -> (c: Self)
        ensures
            c == (Rgba { r: (r / 256) as u8, g: (g / 256) as u8, b: (b / 256) as u8, a: 255 }),
    {
        Rgba { r: (r / 256) as u8, g: (g / 256) as u8, b: (b / 256) as u8, a: 255 }
    }

    /// Colour named by a classic (pre-Color-QuickDraw) colour code:
    /// `blackColor = 33`, `whiteColor = 30`, `redColor = 205`,
    /// `greenColor = 341`, `blueColor = 409`, `cyanColor = 273`,
    /// `magentaColor = 137`, `yellowColor = 69`. Unknown codes draw
    /// black.
    pub fn from_pascal_colour(code: u32) -> (c: Self)
        ensures
            c == pascal_colour_spec(code),
    {
        match code {
            30 => Rgba::white(),
            69 => Rgba { r: 255, g: 255, b: 0, a: 255 },
            137 => Rgba { r: 255, g: 0, b: 255, a: 255 },
            205 => Rgba { r: 255, g: 0, b: 0, a: 255 },
            273 => Rgba { r: 0, g: 255, b: 255, a: 255 },
            341 => Rgba { r: 0, g: 255, b: 0, a: 255 },
            409 => Rgba { r: 0, g: 0, b: 255, a: 255 },
            _ => Rgba::black(),
        }
    }
}

/// An 8x8 one-bit QuickDraw pattern, one byte per row, MSB leftmost.
#[derive(Debug, Clone, Copy, PartialEq, Eq)]
pub struct Pattern(pub [u8; 8]);

/// Pattern bit at row `y`, column `x` (both taken modulo 8).
pub open spec fn pattern_bit(p: Pattern, x: int, y: int) -> bool {
    (p.0@[y % 8] as int / pow2_spec(7 - (x % 8))) % 2 == 1
}

/// `2^n` for small `n`.
pub open spec fn pow2_spec(n: int) -> int
    decreases n,
{
    if n <= 0 {
        1
    } else {
        2 * pow2_spec(n - 1)
    }
}

/// Every row of the pattern is the byte `v`.
pub open spec fn pattern_is_solid(p: Pattern, v: u8) -> bool {
    forall|i: int| 0 <= i < 8 ==> p.0@[i] == v
}

pub fn bit_of(byte: u8, col: u32) -> (b: bool)
    requires
        col < 8,
    ensures
        b == ((byte as int / pow2_spec(7 - col as int)) % 2 == 1),
{
    let mut v: u8 = byte;
    let mut k: u32 = 0;
    while k < 7 - col
        invariant
            k <= 7 - col,
            col < 8,
            v as int == byte as int / pow2_spec(k as int),
        decreases 7 - col - k,
    {
        proof {
            assert(pow2_spec(k as int + 1) == 2 * pow2_spec(k as int));
            assert(pow2_spec(k as int) > 0) by {
                lemma_pow2_pos(k as int);
            }
            vstd::arithmetic::div_mod::lemma_div_denominator(
                byte as int,
                pow2_spec(k as int),
                2,
            );
        }
        v = v / 2;
        k = k + 1;
    }
    v % 2 == 1
}

pub proof fn lemma_pow2_pos(n: int)
    ensures
        pow2_spec(n) > 0,
    decreases n,
{
    if n > 0 {
        lemma_pow2_pos(n - 1);
    }
}

impl Pattern {
    /// All-ones pattern: foreground everywhere.
    pub fn solid_black() -> (p: Self)
        ensures
            pattern_is_solid(p, 0xFF),
    {
        let p = Pattern([0xFFu8; 8]);
        assert(pattern_is_solid(p, 0xFF));
        p
    }

    /// All-zeros pattern: background everywhere.
    pub fn solid_white() -> (p: Self)
        ensures
            pattern_is_solid(p, 0),
    {
        let p = Pattern([0u8; 8]);
        assert(pattern_is_solid(p, 0));
        p
    }

    /// Whether the pattern selects the foreground at canvas pixel
    /// `(x, y)`; the tile repeats every 8 pixels on both axes.
    pub fn sample(&self, x: i32, y: i32) -> (b: bool)
        ensures
            b == pattern_bit(*self, x as int, y as int),
    {
        let row = euclid_mod(y, 8);
        let col = euclid_mod(x, 8);
        bit_of(self.0[row as usize], col as u32)
    }

    /// All eight rows are `0xFF`.
    pub fn is_solid_fg(&self) -> (b: bool)
        ensures
            b == pattern_is_solid(*self, 0xFF),
    {
        let mut i: usize = 0;
        while i < 8
            invariant
                i <= 8,
                forall|j: int| 0 <= j < i ==> self.0@[j] == 0xFF,
            decreases 8 - i,
        {
            if self.0[i] != 0xFF {
                return false;
            }
            i += 1;
        }
        true
    }

    /// All eight rows are `0x00`.
    pub fn is_solid_bg(&self) -> (b: bool)
        ensures
            b == pattern_is_solid(*self, 0),
    {
        let mut i: usize = 0;
        while i < 8
            invariant
                i <= 8,
                forall|j: int| 0 <= j < i ==> self.0@[j] == 0,
            decreases 8 - i,
        {
            if self.0[i] != 0 {
                return false;
            }
            i += 1;
        }
        true
    }
}

/// A colour pixel pattern: a `width x height` RGBA tile (each a power
/// of two) repeating over the canvas, plus the one-bit pattern that a
/// monochrome device would use instead.
#[derive(Debug, Clone, PartialEq, Eq)]
pub struct PixPattern {
    pub width: u16,
    pub height: u16,
    pub pixels: Vec<Rgba>,
    pub fallback: Pattern,
}

impl PixPattern {
    /// The tile holds exactly `width * height` cells and is not empty.
    pub open spec fn wf(&self) -> bool {
        &&& self.width > 0
        &&& self.height > 0
        &&& self.pixels@.len() == self.width as int * self.height as int
    }

    /// Cell of the tile that covers canvas pixel `(x, y)`.
    pub open spec fn sample_spec(&self, x: int, y: int) -> Rgba {
        self.pixels@[(y % self.height as int) * self.width as int + (x % self.width as int)]
    }

    pub fn new(width: u16, height: u16, pixels: Vec<Rgba>, fallback: Pattern) -> (p: Self)
        ensures
            p.width == width,
            p.height == height,
            p.pixels@ == pixels@,
            p.fallback == fallback,
    {
        PixPattern { width, height, pixels, fallback }
    }

    /// The tile a dither pattern (`patType = 2`) renders as on a
    /// true-colour canvas: the target colour in every cell.
    pub fn from_dither_rgb(rgb: Rgba, fallback: Pattern) -> (p: Self)
        ensures
            p.wf(),
            p.width == 8 && p.height == 8,
            forall|i: int| 0 <= i < 64 ==> p.pixels@[i] == rgb,
            p.fallback == fallback,
    {
        let mut pixels: Vec<Rgba> = Vec::new();
        let mut i: usize = 0;
        while i < 64
            invariant
                i <= 64,
                pixels@.len() == i,
                forall|j: int| 0 <= j < i ==> pixels@[j] == rgb,
            decreases 64 - i,
        {
            pixels.push(rgb);
            i += 1;
        }
        PixPattern { width: 8, height: 8, pixels, fallback }
    }

    /// The tile colour at canvas pixel `(x, y)`.
    pub fn sample(&self, x: i32, y: i32) -> (c: Rgba)
        requires
            self.wf(),
        ensures
            c == self.sample_spec(x as int, y as int),
    {
        let w = self.width as i32;
        let h = self.height as i32;
        let cx = euclid_mod(x, w);
        let cy = euclid_mod(y, h);
        proof {
            let (ci, wi, xi, hi) = (cy as int, w as int, cx as int, h as int);
            assert(ci * wi + xi < wi * hi) by (nonlinear_arith)
                requires
                    0 <= ci < hi,
                    0 <= xi < wi,
            ;
        }
        let n = self.pixels.len();
        let idx = (cy as usize) * (w as usize) + (cx as usize);
        self.pixels[idx]
    }
}

/// The `TxRatio` numerator / denominator points.
#[derive(Debug, Clone, Copy, PartialEq, Eq, Structural)]
pub struct TextRatio {
    pub numer_v: i16,
    pub numer_h: i16,
    pub denom_v: i16,
    pub denom_h: i16,
}

/// The `txFace` style bits (`bold = 1`, `italic = 2`, `underline = 4`,
/// `outline = 8`, `shadow = 16`, `condense = 32`, `extend = 64`).
#[derive(Debug, Clone, Copy, PartialEq, Eq, Structural)]
pub struct PictTextFace(pub u8);

impl PictTextFace {
    pub const PLAIN: u8 = 0;
    pub const BOLD: u8 = 1;
    pub const ITALIC: u8 = 2;
    pub const UNDERLINE: u8 = 4;
    pub const OUTLINE: u8 = 8;
    pub const SHADOW: u8 = 16;
    pub const CONDENSE: u8 = 32;
    pub const EXTEND: u8 = 64;

    /// No style bits.
    pub fn plain() -> (f: Self)
        ensures
            f.0 == 0,
    {
        PictTextFace(0)
    }

    /// Wrap a raw style byte.
    pub fn from_bits(bits: u8) -> (f: Self)
        ensures
            f.0 == bits,
    {
        PictTextFace(bits)
    }

    /// The union of two style sets.
    pub fn union(self, other: Self) -> (f: Self)
        ensures
            f.0 == self.0 | other.0,
    {
        PictTextFace(self.0 | other.0)
    }

    /// Whether every bit of `other` is set.
    pub fn contains(self, other: Self) -> (b: bool)
        ensures
            b == (self.0 & other.0 == other.0),
    {
        self.0 & other.0 == other.0
    }

    pub fn bold(self) -> (b: bool)
        ensures
            b == (self.0 & 1 != 0),
    {
        self.0 & 1 != 0
    }

    pub fn italic(self) -> (b: bool)
        ensures
            b == (self.0 & 2 != 0),
    {
        self.0 & 2 != 0
    }

    pub fn underline(self) -> (b: bool)
        ensures
            b == (self.0 & 4 != 0),
    {
        self.0 & 4 != 0
    }

    pub fn outline(self) -> (b: bool)
        ensures
            b == (self.0 & 8 != 0),
    {
        self.0 & 8 != 0
    }

    pub fn shadow(self) -> (b: bool)
        ensures
            b == (self.0 & 16 != 0),
    {
        self.0 & 16 != 0
    }

    pub fn condense(self) -> (b: bool)
        ensures
            b == (self.0 & 32 != 0),
    {
        self.0 & 32 != 0
    }

    pub fn extend(self) -> (b: bool)
        ensures
            b == (self.0 & 64 != 0),
    {
        self.0 & 64 != 0
    }
}

impl From<u8> for PictTextFace {
    fn from(bits: u8) -> (f: Self) {
        PictTextFace(bits)
    }
}

impl vstd::std_specs::convert::FromSpecImpl<u8> for PictTextFace {
    open spec fn obeys_from_spec() -> bool {
        true
    }

    open spec fn from_spec(bits: u8) -> Self {
        PictTextFace(bits)
    }
}

/// The `fontName` (`$002C`) record: the producer's font number and name.
#[derive(Debug, Clone, PartialEq, Eq)]
pub struct PictFontName {
    pub old_font_id: i16,
    pub name: Vec<u8>,
}

impl PictFontName {
    pub fn new(old_font_id: i16, name: Vec<u8>) -> (f: Self)
        ensures
            f.old_font_id == old_font_id,
            f.name@ == name@,
    {
        PictFontName { old_font_id, name }
    }
}

/// The `lineJustify` (`$002D`) record.
#[derive(Debug, Clone, Copy, PartialEq, Eq, Structural)]
pub struct PictLineJustify {
    pub inter_char_spacing: Fixed,
    pub total_extra: Fixed,
}

/// The `glyphState` (`$002E`) record.
#[derive(Debug, Clone, Copy, PartialEq, Eq, Structural)]
pub struct PictGlyphState {
    pub outline_preferred: bool,
    pub preserve_glyph: bool,
    pub fractional_widths: bool,
    pub scaling_disabled: bool,
}

/// Text-drawing state captured from the opcode stream.
#[derive(Debug, Clone, PartialEq, Eq)]
pub struct PictTextState {
    pub tx_font: i16,
    pub tx_face: PictTextFace,
    pub tx_mode: i16,
    pub sp_extra: Fixed,
    pub pn_mode: i16,
    pub tx_size: i16,
    pub tx_ratio: TextRatio,
    pub pn_loc_h_frac: i16,
    pub ch_extra: i16,
    pub hilite_mode_flag: bool,
    pub hilite_color: Option<Rgba>,
    pub hilite_default: bool,
    pub op_color: Option<Rgba>,
    pub text_pen: Option<(i32, i32)>,
    pub text_op_count: u32,
    pub font_name: Option<PictFontName>,
    pub line_justify: Option<PictLineJustify>,
    pub glyph_state: Option<PictGlyphState>,
}

impl PictTextState {
    /// The state of a freshly opened graphics port (see
    /// [`PictTextState::fresh_graf_port`]).
    pub open spec fn is_fresh(&self) -> bool {
        &&& self.tx_font == 0
        &&& self.tx_face == PictTextFace(0)
        &&& self.tx_mode == 1
        &&& self.sp_extra == Fixed(0)
        &&& self.pn_mode == 8
        &&& self.tx_size == 0
        &&& self.tx_ratio == (TextRatio { numer_v: 1, numer_h: 1, denom_v: 1, denom_h: 1 })
        &&& self.pn_loc_h_frac == 0
        &&& self.ch_extra == 0
        &&& !self.hilite_mode_flag
        &&& self.hilite_color is None
        &&& self.hilite_default
        &&& self.op_color is None
        &&& self.text_pen is None
        &&& self.text_op_count == 0
        &&& self.font_name is None
        &&& self.line_justify is None
        &&& self.glyph_state is None
    }

    /// The state of a freshly opened graphics port: `srcOr` text mode,
    /// `patCopy` pen mode, a `1/1` text ratio, everything else zero or
    /// absent.
    pub fn fresh_graf_port() -> (t: Self)
        ensures
            t.is_fresh(),
    {
        PictTextState {
            tx_font: 0,
            tx_face: PictTextFace(0),
            tx_mode: 1,
            sp_extra: Fixed(0),
            pn_mode: 8,
            tx_size: 0,
            tx_ratio: TextRatio { numer_v: 1, numer_h: 1, denom_v: 1, denom_h: 1 },
            pn_loc_h_frac: 0,
            ch_extra: 0,
            hilite_mode_flag: false,
            hilite_color: None,
            hilite_default: true,
            op_color: None,
            text_pen: None,
            text_op_count: 0,
            font_name: None,
            line_justify: None,
            glyph_state: None,
        }
    }
}

/// The whole drawing state stepped by the opcode walk.
pub struct PictState {
    pub fg: Rgba,
    pub bg: Rgba,
    pub pen_pat: Pattern,
    pub back_pat: Pattern,
    pub fill_pat: Pattern,
    pub pen_pix_pat: Option<PixPattern>,
    pub back_pix_pat: Option<PixPattern>,
    pub fill_pix_pat: Option<PixPattern>,
    pub pen: (i32, i32),
    pub pen_size: (i32, i32),
    pub oval_size: (i32, i32),
    pub origin: (i32, i32),
    pub last_rect: Option<RectI32>,
    pub last_rrect: Option<RectI32>,
    pub last_oval: Option<RectI32>,
    pub last_arc_rect: Option<RectI32>,
    pub comments: Vec<PictComment>,
    pub text_state: PictTextState,
}

impl PictState {
    /// Every colour pattern that is set is a well-formed tile.
    pub open spec fn wf(&self) -> bool {
        &&& (self.pen_pix_pat matches Some(p) ==> p.wf())
        &&& (self.back_pix_pat matches Some(p) ==> p.wf())
        &&& (self.fill_pix_pat matches Some(p) ==> p.wf())
    }

    /// `self` is the state at the start of a picture whose frame's
    /// top-left corner is `origin` (see [`PictState::initial`]).
    pub open spec fn is_initial(&self, origin: (i32, i32)) -> bool {
        &&& self.wf()
        &&& self.fg == black_spec()
        &&& self.bg == white_spec()
        &&& pattern_is_solid(self.pen_pat, 0xFF)
        &&& pattern_is_solid(self.back_pat, 0)
        &&& pattern_is_solid(self.fill_pat, 0xFF)
        &&& self.pen_pix_pat is None && self.back_pix_pat is None && self.fill_pix_pat is None
        &&& self.pen == (0i32, 0i32)
        &&& self.pen_size == (1i32, 1i32)
        &&& self.oval_size == (0i32, 0i32)
        &&& self.origin == origin
        &&& self.last_rect is None && self.last_rrect is None && self.last_oval is None
        &&& self.last_arc_rect is None
        &&& self.comments@.len() == 0
        &&& self.text_state.is_fresh()
    }

    /// The state at the start of a picture whose frame's top-left
    /// corner is `origin`: black ink on white paper, solid pen and fill
    /// patterns, white background pattern, a 1x1 pen at `(0, 0)`.
    pub fn initial(origin: (i32, i32)) -> (s: Self)
        ensures
            s.is_initial(origin),
    {
        PictState {
            fg: Rgba::black(),
            bg: Rgba::white(),
            pen_pat: Pattern::solid_black(),
            back_pat: Pattern::solid_white(),
            fill_pat: Pattern::solid_black(),
            pen_pix_pat: None,
            back_pix_pat: None,
            fill_pix_pat: None,
            pen: (0, 0),
            pen_size: (1, 1),
            oval_size: (0, 0),
            origin,
            last_rect: None,
            last_rrect: None,
            last_oval: None,
            last_arc_rect: None,
            comments: Vec::new(),
            text_state: PictTextState::fresh_graf_port(),
        }
    }
}

} // verus!

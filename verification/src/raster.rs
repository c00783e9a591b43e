//! Software rasteriser that folds QuickDraw drawing commands onto an
//! RGBA canvas: lines, rectangles, rounded rectangles, ovals, arcs,
//! polygons, regions and raster blits, under the Boolean pattern
//! modes, the arithmetic transfer modes and the `CopyBits` source
//! modes.
//!
//! Every shape is a set of pixels given by an exact integer rule,
//! and every drawing call paints that set through an ink (a solid
//! colour, an inversion, a pattern under a transfer mode, a colour
//! tile or a scaled source raster):
//!
//! * an oval holds the pixels whose centre lies inside the ellipse
//!   inscribed in its rectangle;
//! * a rounded rectangle is its rectangle with each corner cut to the
//!   quarter of the ellipse of the oval size placed in that corner;
//! * an arc wedge holds the oval pixels whose direction from the
//!   centre, measured clockwise from 12 o'clock in the rectangle's
//!   own proportions, falls in the swept angle; angles between the
//!   multiples of 45 degrees are read on the octant's tangent scale;
//! * a frame is its shape minus the same shape inset by the pen;
//! * a polygon is filled even-odd on the row centres, each pair of
//!   sorted crossings covering the pixels from the floor of the first
//!   to the ceiling of the second (at least one pixel);
//! * a line is Bresenham's walk, the pen stamped at each step.
use vstd::prelude::*;
use crate::region::Region;
use crate::state::{black_spec, pattern_bit, white_spec, Pattern, PixPattern, Rgba};

verus! {

/// `CopyBits` mode that draws grayed-out text with an OR.
pub const GRAYISH_TEXT_OR_MODE: i16 = 49;

/// Mode bit that draws in the highlight colour.
pub const HILITE_MODE: i16 = 50;

/// Largest canvas side: pixel coordinates stay within `i32`.
pub const MAX_SIDE: u32 = 0x7fff_ffff;

/// A row-major RGBA8 canvas. Origin at (0, 0); y grows downward.
pub struct Canvas {
    pub width: u32,
    pub height: u32,
    pub data: Vec<u8>,
    /// Set once any drawing call has written a pixel.
    pub dirty: bool,
    /// Optional `width x height` row-major clip mask: `true` is inside.
    pub clip: Option<Vec<bool>>,
}

/// Channel-wise NOT of the colour, alpha kept.
pub open spec fn invert_spec(c: Rgba) -> Rgba {
    Rgba { r: (255 - c.r) as u8, g: (255 - c.g) as u8, b: (255 - c.b) as u8, a: c.a }
}

pub proof fn lemma_pixel_index(w: int, h: int, x: int, y: int)
    requires
        0 <= x < w,
        0 <= y < h,
    ensures
        0 <= y * w + x < w * h,
        0 <= (y * w + x) * 4 + 3 < w * h * 4,
{
    assert(y * w + x < w * h) by (nonlinear_arith)
        requires 0 <= x < w, 0 <= y < h;
    assert(0 <= y * w) by (nonlinear_arith)
        requires 0 <= y, 0 <= w;
}

pub proof fn lemma_pixel_index_distinct(w: int, h: int, x1: int, y1: int, x2: int, y2: int)
    requires
        0 <= x1 < w,
        0 <= y1 < h,
        0 <= x2 < w,
        0 <= y2 < h,
        x1 != x2 || y1 != y2,
    ensures
        y1 * w + x1 != y2 * w + x2,
{
    if y1 == y2 {
    } else if y1 < y2 {
        assert(y1 * w + x1 < y2 * w + x2) by (nonlinear_arith)
            requires y1 < y2, 0 <= x1 < w, 0 <= x2;
    } else {
        assert(y2 * w + x2 < y1 * w + x1) by (nonlinear_arith)
            requires y2 < y1, 0 <= x2 < w, 0 <= x1;
    }
}

/// The colour held by the four bytes of cell `k`.
pub open spec fn cell(data: Seq<u8>, k: int) -> Rgba {
    Rgba { r: data[k * 4], g: data[k * 4 + 1], b: data[k * 4 + 2], a: data[k * 4 + 3] }
}

impl Canvas {
    /// Byte buffer and clip mask match the dimensions, which stay
    /// within `i32` and whose byte count fits `usize`.
    pub open spec fn wf(&self) -> bool {
        &&& self.width <= MAX_SIDE
        &&& self.height <= MAX_SIDE
        &&& self.width * self.height * 4 <= usize::MAX
        &&& self.data@.len() == self.width * self.height * 4
        &&& (self.clip matches Some(m) ==> m@.len() == self.width * self.height)
    }

    pub open spec fn inside(&self, x: int, y: int) -> bool {
        0 <= x < self.width && 0 <= y < self.height
    }

    pub open spec fn index_of(&self, x: int, y: int) -> int {
        y * self.width + x
    }

    /// The colour stored at `(x, y)`.
    pub open spec fn px(&self, x: int, y: int) -> Rgba {
        cell(self.data@, self.index_of(x, y))
    }

    /// `(x, y)` is on the canvas and inside any clip mask.
    pub open spec fn clip_ok(&self, x: int, y: int) -> bool {
        &&& self.inside(x, y)
        &&& match self.clip {
            None => true,
            Some(m) => m@[self.index_of(x, y)],
        }
    }

    /// Same size and clip, well formed.
    pub open spec fn same_frame(&self, other: &Canvas) -> bool {
        &&& other.wf()
        &&& other.width == self.width
        &&& other.height == self.height
        &&& other.clip == self.clip
    }

    /// `self` is a clean, unclipped `width x height` canvas filled with
    /// `fill` (see [`Canvas::new`]).
    pub open spec fn is_blank(&self, width: int, height: int, fill: Rgba) -> bool {
        &&& self.wf()
        &&& self.width == width
        &&& self.height == height
        &&& !self.dirty
        &&& self.clip is None
        &&& forall|x: int, y: int| self.inside(x, y) ==> self.px(x, y) == fill
    }

    /// A `width x height` canvas filled with `fill`, clean and unclipped.
    pub fn new(width: u32, height: u32, fill: Rgba) -> (c: Self)
        requires
            width <= MAX_SIDE,
            height <= MAX_SIDE,
            width * height * 4 <= usize::MAX,
        ensures
            c.wf(),
            c.width == width,
            c.height == height,
            !c.dirty,
            c.clip is None,
            forall|x: int, y: int| c.inside(x, y) ==> c.px(x, y) == fill,
    {
        proof {
            assert(0 <= width * height) by (nonlinear_arith);
        }
        let n: usize = (width as usize) * (height as usize);
        let mut data: Vec<u8> = Vec::with_capacity(n * 4);
        let mut i: usize = 0;
        while i < n
            invariant
                i <= n,
                n == width * height,
                n * 4 <= usize::MAX,
                data@.len() == i * 4,
                forall|k: int| 0 <= k < i ==> #[trigger] cell(data@, k) == fill,
            decreases n - i,
        {
            let ghost prev = data@;
            data.push(fill.r);
            data.push(fill.g);
            data.push(fill.b);
            data.push(fill.a);
            proof {
                assert forall|k: int| 0 <= k < i + 1 implies #[trigger] cell(data@, k) == fill by {
                    if k < i {
                        assert(cell(prev, k) == fill);
                    }
                }
            }
            i += 1;
        }
        let c = Canvas { width, height, data, dirty: false, clip: None };
        assert forall|x: int, y: int| c.inside(x, y) implies c.px(x, y) == fill by {
            lemma_pixel_index(width as int, height as int, x, y);
            assert(cell(c.data@, y * width + x) == fill);
        }
        c
    }

    /// Whether pixel `(x, y)` is on the canvas and inside any clip.
    pub fn in_clip(&self, x: i32, y: i32) -> (b: bool)
        requires
            self.wf(),
        ensures
            b == self.clip_ok(x as int, y as int),
    {
        if x < 0 || y < 0 || (x as u32) >= self.width || (y as u32) >= self.height {
            return false;
        }
        match &self.clip {
            None => true,
            Some(mask) => {
                proof {
                    lemma_pixel_index(self.width as int, self.height as int, x as int, y as int);
                }
                let idx = (y as usize) * (self.width as usize) + (x as usize);
                mask[idx]
            },
        }
    }

    /// The pixel at `(x, y)`, or `None` off the canvas; the clip mask
    /// does not filter reads.
    pub fn pixel_at(&self, x: i32, y: i32) -> (p: Option<Rgba>)
        requires
            self.wf(),
        ensures
            p == (if self.inside(x as int, y as int) {
                Some(self.px(x as int, y as int))
            } else {
                None::<Rgba>
            }),
    {
        if x < 0 || y < 0 || (x as u32) >= self.width || (y as u32) >= self.height {
            return None;
        }
        proof {
            lemma_pixel_index(self.width as int, self.height as int, x as int, y as int);
        }
        let off = ((y as usize) * (self.width as usize) + (x as usize)) * 4;
        Some(Rgba { r: self.data[off], g: self.data[off + 1], b: self.data[off + 2], a: self.data[off + 3] })
    }

    /// Overwrite the four bytes of on-canvas pixel `(x, y)`.
    fn store(&mut self, x: u32, y: u32, c: Rgba)
        requires
            old(self).wf(),
            old(self).inside(x as int, y as int),
        ensures
            old(self).same_frame(final(self)),
            final(self).dirty == old(self).dirty,
            forall|x2: int, y2: int| #[trigger] final(self).px(x2, y2) == (if x2 == x && y2 == y {
                c
            } else {
                old(self).px(x2, y2)
            }) || !old(self).inside(x2, y2),
    {
        proof {
            lemma_pixel_index(self.width as int, self.height as int, x as int, y as int);
        }
        let off = ((y as usize) * (self.width as usize) + (x as usize)) * 4;
        self.data.set(off, c.r);
        self.data.set(off + 1, c.g);
        self.data.set(off + 2, c.b);
        self.data.set(off + 3, c.a);
        proof {
            assert forall|x2: int, y2: int| #[trigger] self.px(x2, y2) == (if x2 == x && y2 == y {
                c
            } else {
                old(self).px(x2, y2)
            }) || !old(self).inside(x2, y2) by {
                if old(self).inside(x2, y2) && !(x2 == x && y2 == y) {
                    lemma_pixel_index(self.width as int, self.height as int, x2, y2);
                    lemma_pixel_index_distinct(
                        self.width as int,
                        self.height as int,
                        x2,
                        y2,
                        x as int,
                        y as int,
                    );
                }
            }
        }
    }
}

/// Channel-wise NOT of the colour, alpha kept.
pub fn invert_rgba(c: Rgba) -> (r: Rgba)
    ensures
        r == invert_spec(c),
{
    Rgba { r: 255 - c.r, g: 255 - c.g, b: 255 - c.b, a: c.a }
}

/// The eight Color QuickDraw arithmetic transfer modes (codes 32 to
/// 39): each combines a source colour with the destination pixel
/// channel by channel.
#[derive(Debug, Clone, Copy, PartialEq, Eq, Structural)]
pub enum ArithMode {
    /// Weighted average, `OpColor` the per-channel source weight.
    Blend,
    /// Sum pinned to the `OpColor` maximum.
    AddPin,
    /// Sum modulo 256.
    AddOver,
    /// Difference `dst - src` pinned to the `OpColor` minimum.
    SubPin,
    /// Source, except where it equals the background key.
    Transparent,
    /// Larger of source and destination.
    AddMax,
    /// Difference `dst - src` modulo 256.
    SubOver,
    /// Smaller of source and destination.
    AdMin,
}

pub open spec fn arith_code_spec(code: i16) -> Option<ArithMode> {
    if code == 32 {
        Some(ArithMode::Blend)
    } else if code == 33 {
        Some(ArithMode::AddPin)
    } else if code == 34 {
        Some(ArithMode::AddOver)
    } else if code == 35 {
        Some(ArithMode::SubPin)
    } else if code == 36 {
        Some(ArithMode::Transparent)
    } else if code == 37 {
        Some(ArithMode::AddMax)
    } else if code == 38 {
        Some(ArithMode::SubOver)
    } else if code == 39 {
        Some(ArithMode::AdMin)
    } else {
        None
    }
}

impl ArithMode {
    /// The arithmetic mode a `PnMode` code in `32..=39` names.
    pub fn from_code(code: i16) -> (m: Option<Self>)
        ensures
            m == arith_code_spec(code),
    {
        match code {
            32 => Some(ArithMode::Blend),
            33 => Some(ArithMode::AddPin),
            34 => Some(ArithMode::AddOver),
            35 => Some(ArithMode::SubPin),
            36 => Some(ArithMode::Transparent),
            37 => Some(ArithMode::AddMax),
            38 => Some(ArithMode::SubOver),
            39 => Some(ArithMode::AdMin),
            _ => None,
        }
    }
}

pub open spec fn min_int(a: int, b: int) -> int {
    if a <= b { a } else { b }
}

pub open spec fn max_int(a: int, b: int) -> int {
    if a >= b { a } else { b }
}

/// One channel of an arithmetic transfer mode.
pub open spec fn arith_channel(mode: ArithMode, s: u8, d: u8, o: u8) -> u8 {
    match mode {
        ArithMode::Blend => ((s * o + d * (255 - o) + 127) / 255) as u8,
        ArithMode::AddPin => min_int(s + d, o as int) as u8,
        ArithMode::AddOver => ((s + d) % 256) as u8,
        ArithMode::SubPin => max_int(d - s, o as int) as u8,
        ArithMode::AddMax => max_int(s as int, d as int) as u8,
        ArithMode::SubOver => ((d - s) % 256) as u8,
        ArithMode::AdMin => min_int(s as int, d as int) as u8,
        ArithMode::Transparent => d,
    }
}

pub open spec fn blend_arith_spec(mode: ArithMode, src: Rgba, dst: Rgba, op_color: Rgba, bg_key: Rgba) -> Rgba {
    if mode is Transparent {
        if src.r == bg_key.r && src.g == bg_key.g && src.b == bg_key.b {
            dst
        } else {
            Rgba { r: src.r, g: src.g, b: src.b, a: dst.a }
        }
    } else {
        Rgba {
            r: arith_channel(mode, src.r, dst.r, op_color.r),
            g: arith_channel(mode, src.g, dst.g, op_color.g),
            b: arith_channel(mode, src.b, dst.b, op_color.b),
            a: dst.a,
        }
    }
}

fn arith_channel_exec(mode: ArithMode, s: u8, d: u8, o: u8) -> (v: u8)
    ensures
        v == arith_channel(mode, s, d, o),
{
    let si = s as i32;
    let di = d as i32;
    let oi = o as i32;
    match mode {
        ArithMode::Blend => {
            assert(0 <= si * oi + di * (255 - oi) + 127 < 256 * 255) by (nonlinear_arith)
                requires 0 <= si < 256, 0 <= di < 256, 0 <= oi < 256;
            ((si * oi + di * (255 - oi) + 127) / 255) as u8
        },
        ArithMode::AddPin => {
            if si + di <= oi { (si + di) as u8 } else { o }
        },
        ArithMode::AddOver => ((si + di) % 256) as u8,
        ArithMode::SubPin => {
            if di - si >= oi { (di - si) as u8 } else { o }
        },
        ArithMode::AddMax => {
            if s >= d { s } else { d }
        },
        ArithMode::SubOver => {
            if di >= si { (di - si) as u8 } else { (di - si + 256) as u8 }
        },
        ArithMode::AdMin => {
            if s <= d { s } else { d }
        },
        ArithMode::Transparent => d,
    }
}

/// Combine a source colour with the destination pixel per the
/// arithmetic transfer modes, at 8-bit channel precision; alpha is
/// the destination's.
pub fn blend_arith(mode: ArithMode, src: Rgba, dst: Rgba, op_color: Rgba, bg_key: Rgba) -> (out: Rgba)
    ensures
        out == blend_arith_spec(mode, src, dst, op_color, bg_key),
{
    if let ArithMode::Transparent = mode {
        if src.r == bg_key.r && src.g == bg_key.g && src.b == bg_key.b {
            return dst;
        }
        return Rgba { r: src.r, g: src.g, b: src.b, a: dst.a };
    }
    Rgba {
        r: arith_channel_exec(mode, src.r, dst.r, op_color.r),
        g: arith_channel_exec(mode, src.g, dst.g, op_color.g),
        b: arith_channel_exec(mode, src.b, dst.b, op_color.b),
        a: dst.a,
    }
}

/// The arithmetic transfer modes, channel by channel: `addMax` keeps
/// the larger of source and destination, `adMin` the smaller, `addPin`
/// the sum capped at the `OpColor` channel, `subPin` the difference
/// `dst - src` floored at it, `addOver` and `subOver` the sum and the
/// difference wrapped to a byte, and `blend` the `OpColor`-weighted
/// average of source and destination, rounded to nearest.
pub proof fn lemma_arith_channel_law(mode: ArithMode, s: u8, d: u8, o: u8)
    requires
        !(mode is Transparent),
    ensures
        ({
            let v = arith_channel(mode, s, d, o);
            &&& mode is AddMax ==> (v >= s && v >= d && (v == s || v == d))
            &&& mode is AdMin ==> (v <= s && v <= d && (v == s || v == d))
            &&& mode is AddPin ==> (v <= o && v <= s + d && (v == s + d || v == o))
            &&& mode is SubPin ==> (v >= o && v >= d - s && (v == d - s || v == o))
            &&& mode is AddOver ==> (v == s + d || v == s + d - 256)
            &&& mode is SubOver ==> (v == d - s || v == d - s + 256)
            &&& mode is Blend ==> (255 * v <= s * o + d * (255 - o) + 127 < 255 * v + 255)
        }),
{
    let v = arith_channel(mode, s, d, o);
    if mode is Blend {
        let t = s * o + d * (255 - o) + 127;
        assert(0 <= t < 256 * 255) by (nonlinear_arith)
            requires
                t == s * o + d * (255 - o) + 127,
                0 <= s < 256,
                0 <= d < 256,
                0 <= o < 256,
        ;
        assert(v == t / 255);
    }
}

/// [`blend_arith`] on a whole pixel: every arithmetic mode but
/// `transparent` combines each colour channel of source and destination
/// as [`lemma_arith_channel_law`] says and keeps the destination alpha;
/// `transparent` leaves the destination where the source colour is the
/// background key and otherwise writes the source colour over the
/// destination alpha.
pub proof fn lemma_blend_arith_law(mode: ArithMode, src: Rgba, dst: Rgba, op: Rgba, key: Rgba)
    ensures
        ({
            let out = blend_arith_spec(mode, src, dst, op, key);
            &&& !(mode is Transparent) ==> out.a == dst.a
            &&& mode is AddMax ==> (out.r >= src.r && out.r >= dst.r && (out.r == src.r || out.r == dst.r))
            &&& mode is AdMin ==> (out.r <= src.r && out.r <= dst.r && (out.r == src.r || out.r == dst.r))
            &&& mode is AddPin ==> (out.r <= op.r && out.r <= src.r + dst.r && (out.r == src.r + dst.r || out.r == op.r))
            &&& mode is SubPin ==> (out.r >= op.r && out.r >= dst.r - src.r && (out.r == dst.r - src.r || out.r == op.r))
            &&& mode is AddOver ==> (out.r == src.r + dst.r || out.r == src.r + dst.r - 256)
            &&& mode is SubOver ==> (out.r == dst.r - src.r || out.r == dst.r - src.r + 256)
            &&& mode is Blend ==> (255 * out.r <= src.r * op.r + dst.r * (255 - op.r) + 127 < 255 * out.r + 255)
            &&& mode is AddMax ==> (out.g >= src.g && out.g >= dst.g && (out.g == src.g || out.g == dst.g))
            &&& mode is AdMin ==> (out.g <= src.g && out.g <= dst.g && (out.g == src.g || out.g == dst.g))
            &&& mode is AddPin ==> (out.g <= op.g && out.g <= src.g + dst.g && (out.g == src.g + dst.g || out.g == op.g))
            &&& mode is SubPin ==> (out.g >= op.g && out.g >= dst.g - src.g && (out.g == dst.g - src.g || out.g == op.g))
            &&& mode is AddOver ==> (out.g == src.g + dst.g || out.g == src.g + dst.g - 256)
            &&& mode is SubOver ==> (out.g == dst.g - src.g || out.g == dst.g - src.g + 256)
            &&& mode is Blend ==> (255 * out.g <= src.g * op.g + dst.g * (255 - op.g) + 127 < 255 * out.g + 255)
            &&& mode is AddMax ==> (out.b >= src.b && out.b >= dst.b && (out.b == src.b || out.b == dst.b))
            &&& mode is AdMin ==> (out.b <= src.b && out.b <= dst.b && (out.b == src.b || out.b == dst.b))
            &&& mode is AddPin ==> (out.b <= op.b && out.b <= src.b + dst.b && (out.b == src.b + dst.b || out.b == op.b))
            &&& mode is SubPin ==> (out.b >= op.b && out.b >= dst.b - src.b && (out.b == dst.b - src.b || out.b == op.b))
            &&& mode is AddOver ==> (out.b == src.b + dst.b || out.b == src.b + dst.b - 256)
            &&& mode is SubOver ==> (out.b == dst.b - src.b || out.b == dst.b - src.b + 256)
            &&& mode is Blend ==> (255 * out.b <= src.b * op.b + dst.b * (255 - op.b) + 127 < 255 * out.b + 255)
            &&& (mode is Transparent && src.r == key.r && src.g == key.g && src.b == key.b) ==> out == dst
            &&& (mode is Transparent && !(src.r == key.r && src.g == key.g && src.b == key.b)) ==> (out.r == src.r
                && out.g == src.g && out.b == src.b && out.a == dst.a)
        }),
{
    if !(mode is Transparent) {
        lemma_arith_channel_law(mode, src.r, dst.r, op.r);
        lemma_arith_channel_law(mode, src.g, dst.g, op.g);
        lemma_arith_channel_law(mode, src.b, dst.b, op.b);
    }
}

/// QuickDraw pattern transfer modes (`PnMode` codes 8 to 15), plus
/// the arithmetic modes with their colour context.
#[derive(Debug, Clone, Copy, PartialEq, Eq, Structural)]
pub enum PatternMode {
    /// Foreground where the pattern bit is 1, background where 0.
    PatCopy,
    /// Foreground where 1, destination unchanged where 0.
    PatOr,
    /// Destination inverted where 1, unchanged where 0.
    PatXor,
    /// Background where 1, unchanged where 0.
    PatBic,
    /// Background where 1, foreground where 0.
    NotPatCopy,
    /// Unchanged where 1, foreground where 0.
    NotPatOr,
    /// Unchanged where 1, inverted where 0.
    NotPatXor,
    /// Unchanged where 1, background where 0.
    NotPatBic,
    /// An arithmetic mode: the pattern picks the source colour (fg or
    /// bg), which is combined with the destination.
    Arith { mode: ArithMode, op_color: Rgba, bg_key: Rgba },
}

pub open spec fn pn_mode_spec(code: i16) -> PatternMode {
    if code == 9 {
        PatternMode::PatOr
    } else if code == 10 {
        PatternMode::PatXor
    } else if code == 11 {
        PatternMode::PatBic
    } else if code == 12 {
        PatternMode::NotPatCopy
    } else if code == 13 {
        PatternMode::NotPatOr
    } else if code == 14 {
        PatternMode::NotPatXor
    } else if code == 15 {
        PatternMode::NotPatBic
    } else {
        PatternMode::PatCopy
    }
}

/// A `PnMode` code with the colour context of the arithmetic modes.
pub open spec fn pn_mode_with_spec(code: i16, op_color: Option<Rgba>, bg_key: Rgba) -> PatternMode {
    match arith_code_spec(code) {
        Some(a) => PatternMode::Arith { mode: a, op_color: op_color_or_default(a, op_color), bg_key },
        None => pn_mode_spec(code),
    }
}

/// The `OpColor` a basic port supplies when none was set: black for
/// `subPin`, 50 percent gray for `blend`, white for the others.
pub open spec fn default_op_color(mode: ArithMode) -> Rgba {
    match mode {
        ArithMode::SubPin => black_spec(),
        ArithMode::Blend => Rgba { r: 128, g: 128, b: 128, a: 255 },
        _ => white_spec(),
    }
}

pub open spec fn op_color_or_default(mode: ArithMode, op_color: Option<Rgba>) -> Rgba {
    match op_color {
        Some(c) => c,
        None => default_op_color(mode),
    }
}

fn default_op_color_exec(mode: ArithMode) -> (c: Rgba)
    ensures
        c == default_op_color(mode),
{
    match mode {
        ArithMode::SubPin => Rgba::black(),
        ArithMode::Blend => Rgba::new(128, 128, 128, 255),
        _ => Rgba::white(),
    }
}

impl PatternMode {
    /// Decode a `PnMode` code: `8..=15` are the Boolean pattern modes,
    /// every other code is `patCopy`.
    pub fn from_pn_mode(code: i16) -> (m: Self)
        ensures
            m == pn_mode_spec(code),
    {
        match code {
            9 => PatternMode::PatOr,
            10 => PatternMode::PatXor,
            11 => PatternMode::PatBic,
            12 => PatternMode::NotPatCopy,
            13 => PatternMode::NotPatOr,
            14 => PatternMode::NotPatXor,
            15 => PatternMode::NotPatBic,
            _ => PatternMode::PatCopy,
        }
    }

    /// Decode a `PnMode` code with the colour context of the
    /// arithmetic modes: `32..=39` carry the `OpColor` (or the basic
    /// port's default) and the background key; other codes decode as
    /// [`PatternMode::from_pn_mode`].
    pub fn from_pn_mode_with(code: i16, op_color: Option<Rgba>, bg_key: Rgba) -> (m: Self)
        ensures
            m == pn_mode_with_spec(code, op_color, bg_key),
    {
        match ArithMode::from_code(code) {
            Some(mode) => {
                let op = match op_color {
                    Some(c) => c,
                    None => default_op_color_exec(mode),
                };
                PatternMode::Arith { mode, op_color: op, bg_key }
            },
            None => PatternMode::from_pn_mode(code),
        }
    }

    /// Whether this is `patCopy`.
    pub fn is_pat_copy(self) -> (b: bool)
        ensures
            b == (self is PatCopy),
    {
        matches!(self, PatternMode::PatCopy)
    }
}

/// What a pattern cell writes under each `PnMode` code: with `on` the
/// pattern bit, `patCopy` (8, and any code that names no mode) writes
/// the foreground where it is set and the background elsewhere,
/// `patOr` (9) the foreground where set, `patXor` (10) the inverted
/// destination where set, `patBic` (11) the background where set,
/// and codes 12 to 15 the same with the bit negated (`notPatCopy`
/// writes the background where set and the foreground elsewhere). The
/// arithmetic codes 32 to 39 combine the foreground (bit set) or
/// background with the destination under `blend`, `addPin`,
/// `addOver`, `subPin`, `transparent`, `addMax`, `subOver`, `adMin`.
pub proof fn lemma_pn_mode_law(code: i16, op_color: Option<Rgba>, key: Rgba, pat: Pattern, fg: Rgba, bg: Rgba, x: int, y: int, d: Rgba)
    ensures
        ({
            let on = pattern_bit(pat, x, y);
            let ink = pattern_ink(pat, fg, bg, pn_mode_with_spec(code, op_color, key), x, y, d);
            let inv = Rgba { r: (255 - d.r) as u8, g: (255 - d.g) as u8, b: (255 - d.b) as u8, a: d.a };
            let src = if on { fg } else { bg };
            &&& (code == 8 || !(9 <= code <= 15 || 32 <= code <= 39)) ==> ink == Some(if on { fg } else { bg })
            &&& code == 9 ==> ink == (if on { Some(fg) } else { None })
            &&& code == 10 ==> ink == (if on { Some(inv) } else { None })
            &&& code == 11 ==> ink == (if on { Some(bg) } else { None })
            &&& code == 12 ==> ink == Some(if on { bg } else { fg })
            &&& code == 13 ==> ink == (if on { None } else { Some(fg) })
            &&& code == 14 ==> ink == (if on { None } else { Some(inv) })
            &&& code == 15 ==> ink == (if on { None } else { Some(bg) })
            &&& code == 32 ==> ink == Some(blend_arith_spec(ArithMode::Blend, src, d, op_color_or_default(ArithMode::Blend, op_color), key))
            &&& code == 33 ==> ink == Some(blend_arith_spec(ArithMode::AddPin, src, d, op_color_or_default(ArithMode::AddPin, op_color), key))
            &&& code == 34 ==> ink == Some(blend_arith_spec(ArithMode::AddOver, src, d, op_color_or_default(ArithMode::AddOver, op_color), key))
            &&& code == 35 ==> ink == Some(blend_arith_spec(ArithMode::SubPin, src, d, op_color_or_default(ArithMode::SubPin, op_color), key))
            &&& code == 36 ==> ink == Some(blend_arith_spec(ArithMode::Transparent, src, d, op_color_or_default(ArithMode::Transparent, op_color), key))
            &&& code == 37 ==> ink == Some(blend_arith_spec(ArithMode::AddMax, src, d, op_color_or_default(ArithMode::AddMax, op_color), key))
            &&& code == 38 ==> ink == Some(blend_arith_spec(ArithMode::SubOver, src, d, op_color_or_default(ArithMode::SubOver, op_color), key))
            &&& code == 39 ==> ink == Some(blend_arith_spec(ArithMode::AdMin, src, d, op_color_or_default(ArithMode::AdMin, op_color), key))
        }),
{
}

/// What a black or a white source pixel does under each `CopyBits`
/// mode code 0 to 7 (with or without the `ditherCopy` bit): `srcCopy`
/// (0) writes the foreground for black and the background for white;
/// `srcOr` (1) the foreground for black, `srcXor` (2) the inverted
/// destination for black, `srcBic` (3) the background for black, each
/// leaving the destination for white; `notSrcCopy` (4) the background
/// for black and the foreground for white; `notSrcOr` (5),
/// `notSrcXor` (6) and `notSrcBic` (7) act for white as 1 to 3 do for
/// black and leave the destination for black.
pub proof fn lemma_source_mode_law(code: i16, dither: bool, op_color: Option<Rgba>, key: Rgba, src: Rgba, dst: Rgba, fg: Rgba, bg: Rgba)
    requires
        0 <= code <= 7,
    ensures
        ({
            let word = if dither { (code + 64) as i16 } else { code };
            let out = blend_source_spec(mode_word_spec(word, op_color, key), src, dst, fg, bg);
            let black = src.r == 0 && src.g == 0 && src.b == 0;
            let white = src.r == 255 && src.g == 255 && src.b == 255;
            let is_fg = out.r == fg.r && out.g == fg.g && out.b == fg.b;
            let is_bg = out.r == bg.r && out.g == bg.g && out.b == bg.b;
            let is_dst = out.r == dst.r && out.g == dst.g && out.b == dst.b;
            let is_inv = out.r == 255 - dst.r && out.g == 255 - dst.g && out.b == 255 - dst.b;
            &&& code == 0 ==> (black ==> is_fg) && (white ==> is_bg)
            &&& code == 1 ==> (black ==> is_fg) && (white ==> is_dst)
            &&& code == 2 ==> (black ==> is_inv) && (white ==> is_dst)
            &&& code == 3 ==> (black ==> is_bg) && (white ==> is_dst)
            &&& code == 4 ==> (black ==> is_bg) && (white ==> is_fg)
            &&& code == 5 ==> (white ==> is_fg) && (black ==> is_dst)
            &&& code == 6 ==> (white ==> is_inv) && (black ==> is_dst)
            &&& code == 7 ==> (white ==> is_bg) && (black ==> is_dst)
            &&& (code == 0 || code == 4) ==> out.a == src.a
            &&& !(code == 0 || code == 4) ==> out.a == dst.a
        }),
{
    let word = if dither { (code + 64) as i16 } else { code };
    assert((code & 64) == 0) by (bit_vector)
        requires
            0 <= code <= 7,
    ;
    assert(((code + 64) as i16 & 64) != 0) by (bit_vector)
        requires
            0 <= code <= 7,
    ;
    assert(strip_dither(word) == code);
    assert forall|a: u8, b: u8| #![auto] mix_spec(255, a, b) == a && mix_spec(0, a, b) == b by {
        assert((255 * a + 0 * b + 127) / 255 == a as int);
        assert((0 * a + 255 * b + 127) / 255 == b as int);
    }
}

/// A `CopyBits` source transfer mode (codes 0 to 7), or an arithmetic
/// mode with its colour context.
#[derive(Debug, Clone, Copy, PartialEq, Eq, Structural)]
pub enum SourceMode {
    /// Black source applies the foreground, white the background,
    /// other colours weighted portions of both.
    SrcCopy,
    /// `srcCopy` with foreground and background exchanged.
    NotSrcCopy,
    /// Black source applies the foreground, white leaves the destination.
    SrcOr,
    /// White source applies the foreground, black leaves the destination.
    NotSrcOr,
    /// An exactly black source pixel inverts the destination.
    SrcXor,
    /// An exactly white source pixel inverts the destination.
    NotSrcXor,
    /// Black source applies the background, white leaves the destination.
    SrcBic,
    /// White source applies the background, black leaves the destination.
    NotSrcBic,
    /// An arithmetic mode with the source pixel as its source colour.
    Arith { mode: ArithMode, op_color: Rgba, bg_key: Rgba },
}

/// Additive mode bit asking for dithering; the canvas is true-colour,
/// so it is stripped.
pub const DITHER_COPY: i16 = 64;

pub open spec fn source_code_spec(base: i16) -> SourceMode {
    if base == 1 {
        SourceMode::SrcOr
    } else if base == 2 {
        SourceMode::SrcXor
    } else if base == 3 {
        SourceMode::SrcBic
    } else if base == 4 {
        SourceMode::NotSrcCopy
    } else if base == 5 {
        SourceMode::NotSrcOr
    } else if base == 6 {
        SourceMode::NotSrcXor
    } else if base == 7 {
        SourceMode::NotSrcBic
    } else {
        SourceMode::SrcCopy
    }
}

/// The mode word with the `ditherCopy` bit cleared.
pub open spec fn strip_dither(code: i16) -> i16 {
    if code & 64 != 0 { (code - 64) as i16 } else { code }
}

pub open spec fn mode_word_spec(code: i16, op_color: Option<Rgba>, bg_key: Rgba) -> SourceMode {
    let base = strip_dither(code);
    match arith_code_spec(base) {
        Some(a) => SourceMode::Arith { mode: a, op_color: op_color_or_default(a, op_color), bg_key },
        None => source_code_spec(base),
    }
}

impl SourceMode {
    /// Resolve a raster record's `mode` word: the `ditherCopy` bit is
    /// stripped, `0..=7` are the Boolean source modes, `32..=39` the
    /// arithmetic modes with their colour context, anything else
    /// `srcCopy`.
    pub fn from_mode_word(code: i16, op_color: Option<Rgba>, bg_key: Rgba) -> (m: Self)
        ensures
            m == mode_word_spec(code, op_color, bg_key),
    {
        proof {
            assert(code & 64 != 0 ==> code - 64 >= i16::MIN) by (bit_vector);
        }
        let base: i16 = if code & DITHER_COPY != 0 { code - DITHER_COPY } else { code };
        match ArithMode::from_code(base) {
            Some(mode) => {
                let op = match op_color {
                    Some(c) => c,
                    None => default_op_color_exec(mode),
                };
                SourceMode::Arith { mode, op_color: op, bg_key }
            },
            None => match base {
                1 => SourceMode::SrcOr,
                2 => SourceMode::SrcXor,
                3 => SourceMode::SrcBic,
                4 => SourceMode::NotSrcCopy,
                5 => SourceMode::NotSrcOr,
                6 => SourceMode::NotSrcXor,
                7 => SourceMode::NotSrcBic,
                _ => SourceMode::SrcCopy,
            },
        }
    }

    /// `srcCopy` with a black foreground and a white background: the
    /// mode that reproduces the source image.
    pub fn is_identity_copy(self, fg: Rgba, bg: Rgba) -> (b: bool)
        ensures
            b == (self is SrcCopy && fg == black_spec() && bg == white_spec()),
    {
        matches!(self, SourceMode::SrcCopy) && fg.r == 0 && fg.g == 0 && fg.b == 0 && fg.a == 255
            && bg.r == 255 && bg.g == 255 && bg.b == 255 && bg.a == 255
    }
}

/// `w/255` of `a` plus `(255 - w)/255` of `b`, rounded.
pub open spec fn mix_spec(w: u8, a: u8, b: u8) -> u8 {
    ((w * a + (255 - w) * b + 127) / 255) as u8
}

/// Weight of a source channel: its closeness to black, or to white.
pub open spec fn weight_spec(s: u8, to_black: bool) -> u8 {
    if to_black { (255 - s) as u8 } else { s }
}

pub open spec fn mix_rgb_spec(src: Rgba, apply: Rgba, keep: Rgba, to_black: bool, alpha: u8) -> Rgba {
    Rgba {
        r: mix_spec(weight_spec(src.r, to_black), apply.r, keep.r),
        g: mix_spec(weight_spec(src.g, to_black), apply.g, keep.g),
        b: mix_spec(weight_spec(src.b, to_black), apply.b, keep.b),
        a: alpha,
    }
}

pub open spec fn blend_source_spec(mode: SourceMode, src: Rgba, dst: Rgba, fg: Rgba, bg: Rgba) -> Rgba {
    match mode {
        SourceMode::SrcCopy => mix_rgb_spec(src, fg, bg, true, src.a),
        SourceMode::NotSrcCopy => mix_rgb_spec(src, bg, fg, true, src.a),
        SourceMode::SrcOr => mix_rgb_spec(src, fg, dst, true, dst.a),
        SourceMode::NotSrcOr => mix_rgb_spec(src, fg, dst, false, dst.a),
        SourceMode::SrcBic => mix_rgb_spec(src, bg, dst, true, dst.a),
        SourceMode::NotSrcBic => mix_rgb_spec(src, bg, dst, false, dst.a),
        SourceMode::SrcXor => if src.r == 0 && src.g == 0 && src.b == 0 {
            invert_spec(dst)
        } else {
            dst
        },
        SourceMode::NotSrcXor => if src.r == 255 && src.g == 255 && src.b == 255 {
            invert_spec(dst)
        } else {
            dst
        },
        SourceMode::Arith { mode, op_color, bg_key } => blend_arith_spec(mode, src, dst, op_color, bg_key),
    }
}

fn mix(w: u8, a: u8, b: u8) -> (v: u8)
    ensures
        v == mix_spec(w, a, b),
{
    let wi = w as u32;
    let ai = a as u32;
    let bi = b as u32;
    assert(wi * ai + (255 - wi) * bi + 127 < 256 * 255) by (nonlinear_arith)
        requires wi < 256, ai < 256, bi < 256;
    ((wi * ai + (255 - wi) * bi + 127) / 255) as u8
}

fn mix_rgb(src: Rgba, apply: Rgba, keep: Rgba, to_black: bool, alpha: u8) -> (c: Rgba)
    ensures
        c == mix_rgb_spec(src, apply, keep, to_black, alpha),
{
    let wr = if to_black { 255 - src.r } else { src.r };
    let wg = if to_black { 255 - src.g } else { src.g };
    let wb = if to_black { 255 - src.b } else { src.b };
    Rgba { r: mix(wr, apply.r, keep.r), g: mix(wg, apply.g, keep.g), b: mix(wb, apply.b, keep.b), a: alpha }
}

/// Combine a source pixel with the destination per the `CopyBits`
/// source modes: the copy modes take the source alpha, the others
/// keep the destination's.
pub fn blend_source(mode: SourceMode, src: Rgba, dst: Rgba, fg: Rgba, bg: Rgba) -> (out: Rgba)
    ensures
        out == blend_source_spec(mode, src, dst, fg, bg),
{
    match mode {
        SourceMode::SrcCopy => mix_rgb(src, fg, bg, true, src.a),
        SourceMode::NotSrcCopy => mix_rgb(src, bg, fg, true, src.a),
        SourceMode::SrcOr => mix_rgb(src, fg, dst, true, dst.a),
        SourceMode::NotSrcOr => mix_rgb(src, fg, dst, false, dst.a),
        SourceMode::SrcBic => mix_rgb(src, bg, dst, true, dst.a),
        SourceMode::NotSrcBic => mix_rgb(src, bg, dst, false, dst.a),
        SourceMode::SrcXor => {
            if src.r == 0 && src.g == 0 && src.b == 0 {
                invert_rgba(dst)
            } else {
                dst
            }
        },
        SourceMode::NotSrcXor => {
            if src.r == 255 && src.g == 255 && src.b == 255 {
                invert_rgba(dst)
            } else {
                dst
            }
        },
        SourceMode::Arith { mode, op_color, bg_key } => blend_arith(mode, src, dst, op_color, bg_key),
    }
}


// ---------------------------------------------------------------------------
// Shapes
// ---------------------------------------------------------------------------

pub open spec fn abs_int(v: int) -> int {
    if v < 0 { -v } else { v }
}

pub open spec fn clamp_int(v: int, lo: int, hi: int) -> int {
    if v < lo { lo } else if v > hi { hi } else { v }
}

/// `(x, y)` lies in the rectangle (bottom and right exclusive).
pub open spec fn rect_has(t: int, l: int, b: int, r: int, x: int, y: int) -> bool {
    l <= x < r && t <= y < b
}

/// `(x, y)` is a pixel of the rectangle whose centre lies inside the
/// inscribed ellipse.
pub open spec fn oval_has(t: int, l: int, b: int, r: int, x: int, y: int) -> bool {
    let w = r - l;
    let h = b - t;
    let dx = 2 * x + 1 - l - r;
    let dy = 2 * y + 1 - t - b;
    &&& rect_has(t, l, b, r, x, y)
    &&& dx * dx * (h * h) + dy * dy * (w * w) <= (w * w) * (h * h)
}

/// The rectangle with each corner cut to the quarter of the
/// `ow x oh` ellipse placed in that corner (the oval size clamped to
/// the rectangle).
pub open spec fn rrect_has(t: int, l: int, b: int, r: int, ow: int, oh: int, x: int, y: int) -> bool {
    let w = r - l;
    let h = b - t;
    let cw = clamp_int(ow, 0, w);
    let ch = clamp_int(oh, 0, h);
    let rx = cw / 2;
    let ry = ch / 2;
    &&& rect_has(t, l, b, r, x, y)
    &&& (x < l + rx && y < t + ry ==> oval_has(t, l, t + ch, l + cw, x, y))
    &&& (x >= r - rx && y < t + ry ==> oval_has(t, r - cw, t + ch, r, x, y))
    &&& (x < l + rx && y >= b - ry ==> oval_has(b - ch, l, b, l + cw, x, y))
    &&& (x >= r - rx && y >= b - ry ==> oval_has(b - ch, r - cw, b, r, x, y))
}

/// The oval is the part of its rectangle symmetric about both axes of
/// the rectangle, convex along every row and column (a pixel nearer the
/// centre line than a covered one is covered), and holds the whole
/// centre row of an odd-height rectangle and the whole centre column
/// of an odd-width one.
pub proof fn lemma_oval_law(t: int, l: int, b: int, r: int, x: int, y: int, x2: int, y2: int)
    ensures
        oval_has(t, l, b, r, x, y) ==> rect_has(t, l, b, r, x, y),
        oval_has(t, l, b, r, x, y) == oval_has(t, l, b, r, l + r - 1 - x, y),
        oval_has(t, l, b, r, x, y) == oval_has(t, l, b, r, x, t + b - 1 - y),
        (oval_has(t, l, b, r, x, y) && abs_int(2 * x2 + 1 - l - r) <= abs_int(2 * x + 1 - l - r)) ==> oval_has(
            t,
            l,
            b,
            r,
            x2,
            y,
        ),
        (oval_has(t, l, b, r, x, y) && abs_int(2 * y2 + 1 - t - b) <= abs_int(2 * y + 1 - t - b)) ==> oval_has(
            t,
            l,
            b,
            r,
            x,
            y2,
        ),
        (t < b && 2 * y + 1 == t + b && l <= x < r) ==> oval_has(t, l, b, r, x, y),
        (l < r && 2 * x + 1 == l + r && t <= y < b) ==> oval_has(t, l, b, r, x, y),
{
    let w = r - l;
    let h = b - t;
    let dx = 2 * x + 1 - l - r;
    let dy = 2 * y + 1 - t - b;
    let dx2 = 2 * x2 + 1 - l - r;
    let dy2 = 2 * y2 + 1 - t - b;
    assert(2 * (l + r - 1 - x) + 1 - l - r == -dx);
    assert(2 * (t + b - 1 - y) + 1 - t - b == -dy);
    assert((-dx) * (-dx) == dx * dx) by (nonlinear_arith);
    assert((-dy) * (-dy) == dy * dy) by (nonlinear_arith);
    if oval_has(t, l, b, r, x, y) && abs_int(dx2) <= abs_int(dx) {
        assert(dx2 * dx2 * (h * h) <= dx * dx * (h * h)) by (nonlinear_arith)
            requires
                abs_int(dx2) <= abs_int(dx),
        {
            assert(dx2 * dx2 == abs_int(dx2) * abs_int(dx2));
            assert(dx * dx == abs_int(dx) * abs_int(dx));
            assert(abs_int(dx2) * abs_int(dx2) <= abs_int(dx) * abs_int(dx)) by (nonlinear_arith)
                requires
                    0 <= abs_int(dx2) <= abs_int(dx),
            ;
        }
        assert(l <= x2 < r) by {
            assert(-w < dx < w);
        }
    }
    if oval_has(t, l, b, r, x, y) && abs_int(dy2) <= abs_int(dy) {
        assert(dy2 * dy2 * (w * w) <= dy * dy * (w * w)) by (nonlinear_arith)
            requires
                abs_int(dy2) <= abs_int(dy),
        {
            assert(dy2 * dy2 == abs_int(dy2) * abs_int(dy2));
            assert(dy * dy == abs_int(dy) * abs_int(dy));
            assert(abs_int(dy2) * abs_int(dy2) <= abs_int(dy) * abs_int(dy)) by (nonlinear_arith)
                requires
                    0 <= abs_int(dy2) <= abs_int(dy),
            ;
        }
        assert(t <= y2 < b) by {
            assert(-h < dy < h);
        }
    }
    if t < b && 2 * y + 1 == t + b && l <= x < r {
        assert(dy == 0);
        assert(t <= y < b);
        assert(dx * dx <= w * w) by (nonlinear_arith)
            requires
                -w < dx < w,
        ;
        assert(dx * dx * (h * h) <= (w * w) * (h * h)) by (nonlinear_arith)
            requires
                dx * dx <= w * w,
        ;
        assert(dy * dy * (w * w) == 0) by (nonlinear_arith)
            requires
                dy == 0,
        ;
    }
    if l < r && 2 * x + 1 == l + r && t <= y < b {
        assert(dx == 0);
        assert(l <= x < r);
        assert(dy * dy <= h * h) by (nonlinear_arith)
            requires
                -h < dy < h,
        ;
        assert(dy * dy * (w * w) <= (w * w) * (h * h)) by (nonlinear_arith)
            requires
                dy * dy <= h * h,
        ;
        assert(dx * dx * (h * h) == 0) by (nonlinear_arith)
            requires
                dx == 0,
        ;
    }
}

/// The rounded rectangle is the part of its rectangle symmetric about
/// both axes of the rectangle, and is the whole rectangle when the
/// corner oval is less than two pixels wide or tall.
pub proof fn lemma_rrect_law(t: int, l: int, b: int, r: int, ow: int, oh: int, x: int, y: int)
    ensures
        rrect_has(t, l, b, r, ow, oh, x, y) ==> rect_has(t, l, b, r, x, y),
        (ow <= 1 || oh <= 1) ==> rrect_has(t, l, b, r, ow, oh, x, y) == rect_has(t, l, b, r, x, y),
        rrect_has(t, l, b, r, ow, oh, x, y) == rrect_has(t, l, b, r, ow, oh, l + r - 1 - x, y),
        rrect_has(t, l, b, r, ow, oh, x, y) == rrect_has(t, l, b, r, ow, oh, x, t + b - 1 - y),
{
    let w = r - l;
    let h = b - t;
    let cw = clamp_int(ow, 0, w);
    let ch = clamp_int(oh, 0, h);
    let rx = cw / 2;
    let ry = ch / 2;
    let mx = l + r - 1 - x;
    let my = t + b - 1 - y;
    // The corner ovals map onto each other under the mirrors.
    lemma_oval_mirror_pair(t, l, t + ch, l + cw, t, r - cw, t + ch, r, x, y, mx, y);
    lemma_oval_mirror_pair(b - ch, l, b, l + cw, b - ch, r - cw, b, r, x, y, mx, y);
    lemma_oval_mirror_pair(t, r - cw, t + ch, r, t, l, t + ch, l + cw, x, y, mx, y);
    lemma_oval_mirror_pair(b - ch, r - cw, b, r, b - ch, l, b, l + cw, x, y, mx, y);
    lemma_oval_vmirror_pair(t, l, t + ch, l + cw, b - ch, l, b, l + cw, x, y, x, my);
    lemma_oval_vmirror_pair(t, r - cw, t + ch, r, b - ch, r - cw, b, r, x, y, x, my);
    lemma_oval_vmirror_pair(b - ch, l, b, l + cw, t, l, t + ch, l + cw, x, y, x, my);
    lemma_oval_vmirror_pair(b - ch, r - cw, b, r, t, r - cw, t + ch, r, x, y, x, my);
}

/// Two ovals of one size, one the horizontal mirror of the other about
/// the vertical line `x = (s - 1) / 2`, hold mirrored pixels alike.
proof fn lemma_oval_mirror_pair(
    t: int,
    l: int,
    b: int,
    r: int,
    t2: int,
    l2: int,
    b2: int,
    r2: int,
    x: int,
    y: int,
    x2: int,
    y2: int,
)
    requires
        t2 == t,
        b2 == b,
        r2 - l2 == r - l,
        y2 == y,
        2 * x2 + 1 - l2 - r2 == -(2 * x + 1 - l - r),
    ensures
        oval_has(t, l, b, r, x, y) == oval_has(t2, l2, b2, r2, x2, y2),
{
    let dx = 2 * x + 1 - l - r;
    assert((-dx) * (-dx) == dx * dx) by (nonlinear_arith);
    assert(l <= x < r <==> l2 <= x2 < r2);
}

/// The same for the vertical mirror about a horizontal line.
proof fn lemma_oval_vmirror_pair(
    t: int,
    l: int,
    b: int,
    r: int,
    t2: int,
    l2: int,
    b2: int,
    r2: int,
    x: int,
    y: int,
    x2: int,
    y2: int,
)
    requires
        l2 == l,
        r2 == r,
        b2 - t2 == b - t,
        x2 == x,
        2 * y2 + 1 - t2 - b2 == -(2 * y + 1 - t - b),
    ensures
        oval_has(t, l, b, r, x, y) == oval_has(t2, l2, b2, r2, x2, y2),
{
    let dy = 2 * y + 1 - t - b;
    assert((-dy) * (-dy) == dy * dy) by (nonlinear_arith);
    assert(t <= y < b <==> t2 <= y2 < b2);
}

/// Angle of a direction `(ux, uy)` (y down), in degrees clockwise
/// from 12 o'clock, as a fraction `(num, den)` with `den > 0` for a
/// non-zero direction: exact at the multiples of 45 degrees and read
/// on the octant's tangent scale in between.
pub open spec fn pseudo_angle(ux: int, uy: int) -> (int, int) {
    let ax = abs_int(ux);
    let ay = abs_int(uy);
    if ux >= 0 && uy < 0 {
        octant_angle(0, ax, ay)
    } else if ux > 0 && uy >= 0 {
        octant_angle(90, ay, ax)
    } else if ux <= 0 && uy > 0 {
        octant_angle(180, ax, ay)
    } else {
        octant_angle(270, ay, ax)
    }
}

/// `base` plus the angle swept from the leading axis toward the
/// trailing one within a quadrant.
pub open spec fn octant_angle(base: int, trail: int, lead: int) -> (int, int) {
    if trail <= lead {
        (base * lead + 45 * trail, lead)
    } else {
        (base * trail + 90 * trail - 45 * lead, trail)
    }
}

/// Whether direction `(ux, uy)` lies in the sweep of `arc` degrees
/// from `start` (clockwise for positive `arc`); a full turn or more
/// holds every direction, and the centre is in every sweep.
pub open spec fn in_sweep(start: int, arc: int, ux: int, uy: int) -> bool {
    if arc >= 360 || arc <= -360 || (ux == 0 && uy == 0) {
        true
    } else {
        let lo = (if arc >= 0 { start } else { start + arc }) % 360;
        let span = abs_int(arc);
        let (n, d) = pseudo_angle(ux, uy);
        ||| (lo * d <= n && n <= (lo + span) * d)
        ||| (lo * d <= n + 360 * d && n + 360 * d <= (lo + span) * d)
    }
}

/// The oval pixels whose direction from the centre, scaled to the
/// rectangle's proportions, lies in the sweep.
pub open spec fn wedge_has(t: int, l: int, b: int, r: int, start: int, arc: int, x: int, y: int) -> bool {
    let w = r - l;
    let h = b - t;
    &&& oval_has(t, l, b, r, x, y)
    &&& in_sweep(start, arc, (2 * x + 1 - l - r) * h, (2 * y + 1 - t - b) * w)
}

/// The direction of compass point `k` (`0` at 12 o'clock, then every
/// 45 degrees clockwise, `y` growing downward) as a unit step.
pub open spec fn compass_dir(k: int) -> (int, int) {
    if k == 0 {
        (0, -1)
    } else if k == 1 {
        (1, -1)
    } else if k == 2 {
        (1, 0)
    } else if k == 3 {
        (1, 1)
    } else if k == 4 {
        (0, 1)
    } else if k == 5 {
        (-1, 1)
    } else if k == 6 {
        (-1, 0)
    } else {
        (-1, -1)
    }
}

/// Sweeps turn clockwise from 12 o'clock: for a sweep of `0 <= arc <
/// 360` degrees from `start`, the compass point at `45 k` degrees lies
/// in it exactly when it is at most `arc` degrees clockwise of `start`.
pub proof fn lemma_sweep_compass(start: int, arc: int, k: int)
    requires
        0 <= arc < 360,
        0 <= k < 8,
    ensures
        in_sweep(start, arc, compass_dir(k).0, compass_dir(k).1) <==> (45 * k - start) % 360 <= arc,
{
    let lo = start % 360;
    assert(0 <= lo < 360);
    assert((45 * k - start) % 360 == (45 * k - lo) % 360) by {
        vstd::arithmetic::div_mod::lemma_fundamental_div_mod(start, 360);
        vstd::arithmetic::div_mod::lemma_mod_sub_multiples_vanish(45 * k - lo, 360);
        assert(45 * k - start == (45 * k - lo) - 360 * (start / 360));
        vstd::arithmetic::div_mod::lemma_mod_multiples_vanish(-(start / 360), 45 * k - lo, 360);
        assert(360 * -(start / 360) + (45 * k - lo) == 45 * k - start) by (nonlinear_arith)
            requires lo == start - 360 * (start / 360);
    }
    let (n, d) = pseudo_angle(compass_dir(k).0, compass_dir(k).1);
    assert(d == 1 && n == 45 * k);
    if 45 * k >= lo {
        assert((45 * k - lo) % 360 == 45 * k - lo);
    } else {
        assert((45 * k - lo) % 360 == 45 * k - lo + 360);
    }
}

/// A negative sweep turns counter-clockwise: the sweep of `arc < 0`
/// degrees from `start` holds exactly the directions of the clockwise
/// sweep of `-arc` degrees from `start + arc`.
pub proof fn lemma_sweep_reversed(start: int, arc: int, ux: int, uy: int)
    requires
        arc < 0,
    ensures
        in_sweep(start, arc, ux, uy) == in_sweep(start + arc, -arc, ux, uy),
{
}

/// The wedge of a negative sweep is the wedge of the same sweep turned
/// clockwise from its other end.
pub proof fn lemma_wedge_reversed(t: int, l: int, b: int, r: int, start: int, arc: int, x: int, y: int)
    requires
        arc < 0,
    ensures
        wedge_has(t, l, b, r, start, arc, x, y) == wedge_has(t, l, b, r, start + arc, -arc, x, y),
{
    let w = r - l;
    let h = b - t;
    lemma_sweep_reversed(start, arc, (2 * x + 1 - l - r) * h, (2 * y + 1 - t - b) * w);
}

/// A figure given in closed form by its rectangle.
#[derive(Debug, Clone, Copy, PartialEq, Eq, Structural)]
pub enum Figure {
    Rect { top: i32, left: i32, bottom: i32, right: i32 },
    Oval { top: i32, left: i32, bottom: i32, right: i32 },
    RoundRect { top: i32, left: i32, bottom: i32, right: i32, oval_w: i32, oval_h: i32 },
    /// The wedge of the rectangle's oval swept by `arc` degrees from
    /// `start`.
    Wedge { top: i32, left: i32, bottom: i32, right: i32, start: i32, arc: i32 },
}

/// The figure's rectangle `(top, left, bottom, right)`.
pub open spec fn figure_rect(f: Figure) -> (int, int, int, int) {
    match f {
        Figure::Rect { top, left, bottom, right } => (top as int, left as int, bottom as int, right as int),
        Figure::Oval { top, left, bottom, right } => (top as int, left as int, bottom as int, right as int),
        Figure::RoundRect { top, left, bottom, right, .. } => (top as int, left as int, bottom as int, right as int),
        Figure::Wedge { top, left, bottom, right, .. } => (top as int, left as int, bottom as int, right as int),
    }
}

/// Whether `(x, y)` is in the figure with its rectangle inset by `ph`
/// columns and `pv` rows on each side (a rounded rectangle's oval
/// size shrinks by twice the pen; a wedge insets as its oval).
pub open spec fn figure_inset_has(f: Figure, ph: int, pv: int, x: int, y: int) -> bool {
    let (t, l, b, r) = figure_rect(f);
    match f {
        Figure::Rect { .. } => rect_has(t + pv, l + ph, b - pv, r - ph, x, y),
        Figure::Oval { .. } => oval_has(t + pv, l + ph, b - pv, r - ph, x, y),
        Figure::RoundRect { oval_w, oval_h, .. } => rrect_has(
            t + pv,
            l + ph,
            b - pv,
            r - ph,
            oval_w - 2 * ph,
            oval_h - 2 * pv,
            x,
            y,
        ),
        Figure::Wedge { .. } => oval_has(t + pv, l + ph, b - pv, r - ph, x, y),
    }
}

pub open spec fn figure_has(f: Figure, x: int, y: int) -> bool {
    let (t, l, b, r) = figure_rect(f);
    match f {
        Figure::Rect { .. } => rect_has(t, l, b, r, x, y),
        Figure::Oval { .. } => oval_has(t, l, b, r, x, y),
        Figure::RoundRect { oval_w, oval_h, .. } => rrect_has(t, l, b, r, oval_w as int, oval_h as int, x, y),
        Figure::Wedge { start, arc, .. } => wedge_has(t, l, b, r, start as int, arc as int, x, y),
    }
}

/// Edge `i` of a closed polygon: from vertex `i` to the next one.
pub open spec fn edge_end(pts: Seq<(i32, i32)>, i: int) -> (i32, i32) {
    if i + 1 < pts.len() { pts[i + 1] } else { pts[0] }
}

/// The edge crosses the centre line of row `y` (lower end included,
/// upper end excluded).
pub open spec fn edge_crosses(p: (i32, i32), q: (i32, i32), y: int) -> bool {
    (p.1 <= y < q.1) || (q.1 <= y < p.1)
}

/// Where the edge meets the centre line of row `y`, as a fraction
/// `(num, den)` with `den > 0`.
pub open spec fn crossing_at(p: (i32, i32), q: (i32, i32), y: int) -> (int, int) {
    let d = 2 * (q.1 - p.1);
    let n = p.0 * d + (2 * y + 1 - 2 * p.1) * (q.0 - p.0);
    if d > 0 { (n, d) } else { (-n, -d) }
}

/// The crossings of row `y` by the first `k` edges, in edge order.
pub open spec fn crossings(pts: Seq<(i32, i32)>, y: int, k: int) -> Seq<(int, int)>
    decreases k,
{
    if k <= 0 {
        Seq::empty()
    } else {
        let prev = crossings(pts, y, k - 1);
        let p = pts[k - 1];
        let q = edge_end(pts, k - 1);
        if edge_crosses(p, q, y) { prev.push(crossing_at(p, q, y)) } else { prev }
    }
}

/// How many crossings lie below `bound` (`strict`) or at or below it.
pub open spec fn count_below(cs: Seq<(int, int)>, bound: int, strict: bool) -> int
    decreases cs.len(),
{
    if cs.len() == 0 {
        0
    } else {
        let c = cs.last();
        let here: int = if (strict && c.0 < bound * c.1) || (!strict && c.0 <= bound * c.1) { 1 } else { 0 };
        count_below(cs.drop_last(), bound, strict) + here
    }
}

/// Some pair `(c[2k], c[2k+1])` of the sorted crossings covers pixel
/// `x`: `floor(c[2k]) <= x < max(ceil(c[2k+1]), floor(c[2k]) + 1)`,
/// read on the ranks of `x` among the crossings.
pub open spec fn pair_covers(cs: Seq<(int, int)>, x: int) -> bool {
    let a = count_below(cs, x + 1, true);
    let b = count_below(cs, x, false);
    let c = count_below(cs, x, true);
    exists|k: int| #[trigger] pair_fits(cs.len() as int, a, b, c, k)
}

/// Pair `k` of `len` sorted crossings covers a pixel that has `a`
/// crossings before its right edge, `b` at or before its left edge
/// and `c` before its left edge.
pub open spec fn pair_fits(len: int, a: int, b: int, c: int, k: int) -> bool {
    0 <= k && k * 2 + 1 < len && k * 2 < a && (k * 2 + 1 >= b || k * 2 >= c)
}

/// Even-odd fill of a polygon of at least three vertices.
pub open spec fn poly_has(pts: Seq<(i32, i32)>, x: int, y: int) -> bool {
    pts.len() >= 3 && pair_covers(crossings(pts, y, pts.len() as int), x)
}

/// A set of canvas pixels.
pub enum Shape<'a> {
    Fill(Figure),
    /// The figure minus the figure inset by the pen.
    Frame { fig: Figure, pen_h: i32, pen_v: i32 },
    Polygon(&'a [(i32, i32)]),
    /// A region; canvas pixel `(x, y)` is region point `(x + ox, y + oy)`.
    Region { rgn: &'a Region, ox: i32, oy: i32 },
    /// The region's pixels that have a 4-neighbour outside it.
    RegionEdge { rgn: &'a Region, ox: i32, oy: i32 },
}

pub open spec fn shape_wf(s: Shape) -> bool {
    match s {
        Shape::Region { rgn, .. } => rgn.wf(),
        Shape::RegionEdge { rgn, .. } => rgn.wf(),
        Shape::Frame { pen_h, pen_v, .. } => pen_h >= 1 && pen_v >= 1,
        _ => true,
    }
}

pub open spec fn shape_has(s: Shape, x: int, y: int) -> bool {
    match s {
        Shape::Fill(f) => figure_has(f, x, y),
        Shape::Frame { fig, pen_h, pen_v } => figure_has(fig, x, y) && !figure_inset_has(
            fig,
            pen_h as int,
            pen_v as int,
            x,
            y,
        ),
        Shape::Polygon(pts) => poly_has(pts@, x, y),
        Shape::Region { rgn, ox, oy } => rgn.contains_spec(x + ox, y + oy),
        Shape::RegionEdge { rgn, ox, oy } => {
            let (px, py) = (x + ox, y + oy);
            &&& rgn.contains_spec(px, py)
            &&& (!rgn.contains_spec(px, py - 1) || !rgn.contains_spec(px, py + 1)
                || !rgn.contains_spec(px - 1, py) || !rgn.contains_spec(px + 1, py))
        },
    }
}


/// Coordinates handled by the exact tests: far inside `i64`.
pub open spec fn coord_ok(v: int) -> bool {
    -0x4_0000_0000 <= v <= 0x4_0000_0000
}

proof fn lemma_oval_terms(dx: int, dy: int, w: int, h: int)
    requires
        0 < w < 0x1_0000_0000,
        0 < h < 0x1_0000_0000,
        abs_int(dx) < w,
        abs_int(dy) < h,
    ensures
        0 <= abs_int(dx) * h < 0x1_0000_0000_0000_0000,
        0 <= abs_int(dy) * w < 0x1_0000_0000_0000_0000,
        0 < w * h < 0x1_0000_0000_0000_0000,
        (abs_int(dx) * h) * (abs_int(dx) * h) == dx * dx * (h * h),
        (abs_int(dy) * w) * (abs_int(dy) * w) == dy * dy * (w * w),
        (w * h) * (w * h) == (w * w) * (h * h),
        (abs_int(dx) * h) * (abs_int(dx) * h) <= (w * h) * (w * h),
{
    let ax = abs_int(dx);
    let ay = abs_int(dy);
    assert(0 <= ax * h < w * h) by (nonlinear_arith)
        requires 0 <= ax < w, 0 < h;
    assert(0 <= ay * w < h * w) by (nonlinear_arith)
        requires 0 <= ay < h, 0 < w;
    assert(w * h < 0x1_0000_0000_0000_0000) by (nonlinear_arith)
        requires 0 < w < 0x1_0000_0000, 0 < h < 0x1_0000_0000;
    assert(0 < w * h) by (nonlinear_arith)
        requires 0 < w, 0 < h;
    assert((ax * h) * (ax * h) == dx * dx * (h * h)) by (nonlinear_arith)
        requires ax == dx || ax == -dx;
    assert((ay * w) * (ay * w) == dy * dy * (w * w)) by (nonlinear_arith)
        requires ay == dy || ay == -dy;
    assert((w * h) * (w * h) == (w * w) * (h * h)) by (nonlinear_arith);
    assert((ax * h) * (ax * h) <= (w * h) * (w * h)) by (nonlinear_arith)
        requires 0 <= ax * h <= w * h;
}

fn abs_i64(v: i64) -> (a: u64)
    requires
        v > i64::MIN,
    ensures
        a == abs_int(v as int),
{
    if v < 0 { (-v) as u64 } else { v as u64 }
}

/// Exact test of [`oval_has`].
fn oval_test(t: i64, l: i64, b: i64, r: i64, x: i64, y: i64) -> (res: bool)
    requires
        coord_ok(t as int),
        coord_ok(l as int),
        coord_ok(b as int),
        coord_ok(r as int),
        coord_ok(x as int),
        coord_ok(y as int),
        r - l < 0x1_0000_0000,
        b - t < 0x1_0000_0000,
    ensures
        res == oval_has(t as int, l as int, b as int, r as int, x as int, y as int),
{
    if !(l <= x && x < r && t <= y && y < b) {
        return false;
    }
    let w: i64 = r - l;
    let h: i64 = b - t;
    let dx: i64 = 2 * x + 1 - l - r;
    let dy: i64 = 2 * y + 1 - t - b;
    let adx = abs_i64(dx);
    let ady = abs_i64(dy);
    proof {
        lemma_oval_terms(dx as int, dy as int, w as int, h as int);
    }
    let wu = w as u64;
    let hu = h as u64;
    let a1: u64 = adx * hu;
    let b1: u64 = ady * wu;
    let c1: u64 = wu * hu;
    proof {
        assert((a1 as int) * (a1 as int) < 0x1_0000_0000_0000_0000_0000_0000_0000_0000) by (nonlinear_arith)
            requires 0 <= a1 < 0x1_0000_0000_0000_0000;
        assert((b1 as int) * (b1 as int) < 0x1_0000_0000_0000_0000_0000_0000_0000_0000) by (nonlinear_arith)
            requires 0 <= b1 < 0x1_0000_0000_0000_0000;
        assert((c1 as int) * (c1 as int) < 0x1_0000_0000_0000_0000_0000_0000_0000_0000) by (nonlinear_arith)
            requires 0 <= c1 < 0x1_0000_0000_0000_0000;
    }
    let aa: u128 = (a1 as u128) * (a1 as u128);
    let bb: u128 = (b1 as u128) * (b1 as u128);
    let cc: u128 = (c1 as u128) * (c1 as u128);
    proof {
        assert(aa == dx * dx * (h * h));
        assert(bb == dy * dy * (w * w));
        assert(cc == (w * w) * (h * h));
    }
    aa <= cc && bb <= cc - aa
}

/// Exact test of [`rrect_has`].
fn rrect_test(t: i64, l: i64, b: i64, r: i64, ow: i64, oh: i64, x: i64, y: i64) -> (res: bool)
    requires
        coord_ok(t as int),
        coord_ok(l as int),
        coord_ok(b as int),
        coord_ok(r as int),
        coord_ok(ow as int),
        coord_ok(oh as int),
        coord_ok(x as int),
        coord_ok(y as int),
        r - l < 0x1_0000_0000,
        b - t < 0x1_0000_0000,
    ensures
        res == rrect_has(t as int, l as int, b as int, r as int, ow as int, oh as int, x as int, y as int),
{
    if !(l <= x && x < r && t <= y && y < b) {
        return false;
    }
    let w: i64 = r - l;
    let h: i64 = b - t;
    let cw: i64 = if ow < 0 { 0 } else if ow > w { w } else { ow };
    let ch: i64 = if oh < 0 { 0 } else if oh > h { h } else { oh };
    let rx: i64 = cw / 2;
    let ry: i64 = ch / 2;
    if x < l + rx && y < t + ry {
        return oval_test(t, l, t + ch, l + cw, x, y);
    }
    if x >= r - rx && y < t + ry {
        return oval_test(t, r - cw, t + ch, r, x, y);
    }
    if x < l + rx && y >= b - ry {
        return oval_test(b - ch, l, b, l + cw, x, y);
    }
    if x >= r - rx && y >= b - ry {
        return oval_test(b - ch, r - cw, b, r, x, y);
    }
    true
}

fn octant_angle_exec(base: i128, trail: i128, lead: i128) -> (nd: (i128, i128))
    requires
        0 <= trail < 0x1_0000_0000_0000_0000,
        0 <= lead < 0x1_0000_0000_0000_0000,
        0 <= base <= 270,
    ensures
        nd.0 == octant_angle(base as int, trail as int, lead as int).0,
        nd.1 == octant_angle(base as int, trail as int, lead as int).1,
        0 <= nd.0 <= 360 * nd.1,
{
    if trail <= lead {
        proof {
            assert(0 <= base * lead <= 270 * lead) by (nonlinear_arith)
                requires 0 <= base <= 270, 0 <= lead;
        }
        (base * lead + 45 * trail, lead)
    } else {
        proof {
            assert(0 <= base * trail <= 270 * trail) by (nonlinear_arith)
                requires 0 <= base <= 270, 0 <= trail;
        }
        (base * trail + 90 * trail - 45 * lead, trail)
    }
}

/// Exact test of [`in_sweep`].
#[verifier::rlimit(40)]
#[verifier::spinoff_prover]
fn sweep_test(start: i32, arc: i32, ux: i128, uy: i128) -> (res: bool)
    requires
        abs_int(ux as int) < 0x1_0000_0000_0000_0000,
        abs_int(uy as int) < 0x1_0000_0000_0000_0000,
    ensures
        res == in_sweep(start as int, arc as int, ux as int, uy as int),
{
    if arc >= 360 || arc <= -360 || (ux == 0 && uy == 0) {
        return true;
    }
    let from: i64 = if arc >= 0 { start as i64 } else { start as i64 + arc as i64 };
    let lo0: i64 = from % 360;
    let lo: i64 = if lo0 < 0 { lo0 + 360 } else { lo0 };
    proof {
        assert(lo == (from as int) % 360) by {
            vstd::arithmetic::div_mod::lemma_fundamental_div_mod(from as int, 360);
        }
    }
    let span: i64 = if arc < 0 { -(arc as i64) } else { arc as i64 };
    let ax: i128 = if ux < 0 { -ux } else { ux };
    let ay: i128 = if uy < 0 { -uy } else { uy };
    let (n, d) = if ux >= 0 && uy < 0 {
        octant_angle_exec(0, ax, ay)
    } else if ux > 0 && uy >= 0 {
        octant_angle_exec(90, ay, ax)
    } else if ux <= 0 && uy > 0 {
        octant_angle_exec(180, ax, ay)
    } else {
        octant_angle_exec(270, ay, ax)
    };
    let lo_w = lo as i128;
    let hi_w = (lo + span) as i128;
    proof {
        assert(0 <= lo_w * d <= 360 * d) by (nonlinear_arith)
            requires 0 <= lo_w < 360, 0 <= d < 0x1_0000_0000_0000_0000;
        assert(0 <= hi_w * d <= 720 * d) by (nonlinear_arith)
            requires 0 <= hi_w < 720, 0 <= d < 0x1_0000_0000_0000_0000;
    }
    (lo_w * d <= n && n <= hi_w * d) || (lo_w * d <= n + 360 * d && n + 360 * d <= hi_w * d)
}

/// Exact test of [`wedge_has`].
fn wedge_test(t: i64, l: i64, b: i64, r: i64, start: i32, arc: i32, x: i64, y: i64) -> (res: bool)
    requires
        coord_ok(t as int),
        coord_ok(l as int),
        coord_ok(b as int),
        coord_ok(r as int),
        coord_ok(x as int),
        coord_ok(y as int),
        r - l < 0x1_0000_0000,
        b - t < 0x1_0000_0000,
    ensures
        res == wedge_has(t as int, l as int, b as int, r as int, start as int, arc as int, x as int, y as int),
{
    if !oval_test(t, l, b, r, x, y) {
        return false;
    }
    let w: i64 = r - l;
    let h: i64 = b - t;
    let dx: i64 = 2 * x + 1 - l - r;
    let dy: i64 = 2 * y + 1 - t - b;
    proof {
        lemma_oval_terms(dx as int, dy as int, w as int, h as int);
        assert(abs_int(dx * h) == abs_int(dx as int) * h) by (nonlinear_arith)
            requires h > 0;
        assert(abs_int(dy * w) == abs_int(dy as int) * w) by (nonlinear_arith)
            requires w > 0;
    }
    let ux: i128 = (dx as i128) * (h as i128);
    let uy: i128 = (dy as i128) * (w as i128);
    sweep_test(start, arc, ux, uy)
}


/// The exec crossings match the spec ones value for value.
pub open spec fn crossings_match(v: Seq<(i128, i128)>, c: Seq<(int, int)>) -> bool {
    &&& v.len() == c.len()
    &&& forall|i: int| 0 <= i < v.len() ==> (#[trigger] v[i]).0 == c[i].0 && v[i].1 == c[i].1
}

/// The crossings of row `y` by every edge of the polygon.
fn row_crossings(pts: &[(i32, i32)], y: i64) -> (cs: Vec<(i128, i128)>)
    requires
        coord_ok(y as int),
    ensures
        crossings_match(cs@, crossings(pts@, y as int, pts@.len() as int)),
{
    let n = pts.len();
    let mut cs: Vec<(i128, i128)> = Vec::new();
    let mut k: usize = 0;
    while k < n
        invariant
            k <= n,
            n == pts@.len(),
            coord_ok(y as int),
            crossings_match(cs@, crossings(pts@, y as int, k as int)),
        decreases n - k,
    {
        let p = pts[k];
        let q = if k + 1 < n { pts[k + 1] } else { pts[0] };
        let py = p.1 as i64;
        let qy = q.1 as i64;
        if (py <= y && y < qy) || (qy <= y && y < py) {
            let d: i128 = 2 * (qy as i128 - py as i128);
            proof {
                let e = 2 * (y as int) + 1 - 2 * (py as int);
                let f = q.0 as int - p.0 as int;
                assert(abs_int(p.0 * d) <= 0x8000_0000 * 0x2_0000_0000) by (nonlinear_arith)
                    requires abs_int(p.0 as int) <= 0x8000_0000, abs_int(d as int) <= 0x2_0000_0000;
                assert(abs_int(e * f) <= 0x10_0000_0000 * 0x1_0000_0000) by (nonlinear_arith)
                    requires abs_int(e) <= 0x10_0000_0000, abs_int(f) <= 0x1_0000_0000;
            }
            let nn: i128 = (p.0 as i128) * d + (2 * (y as i128) + 1 - 2 * (py as i128)) * (q.0 as i128
                - p.0 as i128);
            let c = if d > 0 { (nn, d) } else { (-nn, -d) };
            cs.push(c);
        }
        k += 1;
    }
    cs
}

/// How many crossings lie below `bound` (or at or below it).
fn count_below_exec(cs: &Vec<(i128, i128)>, bound: i64, strict: bool, ghost_cs: Ghost<Seq<(int, int)>>) -> (n: usize)
    requires
        crossings_match(cs@, ghost_cs@),
        coord_ok(bound as int),
        forall|i: int| 0 <= i < cs@.len() ==> abs_int((#[trigger] cs@[i]).0 as int) < 0x1_0000_0000_0000_0000_0000_0000
            && abs_int(cs@[i].1 as int) < 0x1_0000_0000_0000_0000,
    ensures
        n == count_below(ghost_cs@, bound as int, strict),
        0 <= n <= cs@.len(),
{
    let mut i: usize = 0;
    let mut n: usize = 0;
    while i < cs.len()
        invariant
            i <= cs@.len(),
                crossings_match(cs@, ghost_cs@),
            coord_ok(bound as int),
            forall|j: int| 0 <= j < cs@.len() ==> abs_int((#[trigger] cs@[j]).0 as int) < 0x1_0000_0000_0000_0000_0000_0000
                && abs_int(cs@[j].1 as int) < 0x1_0000_0000_0000_0000,
            n == count_below(ghost_cs@.subrange(0, i as int), bound as int, strict),
            0 <= n <= i,
        decreases cs@.len() - i,
    {
        let (cn, cd) = cs[i];
        proof {
            assert(abs_int((bound as int) * (cd as int)) <= 0x4_0000_0000 * 0x1_0000_0000_0000_0000) by (nonlinear_arith)
                requires coord_ok(bound as int), abs_int(cd as int) < 0x1_0000_0000_0000_0000;
            let sub = ghost_cs@.subrange(0, i as int + 1);
            assert(sub.drop_last() =~= ghost_cs@.subrange(0, i as int));
            assert(sub.last() == ghost_cs@[i as int]);
        }
        let lim: i128 = (bound as i128) * cd;
        let here: bool = if strict { cn < lim } else { cn <= lim };
        if here {
            n += 1;
        }
        i += 1;
    }
    proof {
        assert(ghost_cs@.subrange(0, cs@.len() as int) =~= ghost_cs@);
    }
    n
}

/// Exact test of [`pair_covers`].
fn pair_covers_exec(cs: &Vec<(i128, i128)>, x: i64, ghost_cs: Ghost<Seq<(int, int)>>) -> (res: bool)
    requires
        crossings_match(cs@, ghost_cs@),
        coord_ok(x as int),
        coord_ok(x as int + 1),
        forall|i: int| 0 <= i < cs@.len() ==> abs_int((#[trigger] cs@[i]).0 as int) < 0x1_0000_0000_0000_0000_0000_0000
            && abs_int(cs@[i].1 as int) < 0x1_0000_0000_0000_0000,
    ensures
        res == pair_covers(ghost_cs@, x as int),
{
    let a = count_below_exec(cs, x + 1, true, ghost_cs) as i128;
    let b = count_below_exec(cs, x, false, ghost_cs) as i128;
    let c = count_below_exec(cs, x, true, ghost_cs) as i128;
    let m: i128 = if b - 1 <= c { b - 1 } else { c };
    let lo: i128 = if m < 0 { 0 } else { m };
    let e0: i128 = if lo % 2 == 0 { lo } else { lo + 1 };
    let len = cs.len() as i128;
    let res = e0 < a && e0 + 1 < len;
    proof {
        let gs = ghost_cs@;
        if res {
            let k = e0 / 2;
            assert(k * 2 == e0);
            assert(pair_fits(gs.len() as int, a as int, b as int, c as int, k));
        } else {
            assert forall|k: int| !#[trigger] pair_fits(gs.len() as int, a as int, b as int, c as int, k) by {
                if pair_fits(gs.len() as int, a as int, b as int, c as int, k) {
                    assert(k * 2 >= lo);
                    assert(k * 2 >= e0);
                }
            }
        }
    }
    res
}

proof fn lemma_crossings_bounded(pts: Seq<(i32, i32)>, y: int, k: int)
    requires
        coord_ok(y),
        0 <= k <= pts.len(),
    ensures
        crossings(pts, y, k).len() <= k,
        forall|i: int| 0 <= i < crossings(pts, y, k).len() ==> abs_int((#[trigger] crossings(pts, y, k)[i]).0)
            < 0x1_0000_0000_0000_0000_0000_0000 && 0 < crossings(pts, y, k)[i].1 < 0x1_0000_0000_0000_0000,
    decreases k,
{
    if k > 0 {
        lemma_crossings_bounded(pts, y, k - 1);
        let p = pts[k - 1];
        let q = edge_end(pts, k - 1);
        if edge_crosses(p, q, y) {
            let d = 2 * (q.1 - p.1);
            let e = (2 * y + 1 - 2 * p.1);
            let f = q.0 - p.0;
            assert(abs_int(p.0 * d) <= 0x8000_0000 * 0x2_0000_0000) by (nonlinear_arith)
                requires abs_int(p.0 as int) <= 0x8000_0000, abs_int(d) <= 0x2_0000_0000;
            assert(abs_int(e * f) <= 0x10_0000_0000 * 0x1_0000_0000) by (nonlinear_arith)
                requires abs_int(e) <= 0x10_0000_0000, abs_int(f) <= 0x1_0000_0000;
        }
    }
}

/// Exact test of [`poly_has`] on row `y`, given that row's crossings.
fn poly_test(pts: &[(i32, i32)], cs: &Vec<(i128, i128)>, x: i64, y: i64) -> (res: bool)
    requires
        crossings_match(cs@, crossings(pts@, y as int, pts@.len() as int)),
        coord_ok(x as int),
        coord_ok(x as int + 1),
        coord_ok(y as int),
    ensures
        res == poly_has(pts@, x as int, y as int),
{
    if pts.len() < 3 {
        return false;
    }
    let ghost gcs = crossings(pts@, y as int, pts@.len() as int);
    proof {
        lemma_crossings_bounded(pts@, y as int, pts@.len() as int);
        assert forall|i: int| 0 <= i < cs@.len() implies abs_int((#[trigger] cs@[i]).0 as int)
            < 0x1_0000_0000_0000_0000_0000_0000 && abs_int(cs@[i].1 as int) < 0x1_0000_0000_0000_0000 by {
            assert(cs@[i].0 == gcs[i].0 && cs@[i].1 == gcs[i].1);
        }
    }
    pair_covers_exec(cs, x, Ghost(gcs))
}

/// Exact test of a region membership, shifted.
pub fn region_test(rgn: &Region, ox: i32, oy: i32, x: i64, y: i64) -> (res: bool)
    requires
        rgn.wf(),
        coord_ok(x as int),
        coord_ok(y as int),
    ensures
        res == rgn.contains_spec(x + ox, y + oy),
{
    let px: i64 = x + ox as i64;
    let py: i64 = y + oy as i64;
    if px < rgn.bbox.left as i64 || px >= rgn.bbox.right as i64 || py < rgn.bbox.top as i64 || py
        >= rgn.bbox.bottom as i64 {
        return false;
    }
    rgn.contains(px as i32, py as i32)
}


/// Exact test of [`figure_has`] on a canvas pixel.
fn figure_test(f: &Figure, x: i64, y: i64) -> (res: bool)
    requires
        coord_ok(x as int),
        coord_ok(y as int),
    ensures
        res == figure_has(*f, x as int, y as int),
{
    match *f {
        Figure::Rect { top, left, bottom, right } => left as i64 <= x && x < right as i64 && top as i64
            <= y && y < bottom as i64,
        Figure::Oval { top, left, bottom, right } => oval_test(
            top as i64,
            left as i64,
            bottom as i64,
            right as i64,
            x,
            y,
        ),
        Figure::RoundRect { top, left, bottom, right, oval_w, oval_h } => rrect_test(
            top as i64,
            left as i64,
            bottom as i64,
            right as i64,
            oval_w as i64,
            oval_h as i64,
            x,
            y,
        ),
        Figure::Wedge { top, left, bottom, right, start, arc } => wedge_test(
            top as i64,
            left as i64,
            bottom as i64,
            right as i64,
            start,
            arc,
            x,
            y,
        ),
    }
}

/// Exact test of [`figure_inset_has`] on a canvas pixel.
fn figure_inset_test(f: &Figure, ph: i32, pv: i32, x: i64, y: i64) -> (res: bool)
    requires
        ph >= 1,
        pv >= 1,
        coord_ok(x as int),
        coord_ok(y as int),
    ensures
        res == figure_inset_has(*f, ph as int, pv as int, x as int, y as int),
{
    let h = ph as i64;
    let v = pv as i64;
    match *f {
        Figure::Rect { top, left, bottom, right } => left as i64 + h <= x && x < right as i64 - h && top
            as i64 + v <= y && y < bottom as i64 - v,
        Figure::Oval { top, left, bottom, right } => oval_test(
            top as i64 + v,
            left as i64 + h,
            bottom as i64 - v,
            right as i64 - h,
            x,
            y,
        ),
        Figure::RoundRect { top, left, bottom, right, oval_w, oval_h } => rrect_test(
            top as i64 + v,
            left as i64 + h,
            bottom as i64 - v,
            right as i64 - h,
            oval_w as i64 - 2 * h,
            oval_h as i64 - 2 * v,
            x,
            y,
        ),
        Figure::Wedge { top, left, bottom, right, .. } => oval_test(
            top as i64 + v,
            left as i64 + h,
            bottom as i64 - v,
            right as i64 - h,
            x,
            y,
        ),
    }
}

/// `v` clamped to `[0, hi]`.
fn clamp_to(v: i64, hi: u32) -> (c: i64)
    ensures
        c == clamp_int(v as int, 0, hi as int),
{
    if v < 0 { 0 } else if v > hi as i64 { hi as i64 } else { v }
}

/// Per-row data a shape needs to test membership: a polygon's
/// crossings of that row, nothing for the others.
pub open spec fn row_data_ok(s: Shape, y: int, cache: Seq<(i128, i128)>) -> bool {
    match s {
        Shape::Polygon(pts) => crossings_match(cache, crossings(pts@, y, pts@.len() as int)),
        _ => true,
    }
}

impl<'a> Shape<'a> {
    /// The rows `[y0, y1)` and columns `[x0, x1)` of a `w x h` canvas
    /// outside which the shape has no pixel.
    fn window(&self, w: u32, h: u32) -> (win: (i64, i64, i64, i64))
        requires
            shape_wf(*self),
        ensures
            0 <= win.0 <= win.1 <= h,
            0 <= win.2 <= win.3 <= w,
            forall|x: int, y: int|
                0 <= x < w && 0 <= y < h && #[trigger] shape_has(*self, x, y) ==> win.0 <= y < win.1 && win.2
                    <= x < win.3,
    {
        let (t, l, b, r): (i64, i64, i64, i64) = match self {
            Shape::Fill(f) => Self::figure_bounds(f),
            Shape::Frame { fig, .. } => Self::figure_bounds(fig),
            Shape::Polygon(_) => (0, 0, h as i64, w as i64),
            Shape::Region { rgn, ox, oy } => (
                rgn.bbox.top as i64 - *oy as i64,
                rgn.bbox.left as i64 - *ox as i64,
                rgn.bbox.bottom as i64 - *oy as i64,
                rgn.bbox.right as i64 - *ox as i64,
            ),
            Shape::RegionEdge { rgn, ox, oy } => (
                rgn.bbox.top as i64 - *oy as i64,
                rgn.bbox.left as i64 - *ox as i64,
                rgn.bbox.bottom as i64 - *oy as i64,
                rgn.bbox.right as i64 - *ox as i64,
            ),
        };
        let y0 = clamp_to(t, h);
        let y1a = clamp_to(b, h);
        let x0 = clamp_to(l, w);
        let x1a = clamp_to(r, w);
        let y1 = if y1a < y0 { y0 } else { y1a };
        let x1 = if x1a < x0 { x0 } else { x1a };
        (y0, y1, x0, x1)
    }

    fn figure_bounds(f: &Figure) -> (b: (i64, i64, i64, i64))
        ensures
            b.0 == figure_rect(*f).0,
            b.1 == figure_rect(*f).1,
            b.2 == figure_rect(*f).2,
            b.3 == figure_rect(*f).3,
            forall|x: int, y: int| #[trigger] figure_has(*f, x, y) ==> b.1 <= x < b.3 && b.0 <= y < b.2,
    {
        match *f {
            Figure::Rect { top, left, bottom, right } => (top as i64, left as i64, bottom as i64, right as i64),
            Figure::Oval { top, left, bottom, right } => (top as i64, left as i64, bottom as i64, right as i64),
            Figure::RoundRect { top, left, bottom, right, .. } => (
                top as i64,
                left as i64,
                bottom as i64,
                right as i64,
            ),
            Figure::Wedge { top, left, bottom, right, .. } => (
                top as i64,
                left as i64,
                bottom as i64,
                right as i64,
            ),
        }
    }

    /// What [`Shape::has_at`] needs about row `y`.
    fn row_data(&self, y: i64) -> (cache: Vec<(i128, i128)>)
        requires
            coord_ok(y as int),
        ensures
            row_data_ok(*self, y as int, cache@),
    {
        match self {
            Shape::Polygon(pts) => row_crossings(pts, y),
            _ => Vec::new(),
        }
    }

    /// Whether canvas pixel `(x, y)` is in the shape.
    fn has_at(&self, x: i64, y: i64, cache: &Vec<(i128, i128)>) -> (res: bool)
        requires
            shape_wf(*self),
            0 <= x <= MAX_SIDE,
            0 <= y <= MAX_SIDE,
            row_data_ok(*self, y as int, cache@),
        ensures
            res == shape_has(*self, x as int, y as int),
    {
        match self {
            Shape::Fill(f) => figure_test(f, x, y),
            Shape::Frame { fig, pen_h, pen_v } => figure_test(fig, x, y) && !figure_inset_test(
                fig,
                *pen_h,
                *pen_v,
                x,
                y,
            ),
            Shape::Polygon(pts) => poly_test(pts, cache, x, y),
            Shape::Region { rgn, ox, oy } => region_test(rgn, *ox, *oy, x, y),
            Shape::RegionEdge { rgn, ox, oy } => region_test(rgn, *ox, *oy, x, y) && (!region_test(
                rgn,
                *ox,
                *oy,
                x,
                y - 1,
            ) || !region_test(rgn, *ox, *oy, x, y + 1) || !region_test(rgn, *ox, *oy, x - 1, y)
                || !region_test(rgn, *ox, *oy, x + 1, y)),
        }
    }
}


// ---------------------------------------------------------------------------
// Inks and painting
// ---------------------------------------------------------------------------

/// What a drawing call writes into each pixel of its shape.
pub enum Ink<'a> {
    Solid(Rgba),
    /// Channel-wise NOT of the destination.
    Invert,
    /// The 8x8 pattern under a pattern transfer mode.
    Pattern { pat: Pattern, fg: Rgba, bg: Rgba, mode: PatternMode },
    /// A colour tile.
    Tile(&'a PixPattern),
    /// A `src_w x src_h` RGBA raster scaled nearest-neighbour onto the
    /// `dst_w x dst_h` area at `(left, top)`, combined through a
    /// source transfer mode.
    Raster {
        src: &'a [u8],
        src_w: u32,
        src_h: u32,
        top: i32,
        left: i32,
        dst_w: u32,
        dst_h: u32,
        mode: SourceMode,
        fg: Rgba,
        bg: Rgba,
    },
}

pub open spec fn ink_wf(ink: Ink) -> bool {
    match ink {
        Ink::Tile(pp) => pp.wf(),
        Ink::Raster { src, src_w, src_h, dst_w, dst_h, .. } => src_w > 0 && src_h > 0 && dst_w > 0
            && dst_h > 0 && src@.len() >= src_w * src_h * 4,
        _ => true,
    }
}

/// A pattern cell under a pattern mode: the colour written, or `None`
/// where the destination is left alone.
pub open spec fn pattern_ink(pat: Pattern, fg: Rgba, bg: Rgba, mode: PatternMode, x: int, y: int, d: Rgba) -> Option<Rgba> {
    let on = pattern_bit(pat, x, y);
    match mode {
        PatternMode::PatCopy => Some(if on { fg } else { bg }),
        PatternMode::PatOr => if on { Some(fg) } else { None },
        PatternMode::PatXor => if on { Some(invert_spec(d)) } else { None },
        PatternMode::PatBic => if on { Some(bg) } else { None },
        PatternMode::NotPatCopy => Some(if on { bg } else { fg }),
        PatternMode::NotPatOr => if !on { Some(fg) } else { None },
        PatternMode::NotPatXor => if !on { Some(invert_spec(d)) } else { None },
        PatternMode::NotPatBic => if !on { Some(bg) } else { None },
        PatternMode::Arith { mode, op_color, bg_key } => Some(
            blend_arith_spec(mode, if on { fg } else { bg }, d, op_color, bg_key),
        ),
    }
}

/// Source pixel that destination offset `(dx, dy)` samples.
pub open spec fn raster_sample(src: Seq<u8>, src_w: int, src_h: int, dst_w: int, dst_h: int, dx: int, dy: int) -> Rgba {
    cell(src, (dy * src_h / dst_h) * src_w + dx * src_w / dst_w)
}

pub open spec fn ink_spec(ink: Ink, x: int, y: int, d: Rgba) -> Option<Rgba> {
    match ink {
        Ink::Solid(c) => Some(c),
        Ink::Invert => Some(invert_spec(d)),
        Ink::Pattern { pat, fg, bg, mode } => pattern_ink(pat, fg, bg, mode, x, y, d),
        Ink::Tile(pp) => Some(pp.sample_spec(x, y)),
        Ink::Raster { src, src_w, src_h, top, left, dst_w, dst_h, mode, fg, bg } => if left <= x < left
            + dst_w && top <= y < top + dst_h {
            Some(
                blend_source_spec(
                    mode,
                    raster_sample(src@, src_w as int, src_h as int, dst_w as int, dst_h as int, x - left, y - top),
                    d,
                    fg,
                    bg,
                ),
            )
        } else {
            None
        },
    }
}

impl<'a> Ink<'a> {
    /// The colour written at `(x, y)` over destination `d`, if any.
    fn apply(&self, x: i64, y: i64, d: Rgba) -> (o: Option<Rgba>)
        requires
            ink_wf(*self),
            0 <= x <= MAX_SIDE,
            0 <= y <= MAX_SIDE,
        ensures
            o == ink_spec(*self, x as int, y as int, d),
    {
        match self {
            Ink::Solid(c) => Some(*c),
            Ink::Invert => Some(invert_rgba(d)),
            Ink::Pattern { pat, fg, bg, mode } => {
                let on = pat.sample(x as i32, y as i32);
                match *mode {
                    PatternMode::PatCopy => Some(if on { *fg } else { *bg }),
                    PatternMode::PatOr => if on { Some(*fg) } else { None },
                    PatternMode::PatXor => if on { Some(invert_rgba(d)) } else { None },
                    PatternMode::PatBic => if on { Some(*bg) } else { None },
                    PatternMode::NotPatCopy => Some(if on { *bg } else { *fg }),
                    PatternMode::NotPatOr => if !on { Some(*fg) } else { None },
                    PatternMode::NotPatXor => if !on { Some(invert_rgba(d)) } else { None },
                    PatternMode::NotPatBic => if !on { Some(*bg) } else { None },
                    PatternMode::Arith { mode, op_color, bg_key } => Some(
                        blend_arith(mode, if on { *fg } else { *bg }, d, op_color, bg_key),
                    ),
                }
            },
            Ink::Tile(pp) => Some(pp.sample(x as i32, y as i32)),
            Ink::Raster { src, src_w, src_h, top, left, dst_w, dst_h, mode, fg, bg } => {
                let ox: i64 = x - *left as i64;
                let oy: i64 = y - *top as i64;
                if ox < 0 || ox >= *dst_w as i64 || oy < 0 || oy >= *dst_h as i64 {
                    return None;
                }
                let sw = *src_w as u64;
                let sh = *src_h as u64;
                proof {
                    assert((ox as int) * (sw as int) < (*dst_w as int) * (sw as int)) by (nonlinear_arith)
                        requires 0 <= ox < *dst_w, sw > 0;
                    assert((oy as int) * (sh as int) < (*dst_h as int) * (sh as int)) by (nonlinear_arith)
                        requires 0 <= oy < *dst_h, sh > 0;
                    assert((*dst_w as int) * (sw as int) <= 0xffff_ffff * 0xffff_ffff) by (nonlinear_arith)
                        requires *dst_w <= 0xffff_ffff, sw <= 0xffff_ffff;
                    assert((*dst_h as int) * (sh as int) <= 0xffff_ffff * 0xffff_ffff) by (nonlinear_arith)
                        requires *dst_h <= 0xffff_ffff, sh <= 0xffff_ffff;
                    assert(0 <= (ox as int) * (sw as int)) by (nonlinear_arith)
                        requires 0 <= ox, 0 <= sw;
                    assert(0 <= (oy as int) * (sh as int)) by (nonlinear_arith)
                        requires 0 <= oy, 0 <= sh;
                }
                let sx: u64 = (ox as u64) * sw / (*dst_w as u64);
                let sy: u64 = (oy as u64) * sh / (*dst_h as u64);
                proof {
                    vstd::arithmetic::div_mod::lemma_div_is_ordered(
                        (ox as int) * (sw as int),
                        (*dst_w as int) * (sw as int),
                        *dst_w as int,
                    );
                    vstd::arithmetic::div_mod::lemma_div_by_multiple(sw as int, *dst_w as int);
                    vstd::arithmetic::div_mod::lemma_div_is_ordered(
                        (oy as int) * (sh as int),
                        (*dst_h as int) * (sh as int),
                        *dst_h as int,
                    );
                    vstd::arithmetic::div_mod::lemma_div_by_multiple(sh as int, *dst_h as int);
                    assert((*dst_w as int) * (sw as int) / (*dst_w as int) == sw) by {
                        vstd::arithmetic::mul::lemma_mul_is_commutative(*dst_w as int, sw as int);
                    }
                    assert((*dst_h as int) * (sh as int) / (*dst_h as int) == sh) by {
                        vstd::arithmetic::mul::lemma_mul_is_commutative(*dst_h as int, sh as int);
                    }
                    if sx >= sw {
                        vstd::arithmetic::div_mod::lemma_div_is_ordered_by_denominator(0, 1, 1);
                        assert(false) by {
                            vstd::arithmetic::div_mod::lemma_fundamental_div_mod(
                                (ox as int) * (sw as int),
                                *dst_w as int,
                            );
                            assert((ox as int) * (sw as int) >= (*dst_w as int) * (sw as int)) by (nonlinear_arith)
                                requires
                                    (ox as int) * (sw as int) == (*dst_w as int) * (sx as int) + ((ox as int)
                                        * (sw as int)) % (*dst_w as int),
                                    0 <= ((ox as int) * (sw as int)) % (*dst_w as int),
                                    sx >= sw,
                                    *dst_w > 0;
                        }
                    }
                    if sy >= sh {
                        assert(false) by {
                            vstd::arithmetic::div_mod::lemma_fundamental_div_mod(
                                (oy as int) * (sh as int),
                                *dst_h as int,
                            );
                            assert((oy as int) * (sh as int) >= (*dst_h as int) * (sh as int)) by (nonlinear_arith)
                                requires
                                    (oy as int) * (sh as int) == (*dst_h as int) * (sy as int) + ((oy as int)
                                        * (sh as int)) % (*dst_h as int),
                                    0 <= ((oy as int) * (sh as int)) % (*dst_h as int),
                                    sy >= sh,
                                    *dst_h > 0;
                        }
                    }
                    lemma_pixel_index(sw as int, sh as int, sx as int, sy as int);
                }
                let n = src.len();
                let off: usize = ((sy as usize) * (*src_w as usize) + (sx as usize)) * 4;
                let s = Rgba { r: src[off], g: src[off + 1], b: src[off + 2], a: src[off + 3] };
                Some(blend_source(*mode, s, d, *fg, *bg))
            },
        }
    }
}

/// `(x, y)` is written by painting `s` with `ink` onto `c`.
pub open spec fn hit(c: Canvas, s: Shape, ink: Ink, x: int, y: int) -> bool {
    &&& c.clip_ok(x, y)
    &&& shape_has(s, x, y)
    &&& ink_spec(ink, x, y, c.px(x, y)) is Some
}

/// The colour of `(x, y)` after painting `s` with `ink` onto `c`.
pub open spec fn painted_px(c: Canvas, s: Shape, ink: Ink, x: int, y: int) -> Rgba {
    if hit(c, s, ink, x, y) {
        ink_spec(ink, x, y, c.px(x, y))->0
    } else {
        c.px(x, y)
    }
}

/// `new` is `old` with `s` painted by `ink`: every pixel of the shape
/// that the clip admits takes the ink's colour (where the ink writes
/// one), every other pixel is unchanged, and the canvas is marked
/// dirty exactly when a pixel was written.
pub open spec fn painted(old: Canvas, new: Canvas, s: Shape, ink: Ink) -> bool {
    &&& old.same_frame(&new)
    &&& forall|x: int, y: int| old.inside(x, y) ==> #[trigger] new.px(x, y) == painted_px(old, s, ink, x, y)
    &&& new.dirty == (old.dirty || exists|x: int, y: int| old.inside(x, y) && #[trigger] hit(old, s, ink, x, y))
}

/// Pixel `(x, y)` comes before column `cx` of row `cy` in the scan of
/// the window's rows from `y0` and columns `[x0, x1)`.
pub open spec fn scanned(y0: int, x0: int, x1: int, cy: int, cx: int, x: int, y: int) -> bool {
    ||| (y0 <= y < cy && x0 <= x < x1)
    ||| (y == cy && x0 <= x < cx)
}

impl Canvas {
    /// Paint `shape` with `ink`.
    #[verifier::rlimit(40)]
    pub fn paint(&mut self, shape: &Shape, ink: &Ink)
        requires
            old(self).wf(),
            shape_wf(*shape),
            ink_wf(*ink),
        ensures
            painted(*old(self), *final(self), *shape, *ink),
    {
        let (y0, y1, x0, x1) = shape.window(self.width, self.height);
        let ghost orig = *self;
        let mut y: i64 = y0;
        while y < y1
            invariant
                orig.wf(),
                orig.same_frame(self),
                shape_wf(*shape),
                ink_wf(*ink),
                0 <= y0 <= y <= y1 <= orig.height,
                0 <= x0 <= x1 <= orig.width,
                forall|x: int, yy: int|
                    0 <= x < orig.width && 0 <= yy < orig.height && #[trigger] shape_has(*shape, x, yy) ==> y0
                        <= yy < y1 && x0 <= x < x1,
                forall|x: int, yy: int| #![trigger self.px(x, yy)]
                    orig.inside(x, yy) ==> self.px(x, yy) == (if scanned(y0 as int, x0 as int, x1 as int, y as int, x0 as int, x, yy) {
                        painted_px(orig, *shape, *ink, x, yy)
                    } else {
                        orig.px(x, yy)
                    }),
                self.dirty == (orig.dirty || exists|x: int, yy: int|
                    orig.inside(x, yy) && scanned(y0 as int, x0 as int, x1 as int, y as int, x0 as int, x, yy)
                        && #[trigger] hit(orig, *shape, *ink, x, yy)),
            decreases y1 - y,
        {
            let cache = shape.row_data(y);
            let mut x: i64 = x0;
            while x < x1
                invariant
                    orig.wf(),
                    orig.same_frame(self),
                    shape_wf(*shape),
                    ink_wf(*ink),
                    0 <= y0 <= y < y1 <= orig.height,
                    0 <= x0 <= x <= x1 <= orig.width,
                    row_data_ok(*shape, y as int, cache@),
                    forall|x: int, yy: int|
                        0 <= x < orig.width && 0 <= yy < orig.height && #[trigger] shape_has(*shape, x, yy) ==> y0
                            <= yy < y1 && x0 <= x < x1,
                    forall|xx: int, yy: int| #![trigger self.px(xx, yy)]
                        orig.inside(xx, yy) ==> self.px(xx, yy) == (if scanned(y0 as int, x0 as int, x1 as int, y as int, x as int, xx, yy) {
                            painted_px(orig, *shape, *ink, xx, yy)
                        } else {
                            orig.px(xx, yy)
                        }),
                    self.dirty == (orig.dirty || exists|xx: int, yy: int|
                        orig.inside(xx, yy) && scanned(y0 as int, x0 as int, x1 as int, y as int, x as int, xx, yy)
                            && #[trigger] hit(orig, *shape, *ink, xx, yy)),
                decreases x1 - x,
            {
                let ghost before = *self;
                let ghost target = painted_px(orig, *shape, *ink, x as int, y as int);
                if shape.has_at(x, y, &cache) && self.in_clip(x as i32, y as i32) {
                    proof {
                        lemma_pixel_index(self.width as int, self.height as int, x as int, y as int);
                        assert(self.px(x as int, y as int) == orig.px(x as int, y as int));
                    }
                    let off: usize = ((y as usize) * (self.width as usize) + (x as usize)) * 4;
                    let d = Rgba {
                        r: self.data[off],
                        g: self.data[off + 1],
                        b: self.data[off + 2],
                        a: self.data[off + 3],
                    };
                    match ink.apply(x, y, d) {
                        Some(v) => {
                            proof {
                                assert(hit(orig, *shape, *ink, x as int, y as int));
                                assert(v == target);
                            }
                            self.dirty = true;
                            self.store(x as u32, y as u32, v);
                            proof {
                                assert(self.px(x as int, y as int) == target);
                            }
                        },
                        None => {
                            proof {
                                assert(!hit(orig, *shape, *ink, x as int, y as int));
                                assert(self.px(x as int, y as int) == target);
                            }
                        },
                    }
                } else {
                    proof {
                        assert(!hit(orig, *shape, *ink, x as int, y as int));
                        assert(self.px(x as int, y as int) == target);
                    }
                }
                proof {
                    assert(self.px(x as int, y as int) == target);
                    assert forall|xx: int, yy: int| #![trigger self.px(xx, yy)]
                        orig.inside(xx, yy) && !(xx == x && yy == y) implies self.px(xx, yy) == before.px(xx, yy) by {}
                }
                proof {
                    assert forall|xx: int, yy: int| #![trigger self.px(xx, yy)]
                        orig.inside(xx, yy) implies self.px(xx, yy) == (if scanned(y0 as int, x0 as int, x1 as int, y as int, x + 1, xx, yy) {
                            painted_px(orig, *shape, *ink, xx, yy)
                        } else {
                            orig.px(xx, yy)
                        }) by {
                        assert(before.px(xx, yy) == (if scanned(y0 as int, x0 as int, x1 as int, y as int, x as int, xx, yy) {
                            painted_px(orig, *shape, *ink, xx, yy)
                        } else {
                            orig.px(xx, yy)
                        }));
                    }
                    if !self.dirty {
                        assert forall|xx: int, yy: int|
                            orig.inside(xx, yy) && scanned(y0 as int, x0 as int, x1 as int, y as int, x + 1, xx, yy)
                                implies !#[trigger] hit(orig, *shape, *ink, xx, yy) by {
                            if !(xx == x && yy == y) {
                                assert(scanned(y0 as int, x0 as int, x1 as int, y as int, x as int, xx, yy));
                            }
                        }
                    }
                }
                x += 1;
            }
            proof {
                assert forall|xx: int, yy: int|
                    scanned(y0 as int, x0 as int, x1 as int, y as int, x1 as int, xx, yy) == scanned(
                        y0 as int,
                        x0 as int,
                        x1 as int,
                        y + 1,
                        x0 as int,
                        xx,
                        yy,
                    ) by {}
            }
            y += 1;
        }
        proof {
            assert forall|xx: int, yy: int| orig.inside(xx, yy) && !scanned(y0 as int, x0 as int, x1 as int, y1 as int, x0 as int, xx, yy)
                implies !#[trigger] hit(orig, *shape, *ink, xx, yy) by {}
            assert forall|xx: int, yy: int| orig.inside(xx, yy) implies #[trigger] self.px(xx, yy)
                == painted_px(orig, *shape, *ink, xx, yy) by {
                if !scanned(y0 as int, x0 as int, x1 as int, y1 as int, x0 as int, xx, yy) {
                    assert(!hit(orig, *shape, *ink, xx, yy));
                }
            }
        }
    }
}


// ---------------------------------------------------------------------------
// Lines
// ---------------------------------------------------------------------------

pub open spec fn sign_step(from: int, to: int) -> int {
    if from < to { 1 } else { -1 }
}

/// One step of Bresenham's walk from `(x0, y0)` to `(x1, y1)`; the
/// state `(x, y, err)` stays put once it reaches the end.
pub open spec fn bres_step(x0: int, y0: int, x1: int, y1: int, st: (int, int, int)) -> (int, int, int) {
    let (x, y, err) = st;
    if x == x1 && y == y1 {
        st
    } else {
        let dx = abs_int(x1 - x0);
        let dy = -abs_int(y1 - y0);
        let e2 = 2 * err;
        let x2 = if e2 >= dy { x + sign_step(x0, x1) } else { x };
        let err2 = if e2 >= dy { err + dy } else { err };
        let y2 = if e2 <= dx { y + sign_step(y0, y1) } else { y };
        let err3 = if e2 <= dx { err2 + dx } else { err2 };
        (x2, y2, err3)
    }
}

/// The walk's state after `k` steps.
pub open spec fn bres_state(x0: int, y0: int, x1: int, y1: int, k: int) -> (int, int, int)
    decreases k,
{
    if k <= 0 {
        (x0, y0, abs_int(x1 - x0) - abs_int(y1 - y0))
    } else {
        bres_step(x0, y0, x1, y1, bres_state(x0, y0, x1, y1, k - 1))
    }
}

/// A `ph x pv` pen whose top-left corner is at the walk's position
/// after one of its first `n` steps covers `(x, y)`.
pub open spec fn pen_covers(x0: int, y0: int, x1: int, y1: int, ph: int, pv: int, n: int, x: int, y: int) -> bool {
    exists|k: int|
        0 <= k < n && #[trigger] bres_state(x0, y0, x1, y1, k).0 <= x < bres_state(x0, y0, x1, y1, k).0 + ph
            && bres_state(x0, y0, x1, y1, k).1 <= y < bres_state(x0, y0, x1, y1, k).1 + pv
}

/// The pixels a line from `(x0, y0)` to `(x1, y1)`, both ends
/// included, covers with a `ph x pv` pen.
pub open spec fn line_has(x0: int, y0: int, x1: int, y1: int, ph: int, pv: int, x: int, y: int) -> bool {
    pen_covers(x0, y0, x1, y1, ph, pv, abs_int(x1 - x0) + abs_int(y1 - y0) + 1, x, y)
}

/// `new` is `old` with colour `c` written over every pixel that
/// `covered` holds and the clip admits; dirty exactly when one was.
pub open spec fn drawn(old: Canvas, new: Canvas, covered: spec_fn(int, int) -> bool, c: Rgba) -> bool {
    &&& old.same_frame(&new)
    &&& forall|x: int, y: int| old.inside(x, y) ==> #[trigger] new.px(x, y) == (if old.clip_ok(x, y) && covered(x, y) {
        c
    } else {
        old.px(x, y)
    })
    &&& new.dirty == (old.dirty || exists|x: int, y: int| old.clip_ok(x, y) && #[trigger] covered(x, y))
}

proof fn lemma_bres_stuck(x0: int, y0: int, x1: int, y1: int, k: int, m: int)
    requires
        0 <= k <= m,
        bres_state(x0, y0, x1, y1, k).0 == x1,
        bres_state(x0, y0, x1, y1, k).1 == y1,
    ensures
        bres_state(x0, y0, x1, y1, m) == bres_state(x0, y0, x1, y1, k),
    decreases m - k,
{
    if m > k {
        lemma_bres_stuck(x0, y0, x1, y1, k, m - 1);
    }
}

proof fn lemma_walk_between(g0: int, g1: int, s: int, i: int, d: int)
    requires
        d == abs_int(g1 - g0),
        s == sign_step(g0, g1),
        0 <= i <= d,
    ensures
        min_int(g0, g1) <= g0 + s * i <= max_int(g0, g1),
{
    if g0 < g1 {
        assert(s * i == i);
    } else {
        assert(s * i == -i);
    }
}

/// After `k` steps the walk stands `i` steps along x and `j` along y
/// from its start, never past the end on either axis, with the error
/// term `dx (1 + j) - dy (1 + i)`; it has made `k` moves or stopped at
/// the end.
proof fn lemma_bres_progress(x0: int, y0: int, x1: int, y1: int, k: int) -> (ij: (int, int))
    requires
        k >= 0,
    ensures
        ({
            let dx = abs_int(x1 - x0);
            let dy = abs_int(y1 - y0);
            let (i, j) = ij;
            &&& 0 <= i <= dx
            &&& 0 <= j <= dy
            &&& bres_state(x0, y0, x1, y1, k) == (x0 + sign_step(x0, x1) * i, y0 + sign_step(y0, y1) * j, dx * (1 + j)
                - dy * (1 + i))
            &&& ((i == dx && j == dy) || i + j >= k)
        }),
    decreases k,
{
    let dx = abs_int(x1 - x0);
    let dy = abs_int(y1 - y0);
    let sx = sign_step(x0, x1);
    let sy = sign_step(y0, y1);
    if k == 0 {
        assert(dx * (1 + 0int) - dy * (1 + 0int) == dx - dy) by (nonlinear_arith);
        assert(x0 + sx * 0 == x0 && y0 + sy * 0 == y0) by (nonlinear_arith);
        (0, 0)
    } else {
        let (i, j) = lemma_bres_progress(x0, y0, x1, y1, k - 1);
        let x = x0 + sx * i;
        let y = y0 + sy * j;
        let err = dx * (1 + j) - dy * (1 + i);
        assert(x0 + sx * dx == x1 && y0 + sy * dy == y1) by {
            if x0 < x1 {
                assert(sx * dx == dx);
            } else {
                assert(sx * dx == -dx);
            }
            if y0 < y1 {
                assert(sy * dy == dy);
            } else {
                assert(sy * dy == -dy);
            }
        }
        assert((x == x1) <==> (i == dx)) by {
            if x0 < x1 {
                assert(sx * i == i);
            } else {
                assert(sx * i == -i);
            }
        }
        assert((y == y1) <==> (j == dy)) by {
            if y0 < y1 {
                assert(sy * j == j);
            } else {
                assert(sy * j == -j);
            }
        }
        if i == dx && j == dy {
            (i, j)
        } else {
            let e2 = 2 * err;
            let mx = e2 >= -dy;
            let my = e2 <= dx;
            if mx {
                assert(i < dx) by {
                    if i == dx {
                        assert(j < dy);
                        assert(2 * (dx * (1 + j) - dy * (1 + dx)) < -dy) by (nonlinear_arith)
                            requires
                                0 <= j < dy,
                                dx >= 0,
                        {
                            assert(2 * (dx * (1 + j) - dy * (1 + dx)) + dy == 2 * dx * (1 + j - dy) - dy);
                            assert(dx * (1 + j - dy) <= 0) by (nonlinear_arith)
                                requires
                                    1 + j - dy <= 0,
                                    dx >= 0,
                            ;
                        }
                    }
                }
            }
            if my {
                assert(j < dy) by {
                    if j == dy {
                        assert(i < dx);
                        assert(2 * (dx * (1 + dy) - dy * (1 + i)) > dx) by (nonlinear_arith)
                            requires
                                0 <= i < dx,
                                dy >= 0,
                        {
                            assert(2 * (dx * (1 + dy) - dy * (1 + i)) - dx == dx + 2 * dy * (dx - i - 1));
                            assert(dy * (dx - i - 1) >= 0) by (nonlinear_arith)
                                requires
                                    dx - i - 1 >= 0,
                                    dy >= 0,
                            ;
                        }
                    }
                }
            }
            assert(mx || my);
            let i2 = if mx { i + 1 } else { i };
            let j2 = if my { j + 1 } else { j };
            assert(sx * i2 == (if mx { sx * i + sx } else { sx * i })) by (nonlinear_arith)
                requires
                    i2 == (if mx { i + 1 } else { i }),
            ;
            assert(sy * j2 == (if my { sy * j + sy } else { sy * j })) by (nonlinear_arith)
                requires
                    j2 == (if my { j + 1 } else { j }),
            ;
            assert(dx * (1 + j2) - dy * (1 + i2) == (if mx { err - dy } else { err }) + (if my { dx } else { 0 }))
                by (nonlinear_arith)
                requires
                    err == dx * (1 + j) - dy * (1 + i),
                    i2 == (if mx { i + 1 } else { i }),
                    j2 == (if my { j + 1 } else { j }),
            ;
            (i2, j2)
        }
    }
}

/// A line with a one-pixel pen covers both its ends and nothing
/// outside the rectangle they span.
pub proof fn lemma_line_law(x0: int, y0: int, x1: int, y1: int, x: int, y: int)
    ensures
        line_has(x0, y0, x1, y1, 1, 1, x0, y0),
        line_has(x0, y0, x1, y1, 1, 1, x1, y1),
        line_has(x0, y0, x1, y1, 1, 1, x, y) ==> (min_int(x0, x1) <= x <= max_int(x0, x1) && min_int(y0, y1) <= y
            <= max_int(y0, y1)),
{
    let dx = abs_int(x1 - x0);
    let dy = abs_int(y1 - y0);
    let n = dx + dy + 1;
    let (i0, j0) = lemma_bres_progress(x0, y0, x1, y1, 0);
    assert(bres_state(x0, y0, x1, y1, 0).0 == x0 && bres_state(x0, y0, x1, y1, 0).1 == y0);
    let (i, j) = lemma_bres_progress(x0, y0, x1, y1, dx + dy);
    assert(i == dx && j == dy);
    assert(x0 + sign_step(x0, x1) * dx == x1 && y0 + sign_step(y0, y1) * dy == y1) by {
        if x0 < x1 {
            assert(sign_step(x0, x1) == 1);
        } else {
            assert(sign_step(x0, x1) == -1);
            assert(-1 * dx == -dx);
        }
        if y0 < y1 {
            assert(sign_step(y0, y1) == 1);
        } else {
            assert(sign_step(y0, y1) == -1);
            assert(-1 * dy == -dy);
        }
    }
    assert(bres_state(x0, y0, x1, y1, dx + dy).0 == x1 && bres_state(x0, y0, x1, y1, dx + dy).1 == y1);
    if line_has(x0, y0, x1, y1, 1, 1, x, y) {
        let k = choose|k: int|
            0 <= k < n && #[trigger] bres_state(x0, y0, x1, y1, k).0 <= x < bres_state(x0, y0, x1, y1, k).0 + 1
                && bres_state(x0, y0, x1, y1, k).1 <= y < bres_state(x0, y0, x1, y1, k).1 + 1;
        let (a, c) = lemma_bres_progress(x0, y0, x1, y1, k);
        lemma_walk_between(x0, x1, sign_step(x0, x1), a, dx);
        lemma_walk_between(y0, y1, sign_step(y0, y1), c, dy);
    }
}

/// Canvas pixels keep `i32` room for a pen extent.
fn sat_add(a: i64, b: i64) -> (s: i32)
    requires
        i32::MIN <= a <= i32::MAX,
        i32::MIN <= b <= i32::MAX,
    ensures
        s == (if a + b > i32::MAX { i32::MAX as int } else if a + b < i32::MIN { i32::MIN as int } else { a + b }),
{
    let v = a + b;
    if v > i32::MAX as i64 {
        i32::MAX
    } else if v < i32::MIN as i64 {
        i32::MIN
    } else {
        v as i32
    }
}

/// Bresenham line from `(x0, y0)` to `(x1, y1)`, both ends included,
/// with a `pen_h x pen_v` pen (at least 1x1) stamped at each step.
#[verifier::rlimit(60)]
pub fn line_thick(canvas: &mut Canvas, x0: i32, y0: i32, x1: i32, y1: i32, pen_h: i32, pen_v: i32, c: Rgba)
    requires
        old(canvas).wf(),
    ensures
        drawn(
            *old(canvas),
            *final(canvas),
            |x: int, y: int|
                line_has(
                    x0 as int,
                    y0 as int,
                    x1 as int,
                    y1 as int,
                    max_int(pen_h as int, 1),
                    max_int(pen_v as int, 1),
                    x,
                    y,
                ),
            c,
        ),
{
    let ph: i64 = if pen_h < 1 { 1 } else { pen_h as i64 };
    let pv: i64 = if pen_v < 1 { 1 } else { pen_v as i64 };
    let ghost gx0 = x0 as int;
    let ghost gy0 = y0 as int;
    let ghost gx1 = x1 as int;
    let ghost gy1 = y1 as int;
    let dx: i128 = if x1 >= x0 { x1 as i128 - x0 as i128 } else { x0 as i128 - x1 as i128 };
    let dy_abs: i128 = if y1 >= y0 { y1 as i128 - y0 as i128 } else { y0 as i128 - y1 as i128 };
    let sx: i64 = if x0 < x1 { 1 } else { -1 };
    let sy: i64 = if y0 < y1 { 1 } else { -1 };
    let mut x: i64 = x0 as i64;
    let mut y: i64 = y0 as i64;
    let mut err: i128 = dx - dy_abs;
    let ghost mut k: int = 0;
    let ghost mut i: int = 0;
    let ghost mut j: int = 0;
    let ghost orig = *canvas;
    assert(err == dx * (1 + j) - dy_abs * (1 + i)) by (nonlinear_arith)
        requires err == dx - dy_abs, i == 0, j == 0;
    loop
        invariant_except_break
            forall|xx: int, yy: int| orig.inside(xx, yy) ==> #[trigger] canvas.px(xx, yy) == (if orig.clip_ok(xx, yy)
                && pen_covers(gx0, gy0, gx1, gy1, ph as int, pv as int, k, xx, yy) {
                c
            } else {
                orig.px(xx, yy)
            }),
            canvas.dirty == (orig.dirty || exists|xx: int, yy: int| orig.clip_ok(xx, yy)
                && #[trigger] pen_covers(gx0, gy0, gx1, gy1, ph as int, pv as int, k, xx, yy)),
        invariant
            orig.wf(),
            orig.same_frame(canvas),
            gx0 == x0,
            gy0 == y0,
            gx1 == x1,
            gy1 == y1,
            1 <= ph <= i32::MAX,
            1 <= pv <= i32::MAX,
            ph == max_int(pen_h as int, 1),
            pv == max_int(pen_v as int, 1),
            dx == abs_int(gx1 - gx0),
            dy_abs == abs_int(gy1 - gy0),
            sx == sign_step(gx0, gx1),
            sy == sign_step(gy0, gy1),
            0 <= i <= dx,
            0 <= j <= dy_abs,
            x == gx0 + sx * i,
            y == gy0 + sy * j,
            err == dx * (1 + j) - dy_abs * (1 + i),
            0 <= k <= i + j,
            bres_state(gx0, gy0, gx1, gy1, k) == (x as int, y as int, err as int),
        ensures
            orig.same_frame(canvas),
            forall|xx: int, yy: int| orig.inside(xx, yy) ==> #[trigger] canvas.px(xx, yy) == (if orig.clip_ok(xx, yy)
                && line_has(gx0, gy0, gx1, gy1, ph as int, pv as int, xx, yy) {
                c
            } else {
                orig.px(xx, yy)
            }),
            canvas.dirty == (orig.dirty || exists|xx: int, yy: int| orig.clip_ok(xx, yy)
                && #[trigger] line_has(gx0, gy0, gx1, gy1, ph as int, pv as int, xx, yy)),
        decreases (dx - i) + (dy_abs - j),
    {
        assert(bres_state(gx0, gy0, gx1, gy1, k).0 == x);
        proof {
            lemma_walk_between(gx0, gx1, sx as int, i, dx as int);
            lemma_walk_between(gy0, gy1, sy as int, j, dy_abs as int);
        }
        let ghost before = *canvas;
        let right = sat_add(x, ph);
        let bottom = sat_add(y, pv);
        let stamp = Shape::Fill(Figure::Rect { top: y as i32, left: x as i32, bottom, right });
        canvas.paint(&stamp, &Ink::Solid(c));
        proof {
            assert forall|xx: int, yy: int| orig.inside(xx, yy) implies
                (shape_has(stamp, xx, yy) <==> (x <= xx < x + ph && y <= yy < y + pv)) by {}
            assert forall|xx: int, yy: int|
                #![trigger pen_covers(gx0, gy0, gx1, gy1, ph as int, pv as int, k + 1, xx, yy)]
                pen_covers(gx0, gy0, gx1, gy1, ph as int, pv as int, k + 1, xx, yy) == (pen_covers(
                    gx0,
                    gy0,
                    gx1,
                    gy1,
                    ph as int,
                    pv as int,
                    k,
                    xx,
                    yy,
                ) || (x <= xx < x + ph && y <= yy < y + pv)) by {
                if x <= xx < x + ph && y <= yy < y + pv {
                    assert(bres_state(gx0, gy0, gx1, gy1, k).0 <= xx);
                }
                if pen_covers(gx0, gy0, gx1, gy1, ph as int, pv as int, k + 1, xx, yy) && !(x <= xx < x + ph
                    && y <= yy < y + pv) {
                    let kk = choose|kk: int|
                        0 <= kk < k + 1 && #[trigger] bres_state(gx0, gy0, gx1, gy1, kk).0 <= xx < bres_state(
                            gx0,
                            gy0,
                            gx1,
                            gy1,
                            kk,
                        ).0 + ph && bres_state(gx0, gy0, gx1, gy1, kk).1 <= yy < bres_state(
                            gx0,
                            gy0,
                            gx1,
                            gy1,
                            kk,
                        ).1 + pv;
                    assert(kk != k);
                }
            }
            if canvas.dirty && !before.dirty {
                let (wx, wy) = choose|wx: int, wy: int| before.inside(wx, wy) && #[trigger] hit(
                    before,
                    stamp,
                    Ink::Solid(c),
                    wx,
                    wy,
                );
                assert(pen_covers(gx0, gy0, gx1, gy1, ph as int, pv as int, k + 1, wx, wy));
            }
            if !canvas.dirty {
                assert forall|xx: int, yy: int| orig.clip_ok(xx, yy) implies !#[trigger] pen_covers(
                    gx0,
                    gy0,
                    gx1,
                    gy1,
                    ph as int,
                    pv as int,
                    k + 1,
                    xx,
                    yy,
                ) by {
                    assert(!hit(before, stamp, Ink::Solid(c), xx, yy));
                }
            }
            if before.dirty && !orig.dirty {
                let (wx, wy) = choose|wx: int, wy: int| orig.clip_ok(wx, wy) && #[trigger] pen_covers(
                    gx0,
                    gy0,
                    gx1,
                    gy1,
                    ph as int,
                    pv as int,
                    k,
                    wx,
                    wy,
                );
                assert(pen_covers(gx0, gy0, gx1, gy1, ph as int, pv as int, k + 1, wx, wy));
            }
        }
        if x == x1 as i64 && y == y1 as i64 {
            proof {
                let n = dx + dy_abs + 1;
                assert(bres_state(gx0, gy0, gx1, gy1, k).0 == gx1);
                assert(bres_state(gx0, gy0, gx1, gy1, k).1 == gy1);
                assert forall|m: int| k < m < n implies #[trigger] bres_state(gx0, gy0, gx1, gy1, m)
                    == bres_state(gx0, gy0, gx1, gy1, k) by {
                    lemma_bres_stuck(gx0, gy0, gx1, gy1, k, m);
                }
                assert forall|xx: int, yy: int|
                    #![trigger line_has(gx0, gy0, gx1, gy1, ph as int, pv as int, xx, yy)]
                    line_has(gx0, gy0, gx1, gy1, ph as int, pv as int, xx, yy) == pen_covers(gx0, gy0, gx1, gy1, ph as int, pv as int, k + 1, xx, yy) by {
                    if line_has(gx0, gy0, gx1, gy1, ph as int, pv as int, xx, yy) {
                        let kk = choose|kk: int|
                            0 <= kk < n && #[trigger] bres_state(gx0, gy0, gx1, gy1, kk).0 <= xx < bres_state(
                                gx0,
                                gy0,
                                gx1,
                                gy1,
                                kk,
                            ).0 + ph && bres_state(gx0, gy0, gx1, gy1, kk).1 <= yy < bres_state(
                                gx0,
                                gy0,
                                gx1,
                                gy1,
                                kk,
                            ).1 + pv;
                        if kk > k {
                            assert(bres_state(gx0, gy0, gx1, gy1, kk) == bres_state(gx0, gy0, gx1, gy1, k));
                        }
                    }
                }
                if canvas.dirty && !orig.dirty {
                    let (wx, wy) = choose|wx: int, wy: int| orig.clip_ok(wx, wy) && #[trigger] pen_covers(
                        gx0,
                        gy0,
                        gx1,
                        gy1,
                        ph as int,
                        pv as int,
                        k + 1,
                        wx,
                        wy,
                    );
                    assert(line_has(gx0, gy0, gx1, gy1, ph as int, pv as int, wx, wy));
                }
            }
            break;
        }
        proof {
            assert(0 <= dx * (1 + j) <= 0x1_0000_0000 * 0x1_0000_0001) by (nonlinear_arith)
                requires 0 <= dx <= 0x1_0000_0000, 0 <= j <= 0x1_0000_0000;
            assert(0 <= dy_abs * (1 + i) <= 0x1_0000_0000 * 0x1_0000_0001) by (nonlinear_arith)
                requires 0 <= dy_abs <= 0x1_0000_0000, 0 <= i <= 0x1_0000_0000;
        }
        let e2: i128 = 2 * err;
        proof {
            assert(dx * (1 + j) - dy_abs * (1 + i) == err);
            if i == dx {
                assert(j < dy_abs);
                assert(2 * err < -dy_abs) by (nonlinear_arith)
                    requires
                        err == dx * (1 + j) - dy_abs * (1 + dx),
                        0 <= j < dy_abs,
                        0 <= dx,
                ;
            }
            if j == dy_abs {
                assert(i < dx);
                assert(2 * err > dx) by (nonlinear_arith)
                    requires
                        err == dx * (1 + dy_abs) - dy_abs * (1 + i),
                        0 <= i < dx,
                        0 <= dy_abs,
                ;
            }
        }
        let xstep = e2 >= -dy_abs;
        if xstep {
            err = err - dy_abs;
            x = x + sx;
        }
        let ystep = e2 <= dx;
        if ystep {
            err = err + dx;
            y = y + sy;
        }
        proof {
            if xstep {
                i = i + 1;
            }
            if ystep {
                j = j + 1;
            }
            k = k + 1;
            assert(x == gx0 + sx * i) by (nonlinear_arith)
                requires
                    xstep ==> x == gx0 + sx * (i - 1) + sx,
                    !xstep ==> x == gx0 + sx * i,
            ;
            assert(y == gy0 + sy * j) by (nonlinear_arith)
                requires
                    ystep ==> y == gy0 + sy * (j - 1) + sy,
                    !ystep ==> y == gy0 + sy * j,
            ;
            assert(err == dx * (1 + j) - dy_abs * (1 + i)) by (nonlinear_arith)
                requires
                    xstep && ystep ==> err == dx * (1 + (j - 1)) - dy_abs * (1 + (i - 1)) - dy_abs + dx,
                    xstep && !ystep ==> err == dx * (1 + j) - dy_abs * (1 + (i - 1)) - dy_abs,
                    !xstep && ystep ==> err == dx * (1 + (j - 1)) - dy_abs * (1 + i) + dx,
                    !xstep && !ystep ==> err == dx * (1 + j) - dy_abs * (1 + i),
            ;
        }
    }
    proof {
        let cov = |xx: int, yy: int|
            line_has(
                x0 as int,
                y0 as int,
                x1 as int,
                y1 as int,
                max_int(pen_h as int, 1),
                max_int(pen_v as int, 1),
                xx,
                yy,
            );
        assert forall|xx: int, yy: int| #[trigger] cov(xx, yy) == line_has(gx0, gy0, gx1, gy1, ph as int, pv as int, xx, yy) by {}
        if canvas.dirty && !orig.dirty {
            let (wx, wy) = choose|wx: int, wy: int| orig.clip_ok(wx, wy)
                && #[trigger] line_has(gx0, gy0, gx1, gy1, ph as int, pv as int, wx, wy);
            assert(cov(wx, wy));
        }
        assert(drawn(orig, *canvas, cov, c));
    }
}

/// One-pixel Bresenham line from `(x0, y0)` to `(x1, y1)`, both ends
/// included.
pub fn line(canvas: &mut Canvas, x0: i32, y0: i32, x1: i32, y1: i32, c: Rgba)
    requires
        old(canvas).wf(),
    ensures
        drawn(
            *old(canvas),
            *final(canvas),
            |x: int, y: int| line_has(x0 as int, y0 as int, x1 as int, y1 as int, 1, 1, x, y),
            c,
        ),
{
    line_thick(canvas, x0, y0, x1, y1, 1, 1, c);
}


/// `v + 1`, except that `i32::MAX` (never a canvas coordinate) stays.
pub open spec fn next_coord(v: i32) -> i32 {
    if v == i32::MAX { v } else { (v + 1) as i32 }
}

fn next_coord_exec(v: i32) -> (n: i32)
    ensures
        n == next_coord(v),
{
    if v == i32::MAX { v } else { v + 1 }
}

/// The single pixel `(x, y)`.
pub open spec fn cell_shape<'a>(x: i32, y: i32) -> Shape<'a> {
    Shape::Fill(Figure::Rect { top: y, left: x, bottom: next_coord(y), right: next_coord(x) })
}

/// The pen extent QuickDraw uses: at least one pixel.
pub open spec fn pen_extent(v: i32) -> i32 {
    if v < 1 { 1 } else { v }
}

fn pen_extent_exec(v: i32) -> (p: i32)
    ensures
        p == pen_extent(v),
{
    if v < 1 { 1 } else { v }
}

impl Canvas {
    /// Write `c` at `(x, y)` if it is on the canvas and inside the clip.
    pub fn put(&mut self, x: i32, y: i32, c: Rgba)
        requires
            old(self).wf(),
        ensures
            painted(*old(self), *final(self), cell_shape(x, y), Ink::Solid(c)),
    {
        let s = Shape::Fill(Figure::Rect { top: y, left: x, bottom: next_coord_exec(y), right: next_coord_exec(x) });
        self.paint(&s, &Ink::Solid(c));
    }

    /// Fill the span `[x0, x1)` of row `y` with `c`.
    pub fn span(&mut self, y: i32, x0: i32, x1: i32, c: Rgba)
        requires
            old(self).wf(),
        ensures
            painted(
                *old(self),
                *final(self),
                Shape::Fill(Figure::Rect { top: y, left: x0, bottom: next_coord(y), right: x1 }),
                Ink::Solid(c),
            ),
    {
        let s = Shape::Fill(Figure::Rect { top: y, left: x0, bottom: next_coord_exec(y), right: x1 });
        self.paint(&s, &Ink::Solid(c));
    }

    /// Invert the RGB channels of the span `[x0, x1)` of row `y`.
    pub fn invert_span(&mut self, y: i32, x0: i32, x1: i32)
        requires
            old(self).wf(),
        ensures
            painted(
                *old(self),
                *final(self),
                Shape::Fill(Figure::Rect { top: y, left: x0, bottom: next_coord(y), right: x1 }),
                Ink::Invert,
            ),
    {
        let s = Shape::Fill(Figure::Rect { top: y, left: x0, bottom: next_coord_exec(y), right: x1 });
        self.paint(&s, &Ink::Invert);
    }

    /// Composite a `src_w x src_h` RGBA raster through `mode` onto the
    /// destination rectangle, scaling nearest-neighbour; nothing
    /// happens when the source or the destination is empty, and the
    /// canvas is marked dirty otherwise.
    pub fn blit_mode(
        &mut self,
        src_rgba: &[u8],
        src_w: u32,
        src_h: u32,
        dst_top: i32,
        dst_left: i32,
        dst_bot: i32,
        dst_right: i32,
        mode: SourceMode,
        fg: Rgba,
        bg: Rgba,
    )
        requires
            old(self).wf(),
            src_rgba@.len() >= src_w * src_h * 4,
        ensures
            if src_w == 0 || src_h == 0 || dst_right <= dst_left || dst_bot <= dst_top {
                *final(self) == *old(self)
            } else {
                &&& old(self).same_frame(&*final(self))
                &&& final(self).dirty
                &&& forall|x: int, y: int| #[trigger] old(self).inside(x, y) ==> final(self).px(x, y) == (
                if old(self).clip_ok(x, y) && rect_has(dst_top as int, dst_left as int, dst_bot as int, dst_right as int, x, y) {
                    blend_source_spec(
                        mode,
                        raster_sample(src_rgba@, src_w as int, src_h as int, dst_right - dst_left, dst_bot - dst_top, x - dst_left, y - dst_top),
                        old(self).px(x, y),
                        fg,
                        bg,
                    )
                } else {
                    old(self).px(x, y)
                })
            },
    {
        if src_w == 0 || src_h == 0 {
            return;
        }
        if dst_right <= dst_left || dst_bot <= dst_top {
            return;
        }
        let dst_w = (dst_right as i64 - dst_left as i64) as u32;
        let dst_h = (dst_bot as i64 - dst_top as i64) as u32;
        let shape = Shape::Fill(Figure::Rect { top: dst_top, left: dst_left, bottom: dst_bot, right: dst_right });
        let ink = Ink::Raster { src: src_rgba, src_w, src_h, top: dst_top, left: dst_left, dst_w, dst_h, mode, fg, bg };
        self.dirty = true;
        let ghost marked = *self;
        self.paint(&shape, &ink);
        proof {
            assert forall|x: int, y: int| #[trigger] old(self).inside(x, y) implies self.px(x, y) == (
                if old(self).clip_ok(x, y) && rect_has(dst_top as int, dst_left as int, dst_bot as int, dst_right as int, x, y) {
                    blend_source_spec(
                        mode,
                        raster_sample(src_rgba@, src_w as int, src_h as int, dst_right - dst_left, dst_bot - dst_top, x - dst_left, y - dst_top),
                        old(self).px(x, y),
                        fg,
                        bg,
                    )
                } else {
                    old(self).px(x, y)
                }) by {
                assert(marked.px(x, y) == old(self).px(x, y));
                assert(self.px(x, y) == painted_px(marked, shape, ink, x, y));
            }
        }
    }

    /// Composite a `src_w x src_h` RGBA raster onto the destination
    /// rectangle, scaling nearest-neighbour: each covered pixel takes
    /// its source sample; nothing happens when the source or the
    /// destination is empty, and the canvas is marked dirty otherwise.
    pub fn blit(
        &mut self,
        src_rgba: &[u8],
        src_w: u32,
        src_h: u32,
        dst_top: i32,
        dst_left: i32,
        dst_bot: i32,
        dst_right: i32,
    )
        requires
            old(self).wf(),
            src_rgba@.len() >= src_w * src_h * 4,
        ensures
            if src_w == 0 || src_h == 0 || dst_right <= dst_left || dst_bot <= dst_top {
                *final(self) == *old(self)
            } else {
                &&& old(self).same_frame(&*final(self))
                &&& final(self).dirty
                &&& forall|x: int, y: int| #[trigger] old(self).inside(x, y) ==> final(self).px(x, y) == (
                if old(self).clip_ok(x, y) && rect_has(dst_top as int, dst_left as int, dst_bot as int, dst_right as int, x, y) {
                    raster_sample(src_rgba@, src_w as int, src_h as int, dst_right - dst_left, dst_bot - dst_top, x - dst_left, y - dst_top)
                } else {
                    old(self).px(x, y)
                })
            },
    {
        self.blit_mode(src_rgba, src_w, src_h, dst_top, dst_left, dst_bot, dst_right, SourceMode::SrcCopy, Rgba::black(), Rgba::white());
        proof {
            assert forall|s: Rgba, d: Rgba| #[trigger] blend_source_spec(SourceMode::SrcCopy, s, d, black_spec(), white_spec()) == s by {
                lemma_copy_channel(s.r);
                lemma_copy_channel(s.g);
                lemma_copy_channel(s.b);
            }
        }
    }
}

proof fn lemma_copy_channel(s: u8)
    ensures
        mix_spec(weight_spec(s, true), 0, 255) == s,
{
    assert(((255 - s) * 0 + (255 - (255 - s)) * 255 + 127) / 255 == s as int) by (nonlinear_arith);
}

/// Outline a rectangle with a one-pixel pen.
pub fn frame_rect(canvas: &mut Canvas, top: i32, left: i32, bottom: i32, right: i32, c: Rgba)
    requires
        old(canvas).wf(),
    ensures
        painted(*old(canvas), *final(canvas), Shape::Frame { fig: Figure::Rect { top, left, bottom, right }, pen_h: 1, pen_v: 1 }, Ink::Solid(c)),
{
    canvas.paint(&Shape::Frame { fig: Figure::Rect { top, left, bottom, right }, pen_h: 1, pen_v: 1 }, &Ink::Solid(c));
}

/// Fill a rectangle (right and bottom exclusive).
pub fn fill_rect(canvas: &mut Canvas, top: i32, left: i32, bottom: i32, right: i32, c: Rgba)
    requires
        old(canvas).wf(),
    ensures
        painted(*old(canvas), *final(canvas), Shape::Fill(Figure::Rect { top, left, bottom, right }), Ink::Solid(c)),
{
    canvas.paint(&Shape::Fill(Figure::Rect { top, left, bottom, right }), &Ink::Solid(c));
}

/// Outline the oval inscribed in the rectangle.
pub fn frame_oval(canvas: &mut Canvas, top: i32, left: i32, bottom: i32, right: i32, c: Rgba)
    requires
        old(canvas).wf(),
    ensures
        painted(*old(canvas), *final(canvas), Shape::Frame { fig: Figure::Oval { top, left, bottom, right }, pen_h: 1, pen_v: 1 }, Ink::Solid(c)),
{
    canvas.paint(&Shape::Frame { fig: Figure::Oval { top, left, bottom, right }, pen_h: 1, pen_v: 1 }, &Ink::Solid(c));
}

/// Fill the oval inscribed in the rectangle.
pub fn fill_oval(canvas: &mut Canvas, top: i32, left: i32, bottom: i32, right: i32, c: Rgba)
    requires
        old(canvas).wf(),
    ensures
        painted(*old(canvas), *final(canvas), Shape::Fill(Figure::Oval { top, left, bottom, right }), Ink::Solid(c)),
{
    canvas.paint(&Shape::Fill(Figure::Oval { top, left, bottom, right }), &Ink::Solid(c));
}

/// Outline a rounded rectangle.
pub fn frame_round_rect(canvas: &mut Canvas, top: i32, left: i32, bottom: i32, right: i32, oval_w: i32, oval_h: i32, c: Rgba)
    requires
        old(canvas).wf(),
    ensures
        painted(*old(canvas), *final(canvas), Shape::Frame { fig: Figure::RoundRect { top, left, bottom, right, oval_w, oval_h }, pen_h: 1, pen_v: 1 }, Ink::Solid(c)),
{
    canvas.paint(&Shape::Frame { fig: Figure::RoundRect { top, left, bottom, right, oval_w, oval_h }, pen_h: 1, pen_v: 1 }, &Ink::Solid(c));
}

/// Fill a rounded rectangle.
pub fn fill_round_rect(canvas: &mut Canvas, top: i32, left: i32, bottom: i32, right: i32, oval_w: i32, oval_h: i32, c: Rgba)
    requires
        old(canvas).wf(),
    ensures
        painted(*old(canvas), *final(canvas), Shape::Fill(Figure::RoundRect { top, left, bottom, right, oval_w, oval_h }), Ink::Solid(c)),
{
    canvas.paint(&Shape::Fill(Figure::RoundRect { top, left, bottom, right, oval_w, oval_h }), &Ink::Solid(c));
}

/// Fill a closed polygon (even-odd) of at least three vertices.
pub fn fill_polygon(canvas: &mut Canvas, vertices: &[(i32, i32)], c: Rgba)
    requires
        old(canvas).wf(),
    ensures
        painted(*old(canvas), *final(canvas), Shape::Polygon(vertices), Ink::Solid(c)),
{
    canvas.paint(&Shape::Polygon(vertices), &Ink::Solid(c));
}

/// Outline the arc of the rectangle's oval swept by `arc_deg` degrees from `start_deg` (clockwise from 12 o'clock).
pub fn frame_arc(canvas: &mut Canvas, top: i32, left: i32, bottom: i32, right: i32, start_deg: i32, arc_deg: i32, c: Rgba)
    requires
        old(canvas).wf(),
    ensures
        painted(*old(canvas), *final(canvas), Shape::Frame { fig: Figure::Wedge { top, left, bottom, right, start: start_deg, arc: arc_deg }, pen_h: 1, pen_v: 1 }, Ink::Solid(c)),
{
    canvas.paint(&Shape::Frame { fig: Figure::Wedge { top, left, bottom, right, start: start_deg, arc: arc_deg }, pen_h: 1, pen_v: 1 }, &Ink::Solid(c));
}

/// Fill the wedge of the rectangle's oval swept by `arc_deg` degrees from `start_deg`.
pub fn fill_arc(canvas: &mut Canvas, top: i32, left: i32, bottom: i32, right: i32, start_deg: i32, arc_deg: i32, c: Rgba)
    requires
        old(canvas).wf(),
    ensures
        painted(*old(canvas), *final(canvas), Shape::Fill(Figure::Wedge { top, left, bottom, right, start: start_deg, arc: arc_deg }), Ink::Solid(c)),
{
    canvas.paint(&Shape::Fill(Figure::Wedge { top, left, bottom, right, start: start_deg, arc: arc_deg }), &Ink::Solid(c));
}

/// Outline a rectangle with a `pen_h x pen_v` pen drawn inside it.
pub fn frame_rect_thick(canvas: &mut Canvas, top: i32, left: i32, bottom: i32, right: i32, pen_h: i32, pen_v: i32, c: Rgba)
    requires
        old(canvas).wf(),
    ensures
        painted(*old(canvas), *final(canvas), Shape::Frame { fig: Figure::Rect { top, left, bottom, right }, pen_h: pen_extent(pen_h), pen_v: pen_extent(pen_v) }, Ink::Solid(c)),
{
    canvas.paint(&Shape::Frame { fig: Figure::Rect { top, left, bottom, right }, pen_h: pen_extent_exec(pen_h), pen_v: pen_extent_exec(pen_v) }, &Ink::Solid(c));
}

/// Outline an oval with a `pen_h x pen_v` pen drawn inside it.
pub fn frame_oval_thick(canvas: &mut Canvas, top: i32, left: i32, bottom: i32, right: i32, pen_h: i32, pen_v: i32, c: Rgba)
    requires
        old(canvas).wf(),
    ensures
        painted(*old(canvas), *final(canvas), Shape::Frame { fig: Figure::Oval { top, left, bottom, right }, pen_h: pen_extent(pen_h), pen_v: pen_extent(pen_v) }, Ink::Solid(c)),
{
    canvas.paint(&Shape::Frame { fig: Figure::Oval { top, left, bottom, right }, pen_h: pen_extent_exec(pen_h), pen_v: pen_extent_exec(pen_v) }, &Ink::Solid(c));
}

/// Plot one pattern cell at `(x, y)` under a pattern mode.
pub fn plot_region_cell_mode(canvas: &mut Canvas, x: i32, y: i32, pat: Pattern, fg: Rgba, bg: Rgba, mode: PatternMode)
    requires
        old(canvas).wf(),
    ensures
        painted(*old(canvas), *final(canvas), cell_shape(x, y), Ink::Pattern { pat, fg, bg, mode }),
{
    canvas.paint(&Shape::Fill(Figure::Rect { top: y, left: x, bottom: next_coord_exec(y), right: next_coord_exec(x) }), &Ink::Pattern { pat, fg, bg, mode });
}

/// Fill a rectangle with a pattern (fg on 1 bits, bg on 0 bits).
pub fn fill_rect_pattern(canvas: &mut Canvas, top: i32, left: i32, bottom: i32, right: i32, pat: Pattern, fg: Rgba, bg: Rgba)
    requires
        old(canvas).wf(),
    ensures
        painted(*old(canvas), *final(canvas), Shape::Fill(Figure::Rect { top, left, bottom, right }), Ink::Pattern { pat, fg, bg, mode: PatternMode::PatCopy }),
{
    canvas.paint(&Shape::Fill(Figure::Rect { top, left, bottom, right }), &Ink::Pattern { pat, fg, bg, mode: PatternMode::PatCopy });
}

/// Fill an oval with a pattern.
pub fn fill_oval_pattern(canvas: &mut Canvas, top: i32, left: i32, bottom: i32, right: i32, pat: Pattern, fg: Rgba, bg: Rgba)
    requires
        old(canvas).wf(),
    ensures
        painted(*old(canvas), *final(canvas), Shape::Fill(Figure::Oval { top, left, bottom, right }), Ink::Pattern { pat, fg, bg, mode: PatternMode::PatCopy }),
{
    canvas.paint(&Shape::Fill(Figure::Oval { top, left, bottom, right }), &Ink::Pattern { pat, fg, bg, mode: PatternMode::PatCopy });
}

/// Fill a rounded rectangle with a pattern.
pub fn fill_round_rect_pattern(canvas: &mut Canvas, top: i32, left: i32, bottom: i32, right: i32, oval_w: i32, oval_h: i32, pat: Pattern, fg: Rgba, bg: Rgba)
    requires
        old(canvas).wf(),
    ensures
        painted(*old(canvas), *final(canvas), Shape::Fill(Figure::RoundRect { top, left, bottom, right, oval_w, oval_h }), Ink::Pattern { pat, fg, bg, mode: PatternMode::PatCopy }),
{
    canvas.paint(&Shape::Fill(Figure::RoundRect { top, left, bottom, right, oval_w, oval_h }), &Ink::Pattern { pat, fg, bg, mode: PatternMode::PatCopy });
}

/// Fill a polygon with a pattern.
pub fn fill_polygon_pattern(canvas: &mut Canvas, vertices: &[(i32, i32)], pat: Pattern, fg: Rgba, bg: Rgba)
    requires
        old(canvas).wf(),
    ensures
        painted(*old(canvas), *final(canvas), Shape::Polygon(vertices), Ink::Pattern { pat, fg, bg, mode: PatternMode::PatCopy }),
{
    canvas.paint(&Shape::Polygon(vertices), &Ink::Pattern { pat, fg, bg, mode: PatternMode::PatCopy });
}

/// Outline a rectangle with a `pen_h x pen_v` patterned pen.
pub fn frame_rect_pattern_thick(canvas: &mut Canvas, top: i32, left: i32, bottom: i32, right: i32, pen_h: i32, pen_v: i32, pat: Pattern, fg: Rgba, bg: Rgba)
    requires
        old(canvas).wf(),
    ensures
        painted(*old(canvas), *final(canvas), Shape::Frame { fig: Figure::Rect { top, left, bottom, right }, pen_h: pen_extent(pen_h), pen_v: pen_extent(pen_v) }, Ink::Pattern { pat, fg, bg, mode: PatternMode::PatCopy }),
{
    canvas.paint(&Shape::Frame { fig: Figure::Rect { top, left, bottom, right }, pen_h: pen_extent_exec(pen_h), pen_v: pen_extent_exec(pen_v) }, &Ink::Pattern { pat, fg, bg, mode: PatternMode::PatCopy });
}

/// Fill a rectangle with a pattern under a pattern mode.
pub fn fill_rect_pattern_mode(canvas: &mut Canvas, top: i32, left: i32, bottom: i32, right: i32, pat: Pattern, fg: Rgba, bg: Rgba, mode: PatternMode)
    requires
        old(canvas).wf(),
    ensures
        painted(*old(canvas), *final(canvas), Shape::Fill(Figure::Rect { top, left, bottom, right }), Ink::Pattern { pat, fg, bg, mode }),
{
    canvas.paint(&Shape::Fill(Figure::Rect { top, left, bottom, right }), &Ink::Pattern { pat, fg, bg, mode });
}

/// Fill an oval with a pattern under a pattern mode.
pub fn fill_oval_pattern_mode(canvas: &mut Canvas, top: i32, left: i32, bottom: i32, right: i32, pat: Pattern, fg: Rgba, bg: Rgba, mode: PatternMode)
    requires
        old(canvas).wf(),
    ensures
        painted(*old(canvas), *final(canvas), Shape::Fill(Figure::Oval { top, left, bottom, right }), Ink::Pattern { pat, fg, bg, mode }),
{
    canvas.paint(&Shape::Fill(Figure::Oval { top, left, bottom, right }), &Ink::Pattern { pat, fg, bg, mode });
}

/// Fill a rounded rectangle with a pattern under a pattern mode.
pub fn fill_round_rect_pattern_mode(canvas: &mut Canvas, top: i32, left: i32, bottom: i32, right: i32, oval_w: i32, oval_h: i32, pat: Pattern, fg: Rgba, bg: Rgba, mode: PatternMode)
    requires
        old(canvas).wf(),
    ensures
        painted(*old(canvas), *final(canvas), Shape::Fill(Figure::RoundRect { top, left, bottom, right, oval_w, oval_h }), Ink::Pattern { pat, fg, bg, mode }),
{
    canvas.paint(&Shape::Fill(Figure::RoundRect { top, left, bottom, right, oval_w, oval_h }), &Ink::Pattern { pat, fg, bg, mode });
}

/// Fill a polygon with a pattern under a pattern mode.
pub fn fill_polygon_pattern_mode(canvas: &mut Canvas, vertices: &[(i32, i32)], pat: Pattern, fg: Rgba, bg: Rgba, mode: PatternMode)
    requires
        old(canvas).wf(),
    ensures
        painted(*old(canvas), *final(canvas), Shape::Polygon(vertices), Ink::Pattern { pat, fg, bg, mode }),
{
    canvas.paint(&Shape::Polygon(vertices), &Ink::Pattern { pat, fg, bg, mode });
}

/// Outline a rectangle with a patterned pen under a pattern mode.
pub fn frame_rect_pattern_thick_mode(canvas: &mut Canvas, top: i32, left: i32, bottom: i32, right: i32, pen_h: i32, pen_v: i32, pat: Pattern, fg: Rgba, bg: Rgba, mode: PatternMode)
    requires
        old(canvas).wf(),
    ensures
        painted(*old(canvas), *final(canvas), Shape::Frame { fig: Figure::Rect { top, left, bottom, right }, pen_h: pen_extent(pen_h), pen_v: pen_extent(pen_v) }, Ink::Pattern { pat, fg, bg, mode }),
{
    canvas.paint(&Shape::Frame { fig: Figure::Rect { top, left, bottom, right }, pen_h: pen_extent_exec(pen_h), pen_v: pen_extent_exec(pen_v) }, &Ink::Pattern { pat, fg, bg, mode });
}

/// Fill a rectangle from a colour tile.
pub fn fill_rect_pix_pattern(canvas: &mut Canvas, top: i32, left: i32, bottom: i32, right: i32, pp: &PixPattern)
    requires
        old(canvas).wf(),
        pp.wf(),
    ensures
        painted(*old(canvas), *final(canvas), Shape::Fill(Figure::Rect { top, left, bottom, right }), Ink::Tile(pp)),
{
    canvas.paint(&Shape::Fill(Figure::Rect { top, left, bottom, right }), &Ink::Tile(pp));
}

/// Fill an oval from a colour tile.
pub fn fill_oval_pix_pattern(canvas: &mut Canvas, top: i32, left: i32, bottom: i32, right: i32, pp: &PixPattern)
    requires
        old(canvas).wf(),
        pp.wf(),
    ensures
        painted(*old(canvas), *final(canvas), Shape::Fill(Figure::Oval { top, left, bottom, right }), Ink::Tile(pp)),
{
    canvas.paint(&Shape::Fill(Figure::Oval { top, left, bottom, right }), &Ink::Tile(pp));
}

/// Fill a rounded rectangle from a colour tile.
pub fn fill_round_rect_pix_pattern(canvas: &mut Canvas, top: i32, left: i32, bottom: i32, right: i32, oval_w: i32, oval_h: i32, pp: &PixPattern)
    requires
        old(canvas).wf(),
        pp.wf(),
    ensures
        painted(*old(canvas), *final(canvas), Shape::Fill(Figure::RoundRect { top, left, bottom, right, oval_w, oval_h }), Ink::Tile(pp)),
{
    canvas.paint(&Shape::Fill(Figure::RoundRect { top, left, bottom, right, oval_w, oval_h }), &Ink::Tile(pp));
}

/// Fill a polygon from a colour tile.
pub fn fill_polygon_pix_pattern(canvas: &mut Canvas, vertices: &[(i32, i32)], pp: &PixPattern)
    requires
        old(canvas).wf(),
        pp.wf(),
    ensures
        painted(*old(canvas), *final(canvas), Shape::Polygon(vertices), Ink::Tile(pp)),
{
    canvas.paint(&Shape::Polygon(vertices), &Ink::Tile(pp));
}

/// Outline a rectangle with a `pen_h x pen_v` pen drawn from a colour tile.
pub fn frame_rect_pix_pattern_thick(canvas: &mut Canvas, top: i32, left: i32, bottom: i32, right: i32, pen_h: i32, pen_v: i32, pp: &PixPattern)
    requires
        old(canvas).wf(),
        pp.wf(),
    ensures
        painted(*old(canvas), *final(canvas), Shape::Frame { fig: Figure::Rect { top, left, bottom, right }, pen_h: pen_extent(pen_h), pen_v: pen_extent(pen_v) }, Ink::Tile(pp)),
{
    canvas.paint(&Shape::Frame { fig: Figure::Rect { top, left, bottom, right }, pen_h: pen_extent_exec(pen_h), pen_v: pen_extent_exec(pen_v) }, &Ink::Tile(pp));
}

/// Invert every pixel of an oval.
pub fn invert_oval(canvas: &mut Canvas, top: i32, left: i32, bottom: i32, right: i32)
    requires
        old(canvas).wf(),
    ensures
        painted(*old(canvas), *final(canvas), Shape::Fill(Figure::Oval { top, left, bottom, right }), Ink::Invert),
{
    canvas.paint(&Shape::Fill(Figure::Oval { top, left, bottom, right }), &Ink::Invert);
}

/// Invert every pixel of a rounded rectangle.
pub fn invert_round_rect(canvas: &mut Canvas, top: i32, left: i32, bottom: i32, right: i32, oval_w: i32, oval_h: i32)
    requires
        old(canvas).wf(),
    ensures
        painted(*old(canvas), *final(canvas), Shape::Fill(Figure::RoundRect { top, left, bottom, right, oval_w, oval_h }), Ink::Invert),
{
    canvas.paint(&Shape::Fill(Figure::RoundRect { top, left, bottom, right, oval_w, oval_h }), &Ink::Invert);
}

/// Invert every pixel of a polygon (even-odd).
pub fn invert_polygon(canvas: &mut Canvas, vertices: &[(i32, i32)])
    requires
        old(canvas).wf(),
    ensures
        painted(*old(canvas), *final(canvas), Shape::Polygon(vertices), Ink::Invert),
{
    canvas.paint(&Shape::Polygon(vertices), &Ink::Invert);
}

/// Invert every pixel of an arc wedge.
pub fn invert_arc(canvas: &mut Canvas, top: i32, left: i32, bottom: i32, right: i32, start_deg: i32, arc_deg: i32)
    requires
        old(canvas).wf(),
    ensures
        painted(*old(canvas), *final(canvas), Shape::Fill(Figure::Wedge { top, left, bottom, right, start: start_deg, arc: arc_deg }), Ink::Invert),
{
    canvas.paint(&Shape::Fill(Figure::Wedge { top, left, bottom, right, start: start_deg, arc: arc_deg }), &Ink::Invert);
}


/// Edge `j` of the closed polygon, drawn as a one-pixel line, covers
/// `(x, y)`.
pub open spec fn edge_line(pts: Seq<(i32, i32)>, j: int, x: int, y: int) -> bool {
    line_has(pts[j].0 as int, pts[j].1 as int, edge_end(pts, j).0 as int, edge_end(pts, j).1 as int, 1, 1, x, y)
}

/// One of the first `k` edges covers `(x, y)`.
pub open spec fn outline_upto(pts: Seq<(i32, i32)>, k: int, x: int, y: int) -> bool {
    exists|j: int| 0 <= j < k && #[trigger] edge_line(pts, j, x, y)
}

/// Drawing `p` then `q` in one colour draws their union.
pub proof fn lemma_drawn_compose(
    a: Canvas,
    b: Canvas,
    d: Canvas,
    p: spec_fn(int, int) -> bool,
    q: spec_fn(int, int) -> bool,
    c: Rgba,
)
    requires
        drawn(a, b, p, c),
        drawn(b, d, q, c),
    ensures
        drawn(a, d, |x: int, y: int| p(x, y) || q(x, y), c),
{
    let u = |x: int, y: int| p(x, y) || q(x, y);
    assert forall|x: int, y: int| a.inside(x, y) implies #[trigger] d.px(x, y) == (if a.clip_ok(x, y) && u(x, y) {
        c
    } else {
        a.px(x, y)
    }) by {
        assert(b.px(x, y) == (if a.clip_ok(x, y) && p(x, y) { c } else { a.px(x, y) }));
        assert(d.px(x, y) == (if b.clip_ok(x, y) && q(x, y) { c } else { b.px(x, y) }));
    }
    if d.dirty && !a.dirty {
        if b.dirty {
            let (wx, wy) = choose|wx: int, wy: int| a.clip_ok(wx, wy) && #[trigger] p(wx, wy);
            assert(u(wx, wy));
        } else {
            let (wx, wy) = choose|wx: int, wy: int| b.clip_ok(wx, wy) && #[trigger] q(wx, wy);
            assert(u(wx, wy));
        }
    }
    if !d.dirty {
        assert forall|x: int, y: int| a.clip_ok(x, y) implies !#[trigger] u(x, y) by {
            assert(!p(x, y));
            assert(!q(x, y));
        }
    }
}

/// Outline a polygon: one-pixel lines between consecutive vertices,
/// closed back to the first; fewer than two vertices draw nothing.
pub fn frame_polygon(canvas: &mut Canvas, vertices: &[(i32, i32)], c: Rgba)
    requires
        old(canvas).wf(),
    ensures
        drawn(
            *old(canvas),
            *final(canvas),
            |x: int, y: int| vertices@.len() >= 2 && outline_upto(vertices@, vertices@.len() as int, x, y),
            c,
        ),
{
    let ghost orig = *canvas;
    let n = vertices.len();
    if n < 2 {
        proof {
            assert(drawn(orig, *canvas, |x: int, y: int| vertices@.len() >= 2 && outline_upto(vertices@, vertices@.len() as int, x, y), c));
        }
        return;
    }
    let mut i: usize = 0;
    while i < n
        invariant
            n == vertices@.len(),
            n >= 2,
            i <= n,
            orig.wf(),
            canvas.wf(),
            drawn(orig, *canvas, |x: int, y: int| outline_upto(vertices@, i as int, x, y), c),
        decreases n - i,
    {
        let (x0, y0) = vertices[i];
        let (x1, y1) = if i + 1 < n { vertices[i + 1] } else { vertices[0] };
        let ghost before = *canvas;
        line(canvas, x0, y0, x1, y1, c);
        proof {
            let p = |x: int, y: int| outline_upto(vertices@, i as int, x, y);
            let q = |x: int, y: int| line_has(x0 as int, y0 as int, x1 as int, y1 as int, 1, 1, x, y);
            lemma_drawn_compose(orig, before, *canvas, p, q, c);
            let u = |x: int, y: int| p(x, y) || q(x, y);
            let nxt = |x: int, y: int| outline_upto(vertices@, i + 1, x, y);
            assert forall|x: int, y: int| #[trigger] u(x, y) == nxt(x, y) by {
                if q(x, y) {
                    assert(edge_line(vertices@, i as int, x, y));
                }
                if nxt(x, y) && !q(x, y) {
                    let j = choose|j: int| 0 <= j < i + 1 && #[trigger] edge_line(vertices@, j, x, y);
                    assert(j != i);
                }
            }
            assert(u =~= nxt);
        }
        i += 1;
    }
    proof {
        let f1 = |x: int, y: int| outline_upto(vertices@, n as int, x, y);
        let f2 = |x: int, y: int| vertices@.len() >= 2 && outline_upto(vertices@, vertices@.len() as int, x, y);
        assert(f1 =~= f2);
    }
}

/// Inverting a shape twice restores every pixel.
pub proof fn lemma_invert_twice_restores(c0: Canvas, c1: Canvas, c2: Canvas, s: Shape)
    requires
        painted(c0, c1, s, Ink::Invert),
        painted(c1, c2, s, Ink::Invert),
    ensures
        forall|x: int, y: int| c0.inside(x, y) ==> #[trigger] c2.px(x, y) == c0.px(x, y),
{
    assert forall|x: int, y: int| c0.inside(x, y) implies #[trigger] c2.px(x, y) == c0.px(x, y) by {
        assert(c1.px(x, y) == painted_px(c0, s, Ink::Invert, x, y));
        assert(c2.px(x, y) == painted_px(c1, s, Ink::Invert, x, y));
    }
}

/// `srcCopy` with a black foreground and a white background reproduces
/// the source pixel whatever the destination.
pub proof fn lemma_identity_copy_reproduces_source(src: Rgba, dst: Rgba)
    ensures
        blend_source_spec(SourceMode::SrcCopy, src, dst, black_spec(), white_spec()) == src,
{
    lemma_copy_channel(src.r);
    lemma_copy_channel(src.g);
    lemma_copy_channel(src.b);
}

/// An all-ones pattern under `patCopy` paints the foreground
/// everywhere, and an all-zeros one the background.
pub proof fn lemma_solid_pattern_collapses(pat: Pattern, fg: Rgba, bg: Rgba, x: int, y: int, d: Rgba)
    ensures
        crate::state::pattern_is_solid(pat, 0xFF) ==> pattern_ink(pat, fg, bg, PatternMode::PatCopy, x, y, d) == Some(fg),
        crate::state::pattern_is_solid(pat, 0) ==> pattern_ink(pat, fg, bg, PatternMode::PatCopy, x, y, d) == Some(bg),
{
    reveal_with_fuel(crate::state::pow2_spec, 8);
    let col = x % 8;
    assert(0 <= y % 8 < 8);
    assert(0 <= col < 8);
    let k = 7 - col;
    assert(crate::state::pow2_spec(k) == 1 || crate::state::pow2_spec(k) == 2 || crate::state::pow2_spec(k) == 4
        || crate::state::pow2_spec(k) == 8 || crate::state::pow2_spec(k) == 16 || crate::state::pow2_spec(k) == 32
        || crate::state::pow2_spec(k) == 64 || crate::state::pow2_spec(k) == 128);
    assert((255int / 1) % 2 == 1 && (255int / 2) % 2 == 1 && (255int / 4) % 2 == 1 && (255int / 8) % 2 == 1);
    assert((255int / 16) % 2 == 1 && (255int / 32) % 2 == 1 && (255int / 64) % 2 == 1 && (255int / 128) % 2 == 1);
}

} // verus!

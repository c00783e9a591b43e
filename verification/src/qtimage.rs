//! Decoding the image data of the QuickTime picture opcodes.
//!
//! The `cType` FourCC of the embedded image description names the
//! decompressor. The picture reader hands the description and the
//! image bytes to a [`QuickTimeImageDecoder`] and composites whatever
//! RGBA comes back. `'raw '` is decoded here; `'jpeg'` goes through the
//! `oxideav-mjpeg` decoder; any other compressor is reported as
//! unsupported, which does not fail the picture.
use vstd::prelude::*;
use crate::error::{error_text, PictError, Result};
use crate::quicktime::ImageDescription;
use crate::rows::{expand5, rgba_at, MAX_RASTER_BYTES};
use crate::state::{RectI32, Rgba};
use crate::wire::be_u16;

verus! {

/// Packed RGBA8 pixels produced by a [`QuickTimeImageDecoder`]:
/// row-major, `width x height`, no row padding.
#[derive(Debug, Clone, PartialEq, Eq)]
pub struct DecodedQuickTimeImage {
    /// Width in pixels.
    pub width: u32,
    /// Height in pixels.
    pub height: u32,
    /// `width * height * 4` bytes, R G B A per pixel.
    pub rgba: Vec<u8>,
}

impl DecodedQuickTimeImage {
    /// The buffer holds exactly `width * height` pixels, within the
    /// raster budget.
    pub open spec fn wf(&self) -> bool {
        &&& self.width * self.height * 4 <= MAX_RASTER_BYTES
        &&& self.rgba@.len() == self.width * self.height * 4
    }

    /// Wrap an RGBA buffer: it must be exactly `width * height * 4`
    /// bytes, and that within the raster budget; anything else is
    /// `InvalidData`.
    pub fn new(width: u32, height: u32, rgba: Vec<u8>) -> (res: Result<Self>)
        ensures
            res is Ok <==> (width * height * 4 <= MAX_RASTER_BYTES && rgba@.len() == width * height * 4),
            res matches Ok(img) ==> img.width == width && img.height == height && img.rgba@ == rgba@ && img.wf(),
            res matches Err(e) ==> e is InvalidData,
    {
        assert((width as u64) * (height as u64) <= 0xFFFF_FFFF * 0xFFFF_FFFF) by (nonlinear_arith)
            requires
                width <= 0xFFFF_FFFFu32,
                height <= 0xFFFF_FFFFu32,
        ;
        let pixels: u64 = width as u64 * height as u64;
        if pixels > (MAX_RASTER_BYTES / 4) as u64 {
            return Err(PictError::invalid("decoded QuickTime image exceeds the raster budget"));
        }
        let expected: usize = pixels as usize * 4;
        if rgba.len() != expected {
            return Err(PictError::invalid("decoded QuickTime image buffer does not match its dimensions"));
        }
        Ok(DecodedQuickTimeImage { width, height, rgba })
    }
}

/// Turns the image data of a QuickTime picture opcode into pixels.
///
/// An implementation receives the embedded image description (the
/// compressor FourCC, declared size, depth, colour-table id, extension
/// bytes) and the image bytes as stored, and returns packed RGBA.
/// `Unsupported` is the answer for a compressor it does not handle;
/// the picture reader records that and carries on.
pub trait QuickTimeImageDecoder {
    /// Decode one image (or matte) described by `description`.
    fn decode_image(&mut self, description: &ImageDescription, data: &[u8]) -> Result<DecodedQuickTimeImage>;
}

/// What became of a QuickTime picture opcode's pixels.
#[derive(Debug, Clone, PartialEq, Eq)]
pub enum QuickTimeRender {
    /// The image reached the canvas.
    Rendered {
        /// Destination bounding box in picture coordinates.
        dst: RectI32,
        /// Why a matte that came with the image was not applied, if so.
        matte_skipped: Option<String>,
        /// How many opcodes of the "decompressor needed" placeholder
        /// text that follows the image were skipped.
        placeholder_skipped: u32,
    },
    /// No decoder handles the compressor the description names.
    Unsupported {
        /// The `cType` FourCC that was not handled.
        codec: [u8; 4],
        /// Why.
        reason: String,
    },
    /// A decoder rejected the data, or the image could not be placed.
    Failed(String),
    /// Nothing was attempted: the payload did not match its layout.
    NotAttempted,
}

impl QuickTimeRender {
    /// `true` when pixels landed on the canvas.
    pub fn is_rendered(&self) -> (b: bool)
        ensures
            b == (self is Rendered),
    {
        match self {
            QuickTimeRender::Rendered { .. } => true,
            _ => false,
        }
    }
}

/// The render outcome a decoder error maps to: `Unsupported` keeps its
/// reason, any other error becomes `Failed` with the error's text.
pub fn render_outcome(codec: [u8; 4], err: PictError) -> (r: QuickTimeRender)
    ensures
        match err {
            PictError::Unsupported(reason) => r == (QuickTimeRender::Unsupported { codec, reason }),
            _ => r matches QuickTimeRender::Failed(m) && m@ == error_text(err),
        },
{
    match err {
        PictError::Unsupported(reason) => QuickTimeRender::Unsupported { codec, reason },
        other => {
            let m = other.message();
            QuickTimeRender::Failed(m)
        },
    }
}

/// The `'raw '` compressor FourCC.
pub fn raw_codec() -> (c: [u8; 4])
    ensures
        c@ == seq![0x72u8, 0x61u8, 0x77u8, 0x20u8],
{
    [0x72, 0x61, 0x77, 0x20]
}

/// The `'jpeg'` ("Photo - JPEG") compressor FourCC.
pub fn jpeg_codec() -> (c: [u8; 4])
    ensures
        c@ == seq![0x6Au8, 0x70u8, 0x65u8, 0x67u8],
{
    [0x6A, 0x70, 0x65, 0x67]
}

/// Whether a FourCC is `'raw '`.
pub open spec fn is_raw_codec(c: [u8; 4]) -> bool {
    c@ == seq![0x72u8, 0x61u8, 0x77u8, 0x20u8]
}

/// Whether a FourCC is `'jpeg'`.
pub open spec fn is_jpeg_codec(c: [u8; 4]) -> bool {
    c@ == seq![0x6Au8, 0x70u8, 0x65u8, 0x67u8]
}

fn same_codec(a: [u8; 4], b: [u8; 4]) -> (e: bool)
    ensures
        e == (a@ == b@),
{
    let e = a[0] == b[0] && a[1] == b[1] && a[2] == b[2] && a[3] == b[3];
    proof {
        if e {
            assert(a@ =~= b@);
        }
    }
    e
}

/// Bytes per stored pixel of the `'raw '` depths this decoder reads.
pub open spec fn raw_bytes_per_pixel(depth: u16) -> int {
    if depth == 32 {
        4
    } else if depth == 24 {
        3
    } else if depth == 16 {
        2
    } else {
        0
    }
}

/// Channel `c` (R, G, B, A) of pixel `i` of `'raw '` data at `depth`:
/// 32-bit pixels are a pad byte then R, G, B; 24-bit ones R, G, B;
/// 16-bit ones a big-endian `0RRRRRGGGGGBBBBB` word whose five-bit
/// fields are widened by bit replication. Every pixel is opaque.
pub open spec fn raw_channel(data: Seq<u8>, depth: u16, i: int, c: int) -> u8 {
    if c == 3 {
        255
    } else if depth == 32 {
        data[i * 4 + 1 + c]
    } else if depth == 24 {
        data[i * 3 + c]
    } else {
        let p = be_u16(data, i * 2);
        if c == 0 {
            expand5((p / 1024) % 32)
        } else if c == 1 {
            expand5((p / 32) % 32)
        } else {
            expand5(p % 32)
        }
    }
}

/// The RGBA bytes of `n` `'raw '` pixels at `depth`.
pub open spec fn raw_rgba(data: Seq<u8>, depth: u16, n: int) -> Seq<u8> {
    Seq::new((n * 4) as nat, |k: int| raw_channel(data, depth, k / 4, k % 4))
}

/// The `'raw '` compressor, which does not compress: the image data is
/// the source pixel map, rows in order, pixels packed per the
/// description's depth (32, 24 or 16 bits). Indexed and grayscale
/// depths need a colour table and are reported unsupported.
#[derive(Debug, Default, Clone, Copy)]
pub struct RawQuickTimeDecoder;

/// What [`RawQuickTimeDecoder`] returns for `d` and `data`: another
/// compressor or depth is `Unsupported`; a zero side, too little data
/// for the declared size, or more pixels than the raster budget is
/// `InvalidData`; otherwise the pixels of [`raw_rgba`].
pub open spec fn raw_decode_spec(d: ImageDescription, data: Seq<u8>, res: Result<DecodedQuickTimeImage>) -> bool {
    let w = d.width as int;
    let h = d.height as int;
    let bpp = raw_bytes_per_pixel(d.depth);
    if !is_raw_codec(d.codec) {
        res matches Err(e) && e is Unsupported
    } else if w == 0 || h == 0 {
        res matches Err(e) && e is InvalidData
    } else if bpp == 0 {
        res matches Err(e) && e is Unsupported
    } else if data.len() < w * h * bpp {
        res matches Err(e) && e is InvalidData
    } else if w * h * 4 > MAX_RASTER_BYTES {
        res matches Err(e) && e is InvalidData
    } else {
        res matches Ok(img) && img.width == w && img.height == h && img.rgba@ == raw_rgba(data, d.depth, w * h)
    }
}

/// Widen a five-bit channel to eight bits by replicating its top bits.
fn expand5_exec(v: u16) -> (b: u8)
    requires
        v < 32,
    ensures
        b == expand5(v as int),
{
    (v * 8 + v / 4) as u8
}

impl RawQuickTimeDecoder {
    /// The RGBA bytes of pixel `i`.
    fn raw_pixel(data: &[u8], depth: u16, i: usize) -> (px: [u8; 4])
        requires
            raw_bytes_per_pixel(depth) > 0,
            (i + 1) * raw_bytes_per_pixel(depth) <= data@.len(),
        ensures
            forall|c: int| 0 <= c < 4 ==> px@[c] == raw_channel(data@, depth, i as int, c),
    {
        let len = data.len();
        if depth == 32 {
            assert((i + 1) * raw_bytes_per_pixel(depth) == (i + 1) * 4);
            assert(i * 4 + 4 <= len);
            [data[i * 4 + 1], data[i * 4 + 2], data[i * 4 + 3], 255]
        } else if depth == 24 {
            assert((i + 1) * raw_bytes_per_pixel(depth) == (i + 1) * 3);
            assert(i * 3 + 3 <= len);
            [data[i * 3], data[i * 3 + 1], data[i * 3 + 2], 255]
        } else {
            assert((i + 1) * raw_bytes_per_pixel(depth) == (i + 1) * 2);
            assert(i * 2 + 2 <= len);
            let p: u16 = data[i * 2] as u16 * 256 + data[i * 2 + 1] as u16;
            [expand5_exec((p / 1024) % 32), expand5_exec((p / 32) % 32), expand5_exec(p % 32), 255]
        }
    }
}

impl QuickTimeImageDecoder for RawQuickTimeDecoder {
    fn decode_image(&mut self, description: &ImageDescription, data: &[u8]) -> (res: Result<DecodedQuickTimeImage>)
        ensures
            raw_decode_spec(*description, data@, res),
    {
        if !same_codec(description.codec, raw_codec()) {
            return Err(PictError::unsupported("no decoder for this QuickTime compressor"));
        }
        let width = description.width as u32;
        let height = description.height as u32;
        if width == 0 || height == 0 {
            return Err(PictError::invalid("'raw ' QuickTime image with a zero dimension"));
        }
        let depth = description.depth;
        let bpp: usize = if depth == 32 {
            4
        } else if depth == 24 {
            3
        } else if depth == 16 {
            2
        } else {
            return Err(PictError::unsupported("'raw ' QuickTime image at a depth that needs a colour table"));
        };
        assert((width as u64) * (height as u64) <= 0xFFFF * 0xFFFF) by (nonlinear_arith)
            requires
                width <= 0xFFFF,
                height <= 0xFFFF,
        ;
        let pixels: u64 = width as u64 * height as u64;
        assert(pixels * bpp <= 0xFFFF * 0xFFFF * 4) by (nonlinear_arith)
            requires
                pixels <= 0xFFFF * 0xFFFF,
                bpp <= 4,
        ;
        assert(pixels == description.width * description.height);
        if (data.len() as u64) < pixels * bpp as u64 {
            return Err(PictError::invalid("'raw ' QuickTime image data shorter than its declared size"));
        }
        if pixels > (MAX_RASTER_BYTES / 4) as u64 {
            return Err(PictError::invalid("'raw ' QuickTime image exceeds the raster budget"));
        }
        let n = pixels as usize;
        let mut rgba: Vec<u8> = Vec::new();
        let mut i: usize = 0;
        while i < n
            invariant
                i <= n,
                n == width * height,
                n * 4 <= MAX_RASTER_BYTES,
                bpp == raw_bytes_per_pixel(depth),
                bpp > 0,
                n * bpp <= data@.len(),
                rgba@ == raw_rgba(data@, depth, i as int),
            decreases n - i,
        {
            proof {
                assert((i + 1) * bpp <= n * bpp) by (nonlinear_arith)
                    requires i < n, bpp > 0;
            }
            let px = Self::raw_pixel(data, depth, i);
            rgba.push(px[0]);
            rgba.push(px[1]);
            rgba.push(px[2]);
            rgba.push(px[3]);
            proof {
                assert(rgba@ =~= raw_rgba(data@, depth, i + 1)) by {
                    assert forall|k: int| 0 <= k < (i + 1) * 4 implies #[trigger] rgba@[k] == raw_channel(
                        data@,
                        depth,
                        k / 4,
                        k % 4,
                    ) by {
                        if k >= i * 4 {
                            assert(k / 4 == i);
                            assert(k % 4 == k - i * 4);
                        }
                    }
                }
            }
            i += 1;
        }
        DecodedQuickTimeImage::new(width, height, rgba)
    }
}

/// JFIF full-range `Y'CbCr` to RGB in 16.16 fixed point, rounded to
/// nearest and clamped to a byte.
pub open spec fn fixed_to_byte(v: int) -> u8 {
    let q = (v + 32768) / 65536;
    if q < 0 {
        0
    } else if q > 255 {
        255
    } else {
        q as u8
    }
}

/// The RGB triple of a JFIF `Y'CbCr` sample, with the T.871 factors
/// 1.402, 0.344136, 0.714136 and 1.772 in 16.16.
pub open spec fn ycbcr_spec(y: u8, cb: u8, cr: u8) -> (u8, u8, u8) {
    let yy = y * 65536;
    let b = cb - 128;
    let r = cr - 128;
    (fixed_to_byte(yy + 91881 * r), fixed_to_byte(yy - 22554 * b - 46802 * r), fixed_to_byte(yy + 116130 * b))
}

fn fixed_to_byte_exec(v: i64) -> (b: u8)
    requires
        -0x1_0000_0000 <= v <= 0x1_0000_0000,
    ensures
        b == fixed_to_byte(v as int),
{
    let t = v + 32768;
    if t < 0 {
        0
    } else {
        let q = t / 65536;
        if q > 255 {
            255
        } else {
            q as u8
        }
    }
}

/// JFIF full-range `Y'CbCr` to RGB (see [`ycbcr_spec`]).
pub fn ycbcr_to_rgb(y: u8, cb: u8, cr: u8) -> (rgb: (u8, u8, u8))
    ensures
        rgb == ycbcr_spec(y, cb, cr),
{
    let yy: i64 = y as i64 * 65536;
    let b: i64 = cb as i64 - 128;
    let r: i64 = cr as i64 - 128;
    (fixed_to_byte_exec(yy + 91881 * r), fixed_to_byte_exec(yy - 22554 * b - 46802 * r), fixed_to_byte_exec(yy + 116130 * b))
}

/// How a single plane of four bytes per pixel is read: the frame
/// carries no pixel-format tag, so the caller says which packed quad
/// its producer emits.
#[derive(Debug, Clone, Copy, PartialEq, Eq, Structural)]
pub enum PackedQuad {
    /// R, G, B, A.
    Rgba,
    /// C, M, Y, K (what a four-component JPEG decodes to).
    Cmyk,
}

/// One image plane of a decoded frame: rows of `stride` bytes.
#[derive(Debug, Clone, PartialEq, Eq)]
pub struct FramePlane {
    /// Bytes per row in `data`.
    pub stride: usize,
    /// Row-major sample bytes.
    pub data: Vec<u8>,
}

/// Row `y` of `p` holds at least `min` bytes.
pub open spec fn row_present(p: FramePlane, y: int, min: int) -> bool {
    y * p.stride + min <= p.data@.len()
}

/// Rows `0 .. rows` of `p` hold at least `min` bytes each.
pub open spec fn rows_present(p: FramePlane, rows: int, min: int) -> bool {
    forall|y: int| 0 <= y < rows ==> #[trigger] row_present(p, y, min)
}

/// Byte `x` of row `y` of `p`.
pub open spec fn plane_at(p: FramePlane, y: int, x: int) -> u8 {
    p.data@[y * p.stride + x]
}

/// Bytes per pixel of a single-plane frame, read off its geometry: 4
/// when the rows and the plane hold `4 * w` bytes per row, else 3,
/// else 1; 0 when not even one byte per pixel fits.
pub open spec fn packed_bpp(p: FramePlane, w: int, h: int) -> int {
    if p.stride >= w * 4 && p.data@.len() >= w * 4 * h {
        4
    } else if p.stride >= w * 3 && p.data@.len() >= w * 3 * h {
        3
    } else if p.stride >= w && p.data@.len() >= w * h {
        1
    } else {
        0
    }
}

/// Chroma width: the full width when the chroma rows are as wide as
/// the luma width, else half of it rounded up.
pub open spec fn chroma_width(pcb: FramePlane, w: int) -> int {
    if pcb.stride >= w {
        w
    } else {
        (w + 1) / 2
    }
}

/// Whole rows a plane holds.
pub open spec fn plane_rows(p: FramePlane) -> int {
    if p.stride == 0 {
        0
    } else {
        p.data@.len() as int / p.stride as int
    }
}

/// Chroma height: the full height when both chroma planes hold that
/// many rows, else half of it rounded up.
pub open spec fn chroma_height(pcb: FramePlane, pcr: FramePlane, h: int) -> int {
    if plane_rows(pcb) >= h && plane_rows(pcr) >= h {
        h
    } else {
        (h + 1) / 2
    }
}

/// Palette entry `v` of a packed RGB palette, when the palette covers it.
pub open spec fn palette_entry(pal: Option<Seq<u8>>, v: u8) -> Option<(u8, u8, u8)> {
    match pal {
        Some(p) => if v * 3 + 3 <= p.len() {
            Some((p[v * 3], p[v * 3 + 1], p[v * 3 + 2]))
        } else {
            None
        },
        None => None,
    }
}

/// Every row the conversion reads is present: the single plane's rows
/// at its bytes per pixel; or the luma rows, the chroma rows at the
/// chroma size, and the alpha rows of a fourth plane.
pub open spec fn frame_rows_ok(planes: Seq<FramePlane>, w: int, h: int) -> bool {
    if planes.len() == 1 {
        let bpp = packed_bpp(planes[0], w, h);
        bpp > 0 && rows_present(planes[0], h, w * bpp)
    } else {
        let cw = chroma_width(planes[1], w);
        let ch = chroma_height(planes[1], planes[2], h);
        &&& rows_present(planes[0], h, w)
        &&& rows_present(planes[1], ch, cw)
        &&& rows_present(planes[2], ch, cw)
        &&& planes.len() == 4 ==> rows_present(planes[3], h, w)
    }
}

/// Pixel `(x, y)` of a `w x h` frame: a single plane is packed RGBA /
/// CMYK (per `quad`), packed RGB, or gray / palette indices; three or
/// four planes are `Y'CbCr` (plus alpha) with chroma subsampled by the
/// plane geometry and upsampled by replication.
pub open spec fn frame_pixel(
    planes: Seq<FramePlane>,
    pal: Option<Seq<u8>>,
    w: int,
    h: int,
    quad: PackedQuad,
    x: int,
    y: int,
) -> Rgba {
    if planes.len() == 1 {
        let p = planes[0];
        let bpp = packed_bpp(p, w, h);
        if bpp == 4 {
            let s0 = plane_at(p, y, x * 4);
            let s1 = plane_at(p, y, x * 4 + 1);
            let s2 = plane_at(p, y, x * 4 + 2);
            let s3 = plane_at(p, y, x * 4 + 3);
            match quad {
                PackedQuad::Rgba => Rgba { r: s0, g: s1, b: s2, a: s3 },
                PackedQuad::Cmyk => {
                    let k = 255 - s3;
                    Rgba {
                        r: ((255 - s0) * k / 255) as u8,
                        g: ((255 - s1) * k / 255) as u8,
                        b: ((255 - s2) * k / 255) as u8,
                        a: 255,
                    }
                },
            }
        } else if bpp == 3 {
            Rgba { r: plane_at(p, y, x * 3), g: plane_at(p, y, x * 3 + 1), b: plane_at(p, y, x * 3 + 2), a: 255 }
        } else {
            let v = plane_at(p, y, x);
            match palette_entry(pal, v) {
                Some((r, g, b)) => Rgba { r, g, b, a: 255 },
                None => Rgba { r: v, g: v, b: v, a: 255 },
            }
        }
    } else {
        let cw = chroma_width(planes[1], w);
        let ch = chroma_height(planes[1], planes[2], h);
        let cx = if cw < w { x / 2 } else { x };
        let cy = if ch < h { y / 2 } else { y };
        let rgb = ycbcr_spec(plane_at(planes[0], y, x), plane_at(planes[1], cy, cx), plane_at(planes[2], cy, cx));
        Rgba { r: rgb.0, g: rgb.1, b: rgb.2, a: if planes.len() == 4 { plane_at(planes[3], y, x) } else { 255 } }
    }
}

/// What [`planes_to_rgba`] returns: a zero side or more pixels than the
/// raster budget is `InvalidData`; a plane count other than 1, 3 or 4
/// is `Unsupported`; a missing row (or a single plane too small for one
/// byte per pixel) is `InvalidData`; otherwise the image of
/// [`frame_pixel`].
pub open spec fn frame_decode_spec(
    planes: Seq<FramePlane>,
    pal: Option<Seq<u8>>,
    width: u32,
    height: u32,
    quad: PackedQuad,
    res: Result<DecodedQuickTimeImage>,
) -> bool {
    let w = width as int;
    let h = height as int;
    if w == 0 || h == 0 {
        res matches Err(e) && e is InvalidData
    } else if w * h * 4 > MAX_RASTER_BYTES {
        res matches Err(e) && e is InvalidData
    } else if planes.len() != 1 && planes.len() != 3 && planes.len() != 4 {
        res matches Err(e) && e is Unsupported
    } else if !frame_rows_ok(planes, w, h) {
        res matches Err(e) && e is InvalidData
    } else {
        &&& res matches Ok(img)
        &&& img.width == width
        &&& img.height == height
        &&& img.wf()
        &&& forall|x: int, y: int|
            0 <= x < w && 0 <= y < h ==> #[trigger] rgba_at(img.rgba@, w, x, y) == frame_pixel(
                planes,
                pal,
                w,
                h,
                quad,
                x,
                y,
            )
    }
}

/// The bytes of an optional palette.
pub open spec fn opt_bytes(pal: Option<&[u8]>) -> Option<Seq<u8>> {
    match pal {
        Some(p) => Some(p@),
        None => None,
    }
}

fn row_present_exec(p: &FramePlane, y: usize, min: usize) -> (b: bool)
    ensures
        b == row_present(*p, y as int, min as int),
{
    let len = p.data.len();
    match y.checked_mul(p.stride) {
        None => {
            assert(y * p.stride > len);
            assert(y * p.stride + min > len) by (nonlinear_arith)
                requires
                    y * p.stride > len,
                    min >= 0,
            ;
            false
        },
        Some(start) => match start.checked_add(min) {
            None => false,
            Some(end) => end <= len,
        },
    }
}

fn rows_present_exec(p: &FramePlane, rows: usize, min: usize) -> (b: bool)
    ensures
        b == rows_present(*p, rows as int, min as int),
{
    let mut y: usize = 0;
    while y < rows
        invariant
            y <= rows,
            forall|yy: int| 0 <= yy < y ==> #[trigger] row_present(*p, yy, min as int),
        decreases rows - y,
    {
        if !row_present_exec(p, y, min) {
            return false;
        }
        y += 1;
    }
    true
}

/// Inside a present row, byte `off` is in the plane.
proof fn lemma_in_row(p: FramePlane, y: int, rows: int, min: int, off: int)
    requires
        rows_present(p, rows, min),
        0 <= y < rows,
        0 <= off < min,
    ensures
        0 <= y * p.stride,
        y * p.stride + off < p.data@.len(),
{
    assert(row_present(p, y, min));
    assert(0 <= y * p.stride) by (nonlinear_arith)
        requires
            0 <= y,
            0 <= p.stride,
    ;
}

fn plane_byte(p: &FramePlane, rows: usize, min: usize, y: usize, off: usize) -> (b: u8)
    requires
        rows_present(*p, rows as int, min as int),
        y < rows,
        off < min,
    ensures
        b == plane_at(*p, y as int, off as int),
{
    proof {
        lemma_in_row(*p, y as int, rows as int, min as int, off as int);
    }
    let len = p.data.len();
    assert(y * p.stride <= len);
    p.data[y * p.stride + off]
}

fn palette_entry_exec(pal: Option<&[u8]>, v: u8) -> (e: Option<(u8, u8, u8)>)
    ensures
        e == palette_entry(opt_bytes(pal), v),
{
    match pal {
        Some(p) => {
            let at: usize = v as usize * 3;
            if at + 3 <= p.len() {
                Some((p[at], p[at + 1], p[at + 2]))
            } else {
                None
            }
        },
        None => None,
    }
}

/// Pixel `(x, y)` of a frame whose rows were checked.
fn frame_pixel_exec(
    planes: &[FramePlane],
    pal: Option<&[u8]>,
    w: usize,
    h: usize,
    quad: PackedQuad,
    bpp: usize,
    cw: usize,
    ch: usize,
    x: usize,
    y: usize,
) -> (c: Rgba)
    requires
        planes@.len() == 1 || planes@.len() == 3 || planes@.len() == 4,
        frame_rows_ok(planes@, w as int, h as int),
        planes@.len() == 1 ==> bpp == packed_bpp(planes@[0], w as int, h as int),
        planes@.len() != 1 ==> cw == chroma_width(planes@[1], w as int) && ch == chroma_height(
            planes@[1],
            planes@[2],
            h as int,
        ),
        x < w,
        y < h,
        w * 4 <= MAX_RASTER_BYTES,
    ensures
        c == frame_pixel(planes@, opt_bytes(pal), w as int, h as int, quad, x as int, y as int),
{
    if planes.len() == 1 {
        let p = &planes[0];
        let m: usize = w * bpp;
        if bpp == 4 {
            let s0 = plane_byte(p, h, m, y, x * 4);
            let s1 = plane_byte(p, h, m, y, x * 4 + 1);
            let s2 = plane_byte(p, h, m, y, x * 4 + 2);
            let s3 = plane_byte(p, h, m, y, x * 4 + 3);
            match quad {
                PackedQuad::Rgba => Rgba { r: s0, g: s1, b: s2, a: s3 },
                PackedQuad::Cmyk => {
                    let k: u32 = 255 - s3 as u32;
                    assert((255 - s0) * k / 255 <= 255) by (nonlinear_arith)
                        requires
                            0 <= 255 - s0 <= 255,
                            0 <= k <= 255,
                    ;
                    assert((255 - s1) * k / 255 <= 255) by (nonlinear_arith)
                        requires
                            0 <= 255 - s1 <= 255,
                            0 <= k <= 255,
                    ;
                    assert((255 - s2) * k / 255 <= 255) by (nonlinear_arith)
                        requires
                            0 <= 255 - s2 <= 255,
                            0 <= k <= 255,
                    ;
                    Rgba {
                        r: ((255 - s0 as u32) * k / 255) as u8,
                        g: ((255 - s1 as u32) * k / 255) as u8,
                        b: ((255 - s2 as u32) * k / 255) as u8,
                        a: 255,
                    }
                },
            }
        } else if bpp == 3 {
            let r = plane_byte(p, h, m, y, x * 3);
            let g = plane_byte(p, h, m, y, x * 3 + 1);
            let b = plane_byte(p, h, m, y, x * 3 + 2);
            Rgba { r, g, b, a: 255 }
        } else {
            let v = plane_byte(p, h, m, y, x);
            match palette_entry_exec(pal, v) {
                Some((r, g, b)) => Rgba { r, g, b, a: 255 },
                None => Rgba { r: v, g: v, b: v, a: 255 },
            }
        }
    } else {
        let cx: usize = if cw < w { x / 2 } else { x };
        let cy: usize = if ch < h { y / 2 } else { y };
        let yv = plane_byte(&planes[0], h, w, y, x);
        let cb = plane_byte(&planes[1], ch, cw, cy, cx);
        let cr = plane_byte(&planes[2], ch, cw, cy, cx);
        let rgb = ycbcr_to_rgb(yv, cb, cr);
        let a: u8 = if planes.len() == 4 { plane_byte(&planes[3], h, w, y, x) } else { 255 };
        Rgba { r: rgb.0, g: rgb.1, b: rgb.2, a }
    }
}

/// Fold the planes of a decoded `width x height` frame into packed
/// RGBA (see [`frame_decode_spec`] and [`frame_pixel`]): one plane of
/// `w * h`, `3 * w * h` or `4 * w * h` bytes is gray / palette, packed
/// RGB or a packed quad per `quad`; three or four planes are planar
/// `Y'CbCr` (plus alpha) converted with the JFIF matrix.
pub fn planes_to_rgba(
    planes: &[FramePlane],
    pal: Option<&[u8]>,
    width: u32,
    height: u32,
    quad: PackedQuad,
) -> (res: Result<DecodedQuickTimeImage>)
    ensures
        frame_decode_spec(planes@, opt_bytes(pal), width, height, quad, res),
{
    if width == 0 || height == 0 {
        return Err(PictError::invalid("decoded frame has a zero dimension"));
    }
    assert((width as u64) * (height as u64) <= 0xFFFF_FFFF * 0xFFFF_FFFF) by (nonlinear_arith)
        requires
            width <= 0xFFFF_FFFFu32,
            height <= 0xFFFF_FFFFu32,
    ;
    let pixels: u64 = width as u64 * height as u64;
    if pixels > (MAX_RASTER_BYTES / 4) as u64 {
        return Err(PictError::invalid("decoded frame exceeds the raster budget"));
    }
    let w = width as usize;
    let h = height as usize;
    assert(w * 4 <= MAX_RASTER_BYTES) by (nonlinear_arith)
        requires
            w * h * 4 <= MAX_RASTER_BYTES,
            h >= 1,
    ;
    assert(h * 4 <= MAX_RASTER_BYTES) by (nonlinear_arith)
        requires
            w * h * 4 <= MAX_RASTER_BYTES,
            w >= 1,
    ;
    let n = planes.len();
    if n != 1 && n != 3 && n != 4 {
        return Err(PictError::unsupported("decoded frame with a plane count that has no RGBA mapping"));
    }
    let mut bpp: usize = 0;
    let mut cw: usize = 0;
    let mut ch: usize = 0;
    if n == 1 {
        let p = &planes[0];
        let len = p.data.len();
        assert(w * 4 * h == w * h * 4 && w * 3 * h <= w * h * 4 && w * h <= w * h * 4) by (nonlinear_arith)
            requires
                w >= 0,
                h >= 0,
        ;
        bpp = if p.stride >= w * 4 && len >= w * 4 * h {
            4
        } else if p.stride >= w * 3 && len >= w * 3 * h {
            3
        } else if p.stride >= w && len >= w * h {
            1
        } else {
            0
        };
        if bpp == 0 {
            return Err(PictError::invalid("decoded single-plane frame does not match its declared geometry"));
        }
        if !rows_present_exec(p, h, w * bpp) {
            return Err(PictError::invalid("decoded frame plane shorter than its geometry"));
        }
    } else {
        let pcb = &planes[1];
        let pcr = &planes[2];
        cw = if pcb.stride >= w { w } else { (w + 1) / 2 };
        let rows_cb: usize = if pcb.stride == 0 { 0 } else { pcb.data.len() / pcb.stride };
        let rows_cr: usize = if pcr.stride == 0 { 0 } else { pcr.data.len() / pcr.stride };
        ch = if rows_cb >= h && rows_cr >= h { h } else { (h + 1) / 2 };
        if !rows_present_exec(&planes[0], h, w) || !rows_present_exec(pcb, ch, cw) || !rows_present_exec(
            pcr,
            ch,
            cw,
        ) {
            return Err(PictError::invalid("decoded frame plane shorter than its geometry"));
        }
        if n == 4 && !rows_present_exec(&planes[3], h, w) {
            return Err(PictError::invalid("decoded frame plane shorter than its geometry"));
        }
    }
    let mut out: Vec<u8> = Vec::new();
    let mut y: usize = 0;
    while y < h
        invariant
            planes@.len() == 1 || planes@.len() == 3 || planes@.len() == 4,
            frame_rows_ok(planes@, w as int, h as int),
            planes@.len() == 1 ==> bpp == packed_bpp(planes@[0], w as int, h as int),
            planes@.len() != 1 ==> cw == chroma_width(planes@[1], w as int) && ch == chroma_height(
                planes@[1],
                planes@[2],
                h as int,
            ),
            w * h * 4 <= MAX_RASTER_BYTES,
            w * 4 <= MAX_RASTER_BYTES,
            y <= h,
            out@.len() == y * w * 4,
            forall|xx: int, yy: int|
                0 <= xx < w && 0 <= yy < y ==> #[trigger] rgba_at(out@, w as int, xx, yy) == frame_pixel(
                    planes@,
                    opt_bytes(pal),
                    w as int,
                    h as int,
                    quad,
                    xx,
                    yy,
                ),
        decreases h - y,
    {
        let mut x: usize = 0;
        while x < w
            invariant
                planes@.len() == 1 || planes@.len() == 3 || planes@.len() == 4,
                frame_rows_ok(planes@, w as int, h as int),
                planes@.len() == 1 ==> bpp == packed_bpp(planes@[0], w as int, h as int),
                planes@.len() != 1 ==> cw == chroma_width(planes@[1], w as int) && ch == chroma_height(
                    planes@[1],
                    planes@[2],
                    h as int,
                ),
                w * h * 4 <= MAX_RASTER_BYTES,
                w * 4 <= MAX_RASTER_BYTES,
                y < h,
                x <= w,
                out@.len() == (y * w + x) * 4,
                forall|xx: int, yy: int|
                    (0 <= xx < w && 0 <= yy < y) || (yy == y && 0 <= xx < x) ==> #[trigger] rgba_at(
                        out@,
                        w as int,
                        xx,
                        yy,
                    ) == frame_pixel(planes@, opt_bytes(pal), w as int, h as int, quad, xx, yy),
            decreases w - x,
        {
            let c = frame_pixel_exec(planes, pal, w, h, quad, bpp, cw, ch, x, y);
            let ghost prev = out@;
            proof {
                assert((y * w + x) * 4 + 4 <= w * h * 4) by (nonlinear_arith)
                    requires
                        x < w,
                        y < h,
                ;
            }
            out.push(c.r);
            out.push(c.g);
            out.push(c.b);
            out.push(c.a);
            proof {
                assert forall|xx: int, yy: int|
                    (0 <= xx < w && 0 <= yy < y) || (yy == y && 0 <= xx < x + 1) implies #[trigger] rgba_at(
                        out@,
                        w as int,
                        xx,
                        yy,
                    ) == frame_pixel(planes@, opt_bytes(pal), w as int, h as int, quad, xx, yy) by {
                    if yy == y && xx == x {
                        assert(yy * w + xx == y * w + x);
                    } else {
                        assert(yy * w + xx < y * w + x) by (nonlinear_arith)
                            requires
                                (0 <= xx < w && 0 <= yy < y) || (yy == y && 0 <= xx < x),
                                x < w,
                        ;
                        assert(rgba_at(prev, w as int, xx, yy) == frame_pixel(
                            planes@,
                            opt_bytes(pal),
                            w as int,
                            h as int,
                            quad,
                            xx,
                            yy,
                        ));
                        assert(0 <= yy * w + xx) by (nonlinear_arith)
                            requires
                                0 <= xx,
                                0 <= yy,
                                w > 0,
                        ;
                    }
                }
            }
            x += 1;
        }
        proof {
            assert((y * w + w) * 4 == (y + 1) * w * 4) by (nonlinear_arith);
        }
        y += 1;
    }
    proof {
        assert(h * w * 4 == w * h * 4) by (nonlinear_arith);
    }
    DecodedQuickTimeImage::new(width, height, out)
}

/// The JPEG decoder's error type, carried only to be mapped to a
/// [`PictError`].
#[verifier::external_type_specification]
#[verifier::external_body]
pub struct ExMjpegError(oxideav_mjpeg::MjpegError);

/// A decoded video frame as the library reads it: its image planes and,
/// for a palettised frame, its packed RGB palette.
#[derive(Debug, Clone, PartialEq, Eq)]
pub struct DecodedFrame {
    pub planes: Vec<FramePlane>,
    pub palette: Option<Vec<u8>>,
}

impl DecodedFrame {
    /// The palette's bytes, when there is one.
    pub open spec fn palette_view(&self) -> Option<Seq<u8>> {
        match self.palette {
            Some(p) => Some(p@),
            None => None,
        }
    }
}

/// The frame size (SOF width, height) that `oxideav_mjpeg`'s stream
/// inspector reads from a JPEG stream; `None` where it rejects it.
pub uninterp spec fn inspected_jpeg_size(data: Seq<u8>) -> Option<(u16, u16)>;

/// The image planes (each its stride and bytes) and palette of the
/// frame `oxideav_mjpeg` decodes from a JPEG stream; `None` where it
/// rejects the stream.
pub uninterp spec fn decoded_jpeg(data: Seq<u8>) -> Option<(Seq<(usize, Seq<u8>)>, Option<Seq<u8>>)>;

/// A plane as plain values: its stride and its bytes.
pub open spec fn plane_parts(p: FramePlane) -> (usize, Seq<u8>) {
    (p.stride, p.data@)
}

/// The planes of a frame as plain values.
pub open spec fn planes_parts(planes: Seq<FramePlane>) -> Seq<(usize, Seq<u8>)> {
    planes.map_values(|p: FramePlane| plane_parts(p))
}

/// `oxideav_mjpeg::jpeg::inspect::inspect_jpeg`, keeping the frame
/// header's width and height. Claimed: the outcome is a function of
/// the bytes alone (named [`inspected_jpeg_size`]), and a stream that
/// does not begin with the SOI marker `FF D8` is rejected, as the
/// inspector's first check shows.
#[verifier::external_body]
fn inspect_jpeg_size(data: &[u8]) -> (res: core::result::Result<(u16, u16), oxideav_mjpeg::MjpegError>)
    ensures
        match res {
            Ok(d) => inspected_jpeg_size(data@) == Some(d),
            Err(_) => inspected_jpeg_size(data@) is None,
        },
        (data@.len() < 2 || data@[0] != 0xFF || data@[1] != 0xD8) ==> res is Err,
{
    oxideav_mjpeg::jpeg::inspect::inspect_jpeg(data).map(|info| (info.width, info.height))
}

/// `oxideav_mjpeg::decoder::decode_jpeg` with no timestamp, the decoded
/// frame's `image_planes` copied as stride and bytes and its `palette`
/// copied. Claimed: the outcome is a function of the bytes alone (named
/// [`decoded_jpeg`]); the decoder is deterministic and its documentation
/// states that hostile input returns an error and never panics. What
/// the planes hold is not stated: it is the whole JPEG decoding process.
#[verifier::external_body]
#[allow(deprecated)]
fn decode_jpeg_planes(data: &[u8]) -> (res: core::result::Result<DecodedFrame, oxideav_mjpeg::MjpegError>)
    ensures
        match decoded_jpeg(data@) {
            Some((planes, pal)) => res matches Ok(f) && planes_parts(f.planes@) == planes && f.palette_view() == pal,
            None => res is Err,
        },
{
    let f = oxideav_mjpeg::decoder::decode_jpeg(data, None)?;
    let planes = f.image_planes().iter().map(|p| FramePlane { stride: p.stride, data: p.data.clone() }).collect();
    Ok(DecodedFrame { planes, palette: f.palette().map(|p| p.to_vec()) })
}

/// Fold a decoded frame of `width x height` pixels into packed RGBA
/// through [`planes_to_rgba`]: exactly [`frame_decode_spec`] of its
/// planes and palette.
pub fn video_frame_to_rgba(frame: &DecodedFrame, width: u32, height: u32, quad: PackedQuad) -> (res: Result<
    DecodedQuickTimeImage,
>)
    ensures
        frame_decode_spec(frame.planes@, frame.palette_view(), width, height, quad, res),
        (width == 0 || height == 0 || width * height * 4 > MAX_RASTER_BYTES) ==> (res matches Err(e)
            && e is InvalidData),
        res matches Ok(img) ==> img.width == width && img.height == height && img.wf(),
{
    match &frame.palette {
        Some(p) => planes_to_rgba(frame.planes.as_slice(), Some(p.as_slice()), width, height, quad),
        None => planes_to_rgba(frame.planes.as_slice(), None, width, height, quad),
    }
}

/// A frame whose planes have these strides and bytes, and this
/// palette, folds to `res` at `w x h` with a four-component frame read
/// as CMYK.
pub open spec fn cmyk_frame_folds(
    planes: Seq<(usize, Seq<u8>)>,
    pal: Option<Seq<u8>>,
    w: u32,
    h: u32,
    res: Result<DecodedQuickTimeImage>,
) -> bool {
    exists|fp: Seq<FramePlane>|
        #![trigger frame_decode_spec(fp, pal, w, h, PackedQuad::Cmyk, res)]
        planes_parts(fp) == planes && frame_decode_spec(fp, pal, w, h, PackedQuad::Cmyk, res)
}

/// What decoding the JPEG stream `data` gives: `InvalidData` when the
/// inspector cannot read its frame header or the decoder rejects it,
/// else the decoded frame (planes with the decoder's strides and bytes)
/// at the header's size folded to RGBA with a four-component frame read
/// as CMYK.
pub open spec fn jpeg_decode_spec(data: Seq<u8>, res: Result<DecodedQuickTimeImage>) -> bool {
    match inspected_jpeg_size(data) {
        None => res matches Err(e) && e is InvalidData,
        Some((w, h)) => match decoded_jpeg(data) {
            None => res matches Err(e) && e is InvalidData,
            Some((planes, pal)) => cmyk_frame_folds(planes, pal, w as u32, h as u32, res),
        },
    }
}

/// Decode a `'jpeg'` ("Photo - JPEG") payload: one complete JPEG
/// stream, decoded by `oxideav-mjpeg` and folded to RGBA with the
/// four-component layout read as CMYK. The stream's frame header, not
/// the description, fixes the size. A stream the decoder rejects is
/// `InvalidData`.
pub fn decode_jpeg_image(description: &ImageDescription, data: &[u8]) -> (res: Result<DecodedQuickTimeImage>)
    ensures
        jpeg_decode_spec(data@, res),
        inspected_jpeg_size(data@) is None ==> (res matches Err(e) && e is InvalidData),
        (data@.len() < 2 || data@[0] != 0xFF || data@[1] != 0xD8) ==> (res matches Err(e) && e is InvalidData),
        res matches Ok(img) ==> inspected_jpeg_size(data@) matches Some((w, h)) && img.width == w && img.height
            == h && img.wf(),
{
    let (w, h) = match inspect_jpeg_size(data) {
        Ok(d) => d,
        Err(_) => {
            return Err(PictError::invalid("'jpeg' QuickTime image: the stream's frame header cannot be read"));
        },
    };
    let frame = match decode_jpeg_planes(data) {
        Ok(f) => f,
        Err(_) => {
            return Err(PictError::invalid("'jpeg' QuickTime image: the stream does not decode"));
        },
    };
    let res = video_frame_to_rgba(&frame, w as u32, h as u32, PackedQuad::Cmyk);
    proof {
        assert(inspected_jpeg_size(data@) == Some((w, h)));
        assert(decoded_jpeg(data@) == Some((planes_parts(frame.planes@), frame.palette_view())));
        assert(frame_decode_spec(frame.planes@, frame.palette_view(), w as u32, h as u32, PackedQuad::Cmyk, res));
        assert(cmyk_frame_folds(planes_parts(frame.planes@), frame.palette_view(), w as u32, h as u32, res));
    }
    res
}

/// The decoder chain the picture reader uses when the caller supplies
/// none: `'jpeg'` through `oxideav-mjpeg`, everything else through
/// [`RawQuickTimeDecoder`].
#[derive(Debug, Default, Clone, Copy)]
pub struct DefaultQuickTimeDecoder {
    raw: RawQuickTimeDecoder,
}

impl QuickTimeImageDecoder for DefaultQuickTimeDecoder {
    fn decode_image(&mut self, description: &ImageDescription, data: &[u8]) -> (res: Result<DecodedQuickTimeImage>)
        ensures
            !is_jpeg_codec(description.codec) ==> raw_decode_spec(*description, data@, res),
            is_jpeg_codec(description.codec) ==> {
                &&& jpeg_decode_spec(data@, res)
                &&& inspected_jpeg_size(data@) is None ==> (res matches Err(e) && e is InvalidData)
                &&& res matches Ok(img) ==> inspected_jpeg_size(data@) matches Some((w, h)) && img.width == w
                    && img.height == h && img.wf()
            },
    {
        if same_codec(description.codec, jpeg_codec()) {
            return decode_jpeg_image(description, data);
        }
        self.raw.decode_image(description, data)
    }
}

} // verus!

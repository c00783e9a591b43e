//! The image a decode returns, and the picture comments it collects.
use vstd::prelude::*;
use crate::header::PictHeader;
use crate::state::PictTextState;

verus! {

/// One Picture Comment captured from the opcode stream
/// (`ShortComment` `$00A0` / `$A0`, `LongComment` `$00A1` / `$A1`).
#[derive(Debug, Clone, PartialEq, Eq)]
pub struct PictComment {
    /// The `Kind` word as written on disk.
    pub kind: u16,
    /// The `LongComment` data; empty for a `ShortComment`.
    pub data: Vec<u8>,
    /// `true` for `LongComment`, `false` for `ShortComment`.
    pub is_long: bool,
}

impl PictComment {
    /// A `ShortComment` record (kind only, no data).
    pub fn short(kind: u16) -> (c: Self)
        ensures
            c.kind == kind,
            c.data@.len() == 0,
            !c.is_long,
    {
        PictComment { kind, data: Vec::new(), is_long: false }
    }

    /// A `LongComment` record.
    pub fn long(kind: u16, data: Vec<u8>) -> (c: Self)
        ensures
            c.kind == kind,
            c.data@ == data@,
            c.is_long,
    {
        PictComment { kind, data, is_long: true }
    }
}

/// Pixel layout of [`PictImage`]: always packed 8-bit RGBA.
#[derive(Debug, Clone, Copy, PartialEq, Eq, Structural)]
pub enum PictPixelFormat {
    /// 8-bit packed RGBA, 4 bytes per pixel.
    Rgba,
}

/// One decoded PICT raster.
#[derive(Debug, Clone)]
pub struct PictImage {
    /// Width in pixels (right - left of `picFrame`).
    pub width: u32,
    /// Height in pixels (bottom - top of `picFrame`).
    pub height: u32,
    /// Always [`PictPixelFormat::Rgba`].
    pub pixel_format: PictPixelFormat,
    /// Row-major pixel bytes, `width * 4 * height` long.
    pub data: Vec<u8>,
    /// Presentation timestamp; `None` from the standalone decoder.
    pub pts: Option<i64>,
    /// The decoded `HeaderOp` payload of a v2 picture.
    pub header: Option<PictHeader>,
    /// Picture comments in stream order.
    pub comments: Vec<PictComment>,
    /// Text-drawing state left by the opcode walk.
    pub text_state: PictTextState,
}

impl PictImage {
    /// Bytes per pixel of `pixel_format`.
    pub fn bytes_per_pixel(&self) -> (n: usize)
        ensures
            n == 4,
    {
        match self.pixel_format {
            PictPixelFormat::Rgba => 4,
        }
    }

    /// Bytes per row (`width * bytes_per_pixel`).
    pub fn stride(&self) -> (n: usize)
        requires
            self.width as int * 4 <= usize::MAX,
        ensures
            n == self.width as int * 4,
    {
        self.width as usize * self.bytes_per_pixel()
    }
}

} // verus!

//! Pixel rows of the raster opcodes: how the stored rows are read
//! (raw, PackBits per row behind a byte count, 16-bit-unit PackBits,
//! component planes) and how each stored pixel layout turns into RGBA.
use vstd::prelude::*;
use crate::error::{PictError, Result};
use crate::packbits::{decode_into, pb_decode};
use crate::raster::cell;
use crate::reader::Reader;
use crate::state::{black_spec, bit_of, lemma_pow2_pos, pow2_spec, Rgba};
use crate::wire::be_u16;

verus! {

/// Upper bound on the RGBA bytes any single decode allocates.
pub const MAX_RASTER_BYTES: usize = 0x1000_0000;

/// A stored pixel layout.
#[derive(Debug, Clone, Copy, PartialEq, Eq, Structural)]
pub enum Layout {
    /// One bit per pixel, most significant first; a set bit is black.
    Mono,
    /// 1, 2, 4 or 8 bits per pixel indexing a palette.
    Indexed(u16),
    /// Big-endian `xRRRRRGGGGGBBBBB` words.
    Rgb555,
    /// Four bytes per pixel: pad, R, G, B.
    Xrgb,
    /// Four bytes per pixel: A, R, G, B.
    Argb,
    /// Three bytes per pixel: R, G, B.
    Rgb24,
    /// A row is the R plane, then G, then B, each `width` bytes.
    Planar3,
    /// A row is the A plane, then R, G, B, each `width` bytes.
    Planar4,
}

/// Rows of `rb` bytes hold `w` pixels of the layout.
pub open spec fn layout_row_ok(l: Layout, rb: int, w: int) -> bool {
    match l {
        Layout::Mono => rb * 8 >= w,
        Layout::Indexed(d) => (d == 1 || d == 2 || d == 4 || d == 8) && rb * (8int / d as int) >= w,
        Layout::Rgb555 => rb >= 2 * w,
        Layout::Xrgb => rb >= 4 * w,
        Layout::Argb => rb >= 4 * w,
        Layout::Rgb24 => rb >= 3 * w,
        Layout::Planar3 => rb >= 3 * w,
        Layout::Planar4 => rb >= 4 * w,
    }
}

/// A 5-bit channel widened to 8 bits by replicating its top bits.
pub open spec fn expand5(v: int) -> u8 {
    (v * 8 + v / 4) as u8
}

pub open spec fn rgb555_spec(p: int) -> Rgba {
    Rgba { r: expand5((p / 1024) % 32), g: expand5((p / 32) % 32), b: expand5(p % 32), a: 255 }
}

/// The palette index of pixel `x` in a row starting at `o`, at depth `d`.
pub open spec fn indexed_value(pix: Seq<u8>, o: int, d: int, x: int) -> int {
    let per = 8int / d;
    (pix[o + x / per] as int / pow2_spec((per - 1 - x % per) * d)) % pow2_spec(d)
}

/// Pixel `(x, y)` of `w`-pixel rows of `rb` bytes in layout `l`.
pub open spec fn layout_pixel(l: Layout, pix: Seq<u8>, rb: int, w: int, palette: Seq<Rgba>, x: int, y: int) -> Rgba {
    let o = y * rb;
    match l {
        Layout::Mono => {
            let bit = (pix[o + x / 8] as int / pow2_spec(7 - x % 8)) % 2;
            let v: u8 = if bit == 1 { 0 } else { 255 };
            Rgba { r: v, g: v, b: v, a: 255 }
        },
        Layout::Indexed(d) => {
            let i = indexed_value(pix, o, d as int, x);
            if i < palette.len() { palette[i] } else { black_spec() }
        },
        Layout::Rgb555 => rgb555_spec(be_u16(pix, o + 2 * x)),
        Layout::Xrgb => Rgba { r: pix[o + 4 * x + 1], g: pix[o + 4 * x + 2], b: pix[o + 4 * x + 3], a: 255 },
        Layout::Argb => Rgba {
            r: pix[o + 4 * x + 1],
            g: pix[o + 4 * x + 2],
            b: pix[o + 4 * x + 3],
            a: pix[o + 4 * x],
        },
        Layout::Rgb24 => Rgba { r: pix[o + 3 * x], g: pix[o + 3 * x + 1], b: pix[o + 3 * x + 2], a: 255 },
        Layout::Planar3 => Rgba { r: pix[o + x], g: pix[o + w + x], b: pix[o + 2 * w + x], a: 255 },
        Layout::Planar4 => Rgba {
            r: pix[o + w + x],
            g: pix[o + 2 * w + x],
            b: pix[o + 3 * w + x],
            a: pix[o + x],
        },
    }
}

/// RGBA cell `(x, y)` of a `w`-wide image.
pub open spec fn rgba_at(out: Seq<u8>, w: int, x: int, y: int) -> Rgba {
    cell(out, y * w + x)
}

/// `2^n` for `n <= 8`.
fn pow2_small(n: u32) -> (p: u32)
    requires
        n <= 8,
    ensures
        p == pow2_spec(n as int),
        1 <= p <= 256,
{
    proof {
        reveal_with_fuel(pow2_spec, 9);
    }
    match n {
        0 => 1,
        1 => 2,
        2 => 4,
        3 => 8,
        4 => 16,
        5 => 32,
        6 => 64,
        7 => 128,
        _ => 256,
    }
}

proof fn lemma_row_index(y: int, rb: int, h: int, off: int)
    requires
        0 <= y < h,
        0 <= off < rb,
    ensures
        0 <= y * rb + off < rb * h,
{
    assert(y * rb + off < rb * h) by (nonlinear_arith)
        requires 0 <= y < h, 0 <= off < rb;
    assert(0 <= y * rb) by (nonlinear_arith)
        requires 0 <= y, 0 <= rb;
}

/// The palette index of pixel `x` of the row at `o`.
pub fn read_indexed_pixel(pix_data: &[u8], x: usize, y: usize, row_bytes: usize, pixel_size: u16) -> (res: Result<u8>)
    requires
        pix_data@.len() >= row_bytes * (y + 1),
        pixel_size == 1 || pixel_size == 2 || pixel_size == 4 || pixel_size == 8 ==> x < row_bytes * (8int / pixel_size as int),
    ensures
        match res {
            Ok(v) => (pixel_size == 1 || pixel_size == 2 || pixel_size == 4 || pixel_size == 8) && v
                == indexed_value(pix_data@, y * row_bytes, pixel_size as int, x as int),
            Err(e) => !(pixel_size == 1 || pixel_size == 2 || pixel_size == 4 || pixel_size == 8)
                && e is Unsupported,
        },
{
    if !(pixel_size == 1 || pixel_size == 2 || pixel_size == 4 || pixel_size == 8) {
        return Err(PictError::unsupported("indexed pixel size must be 1, 2, 4 or 8"));
    }
    let d = pixel_size as u32;
    let per: u32 = 8 / d;
    let xi = x as u32;
    proof {
        assert((x as int) / (per as int) < row_bytes) by (nonlinear_arith)
            requires x < row_bytes * (per as int), per > 0;
        lemma_row_index(y as int, row_bytes as int, y as int + 1, (x as int) / (per as int));
        assert(row_bytes * (y + 1) == y * row_bytes + row_bytes) by (nonlinear_arith);
    }
    let n = pix_data.len();
    let byte = pix_data[y * row_bytes + x / (per as usize)];
    let rem = (x % (per as usize)) as u32;
    proof {
        if d == 1 {
            assert(per == 8);
        } else if d == 2 {
            assert(per == 4);
        } else if d == 4 {
            assert(per == 2);
        } else {
            assert(per == 1);
        }
        assert(per * d == 8);
        assert(rem < per);
        assert((per - 1 - rem) * d <= 7) by (nonlinear_arith)
            requires rem < per, per * d == 8, d >= 1;
        assert((per - 1 - rem) * d >= 0) by (nonlinear_arith)
            requires rem < per, d >= 1;
    }
    let shift: u32 = (per - 1 - rem) * d;
    let p = pow2_small(shift);
    let m = pow2_small(d);
    let v = (byte as u32 / p) % m;
    Ok(v as u8)
}

/// Convert `h` stored rows of `rb` bytes, `w` pixels each, to packed
/// RGBA.
pub fn to_rgba(l: Layout, pix: &[u8], rb: usize, w: usize, h: usize, palette: &[Rgba]) -> (out: Vec<u8>)
    requires
        layout_row_ok(l, rb as int, w as int),
        pix@.len() >= rb * h,
        w * h * 4 <= MAX_RASTER_BYTES,
    ensures
        out@.len() == w * h * 4,
        forall|x: int, y: int|
            0 <= x < w && 0 <= y < h ==> #[trigger] rgba_at(out@, w as int, x, y) == layout_pixel(
                l,
                pix@,
                rb as int,
                w as int,
                palette@,
                x,
                y,
            ),
{
    let mut out: Vec<u8> = Vec::new();
    let mut y: usize = 0;
    while y < h
        invariant
            layout_row_ok(l, rb as int, w as int),
            pix@.len() >= rb * h,
            w * h * 4 <= MAX_RASTER_BYTES,
            y <= h,
            out@.len() == y * w * 4,
            forall|xx: int, yy: int|
                0 <= xx < w && 0 <= yy < y ==> #[trigger] rgba_at(out@, w as int, xx, yy) == layout_pixel(
                    l,
                    pix@,
                    rb as int,
                    w as int,
                    palette@,
                    xx,
                    yy,
                ),
        decreases h - y,
    {
        let mut x: usize = 0;
        while x < w
            invariant
                layout_row_ok(l, rb as int, w as int),
                pix@.len() >= rb * h,
                w * h * 4 <= MAX_RASTER_BYTES,
                y < h,
                x <= w,
                out@.len() == (y * w + x) * 4,
                forall|xx: int, yy: int|
                    (0 <= xx < w && 0 <= yy < y) || (yy == y && 0 <= xx < x) ==> #[trigger] rgba_at(
                        out@,
                        w as int,
                        xx,
                        yy,
                    ) == layout_pixel(l, pix@, rb as int, w as int, palette@, xx, yy),
            decreases w - x,
        {
            let c = pixel_of(l, pix, rb, w, h, palette, x, y);
            let ghost prev = out@;
            proof {
                assert((y * w + x) * 4 + 4 <= w * h * 4) by (nonlinear_arith)
                    requires x < w, y < h;
            }
            out.push(c.r);
            out.push(c.g);
            out.push(c.b);
            out.push(c.a);
            proof {
                assert forall|xx: int, yy: int|
                    (0 <= xx < w && 0 <= yy < y) || (yy == y && 0 <= xx < x + 1) implies #[trigger] rgba_at(
                        out@,
                        w as int,
                        xx,
                        yy,
                    ) == layout_pixel(l, pix@, rb as int, w as int, palette@, xx, yy) by {
                    if yy == y && xx == x {
                        assert(yy * w + xx == y * w + x);
                    } else {
                        assert(yy * w + xx < y * w + x) by (nonlinear_arith)
                            requires
                                (0 <= xx < w && 0 <= yy < y) || (yy == y && 0 <= xx < x),
                                x < w;
                        assert(rgba_at(prev, w as int, xx, yy) == layout_pixel(l, pix@, rb as int, w as int, palette@, xx, yy));
                        assert(0 <= yy * w + xx) by (nonlinear_arith)
                            requires 0 <= xx, 0 <= yy, w > 0;
                    }
                }
            }
            x += 1;
        }
        proof {
            assert((y * w + w) * 4 == (y + 1) * w * 4) by (nonlinear_arith);
        }
        y += 1;
    }
    proof {
        assert(h * w * 4 == w * h * 4) by (nonlinear_arith);
    }
    out
}

/// One stored pixel as RGBA.
fn pixel_of(l: Layout, pix: &[u8], rb: usize, w: usize, h: usize, palette: &[Rgba], x: usize, y: usize) -> (c: Rgba)
    requires
        layout_row_ok(l, rb as int, w as int),
        pix@.len() >= rb * h,
        x < w,
        y < h,
    ensures
        c == layout_pixel(l, pix@, rb as int, w as int, palette@, x as int, y as int),
{
    let n = pix.len();
    proof {
        assert(rb * (y + 1) <= rb * h) by (nonlinear_arith)
            requires y < h, rb >= 0;
        assert(rb * (y + 1) == y * rb + rb) by (nonlinear_arith);
        assert(0 <= y * rb) by (nonlinear_arith)
            requires y >= 0, rb >= 0;
    }
    let o = y * rb;
    match l {
        Layout::Mono => {
            proof {
                assert(x / 8 < rb) by (nonlinear_arith)
                    requires x < w, rb * 8 >= w;
            }
            let on = bit_of(pix[o + x / 8], (x % 8) as u32);
            let v: u8 = if on { 0 } else { 255 };
            Rgba { r: v, g: v, b: v, a: 255 }
        },
        Layout::Indexed(d) => {
            proof {
                assert(x < rb * (8int / d as int));
                assert(pix@.len() >= rb * (y + 1));
            }
            let i = match read_indexed_pixel(pix, x, y, rb, d) {
                Ok(v) => v,
                Err(_) => 0,
            };
            if (i as usize) < palette.len() {
                palette[i as usize]
            } else {
                Rgba::black()
            }
        },
        Layout::Rgb555 => {
            let p = crate::wire::u16_from_be(pix[o + 2 * x], pix[o + 2 * x + 1]);
            let r5 = (p / 1024) % 32;
            let g5 = (p / 32) % 32;
            let b5 = p % 32;
            Rgba { r: (r5 * 8 + r5 / 4) as u8, g: (g5 * 8 + g5 / 4) as u8, b: (b5 * 8 + b5 / 4) as u8, a: 255 }
        },
        Layout::Xrgb => Rgba { r: pix[o + 4 * x + 1], g: pix[o + 4 * x + 2], b: pix[o + 4 * x + 3], a: 255 },
        Layout::Argb => Rgba { r: pix[o + 4 * x + 1], g: pix[o + 4 * x + 2], b: pix[o + 4 * x + 3], a: pix[o + 4 * x] },
        Layout::Rgb24 => Rgba { r: pix[o + 3 * x], g: pix[o + 3 * x + 1], b: pix[o + 3 * x + 2], a: 255 },
        Layout::Planar3 => Rgba { r: pix[o + x], g: pix[o + w + x], b: pix[o + 2 * w + x], a: 255 },
        Layout::Planar4 => Rgba { r: pix[o + w + x], g: pix[o + 2 * w + x], b: pix[o + 3 * w + x], a: pix[o + x] },
    }
}


/// `k` consecutive PackBits segments of `seg` bytes each: the
/// decoded bytes and how many input bytes they took.
pub open spec fn segments(s: Seq<u8>, seg: nat, k: nat) -> Option<(Seq<u8>, nat)>
    decreases k,
{
    if k == 0 {
        Some((Seq::empty(), 0))
    } else {
        match segments(s, seg, (k - 1) as nat) {
            Some((d, u)) => match pb_decode(s.subrange(u as int, s.len() as int), seg) {
                Some((d2, u2)) => Some((d + d2, u + u2)),
                None => None,
            },
            None => None,
        }
    }
}

/// `rows` packed rows: each a byte count (two bytes when `wide`, one
/// otherwise; not consulted) followed by `segs` PackBits segments of
/// `seg` bytes.
pub open spec fn packed_rows(s: Seq<u8>, seg: nat, segs: nat, rows: nat, wide: bool) -> Option<(Seq<u8>, nat)>
    decreases rows,
{
    if rows == 0 {
        Some((Seq::empty(), 0))
    } else {
        match packed_rows(s, seg, segs, (rows - 1) as nat, wide) {
            Some((d, u)) => {
                let c: nat = if wide { 2 } else { 1 };
                if s.len() < u + c {
                    None
                } else {
                    match segments(s.subrange((u + c) as int, s.len() as int), seg, segs) {
                        Some((d2, u2)) => Some((d + d2, u + c + u2)),
                        None => None,
                    }
                }
            },
            None => None,
        }
    }
}

proof fn lemma_pb_decode_len(s: Seq<u8>, n: nat)
    ensures
        pb_decode(s, n) matches Some((d, u)) ==> d.len() == n && u <= s.len(),
    decreases s.len(),
{
    if n > 0 && s.len() > 0 {
        let flag = s[0];
        if flag < 128 {
            let k = flag as int + 1;
            if !(k > n || s.len() < 1 + k) {
                lemma_pb_decode_len(s.subrange(1 + k, s.len() as int), (n - k) as nat);
            }
        } else if flag == 128 {
            lemma_pb_decode_len(s.subrange(1, s.len() as int), n);
        } else {
            let k = 257 - flag as int;
            if !(k > n || s.len() < 2) {
                lemma_pb_decode_len(s.subrange(2, s.len() as int), (n - k) as nat);
            }
        }
    }
}

proof fn lemma_segments_len(s: Seq<u8>, seg: nat, k: nat)
    ensures
        segments(s, seg, k) matches Some((d, u)) ==> d.len() == seg * k && u <= s.len(),
    decreases k,
{
    if k > 0 {
        lemma_segments_len(s, seg, (k - 1) as nat);
        match segments(s, seg, (k - 1) as nat) {
            Some((d, u)) => {
                let rest = s.subrange(u as int, s.len() as int);
                lemma_pb_decode_len(rest, seg);
                match pb_decode(rest, seg) {
                    Some((d2, u2)) => {
                        assert(seg * (k - 1) + seg == seg * k) by (nonlinear_arith);
                        assert(segments(s, seg, k) == Some((d + d2, u + u2)));
                    },
                    None => {},
                }
            },
            None => {},
        }
    } else {
        assert(seg * 0 == 0);
    }
}

pub proof fn lemma_packed_rows_len(s: Seq<u8>, seg: nat, segs: nat, rows: nat, wide: bool)
    ensures
        packed_rows(s, seg, segs, rows, wide) matches Some((d, u)) ==> d.len() == seg * segs * rows && u <= s.len(),
    decreases rows,
{
    if rows > 0 {
        lemma_packed_rows_len(s, seg, segs, (rows - 1) as nat, wide);
        match packed_rows(s, seg, segs, (rows - 1) as nat, wide) {
            Some((d, u)) => {
                let c: nat = if wide { 2 } else { 1 };
                if s.len() >= u + c {
                    let rest = s.subrange((u + c) as int, s.len() as int);
                    lemma_segments_len(rest, seg, segs);
                    match segments(rest, seg, segs) {
                        Some((d2, u2)) => {
                            assert(seg * segs * (rows - 1) + seg * segs == seg * segs * rows) by (nonlinear_arith);
                            assert(packed_rows(s, seg, segs, rows, wide) == Some((d + d2, u + c + u2)));
                        },
                        None => {},
                    }
                }
            },
            None => {},
        }
    } else {
        assert(seg * segs * 0 == 0);
    }
}

/// Read `k` PackBits segments of `seg` bytes each.
fn read_segments(r: &mut Reader<'_>, seg: usize, k: usize) -> (res: Result<Vec<u8>>)
    requires
        old(r).pos <= old(r).bytes@.len(),
        seg * k <= MAX_RASTER_BYTES,
    ensures
        final(r).bytes@ == old(r).bytes@,
        match segments(old(r).rest(), seg as nat, k as nat) {
            Some((d, u)) => res matches Ok(v) && v@ == d && final(r).pos == old(r).pos + u
                && final(r).pos <= final(r).bytes@.len(),
            None => res matches Err(e) && e is InvalidData,
        },
{
    let ghost s = old(r).rest();
    let ghost p0 = old(r).pos as int;
    let mut out: Vec<u8> = Vec::new();
    let mut i: usize = 0;
    while i < k
        invariant
            r.bytes@ == old(r).bytes@,
            s == old(r).rest(),
            p0 == old(r).pos,
            p0 <= r.pos <= r.bytes@.len(),
            i <= k,
            segments(s, seg as nat, i as nat) matches Some((d, u)) && out@ == d && r.pos == p0 + u,
        decreases k - i,
    {
        let mut row: Vec<u8> = vec![0u8; seg];
        let ghost before = r.pos as int;
        proof {
            let (d, u) = segments(s, seg as nat, i as nat)->0;
            assert(r.rest() =~= s.subrange(u as int, s.len() as int));
        }
        match decode_into(r, row.as_mut_slice()) {
            Ok(()) => {},
            Err(e) => {
                proof {
                    lemma_segments_none_after(s, seg as nat, i as nat, k as nat);
                }
                return Err(e);
            },
        }
        proof {
            let (d, u) = segments(s, seg as nat, i as nat)->0;
            lemma_pb_decode_len(s.subrange(u as int, s.len() as int), seg as nat);
        }
        out.append(&mut row);
        i += 1;
    }
    Ok(out)
}

proof fn lemma_segments_none_after(s: Seq<u8>, seg: nat, i: nat, k: nat)
    requires
        i < k,
        segments(s, seg, i) matches Some((d, u)) && pb_decode(s.subrange(u as int, s.len() as int), seg) is None,
    ensures
        segments(s, seg, k) is None,
    decreases k,
{
    if k > i + 1 {
        lemma_segments_none_after(s, seg, i, (k - 1) as nat);
    }
}

proof fn lemma_packed_rows_none_after(s: Seq<u8>, seg: nat, segs: nat, i: nat, rows: nat, wide: bool)
    requires
        i < rows,
        packed_rows(s, seg, segs, (i + 1) as nat, wide) is None,
    ensures
        packed_rows(s, seg, segs, rows, wide) is None,
    decreases rows,
{
    if rows > i + 1 {
        lemma_packed_rows_none_after(s, seg, segs, i, (rows - 1) as nat, wide);
    }
}

/// Read `rows` packed rows (see [`packed_rows`]).
pub fn read_packed_rows(r: &mut Reader<'_>, seg: usize, segs: usize, rows: usize, wide: bool) -> (res: Result<Vec<u8>>)
    requires
        old(r).pos <= old(r).bytes@.len(),
        seg * segs * rows <= MAX_RASTER_BYTES,
    ensures
        final(r).bytes@ == old(r).bytes@,
        match packed_rows(old(r).rest(), seg as nat, segs as nat, rows as nat, wide) {
            Some((d, u)) => res matches Ok(v) && v@ == d && final(r).pos == old(r).pos + u
                && final(r).pos <= final(r).bytes@.len(),
            None => res matches Err(e) && e is InvalidData,
        },
{
    let ghost s = old(r).rest();
    let ghost p0 = old(r).pos as int;
    let mut out: Vec<u8> = Vec::new();
    let mut y: usize = 0;
    while y < rows
        invariant
            r.bytes@ == old(r).bytes@,
            s == old(r).rest(),
            p0 == old(r).pos,
            p0 <= r.pos <= r.bytes@.len(),
            y <= rows,
            seg * segs * rows <= MAX_RASTER_BYTES,
            packed_rows(s, seg as nat, segs as nat, y as nat, wide) matches Some((d, u)) && out@ == d && r.pos
                == p0 + u,
        decreases rows - y,
    {
        proof {
            let (d, u) = packed_rows(s, seg as nat, segs as nat, y as nat, wide)->0;
            assert(r.rest() =~= s.subrange(u as int, s.len() as int));
            assert(seg * segs <= seg * segs * rows) by (nonlinear_arith)
                requires y < rows;
            assert(seg * segs <= MAX_RASTER_BYTES);
        }
        let counted = if wide {
            match r.read_u16() {
                Ok(_) => true,
                Err(e) => {
                    proof {
                        lemma_packed_rows_none_after(s, seg as nat, segs as nat, y as nat, rows as nat, wide);
                    }
                    return Err(e);
                },
            }
        } else {
            match r.read_u8() {
                Ok(_) => true,
                Err(e) => {
                    proof {
                        lemma_packed_rows_none_after(s, seg as nat, segs as nat, y as nat, rows as nat, wide);
                    }
                    return Err(e);
                },
            }
        };
        let ghost at = r.pos as int;
        proof {
            let (d, u) = packed_rows(s, seg as nat, segs as nat, y as nat, wide)->0;
            let c: int = if wide { 2 } else { 1 };
            assert(at == p0 + u + c);
            assert(r.rest() =~= s.subrange(u + c, s.len() as int));
        }
        let mut row = match read_segments(r, seg, segs) {
            Ok(v) => v,
            Err(e) => {
                proof {
                    lemma_packed_rows_none_after(s, seg as nat, segs as nat, y as nat, rows as nat, wide);
                }
                return Err(e);
            },
        };
        out.append(&mut row);
        y += 1;
    }
    Ok(out)
}

/// Read `n` raw bytes into a vector.
pub fn read_raw(r: &mut Reader<'_>, n: usize) -> (res: Result<Vec<u8>>)
    requires
        old(r).pos <= old(r).bytes@.len(),
    ensures
        final(r).bytes@ == old(r).bytes@,
        final(r).pos <= final(r).bytes@.len(),
        match res {
            Ok(v) => old(r).rem() >= n && v@ == old(r).rest().subrange(0, n as int) && final(r).pos == old(r).pos + n,
            Err(e) => old(r).rem() < n && e is InvalidData,
        },
{
    let s = r.read_bytes(n)?;
    Ok(crate::wire::copy_bytes(s))
}


/// `k` copies of the two-byte unit `(b0, b1)`.
pub open spec fn unit_repeat(b0: u8, b1: u8, k: int) -> Seq<u8> {
    Seq::new((2 * k) as nat, |i: int| if i % 2 == 0 { b0 } else { b1 })
}

/// `o` with `chunk` put in front of its bytes and `c` added to its count.
pub open spec fn prepend(chunk: Seq<u8>, c: nat, o: Option<(Seq<u8>, nat)>) -> Option<(Seq<u8>, nat)> {
    match o {
        Some((d, u)) => Some((chunk + d, c + u)),
        None => None,
    }
}

proof fn lemma_prepend_twice(a: Seq<u8>, x: nat, b: Seq<u8>, y: nat, o: Option<(Seq<u8>, nat)>)
    ensures
        prepend(a, x, prepend(b, y, o)) == prepend(a + b, x + y, o),
{
    if let Some((d, u)) = o {
        assert(a + (b + d) =~= (a + b) + d);
    }
}

/// PackBits over two-byte units: decode `n` units from `s`, giving the
/// `2 * n` bytes and how many input bytes they took.
pub open spec fn pb_decode16(s: Seq<u8>, n: nat) -> Option<(Seq<u8>, nat)>
    decreases s.len(),
{
    if n == 0 {
        Some((Seq::empty(), 0))
    } else if s.len() == 0 {
        None
    } else {
        let flag = s[0];
        if flag < 128 {
            let k = flag as int + 1;
            if k > n || s.len() < 1 + 2 * k {
                None
            } else {
                prepend(s.subrange(1, 1 + 2 * k), (1 + 2 * k) as nat, pb_decode16(s.subrange(1 + 2 * k, s.len() as int), (n - k) as nat))
            }
        } else if flag == 128 {
            prepend(Seq::empty(), 1, pb_decode16(s.subrange(1, s.len() as int), n))
        } else {
            let k = 257 - flag as int;
            if k > n || s.len() < 3 {
                None
            } else {
                prepend(unit_repeat(s[1], s[2], k), 3, pb_decode16(s.subrange(3, s.len() as int), (n - k) as nat))
            }
        }
    }
}

/// Append `bytes` to `out`.
fn append_bytes(out: &mut Vec<u8>, bytes: &[u8])
    ensures
        final(out)@ == old(out)@ + bytes@,
{
    let mut i: usize = 0;
    while i < bytes.len()
        invariant
            i <= bytes@.len(),
            out@ == old(out)@ + bytes@.subrange(0, i as int),
        decreases bytes@.len() - i,
    {
        out.push(bytes[i]);
        proof {
            assert(old(out)@ + bytes@.subrange(0, i + 1) =~= (old(out)@ + bytes@.subrange(0, i as int)).push(bytes@[i as int]));
        }
        i += 1;
    }
    proof {
        assert(bytes@.subrange(0, bytes@.len() as int) =~= bytes@);
    }
}

/// Append `k` copies of the unit `(b0, b1)` to `out`.
fn append_units(out: &mut Vec<u8>, b0: u8, b1: u8, k: usize)
    ensures
        final(out)@ == old(out)@ + unit_repeat(b0, b1, k as int),
{
    let mut i: usize = 0;
    while i < k
        invariant
            i <= k,
            out@ == old(out)@ + unit_repeat(b0, b1, i as int),
        decreases k - i,
    {
        out.push(b0);
        out.push(b1);
        proof {
            assert(old(out)@ + unit_repeat(b0, b1, i + 1) =~= (old(out)@ + unit_repeat(b0, b1, i as int)).push(b0).push(b1));
        }
        i += 1;
    }
}

/// Decode `units` two-byte units of PackBits, appending them to `out`.
#[verifier::rlimit(40)]
pub fn decode_packbits_u16_into(src: &mut Reader<'_>, out: &mut Vec<u8>, units: usize) -> (res: Result<()>)
    requires
        old(src).pos <= old(src).bytes@.len(),
        units * 2 <= MAX_RASTER_BYTES,
    ensures
        final(src).bytes@ == old(src).bytes@,
        match pb_decode16(old(src).rest(), units as nat) {
            Some((data, used)) => res is Ok && final(out)@ == old(out)@ + data && final(src).pos == old(src).pos
                + used && final(src).pos <= final(src).bytes@.len(),
            None => res matches Err(e) && e is InvalidData,
        },
{
    let ghost s0 = old(src).rest();
    let ghost p0 = old(src).pos as int;
    let ghost o0 = old(out)@;
    let mut written: usize = 0;
    proof {
        assert(s0.subrange(0, s0.len() as int) =~= s0);
        assert(out@.subrange(o0.len() as int, out@.len() as int) =~= Seq::<u8>::empty());
        lemma_prepend_twice(Seq::empty(), 0, Seq::empty(), 0, pb_decode16(s0, units as nat));
        if let Some((d, u)) = pb_decode16(s0, units as nat) {
            assert(Seq::<u8>::empty() + d =~= d);
        }
    }
    while written < units
        invariant
            src.bytes@ == old(src).bytes@,
            s0 == old(src).rest(),
            p0 == old(src).pos,
            p0 <= src.pos <= src.bytes@.len(),
            s0.len() == src.bytes@.len() - p0,
            written <= units,
            units * 2 <= MAX_RASTER_BYTES,
            pb_decode16(s0, units as nat) == prepend(
                out@.subrange(o0.len() as int, out@.len() as int),
                (src.pos - p0) as nat,
                pb_decode16(s0.subrange(src.pos - p0, s0.len() as int), (units - written) as nat),
            ),
            out@.len() == o0.len() + 2 * written,
            out@.subrange(0, o0.len() as int) == o0,
        decreases units - written, src.bytes@.len() - src.pos,
    {
        let ghost here = src.pos - p0;
        let ghost cur = s0.subrange(here, s0.len() as int);
        let ghost pre = out@.subrange(o0.len() as int, out@.len() as int);
        let ghost m = (units - written) as nat;
        proof {
            assert(src.rest() =~= cur);
        }
        let flag = match src.read_u8() {
            Ok(f) => f,
            Err(e) => {
                return Err(e);
            },
        };
        if flag < 128 {
            let k = flag as usize + 1;
            if k > units - written {
                return Err(PictError::invalid("PackBits16 raw packet overruns the row"));
            }
            proof {
                assert(k * 2 <= units * 2);
            }
            let bytes = match src.read_bytes(k * 2) {
                Ok(b) => b,
                Err(e) => {
                    return Err(e);
                },
            };
            let ghost before = out@;
            append_bytes(out, bytes);
            proof {
                let chunk = cur.subrange(1, 1 + 2 * k);
                assert(bytes@ =~= chunk);
                assert(out@ =~= before + chunk);
                assert(cur.subrange(1 + 2 * k, cur.len() as int) =~= s0.subrange(src.pos - p0, s0.len() as int));
                lemma_prepend_twice(pre, here as nat, chunk, (1 + 2 * k) as nat, pb_decode16(s0.subrange(src.pos - p0, s0.len() as int), (m - k) as nat));
                assert(out@.subrange(o0.len() as int, out@.len() as int) =~= pre + chunk);
                assert(out@.subrange(0, o0.len() as int) =~= o0);
            }
            written += k;
        } else if flag == 128 {
            proof {
                assert(cur.subrange(1, cur.len() as int) =~= s0.subrange(src.pos - p0, s0.len() as int));
                lemma_prepend_twice(pre, here as nat, Seq::empty(), 1, pb_decode16(s0.subrange(src.pos - p0, s0.len() as int), m));
                assert(pre + Seq::<u8>::empty() =~= pre);
            }
        } else {
            let k = 257 - flag as usize;
            if k > units - written {
                return Err(PictError::invalid("PackBits16 run packet overruns the row"));
            }
            let b0 = match src.read_u8() {
                Ok(b) => b,
                Err(e) => {
                    return Err(e);
                },
            };
            let b1 = match src.read_u8() {
                Ok(b) => b,
                Err(e) => {
                    return Err(e);
                },
            };
            let ghost before = out@;
            append_units(out, b0, b1, k);
            proof {
                let chunk = unit_repeat(b0, b1, k as int);
                assert(out@ =~= before + chunk);
                assert(cur.subrange(3, cur.len() as int) =~= s0.subrange(src.pos - p0, s0.len() as int));
                lemma_prepend_twice(pre, here as nat, chunk, 3, pb_decode16(s0.subrange(src.pos - p0, s0.len() as int), (m - k) as nat));
                assert(out@.subrange(o0.len() as int, out@.len() as int) =~= pre + chunk);
                assert(out@.subrange(0, o0.len() as int) =~= o0);
            }
            written += k;
        }
    }
    proof {
        assert(out@ =~= o0 + out@.subrange(o0.len() as int, out@.len() as int));
        let rest = s0.subrange(src.pos - p0, s0.len() as int);
        assert(pb_decode16(rest, 0) == Some((Seq::<u8>::empty(), 0nat)));
        assert(out@.subrange(o0.len() as int, out@.len() as int) + Seq::<u8>::empty() =~= out@.subrange(o0.len() as int, out@.len() as int));
    }
    Ok(())
}


/// `rows` rows of `units` two-byte PackBits units, each behind a byte
/// count (two bytes when `wide`, one otherwise; not consulted).
pub open spec fn packed16_rows(s: Seq<u8>, units: nat, rows: nat, wide: bool) -> Option<(Seq<u8>, nat)>
    decreases rows,
{
    if rows == 0 {
        Some((Seq::empty(), 0))
    } else {
        match packed16_rows(s, units, (rows - 1) as nat, wide) {
            Some((d, u)) => {
                let c: nat = if wide { 2 } else { 1 };
                if s.len() < u + c {
                    None
                } else {
                    match pb_decode16(s.subrange((u + c) as int, s.len() as int), units) {
                        Some((d2, u2)) => Some((d + d2, u + c + u2)),
                        None => None,
                    }
                }
            },
            None => None,
        }
    }
}

proof fn lemma_packed16_rows_none_after(s: Seq<u8>, units: nat, i: nat, rows: nat, wide: bool)
    requires
        i < rows,
        packed16_rows(s, units, (i + 1) as nat, wide) is None,
    ensures
        packed16_rows(s, units, rows, wide) is None,
    decreases rows,
{
    if rows > i + 1 {
        lemma_packed16_rows_none_after(s, units, i, (rows - 1) as nat, wide);
    }
}

/// Read `rows` rows of two-byte-unit PackBits (see [`packed16_rows`]).
pub fn read_packed16_rows(r: &mut Reader<'_>, units: usize, rows: usize, wide: bool) -> (res: Result<Vec<u8>>)
    requires
        old(r).pos <= old(r).bytes@.len(),
        units * 2 <= MAX_RASTER_BYTES,
    ensures
        final(r).bytes@ == old(r).bytes@,
        match packed16_rows(old(r).rest(), units as nat, rows as nat, wide) {
            Some((d, u)) => res matches Ok(v) && v@ == d && final(r).pos == old(r).pos + u
                && final(r).pos <= final(r).bytes@.len(),
            None => res matches Err(e) && e is InvalidData,
        },
{
    let ghost s = old(r).rest();
    let ghost p0 = old(r).pos as int;
    let mut out: Vec<u8> = Vec::new();
    let mut y: usize = 0;
    while y < rows
        invariant
            r.bytes@ == old(r).bytes@,
            s == old(r).rest(),
            p0 == old(r).pos,
            p0 <= r.pos <= r.bytes@.len(),
            y <= rows,
            units * 2 <= MAX_RASTER_BYTES,
            packed16_rows(s, units as nat, y as nat, wide) matches Some((d, u)) && out@ == d && r.pos == p0 + u,
        decreases rows - y,
    {
        proof {
            let (d, u) = packed16_rows(s, units as nat, y as nat, wide)->0;
            assert(r.rest() =~= s.subrange(u as int, s.len() as int));
        }
        if wide {
            if let Err(e) = r.read_u16() {
                proof {
                    lemma_packed16_rows_none_after(s, units as nat, y as nat, rows as nat, wide);
                }
                return Err(e);
            }
        } else {
            if let Err(e) = r.read_u8() {
                proof {
                    lemma_packed16_rows_none_after(s, units as nat, y as nat, rows as nat, wide);
                }
                return Err(e);
            }
        }
        proof {
            let (d, u) = packed16_rows(s, units as nat, y as nat, wide)->0;
            let c: int = if wide { 2 } else { 1 };
            assert(r.rest() =~= s.subrange(u + c, s.len() as int));
        }
        let ghost before = out@;
        match decode_packbits_u16_into(r, &mut out, units) {
            Ok(()) => {},
            Err(e) => {
                proof {
                    lemma_packed16_rows_none_after(s, units as nat, y as nat, rows as nat, wide);
                }
                return Err(e);
            },
        }
        y += 1;
    }
    Ok(out)
}

} // verus!

//! PICT writer: RGBA rasters as `DirectBitsRect` (v2 and v1 framing),
//! one-bit `BitsRect` / `PackBitsRect` bitmaps, indexed pixel maps,
//! colour pixel patterns and rectangular clip regions.
use vstd::prelude::*;
use crate::error::{PictError, Result};
use crate::header::{header_wire, Fixed, PictHeader};
use crate::packbits::{self, pb_encode, pb_encode16};
use crate::state::RectI32;
use crate::wire::{
    i16_bytes, u16_bytes, u32_bytes, write_bytes, write_i16, write_u16, write_u32,
};

verus! {

// ---------------------------------------------------------------------------
// Pack types and the pixel-row layouts.
// ---------------------------------------------------------------------------

/// Selection of the `DirectBitsRect` on-disk encoding.
#[derive(Debug, Clone, Copy, PartialEq, Eq, Structural)]
pub enum PackType {
    /// packType 1: four bytes per pixel (`0xFF R G B`).
    Raw,
    /// packType 2: three bytes per pixel (`R G B`).
    Packed24,
    /// packType 3: 16-bit `A1R5G5B5` pixels, each row PackBits-coded in
    /// 16-bit units.
    Rle16,
    /// packType 4: each row split into R, G and B planes, each plane
    /// PackBits-coded.
    ComponentPackBits,
}

/// The `packType` word written for `p`.
pub open spec fn pack_word(p: PackType) -> int {
    match p {
        PackType::Raw => 1,
        PackType::Packed24 => 2,
        PackType::Rle16 => 3,
        PackType::ComponentPackBits => 4,
    }
}

/// The uncompressed row stride written into the PixMap header.
pub open spec fn row_bytes_raw(p: PackType, w: int) -> int {
    if p is Rle16 { w * 2 } else { w * 4 }
}

/// `packType 1` pixels of the first `n` RGBA quads of `row`.
pub open spec fn raw_pixels(row: Seq<u8>, n: int) -> Seq<u8>
    decreases n,
{
    if n <= 0 {
        Seq::empty()
    } else {
        raw_pixels(row, n - 1) + seq![0xFFu8, row[4 * (n - 1)], row[4 * (n - 1) + 1], row[4 * (n - 1) + 2]]
    }
}

/// `packType 2` pixels of the first `n` RGBA quads of `row`.
pub open spec fn rgb_pixels(row: Seq<u8>, n: int) -> Seq<u8>
    decreases n,
{
    if n <= 0 {
        Seq::empty()
    } else {
        rgb_pixels(row, n - 1) + seq![row[4 * (n - 1)], row[4 * (n - 1) + 1], row[4 * (n - 1) + 2]]
    }
}

/// Channel `c` of every RGBA quad of `row` (a colour plane).
pub open spec fn plane(row: Seq<u8>, n: int, c: int) -> Seq<u8> {
    Seq::new(n as nat, |x: int| row[4 * x + c])
}

/// The `A1R5G5B5` pixel for 8-bit channels (alpha bit always set).
pub open spec fn pixel16(r: u8, g: u8, b: u8) -> u16 {
    (0x8000 + (r / 8) as int * 1024 + (g / 8) as int * 32 + (b / 8) as int) as u16
}

/// The `A1R5G5B5` pixels of a row.
pub open spec fn pixels16(row: Seq<u8>, n: int) -> Seq<u16> {
    Seq::new(n as nat, |x: int| pixel16(row[4 * x], row[4 * x + 1], row[4 * x + 2]))
}

/// The byte count that precedes a packed row: one byte when the
/// uncompressed stride is at most 250, two bytes otherwise.
pub open spec fn byte_count(rbr: int, total: int) -> Seq<u8> {
    if rbr > 250 {
        u16_bytes(total % 65536)
    } else {
        seq![(total % 256) as u8]
    }
}

/// The on-disk form of one RGBA row of `w` pixels under `p`.
pub open spec fn row_spec(p: PackType, row: Seq<u8>, w: int) -> Seq<u8> {
    match p {
        PackType::Raw => raw_pixels(row, w),
        PackType::Packed24 => rgb_pixels(row, w),
        PackType::Rle16 => {
            let e = pb_encode16(pixels16(row, w));
            byte_count(w * 2, e.len() as int) + e
        },
        PackType::ComponentPackBits => {
            let rc = pb_encode(plane(row, w, 0));
            let gc = pb_encode(plane(row, w, 1));
            let bc = pb_encode(plane(row, w, 2));
            byte_count(w * 4, (rc.len() + gc.len() + bc.len()) as int) + rc + gc + bc
        },
    }
}

/// Row `y` of a `w`-pixel-wide RGBA raster.
pub open spec fn rgba_row(data: Seq<u8>, w: int, y: int) -> Seq<u8> {
    data.subrange(y * w * 4, (y + 1) * w * 4)
}

/// The on-disk rows `0..y` of an RGBA raster.
pub open spec fn rows_spec(p: PackType, data: Seq<u8>, w: int, y: int) -> Seq<u8>
    decreases y,
{
    if y <= 0 {
        Seq::empty()
    } else {
        rows_spec(p, data, w, y - 1) + row_spec(p, rgba_row(data, w, y - 1), w)
    }
}

proof fn lemma_row_bounds(w: int, h: int, y: int)
    requires
        0 <= y < h,
        0 <= w,
    ensures
        0 <= y * w * 4,
        y * w * 4 + w * 4 == (y + 1) * w * 4,
        (y + 1) * w * 4 <= h * w * 4,
{
    assert(0 <= y * w * 4) by (nonlinear_arith)
        requires 0 <= y, 0 <= w;
    assert(y * w * 4 + w * 4 == (y + 1) * w * 4) by (nonlinear_arith);
    assert((y + 1) * w * 4 <= h * w * 4) by (nonlinear_arith)
        requires y + 1 <= h, 0 <= w;
}

fn write_count(out: &mut Vec<u8>, rbr: usize, total: usize)
    ensures
        final(out)@ == old(out)@ + byte_count(rbr as int, total as int),
{
    if rbr > 250 {
        write_u16(out, (total % 65536) as u16);
    } else {
        out.push((total % 256) as u8);
        assert(final(out)@ =~= old(out)@ + byte_count(rbr as int, total as int));
    }
}

fn extract_plane(row: &[u8], w: usize, c: usize) -> (p: Vec<u8>)
    requires
        row@.len() == w * 4,
        w * 4 < 0x8000,
        c < 4,
    ensures
        p@ == plane(row@, w as int, c as int),
{
    let mut p: Vec<u8> = Vec::new();
    let mut x: usize = 0;
    while x < w
        invariant
            row@.len() == w * 4,
            w * 4 < 0x8000,
            c < 4,
            x <= w,
            p@ =~= plane(row@, x as int, c as int),
        decreases w - x,
    {
        p.push(row[4 * x + c]);
        x += 1;
    }
    p
}

/// Append the on-disk form of one RGBA row.
#[verifier::rlimit(80)]
#[verifier::spinoff_prover]
fn write_row(out: &mut Vec<u8>, row: &[u8], w: usize, pack: PackType)
    requires
        row@.len() == w * 4,
        w * 4 < 0x8000,
    ensures
        final(out)@ == old(out)@ + row_spec(pack, row@, w as int),
{
    match pack {
        PackType::Raw => {
            let ghost start = out@;
            let mut x: usize = 0;
            while x < w
                invariant
                    row@.len() == w * 4,
                    w * 4 < 0x8000,
                    x <= w,
                    out@ == start + raw_pixels(row@, x as int),
                decreases w - x,
            {
                out.push(0xFF);
                out.push(row[4 * x]);
                out.push(row[4 * x + 1]);
                out.push(row[4 * x + 2]);
                x += 1;
                assert(out@ =~= start + raw_pixels(row@, x as int));
            }
        },
        PackType::Packed24 => {
            let ghost start = out@;
            let mut x: usize = 0;
            while x < w
                invariant
                    row@.len() == w * 4,
                    w * 4 < 0x8000,
                    x <= w,
                    out@ == start + rgb_pixels(row@, x as int),
                decreases w - x,
            {
                out.push(row[4 * x]);
                out.push(row[4 * x + 1]);
                out.push(row[4 * x + 2]);
                x += 1;
                assert(out@ =~= start + rgb_pixels(row@, x as int));
            }
        },
        PackType::Rle16 => {
            let mut units: Vec<u16> = Vec::new();
            let mut x: usize = 0;
            while x < w
                invariant
                    row@.len() == w * 4,
                    w * 4 < 0x8000,
                    x <= w,
                    units@ =~= pixels16(row@, x as int),
                decreases w - x,
            {
                let r = row[4 * x];
                let g = row[4 * x + 1];
                let b = row[4 * x + 2];
                units.push(
                    (0x8000u32 + (r / 8) as u32 * 1024 + (g / 8) as u32 * 32 + (b / 8) as u32) as u16,
                );
                x += 1;
            }
            let encoded = packbits::encode_u16(units.as_slice());
            write_count(out, w * 2, encoded.len());
            write_bytes(out, encoded.as_slice());
        },
        PackType::ComponentPackBits => {
            let rp = extract_plane(row, w, 0);
            let gp = extract_plane(row, w, 1);
            let bp = extract_plane(row, w, 2);
            let rc = packbits::encode(rp.as_slice());
            let gc = packbits::encode(gp.as_slice());
            let bc = packbits::encode(bp.as_slice());
            let total = rc.len() as u128 + gc.len() as u128 + bc.len() as u128;
            let ghost start = out@;
            let total_us: usize = ((total % 65536) as usize);
            proof {
                assert((total_us as int) % 65536 == (rc@.len() + gc@.len() + bc@.len()) % 65536);
                assert((total_us as int) % 256 == (rc@.len() + gc@.len() + bc@.len()) % 256);
            }
            write_count(out, w * 4, total_us);
            write_bytes(out, rc.as_slice());
            write_bytes(out, gc.as_slice());
            write_bytes(out, bc.as_slice());
            assert(out@ =~= start + row_spec(pack, row@, w as int));
        },
    }
}

/// Append the per-row pixel data of an RGBA raster for a
/// `DirectBitsRect`-style opcode.
fn write_pixel_rows(out: &mut Vec<u8>, width: u32, height: u32, data: &[u8], pack: PackType)
    requires
        data@.len() == width as int * height as int * 4,
        width as int * 4 < 0x8000,
    ensures
        final(out)@ == old(out)@ + rows_spec(pack, data@, width as int, height as int),
{
    let w = width as usize;
    let ghost start = out@;
    let n = data.len();
    let mut y: usize = 0;
    while y < height as usize
        invariant
            w == width,
            n == data@.len(),
            n <= usize::MAX,
            data@.len() == width as int * height as int * 4,
            width as int * 4 < 0x8000,
            y <= height,
            out@ == start + rows_spec(pack, data@, w as int, y as int),
        decreases height - y,
    {
        proof {
            lemma_row_bounds(w as int, height as int, y as int);
            assert(height as int * w as int * 4 == data@.len()) by (nonlinear_arith)
                requires data@.len() == w as int * height as int * 4;
            assert(y as int * w as int <= y as int * w as int * 4) by (nonlinear_arith)
                requires 0 <= y, 0 <= w;
        }
        let lo = y * w * 4;
        let row = vstd::slice::slice_subrange(data, lo, lo + w * 4);
        write_row(out, row, w, pack);
        y += 1;
        assert(out@ =~= start + rows_spec(pack, data@, w as int, y as int));
    }
}

// ---------------------------------------------------------------------------
// Whole-picture layouts.
// ---------------------------------------------------------------------------

/// The low 16 bits of a dimension, as the on-disk `i16` field holds it.
pub open spec fn dim16(v: u32) -> Seq<u8> {
    u16_bytes((v % 65536) as int)
}

/// `(0, 0, height, width)` as four on-disk words.
pub open spec fn frame_bytes(w: u32, h: u32) -> Seq<u8> {
    u16_bytes(0) + u16_bytes(0) + dim16(h) + dim16(w)
}

/// The extended-v2 header at 72 dpi for a `w x h` picture.
pub open spec fn frame_header(w: u32, h: u32) -> PictHeader {
    PictHeader::ExtendedV2 {
        hres: Fixed(0x0048_0000),
        vres: Fixed(0x0048_0000),
        optimal_source_rect: RectI32 {
            top: 0,
            left: 0,
            bottom: low_i16(h as int) as i32,
            right: low_i16(w as int) as i32,
        },
    }
}

/// The low 16 bits of `v` read as a signed value.
pub open spec fn low_i16(v: int) -> int {
    let m = v % 65536;
    if m >= 32768 { m - 65536 } else { m }
}

/// Everything a v2 picture of `w x h` starts with: the launch stub,
/// `picSize = 0`, `picFrame`, the version stanza and the header.
pub open spec fn v2_start(w: u32, h: u32) -> Seq<u8> {
    Seq::new(512, |i: int| 0u8) + u16_bytes(0) + frame_bytes(w, h) + u16_bytes(0x0011) + u16_bytes(
        0x02FF,
    ) + u16_bytes(0x0C00) + header_wire(frame_header(w, h))
}

/// Everything a v1 picture of `w x h` starts with: `picSize = 0`,
/// `picFrame` and the `$11 $01` version stanza.
pub open spec fn v1_start(w: u32, h: u32) -> Seq<u8> {
    u16_bytes(0) + frame_bytes(w, h) + seq![0x11u8, 0x01u8]
}

/// The PixMap fields of a direct-colour raster (after `baseAddr`,
/// before the source rectangle).
pub open spec fn direct_pixmap(p: PackType, w: u32, h: u32) -> Seq<u8> {
    u16_bytes(row_bytes_raw(p, w as int) + 0x8000) + frame_bytes(w, h) + u16_bytes(0) + u16_bytes(
        pack_word(p),
    ) + u32_bytes(0) + u32_bytes(0x0048_0000) + u32_bytes(0x0048_0000) + u16_bytes(16) + u16_bytes(
        if p is Rle16 { 16 } else { 32 },
    ) + u16_bytes(3) + u16_bytes(if p is Rle16 { 5 } else { 8 }) + u32_bytes(0) + u32_bytes(0)
        + u32_bytes(0)
}

/// The `DirectBitsRect` record (after the opcode) drawing a `w x h`
/// raster into `dst` with transfer mode `mode`.
pub open spec fn direct_bits_body(
    p: PackType,
    w: u32,
    h: u32,
    dst: Seq<u8>,
    mode: u16,
    data: Seq<u8>,
) -> Seq<u8> {
    u32_bytes(0xFF) + direct_pixmap(p, w, h) + frame_bytes(w, h) + dst + u16_bytes(mode as int)
        + rows_spec(p, data, w as int, h as int)
}

/// `b` padded with a zero byte when its length is odd.
pub open spec fn pad_even(b: Seq<u8>) -> Seq<u8> {
    if b.len() % 2 == 1 { b.push(0) } else { b }
}

/// The dimensions and buffer an RGBA encoder accepts.
pub open spec fn dims_ok(width: u32, height: u32, len: int) -> bool {
    width > 0 && height > 0 && len == width as int * height as int * 4
}

/// Reject zero dimensions and a buffer that is not `width * height * 4`
/// bytes.
fn validate_dims(width: u32, height: u32, data: &[u8]) -> (res: Result<()>)
    ensures
        res is Ok <==> dims_ok(width, height, data@.len() as int),
        res is Err ==> res->Err_0 is InvalidData,
{
    if width == 0 || height == 0 {
        return Err(PictError::invalid("encode: width and height must be non-zero"));
    }
    proof {
        assert(width as int * height as int <= 0xFFFF_FFFF * 0xFFFF_FFFF) by (nonlinear_arith)
            requires width <= 0xFFFF_FFFF, height <= 0xFFFF_FFFF;
    }
    let expected = (width as u64) * (height as u64);
    let len = data.len();
    if expected > (usize::MAX / 4) as u64 {
        return Err(PictError::invalid("encode: raster too large"));
    }
    if data.len() != (expected as usize) * 4 {
        return Err(PictError::invalid("encode: data length is not width x height x 4"));
    }
    Ok(())
}

fn write_dim(out: &mut Vec<u8>, v: u32)
    ensures
        final(out)@ == old(out)@ + dim16(v),
{
    write_u16(out, (v % 65536) as u16);
}

fn write_frame(out: &mut Vec<u8>, w: u32, h: u32)
    ensures
        final(out)@ == old(out)@ + frame_bytes(w, h),
{
    write_u16(out, 0);
    write_u16(out, 0);
    write_dim(out, h);
    write_dim(out, w);
    assert(final(out)@ =~= old(out)@ + frame_bytes(w, h));
}

fn write_zeros(out: &mut Vec<u8>, n: usize)
    ensures
        final(out)@ == old(out)@ + Seq::new(n as nat, |i: int| 0u8),
{
    let ghost start = out@;
    let mut i: usize = 0;
    while i < n
        invariant
            i <= n,
            out@ == start + Seq::new(i as nat, |k: int| 0u8),
        decreases n - i,
    {
        out.push(0);
        i += 1;
        assert(out@ =~= start + Seq::new(i as nat, |k: int| 0u8));
    }
}

fn trunc_i16(v: u32) -> (r: i16)
    ensures
        r as int == low_i16(v as int),
{
    let m = v % 65536;
    if m >= 32768 {
        (m as i32 - 65536) as i16
    } else {
        m as i16
    }
}

/// Append the v2 picture start for a `w x h` frame.
fn write_v2_start(out: &mut Vec<u8>, w: u32, h: u32)
    ensures
        final(out)@ == old(out)@ + v2_start(w, h),
{
    write_zeros(out, 512);
    write_u16(out, 0);
    write_frame(out, w, h);
    write_u16(out, 0x0011);
    write_u16(out, 0x02FF);
    write_u16(out, 0x0C00);
    let pf = RectI32::from_be(0, 0, trunc_i16(h), trunc_i16(w));
    let header = PictHeader::extended_v2_72dpi(pf);
    let wire = header.to_wire();
    write_bytes(out, wire.as_slice());
    assert(final(out)@ =~= old(out)@ + v2_start(w, h));
}

fn write_direct_pixmap(out: &mut Vec<u8>, pack: PackType, w: u32, h: u32)
    requires
        w as int * 4 < 0x8000,
    ensures
        final(out)@ == old(out)@ + direct_pixmap(pack, w, h),
{
    let rbr: u16 = match pack {
        PackType::Rle16 => (w * 2) as u16,
        _ => (w * 4) as u16,
    };
    let word: u16 = match pack {
        PackType::Raw => 1,
        PackType::Packed24 => 2,
        PackType::Rle16 => 3,
        PackType::ComponentPackBits => 4,
    };
    let (pixel_size, comp_size): (u16, u16) = match pack {
        PackType::Rle16 => (16, 5),
        _ => (32, 8),
    };
    write_u16(out, rbr + 0x8000);
    write_frame(out, w, h);
    write_u16(out, 0);
    write_u16(out, word);
    write_u32(out, 0);
    write_u32(out, 0x0048_0000);
    write_u32(out, 0x0048_0000);
    write_u16(out, 16);
    write_u16(out, pixel_size);
    write_u16(out, 3);
    write_u16(out, comp_size);
    write_u32(out, 0);
    write_u32(out, 0);
    write_u32(out, 0);
    assert(final(out)@ =~= old(out)@ + direct_pixmap(pack, w, h));
}

/// Append a `DirectBitsRect` record body (everything after the opcode).
fn write_direct_record(
    out: &mut Vec<u8>,
    pack: PackType,
    w: u32,
    h: u32,
    dst: &[u8],
    mode: u16,
    data: &[u8],
)
    requires
        w as int * 4 < 0x8000,
        data@.len() == w as int * h as int * 4,
    ensures
        final(out)@ == old(out)@ + direct_bits_body(pack, w, h, dst@, mode, data@),
{
    write_u32(out, 0xFF);
    write_direct_pixmap(out, pack, w, h);
    write_frame(out, w, h);
    write_bytes(out, dst);
    write_u16(out, mode);
    write_pixel_rows(out, w, h, data, pack);
    assert(final(out)@ =~= old(out)@ + direct_bits_body(pack, w, h, dst@, mode, data@));
}

fn frame_vec(w: u32, h: u32) -> (v: Vec<u8>)
    ensures
        v@ == frame_bytes(w, h),
{
    let mut v = Vec::new();
    write_frame(&mut v, w, h);
    v
}

/// The stride limit of a v2 direct raster: `width * 4` (or `* 3` for
/// packType 2) must fit 14 bits.
pub open spec fn v2_stride_ok(p: PackType, w: u32) -> bool {
    match p {
        PackType::Raw => w as int * 4 <= 0x3FFF,
        PackType::Packed24 => w as int * 3 <= 0x3FFF,
        PackType::Rle16 => w as int * 4 <= 0x3FFF,
        PackType::ComponentPackBits => w as int * 4 <= 0x3FFF,
    }
}

/// The v2 stream [`encode_pict_v2`] produces.
pub open spec fn pict_v2_spec(w: u32, h: u32, data: Seq<u8>, p: PackType) -> Seq<u8> {
    pad_even(v2_start(w, h) + u16_bytes(0x009A) + direct_bits_body(p, w, h, frame_bytes(w, h), 0, data))
        + u16_bytes(0x00FF)
}

/// Encode an RGBA raster as a v2 PICT with one `packType = 1`
/// `DirectBitsRect`.
pub fn encode_pict(width: u32, height: u32, data: &[u8]) -> (res: Result<Vec<u8>>)
    ensures
        res is Ok <==> (dims_ok(width, height, data@.len() as int) && v2_stride_ok(PackType::Raw, width)),
        match res {
            Ok(out) => out@ == pict_v2_spec(width, height, data@, PackType::Raw),
            Err(e) => e is InvalidData,
        },
{
    encode_pict_v2(width, height, data, PackType::Raw)
}

/// Encode an RGBA raster (`width * height * 4` bytes, row-major) as a v2
/// PICT: launch stub, picture record, header, one `DirectBitsRect`
/// drawing the raster over the whole frame, `OpEndPic`. `InvalidData`
/// for zero dimensions, a buffer of the wrong size, or a row stride
/// over 14 bits.
pub fn encode_pict_v2(width: u32, height: u32, data: &[u8], pack: PackType) -> (res: Result<
    Vec<u8>,
>)
    ensures
        res is Ok <==> (dims_ok(width, height, data@.len() as int) && v2_stride_ok(pack, width)),
        match res {
            Ok(out) => out@ == pict_v2_spec(width, height, data@, pack),
            Err(e) => e is InvalidData,
        },
{
    validate_dims(width, height, data)?;
    let disk: u64 = match pack {
        PackType::Raw => width as u64 * 4,
        PackType::Packed24 => width as u64 * 3,
        PackType::Rle16 => width as u64 * 4,
        PackType::ComponentPackBits => width as u64 * 4,
    };
    if disk > 0x3FFF {
        return Err(PictError::invalid("encode: rowBytes exceeds the 14-bit PixMap limit"));
    }
    let mut out: Vec<u8> = Vec::new();
    write_v2_start(&mut out, width, height);
    write_u16(&mut out, 0x009A);
    let dst = frame_vec(width, height);
    write_direct_record(&mut out, pack, width, height, dst.as_slice(), 0, data);
    let ghost body = out@;
    if out.len() % 2 != 0 {
        out.push(0);
    }
    assert(out@ == pad_even(body));
    write_u16(&mut out, 0x00FF);
    Ok(out)
}

/// The v1 stream [`encode_pict_v1_with`] produces.
pub open spec fn pict_v1_spec(w: u32, h: u32, data: Seq<u8>, p: PackType) -> Seq<u8> {
    v1_start(w, h) + seq![0x9Au8] + direct_bits_body(p, w, h, frame_bytes(w, h), 0, data) + seq![
        0xFFu8,
    ]
}

/// Encode an RGBA raster as a v1 PICT with one `packType = 1`
/// `DirectBitsRect`.
pub fn encode_pict_v1(width: u32, height: u32, data: &[u8]) -> (res: Result<Vec<u8>>)
    ensures
        res is Ok <==> (dims_ok(width, height, data@.len() as int) && width as int * 4 <= 0x3FFF),
        match res {
            Ok(out) => out@ == pict_v1_spec(width, height, data@, PackType::Raw),
            Err(e) => e is InvalidData,
        },
{
    encode_pict_v1_with(width, height, data, PackType::Raw)
}

/// Encode an RGBA raster as a v1 PICT: `picSize = 0`, `picFrame`, the
/// `$11 $01` stanza, a one-byte `$9A` `DirectBitsRect` with the same
/// PixMap layout as in v2, and the one-byte `$FF` end (no launch stub,
/// no alignment). `InvalidData` for zero dimensions, a buffer of the
/// wrong size, or an uncompressed stride over 14 bits.
pub fn encode_pict_v1_with(width: u32, height: u32, data: &[u8], pack: PackType) -> (res: Result<
    Vec<u8>,
>)
    ensures
        res is Ok <==> (dims_ok(width, height, data@.len() as int) && row_bytes_raw(
            pack,
            width as int,
        ) <= 0x3FFF),
        match res {
            Ok(out) => out@ == pict_v1_spec(width, height, data@, pack),
            Err(e) => e is InvalidData,
        },
{
    validate_dims(width, height, data)?;
    let rbr: u64 = match pack {
        PackType::Rle16 => width as u64 * 2,
        _ => width as u64 * 4,
    };
    if rbr > 0x3FFF {
        return Err(PictError::invalid("encode_pict_v1: rowBytes exceeds the 14-bit limit"));
    }
    assert(width as u64 * 4 < 0x8000);
    let mut out: Vec<u8> = Vec::new();
    write_u16(&mut out, 0);
    write_frame(&mut out, width, height);
    out.push(0x11);
    out.push(0x01);
    out.push(0x9A);
    let dst = frame_vec(width, height);
    write_direct_record(&mut out, pack, width, height, dst.as_slice(), 0, data);
    out.push(0xFF);
    assert(out@ =~= pict_v1_spec(width, height, data@, pack));
    Ok(out)
}

/// A `DirectBitsRect` (`0x009A`) opcode drawing an RGBA raster whose
/// size is the destination rectangle's, in `srcCopy` mode.
pub fn build_direct_bits_rect_op(
    top: i16,
    left: i16,
    bottom: i16,
    right: i16,
    data: &[u8],
    pack: PackType,
) -> (res: Result<Vec<u8>>)
    ensures
        res is Ok <==> (top < bottom && left < right && data@.len() == (right - left) * (bottom
            - top) * 4 && row_bytes_raw(pack, right - left) <= 0x3FFF),
        match res {
            Ok(out) => out@ == u16_bytes(0x009A) + direct_bits_body(
                pack,
                (right - left) as u32,
                (bottom - top) as u32,
                i16_bytes(top as int) + i16_bytes(left as int) + i16_bytes(bottom as int)
                    + i16_bytes(right as int),
                0,
                data@,
            ),
            Err(e) => e is InvalidData,
        },
{
    build_direct_bits_rect_op_with_mode(top, left, bottom, right, data, pack, 0)
}

/// [`build_direct_bits_rect_op`] with an explicit transfer-mode word.
pub fn build_direct_bits_rect_op_with_mode(
    top: i16,
    left: i16,
    bottom: i16,
    right: i16,
    data: &[u8],
    pack: PackType,
    mode: u16,
) -> (res: Result<Vec<u8>>)
    ensures
        res is Ok <==> (top < bottom && left < right && data@.len() == (right - left) * (bottom
            - top) * 4 && row_bytes_raw(pack, right - left) <= 0x3FFF),
        match res {
            Ok(out) => out@ == u16_bytes(0x009A) + direct_bits_body(
                pack,
                (right - left) as u32,
                (bottom - top) as u32,
                i16_bytes(top as int) + i16_bytes(left as int) + i16_bytes(bottom as int)
                    + i16_bytes(right as int),
                mode,
                data@,
            ),
            Err(e) => e is InvalidData,
        },
{
    if bottom <= top || right <= left {
        return Err(PictError::invalid("build_direct_bits_rect_op: degenerate rectangle"));
    }
    let width = (right as i32 - left as i32) as u32;
    let height = (bottom as i32 - top as i32) as u32;
    proof {
        assert(width as int * height as int * 4 <= 65535 * 65535 * 4) by (nonlinear_arith)
            requires width <= 65535, height <= 65535;
    }
    let expected = (width as u64) * (height as u64) * 4;
    if data.len() as u64 != expected {
        return Err(PictError::invalid("build_direct_bits_rect_op: data length is not width x height x 4"));
    }
    let rbr: u64 = match pack {
        PackType::Rle16 => width as u64 * 2,
        _ => width as u64 * 4,
    };
    if rbr > 0x3FFF {
        return Err(PictError::invalid("build_direct_bits_rect_op: rowBytes exceeds the 14-bit limit"));
    }
    assert(width as u64 * 4 < 0x8000);
    let mut dst: Vec<u8> = Vec::new();
    write_i16(&mut dst, top);
    write_i16(&mut dst, left);
    write_i16(&mut dst, bottom);
    write_i16(&mut dst, right);
    let mut buf: Vec<u8> = Vec::new();
    write_u16(&mut buf, 0x009A);
    write_direct_record(&mut buf, pack, width, height, dst.as_slice(), mode, data);
    assert(buf@ =~= u16_bytes(0x009A) + direct_bits_body(
        pack,
        width,
        height,
        i16_bytes(top as int) + i16_bytes(left as int) + i16_bytes(bottom as int) + i16_bytes(
            right as int,
        ),
        mode,
        data@,
    ));
    Ok(buf)
}

// ---------------------------------------------------------------------------
// Clip regions.
// ---------------------------------------------------------------------------

pub open spec fn clip_rgn_rect_op(top: i16, left: i16, bottom: i16, right: i16) -> Seq<u8> {
    u16_bytes(0x0001) + u16_bytes(10) + i16_bytes(top as int) + i16_bytes(left as int) + i16_bytes(
        bottom as int,
    ) + i16_bytes(right as int)
}

/// A `ClipRgn` (`0x0001`) opcode carrying a rectangular region
/// (`rgnSize = 10`).
pub fn build_clip_rgn_rect(top: i16, left: i16, bottom: i16, right: i16) -> (buf: Vec<u8>)
    ensures
        buf@ == clip_rgn_rect_op(top, left, bottom, right),
{
    let mut buf = Vec::new();
    write_u16(&mut buf, 0x0001);
    write_u16(&mut buf, 10);
    write_i16(&mut buf, top);
    write_i16(&mut buf, left);
    write_i16(&mut buf, bottom);
    write_i16(&mut buf, right);
    assert(buf@ =~= clip_rgn_rect_op(top, left, bottom, right));
    buf
}

/// [`encode_pict_v2`] with a rectangular `ClipRgn` inserted right after
/// the header (at offset 552), before the raster.
pub fn encode_pict_v2_with_clip(
    width: u32,
    height: u32,
    data: &[u8],
    pack: PackType,
    clip: [i16; 4],
) -> (res: Result<Vec<u8>>)
    ensures
        res is Ok <==> (dims_ok(width, height, data@.len() as int) && v2_stride_ok(pack, width)),
        match res {
            Ok(out) => {
                let base = pict_v2_spec(width, height, data@, pack);
                out@ == base.subrange(0, 552) + clip_rgn_rect_op(clip[0], clip[1], clip[2], clip[3])
                    + base.subrange(552, base.len() as int)
            },
            Err(e) => e is InvalidData,
        },
{
    let base = encode_pict_v2(width, height, data, pack)?;
    assert(base@.len() >= 552);
    let clip_bytes = build_clip_rgn_rect(clip[0], clip[1], clip[2], clip[3]);
    let mut out: Vec<u8> = Vec::new();
    write_bytes(&mut out, vstd::slice::slice_subrange(base.as_slice(), 0, 552));
    write_bytes(&mut out, clip_bytes.as_slice());
    write_bytes(&mut out, vstd::slice::slice_subrange(base.as_slice(), 552, base.len()));
    Ok(out)
}

// ---------------------------------------------------------------------------
// Pixel-data sizes.
// ---------------------------------------------------------------------------

/// Bytes of pixel data of a raster, uncompressed (`width * height * 4`)
/// and under `pack` (rows plus byte counts).
pub open spec fn packed_size_spec(p: PackType, data: Seq<u8>, w: int, h: int) -> int {
    match p {
        PackType::Raw => w * h * 4,
        PackType::Packed24 => w * h * 3,
        _ => rows_spec(p, data, w, h).len() as int,
    }
}

/// `(raw, packed)` byte counts of the pixel data `pack` produces for an
/// RGBA raster.
pub fn pixel_data_sizes(width: u32, height: u32, data: &[u8], pack: PackType) -> (r: (usize, usize))
    requires
        width as int * height as int * 4 <= usize::MAX,
        !(pack is Raw || pack is Packed24) ==> data@.len() == width as int * height as int * 4,
        !(pack is Raw || pack is Packed24) ==> width as int * 4 < 0x8000,
    ensures
        r.0 == width as int * height as int * 4,
        r.1 == packed_size_spec(pack, data@, width as int, height as int),
{
    proof {
        assert(0 <= width as int * height as int) by (nonlinear_arith);
    }
    let n: usize = (width as usize) * (height as usize);
    let raw_size = n * 4;
    match pack {
        PackType::Raw => (raw_size, raw_size),
        PackType::Packed24 => (raw_size, n * 3),
        _ => {
            let mut out: Vec<u8> = Vec::new();
            write_pixel_rows(&mut out, width, height, data, pack);
            (raw_size, out.len())
        },
    }
}

// ---------------------------------------------------------------------------
// Packed pixel rows (one-bit bitmaps and indexed pixel maps).
// ---------------------------------------------------------------------------

/// `2^bits` for the pixel sizes 1, 2, 4 and 8.
pub open spec fn level_count(bits: int) -> int {
    if bits == 1 {
        2
    } else if bits == 2 {
        4
    } else if bits == 4 {
        16
    } else {
        256
    }
}

/// The first `k` of the `8 / bits` values packed into byte `i` of a
/// row, most significant first (values past the end count as zero).
pub open spec fn pack_acc(vals: Seq<u8>, bits: int, i: int, k: int) -> int
    decreases k,
{
    if k <= 0 {
        0
    } else {
        let idx = i * (8int / bits) + k - 1;
        pack_acc(vals, bits, i, k - 1) * level_count(bits) + (if idx < vals.len() {
            vals[idx] as int % level_count(bits)
        } else {
            0
        })
    }
}

/// `vals` packed `bits` per value, MSB first, into `rb` bytes.
pub open spec fn pack_bytes(vals: Seq<u8>, bits: int, rb: int) -> Seq<u8> {
    Seq::new(rb as nat, |i: int| pack_acc(vals, bits, i, 8int / bits) as u8)
}

/// `l^k`.
pub open spec fn lpow(l: int, k: int) -> int
    decreases k,
{
    if k <= 0 {
        1
    } else {
        lpow(l, k - 1) * l
    }
}

proof fn lemma_lpow_mono(l: int, a: int, b: int)
    requires
        l >= 1,
        0 <= a <= b,
    ensures
        1 <= lpow(l, a) <= lpow(l, b),
    decreases b,
{
    if b > a {
        lemma_lpow_mono(l, a, b - 1);
        assert(lpow(l, b - 1) * l >= lpow(l, b - 1)) by (nonlinear_arith)
            requires lpow(l, b - 1) >= 1, l >= 1;
    } else if a > 0 {
        lemma_lpow_mono(l, a - 1, a - 1);
        assert(lpow(l, a - 1) * l >= 1) by (nonlinear_arith)
            requires lpow(l, a - 1) >= 1, l >= 1;
    }
}

proof fn lemma_levels(bits: int)
    requires
        bits == 1 || bits == 2 || bits == 4 || bits == 8,
    ensures
        lpow(level_count(bits), 8int / bits) == 256,
{
    reveal_with_fuel(lpow, 9);
}

fn pack_row_bytes(vals: &[u8], bits: u32, rb: usize) -> (out: Vec<u8>)
    requires
        bits == 1 || bits == 2 || bits == 4 || bits == 8,
        rb as int * 8 <= usize::MAX,
    ensures
        out@ == pack_bytes(vals@, bits as int, rb as int),
{
    let per: usize = (8 / bits) as usize;
    let levels: u32 = if bits == 1 {
        2
    } else if bits == 2 {
        4
    } else if bits == 4 {
        16
    } else {
        256
    };
    proof {
        lemma_levels(bits as int);
    }
    let mut out: Vec<u8> = Vec::new();
    let mut i: usize = 0;
    while i < rb
        invariant
            bits == 1 || bits == 2 || bits == 4 || bits == 8,
            per == 8int / bits as int,
            levels == level_count(bits as int),
            lpow(levels as int, per as int) == 256,
            rb as int * 8 <= usize::MAX,
            i <= rb,
            out@.len() == i,
            forall|t: int| 0 <= t < i ==> out@[t] == pack_acc(vals@, bits as int, t, 8int / bits as int) as u8,
        decreases rb - i,
    {
        let mut acc: u32 = 0;
        let mut bound: u32 = 1;
        let mut k: usize = 0;
        while k < per
            invariant
                bits == 1 || bits == 2 || bits == 4 || bits == 8,
                per == 8int / bits as int,
                levels == level_count(bits as int),
                lpow(levels as int, per as int) == 256,
                i < rb,
                rb as int * 8 <= usize::MAX,
                k <= per,
                acc == pack_acc(vals@, bits as int, i as int, k as int),
                acc < bound,
                bound as int == lpow(levels as int, k as int),
            decreases per - k,
        {
            proof {
                assert((i as int) * (per as int) + (k as int) <= (rb as int) * 8) by (nonlinear_arith)
                    requires i < rb, k < per, per <= 8;
                lemma_lpow_mono(levels as int, k as int + 1, per as int);
            }
            let idx = i * per + k;
            let v: u32 = if idx < vals.len() { (vals[idx] as u32) % levels } else { 0 };
            proof {
                assert((acc as int) * (levels as int) + (v as int) < (bound as int) * (levels as int)) by (nonlinear_arith)
                    requires acc < bound, v < levels;
            }
            acc = acc * levels + v;
            bound = bound * levels;
            k += 1;
        }
        out.push(acc as u8);
        i += 1;
    }
    assert(out@ =~= pack_bytes(vals@, bits as int, rb as int));
    out
}

/// Whether an RGBA pixel is inked in a one-bit bitmap: its luminance
/// `(299 R + 587 G + 114 B) / 1000` is below 128.
pub open spec fn inked(r: u8, g: u8, b: u8) -> bool {
    (299 * r as int + 587 * g as int + 114 * b as int) / 1000 < 128
}

/// The one-bit values (1 = black ink) of a `w`-pixel RGBA row.
pub open spec fn ink_bits(row: Seq<u8>, w: int) -> Seq<u8> {
    Seq::new(w as nat, |x: int| if inked(row[4 * x], row[4 * x + 1], row[4 * x + 2]) { 1u8 } else { 0u8 })
}

/// Row `y` of the one-bit bitmap of an RGBA raster.
pub open spec fn mono_row(data: Seq<u8>, w: int, y: int, rb: int) -> Seq<u8> {
    pack_bytes(ink_bits(rgba_row(data, w, y), w), 1, rb)
}

/// How a bitmap row is stored: raw, or as a byte count plus PackBits.
pub open spec fn stored_row(row: Seq<u8>, rb: int, packed: bool) -> Seq<u8> {
    if packed && rb >= 8 {
        let e = pb_encode(row);
        byte_count(rb, e.len() as int) + e
    } else {
        row
    }
}

/// The stored rows `0..y` of the one-bit bitmap of an RGBA raster.
pub open spec fn mono_rows(data: Seq<u8>, w: int, y: int, rb: int, packed: bool) -> Seq<u8>
    decreases y,
{
    if y <= 0 {
        Seq::empty()
    } else {
        mono_rows(data, w, y - 1, rb, packed) + stored_row(mono_row(data, w, y - 1, rb), rb, packed)
    }
}

fn write_stored_row(out: &mut Vec<u8>, row: &[u8], rb: usize, packed: bool)
    ensures
        final(out)@ == old(out)@ + stored_row(row@, rb as int, packed),
{
    if packed && rb >= 8 {
        let enc = packbits::encode(row);
        write_count(out, rb, enc.len());
        write_bytes(out, enc.as_slice());
    } else {
        write_bytes(out, row);
    }
}

fn ink_row(row: &[u8], w: usize) -> (v: Vec<u8>)
    requires
        row@.len() == w * 4,
    ensures
        v@ == ink_bits(row@, w as int),
{
    let mut v: Vec<u8> = Vec::new();
    let n = row.len();
    let mut x: usize = 0;
    while x < w
        invariant
            row@.len() == w * 4,
            n == row@.len(),
            x <= w,
            v@ =~= ink_bits(row@, x as int),
        decreases w - x,
    {
        let r = row[4 * x] as u32;
        let g = row[4 * x + 1] as u32;
        let b = row[4 * x + 2] as u32;
        let lum = (299 * r + 587 * g + 114 * b) / 1000;
        v.push(if lum < 128 { 1 } else { 0 });
        x += 1;
    }
    v
}

fn write_mono_rows(out: &mut Vec<u8>, width: u32, height: u32, data: &[u8], rb: usize, packed: bool)
    requires
        data@.len() == width as int * height as int * 4,
        rb as int * 8 <= usize::MAX,
    ensures
        final(out)@ == old(out)@ + mono_rows(data@, width as int, height as int, rb as int, packed),
{
    let w = width as usize;
    let n = data.len();
    let ghost start = out@;
    let mut y: usize = 0;
    while y < height as usize
        invariant
            w == width,
            n == data@.len(),
            data@.len() == width as int * height as int * 4,
            rb as int * 8 <= usize::MAX,
            y <= height,
            out@ == start + mono_rows(data@, w as int, y as int, rb as int, packed),
        decreases height - y,
    {
        proof {
            lemma_row_bounds(w as int, height as int, y as int);
            assert(height as int * w as int * 4 == data@.len()) by (nonlinear_arith)
                requires data@.len() == w as int * height as int * 4;
            assert(y as int * w as int <= y as int * w as int * 4) by (nonlinear_arith)
                requires 0 <= y, 0 <= w;
        }
        let lo = y * w * 4;
        let row = vstd::slice::slice_subrange(data, lo, lo + w * 4);
        let bits = ink_row(row, w);
        let packed_row = pack_row_bytes(bits.as_slice(), 1, rb);
        write_stored_row(out, packed_row.as_slice(), rb, packed);
        y += 1;
        assert(out@ =~= start + mono_rows(data@, w as int, y as int, rb as int, packed));
    }
}

/// Bytes per row of a one-bit bitmap `w` pixels wide.
pub open spec fn mono_rb(w: u32) -> int {
    (w as int + 7) / 8
}

/// `(0, 0, height, width)` three times (bounds, srcRect, dstRect) and
/// the `srcCopy` mode word.
pub open spec fn bitmap_rects(w: u32, h: u32) -> Seq<u8> {
    frame_bytes(w, h) + frame_bytes(w, h) + frame_bytes(w, h) + u16_bytes(0)
}

/// The body shared by the one-bit bitmap opcodes: `rowBytes`, the three
/// rectangles, the mode, an optional rectangular region, the rows.
pub open spec fn mono_body(w: u32, h: u32, data: Seq<u8>, packed: bool, clip: Option<[i16; 4]>) -> Seq<u8> {
    u16_bytes(mono_rb(w)) + bitmap_rects(w, h) + clip_part(clip) + mono_rows(
        data,
        w as int,
        h as int,
        mono_rb(w),
        packed,
    )
}

/// An optional rectangular region (`rgnSize = 10` and the rectangle).
pub open spec fn clip_part(clip: Option<[i16; 4]>) -> Seq<u8> {
    match clip {
        Some(c) => u16_bytes(10) + i16_bytes(c[0] as int) + i16_bytes(c[1] as int) + i16_bytes(
            c[2] as int,
        ) + i16_bytes(c[3] as int),
        None => Seq::empty(),
    }
}

fn write_clip_part(out: &mut Vec<u8>, clip: Option<[i16; 4]>)
    ensures
        final(out)@ == old(out)@ + clip_part(clip),
{
    match clip {
        Some(c) => {
            write_u16(out, 10);
            write_i16(out, c[0]);
            write_i16(out, c[1]);
            write_i16(out, c[2]);
            write_i16(out, c[3]);
            assert(final(out)@ =~= old(out)@ + clip_part(clip));
        },
        None => {
            assert(final(out)@ =~= old(out)@ + clip_part(clip));
        },
    }
}

fn write_bitmap_rects(out: &mut Vec<u8>, w: u32, h: u32)
    ensures
        final(out)@ == old(out)@ + bitmap_rects(w, h),
{
    write_frame(out, w, h);
    write_frame(out, w, h);
    write_frame(out, w, h);
    write_u16(out, 0);
    assert(final(out)@ =~= old(out)@ + bitmap_rects(w, h));
}

/// The v2 one-bit bitmap picture (`BitsRect`, `PackBitsRect`, `BitsRgn`
/// or `PackBitsRgn`).
pub open spec fn mono_v2_spec(w: u32, h: u32, data: Seq<u8>, packed: bool, clip: Option<[i16; 4]>) -> Seq<u8> {
    let op: int = if packed { if clip is Some { 0x99 } else { 0x98 } } else { if clip is Some { 0x91 } else { 0x90 } };
    pad_even(v2_start(w, h) + u16_bytes(op) + mono_body(w, h, data, packed, clip)) + u16_bytes(0x00FF)
}

/// The v1 one-bit bitmap picture, `picSize` patched when it fits.
pub open spec fn mono_v1_spec(w: u32, h: u32, data: Seq<u8>, packed: bool) -> Seq<u8> {
    let body = v1_start(w, h) + seq![(if packed { 0x98u8 } else { 0x90u8 })] + mono_body(w, h, data, packed, None) + seq![0xFFu8];
    if body.len() <= 0xFFFF {
        u16_bytes(body.len() as int) + body.subrange(2, body.len() as int)
    } else {
        body
    }
}

fn write_mono_body(out: &mut Vec<u8>, width: u32, height: u32, data: &[u8], packed: bool, clip: Option<[i16; 4]>)
    requires
        data@.len() == width as int * height as int * 4,
        mono_rb(width) <= 0x3FFE,
    ensures
        final(out)@ == old(out)@ + mono_body(width, height, data@, packed, clip),
{
    let rb: usize = ((width as u64 + 7) / 8) as usize;
    write_u16(out, rb as u16);
    write_bitmap_rects(out, width, height);
    write_clip_part(out, clip);
    write_mono_rows(out, width, height, data, rb, packed);
    assert(final(out)@ =~= old(out)@ + mono_body(width, height, data@, packed, clip));
}

fn encode_pict_bitmap(width: u32, height: u32, data: &[u8], packed: bool, clip: Option<[i16; 4]>) -> (res: Result<Vec<u8>>)
    ensures
        res is Ok <==> (dims_ok(width, height, data@.len() as int) && mono_rb(width) <= 0x3FFE),
        match res {
            Ok(out) => out@ == mono_v2_spec(width, height, data@, packed, clip),
            Err(e) => e is InvalidData,
        },
{
    validate_dims(width, height, data)?;
    if (width as u64 + 7) / 8 > 0x3FFE {
        return Err(PictError::invalid("encode_pict_bits_rect: rowBytes exceeds the 14-bit limit"));
    }
    let mut out: Vec<u8> = Vec::new();
    write_v2_start(&mut out, width, height);
    let op: u16 = if packed { if clip.is_some() { 0x99 } else { 0x98 } } else { if clip.is_some() { 0x91 } else { 0x90 } };
    write_u16(&mut out, op);
    write_mono_body(&mut out, width, height, data, packed, clip);
    let ghost body = out@;
    if out.len() % 2 != 0 {
        out.push(0);
    }
    assert(out@ == pad_even(body));
    write_u16(&mut out, 0x00FF);
    Ok(out)
}

fn encode_pict_bitmap_v1(width: u32, height: u32, data: &[u8], packed: bool) -> (res: Result<Vec<u8>>)
    ensures
        res is Ok <==> (dims_ok(width, height, data@.len() as int) && mono_rb(width) <= 0x3FFE),
        match res {
            Ok(out) => out@ == mono_v1_spec(width, height, data@, packed),
            Err(e) => e is InvalidData,
        },
{
    validate_dims(width, height, data)?;
    if (width as u64 + 7) / 8 > 0x3FFE {
        return Err(PictError::invalid("encode_pict_bits_rect: rowBytes exceeds the 14-bit limit"));
    }
    let mut out: Vec<u8> = Vec::new();
    write_u16(&mut out, 0);
    write_frame(&mut out, width, height);
    out.push(0x11);
    out.push(0x01);
    out.push(if packed { 0x98 } else { 0x90 });
    write_mono_body(&mut out, width, height, data, packed, None);
    out.push(0xFF);
    let ghost body = out@;
    assert(body =~= v1_start(width, height) + seq![(if packed { 0x98u8 } else { 0x90u8 })] + mono_body(width, height, data@, packed, None) + seq![0xFFu8]);
    if out.len() <= 0xFFFF {
        let size = out.len() as u16;
        let mut patched: Vec<u8> = Vec::new();
        write_u16(&mut patched, size);
        write_bytes(&mut patched, vstd::slice::slice_subrange(out.as_slice(), 2, out.len()));
        return Ok(patched);
    }
    Ok(out)
}

/// A v2 PICT with one `BitsRect` (`0x0090`): the raster reduced to one
/// bit per pixel (ink where the luminance is below 128), raw rows.
pub fn encode_pict_bits_rect(width: u32, height: u32, data: &[u8]) -> (res: Result<Vec<u8>>)
    ensures
        res is Ok <==> (dims_ok(width, height, data@.len() as int) && mono_rb(width) <= 0x3FFE),
        match res {
            Ok(out) => out@ == mono_v2_spec(width, height, data@, false, None),
            Err(e) => e is InvalidData,
        },
{
    encode_pict_bitmap(width, height, data, false, None)
}

/// A v2 PICT with one `PackBitsRect` (`0x0098`): one-bit rows,
/// PackBits-coded when `rowBytes >= 8`.
pub fn encode_pict_pack_bits_rect(width: u32, height: u32, data: &[u8]) -> (res: Result<Vec<u8>>)
    ensures
        res is Ok <==> (dims_ok(width, height, data@.len() as int) && mono_rb(width) <= 0x3FFE),
        match res {
            Ok(out) => out@ == mono_v2_spec(width, height, data@, true, None),
            Err(e) => e is InvalidData,
        },
{
    encode_pict_bitmap(width, height, data, true, None)
}

/// A v2 PICT with one `BitsRgn` (`0x0091`) whose region is the
/// rectangle `clip` (top, left, bottom, right).
pub fn encode_pict_bits_rgn(width: u32, height: u32, data: &[u8], clip: [i16; 4]) -> (res: Result<Vec<u8>>)
    ensures
        res is Ok <==> (dims_ok(width, height, data@.len() as int) && mono_rb(width) <= 0x3FFE),
        match res {
            Ok(out) => out@ == mono_v2_spec(width, height, data@, false, Some(clip)),
            Err(e) => e is InvalidData,
        },
{
    encode_pict_bitmap(width, height, data, false, Some(clip))
}

/// A v2 PICT with one `PackBitsRgn` (`0x0099`) whose region is the
/// rectangle `clip`.
pub fn encode_pict_pack_bits_rgn(width: u32, height: u32, data: &[u8], clip: [i16; 4]) -> (res: Result<Vec<u8>>)
    ensures
        res is Ok <==> (dims_ok(width, height, data@.len() as int) && mono_rb(width) <= 0x3FFE),
        match res {
            Ok(out) => out@ == mono_v2_spec(width, height, data@, true, Some(clip)),
            Err(e) => e is InvalidData,
        },
{
    encode_pict_bitmap(width, height, data, true, Some(clip))
}

/// A v1 PICT with one `BitsRect` (`$90`); `BitsRect` needs
/// `rowBytes < 8`, so images over 56 columns are `InvalidData`.
pub fn encode_pict_v1_bits_rect(width: u32, height: u32, data: &[u8]) -> (res: Result<Vec<u8>>)
    ensures
        res is Ok <==> (mono_rb(width) < 8 && dims_ok(width, height, data@.len() as int)),
        match res {
            Ok(out) => out@ == mono_v1_spec(width, height, data@, false),
            Err(e) => e is InvalidData,
        },
{
    if (width as u64 + 7) / 8 >= 8 {
        return Err(PictError::invalid("encode_pict_v1_bits_rect: rowBytes >= 8; use PackBitsRect"));
    }
    encode_pict_bitmap_v1(width, height, data, false)
}

/// A v1 PICT with one `PackBitsRect` (`$98`).
pub fn encode_pict_v1_pack_bits_rect(width: u32, height: u32, data: &[u8]) -> (res: Result<Vec<u8>>)
    ensures
        res is Ok <==> (dims_ok(width, height, data@.len() as int) && mono_rb(width) <= 0x3FFE),
        match res {
            Ok(out) => out@ == mono_v1_spec(width, height, data@, true),
            Err(e) => e is InvalidData,
        },
{
    encode_pict_bitmap_v1(width, height, data, true)
}

// ---------------------------------------------------------------------------
// Indexed pixel maps.
// ---------------------------------------------------------------------------

/// 1, 2, 4 or 8 bits per pixel for an indexed pixel map.
#[derive(Debug, Clone, Copy, PartialEq, Eq, Structural)]
pub enum IndexedPixelSize {
    OneBpp,
    TwoBpp,
    FourBpp,
    EightBpp,
}

/// Bits per pixel of `p`.
pub open spec fn ips_bits(p: IndexedPixelSize) -> int {
    match p {
        IndexedPixelSize::OneBpp => 1,
        IndexedPixelSize::TwoBpp => 2,
        IndexedPixelSize::FourBpp => 4,
        IndexedPixelSize::EightBpp => 8,
    }
}

/// Bytes per row of `w` pixels at `bits` per pixel (rounded up).
pub open spec fn ips_row_bytes(p: IndexedPixelSize, w: int) -> int {
    (w * ips_bits(p) + 7) / 8
}

impl IndexedPixelSize {
    /// Pixel-size field written into the PixMap header.
    pub fn bits(self) -> (b: u16)
        ensures
            b == ips_bits(self),
    {
        match self {
            IndexedPixelSize::OneBpp => 1,
            IndexedPixelSize::TwoBpp => 2,
            IndexedPixelSize::FourBpp => 4,
            IndexedPixelSize::EightBpp => 8,
        }
    }

    /// Largest palette this pixel size addresses (`2^bits`).
    pub fn max_palette_entries(self) -> (n: usize)
        ensures
            n == level_count(ips_bits(self)),
    {
        match self {
            IndexedPixelSize::OneBpp => 2,
            IndexedPixelSize::TwoBpp => 4,
            IndexedPixelSize::FourBpp => 16,
            IndexedPixelSize::EightBpp => 256,
        }
    }

    /// `rowBytes` for a row of `width` pixels at this depth.
    pub fn row_bytes(self, width: u32) -> (n: usize)
        ensures
            n == ips_row_bytes(self, width as int),
    {
        let w = width as u64;
        let r = match self {
            IndexedPixelSize::OneBpp => (w + 7) / 8,
            IndexedPixelSize::TwoBpp => (w * 2 + 7) / 8,
            IndexedPixelSize::FourBpp => (w * 4 + 7) / 8,
            IndexedPixelSize::EightBpp => w,
        };
        proof {
            if self is EightBpp {
                assert((w as int * 8 + 7) / 8 == w as int);
            }
        }
        r as usize
    }

    /// Pack a row of indices into `row_bytes` bytes, MSB first; each
    /// index keeps only its low `bits` bits.
    pub fn pack_row(self, indices: &[u8], row_bytes: usize) -> (out: Vec<u8>)
        requires
            row_bytes as int * 8 <= usize::MAX,
        ensures
            out@ == pack_bytes(indices@, ips_bits(self), row_bytes as int),
    {
        pack_row_bytes(indices, self.bits() as u32, row_bytes)
    }
}

/// The RGB palette entry `i` as a `ColorSpec` (value, then each
/// channel duplicated into 16 bits).
pub open spec fn color_spec(i: int, c: [u8; 4]) -> Seq<u8> {
    u16_bytes(i) + u16_bytes(c[0] as int * 257) + u16_bytes(c[1] as int * 257) + u16_bytes(
        c[2] as int * 257,
    )
}

/// The entries `0..n` of a palette.
pub open spec fn color_specs(p: Seq<[u8; 4]>, n: int) -> Seq<u8>
    decreases n,
{
    if n <= 0 {
        Seq::empty()
    } else {
        color_specs(p, n - 1) + color_spec(n - 1, p[n - 1])
    }
}

/// A `ColorTable`: seed 0, flags 0, `ctSize = entries - 1`, entries.
pub open spec fn color_table(p: Seq<[u8; 4]>) -> Seq<u8> {
    u32_bytes(0) + u16_bytes(0) + u16_bytes(p.len() - 1) + color_specs(p, p.len() as int)
}

fn write_color_table(out: &mut Vec<u8>, palette: &[[u8; 4]])
    requires
        1 <= palette@.len() <= 256,
    ensures
        final(out)@ == old(out)@ + color_table(palette@),
{
    write_u32(out, 0);
    write_u16(out, 0);
    write_u16(out, (palette.len() - 1) as u16);
    let ghost start = out@;
    let mut i: usize = 0;
    while i < palette.len()
        invariant
            palette@.len() <= 256,
            i <= palette@.len(),
            out@ == start + color_specs(palette@, i as int),
        decreases palette@.len() - i,
    {
        let c = palette[i];
        write_u16(out, i as u16);
        write_u16(out, c[0] as u16 * 257);
        write_u16(out, c[1] as u16 * 257);
        write_u16(out, c[2] as u16 * 257);
        i += 1;
        assert(out@ =~= start + color_specs(palette@, i as int));
    }
    assert(final(out)@ =~= old(out)@ + color_table(palette@));
}

/// Row `y` of an indexed image, packed.
pub open spec fn index_row(idx: Seq<u8>, w: int, y: int, p: IndexedPixelSize, rb: int) -> Seq<u8> {
    pack_bytes(idx.subrange(y * w, (y + 1) * w), ips_bits(p), rb)
}

/// The stored rows `0..y` of an indexed image.
pub open spec fn index_rows(idx: Seq<u8>, w: int, y: int, p: IndexedPixelSize, rb: int, packed: bool) -> Seq<u8>
    decreases y,
{
    if y <= 0 {
        Seq::empty()
    } else {
        index_rows(idx, w, y - 1, p, rb, packed) + stored_row(index_row(idx, w, y - 1, p, rb), rb, packed)
    }
}

/// The inputs an indexed encoder accepts.
pub open spec fn indexed_ok(w: u32, h: u32, n: int, palette_len: int, p: IndexedPixelSize) -> bool {
    &&& w > 0 && h > 0
    &&& n == w as int * h as int
    &&& 1 <= palette_len <= level_count(ips_bits(p))
    &&& ips_row_bytes(p, w as int) <= 0x3FFE
}

/// The indexed pixel-map picture.
pub open spec fn indexed_spec(
    w: u32,
    h: u32,
    idx: Seq<u8>,
    palette: Seq<[u8; 4]>,
    p: IndexedPixelSize,
    packed: bool,
    clip: Option<[i16; 4]>,
) -> Seq<u8> {
    let rb = ips_row_bytes(p, w as int);
    let op: int = if packed { if clip is Some { 0x99 } else { 0x98 } } else { if clip is Some { 0x91 } else { 0x90 } };
    pad_even(
        v2_start(w, h) + u16_bytes(op) + u16_bytes(rb + 0x8000) + frame_bytes(w, h) + u16_bytes(0)
            + u16_bytes(0) + u32_bytes(0) + u32_bytes(0x0048_0000) + u32_bytes(0x0048_0000)
            + u16_bytes(0) + u16_bytes(ips_bits(p)) + u16_bytes(1) + u16_bytes(ips_bits(p))
            + u32_bytes(0) + u32_bytes(0) + u32_bytes(0) + color_table(palette) + frame_bytes(w, h)
            + frame_bytes(w, h) + u16_bytes(0) + clip_part(clip) + index_rows(idx, w as int, h as int, p, rb, packed),
    ) + u16_bytes(0x00FF)
}

fn validate_indexed_dims(
    width: u32,
    height: u32,
    indices: &[u8],
    palette: &[[u8; 4]],
    pixel_size: IndexedPixelSize,
) -> (res: Result<()>)
    ensures
        res is Ok <==> (width > 0 && height > 0 && indices@.len() == width as int * height as int
            && 1 <= palette@.len() <= level_count(ips_bits(pixel_size))),
        res is Err ==> res->Err_0 is InvalidData,
{
    if width == 0 || height == 0 {
        return Err(PictError::invalid("encode_pict_indexed: width and height must be non-zero"));
    }
    proof {
        assert(width as int * height as int <= 0xFFFF_FFFF * 0xFFFF_FFFF) by (nonlinear_arith)
            requires width <= 0xFFFF_FFFF, height <= 0xFFFF_FFFF;
    }
    let expected = (width as u64) * (height as u64);
    if indices.len() as u64 != expected {
        return Err(PictError::invalid("encode_pict_indexed: indices length is not width x height"));
    }
    if palette.len() == 0 {
        return Err(PictError::invalid("encode_pict_indexed: palette must contain at least one entry"));
    }
    if palette.len() > pixel_size.max_palette_entries() {
        return Err(PictError::invalid("encode_pict_indexed: palette too large for the pixel size"));
    }
    Ok(())
}

fn write_index_rows(
    out: &mut Vec<u8>,
    width: u32,
    height: u32,
    indices: &[u8],
    p: IndexedPixelSize,
    rb: usize,
    packed: bool,
)
    requires
        indices@.len() == width as int * height as int,
        rb <= 0xFFFF,
    ensures
        final(out)@ == old(out)@ + index_rows(indices@, width as int, height as int, p, rb as int, packed),
{
    let w = width as usize;
    let n = indices.len();
    let ghost start = out@;
    let mut y: usize = 0;
    while y < height as usize
        invariant
            w == width,
            n == indices@.len(),
            indices@.len() == width as int * height as int,
            rb <= 0xFFFF,
            y <= height,
            out@ == start + index_rows(indices@, w as int, y as int, p, rb as int, packed),
        decreases height - y,
    {
        proof {
            assert((y as int + 1) * (w as int) <= (height as int) * (w as int)) by (nonlinear_arith)
                requires y < height, 0 <= w;
            assert((y as int) * (w as int) + w as int == (y as int + 1) * (w as int)) by (nonlinear_arith);
            assert(0 <= (y as int) * (w as int)) by (nonlinear_arith)
                requires 0 <= y, 0 <= w;
            assert(indices@.len() == (height as int) * (w as int)) by (nonlinear_arith)
                requires indices@.len() == w as int * height as int;
        }
        let lo = y * w;
        let row = vstd::slice::slice_subrange(indices, lo, lo + w);
        let packed_row = p.pack_row(row, rb);
        write_stored_row(out, packed_row.as_slice(), rb, packed);
        y += 1;
        assert(out@ =~= start + index_rows(indices@, w as int, y as int, p, rb as int, packed));
    }
}

fn encode_pict_indexed_pixmap(
    width: u32,
    height: u32,
    indices: &[u8],
    palette: &[[u8; 4]],
    pixel_size: IndexedPixelSize,
    packed: bool,
    clip: Option<[i16; 4]>,
) -> (res: Result<Vec<u8>>)
    ensures
        res is Ok <==> indexed_ok(width, height, indices@.len() as int, palette@.len() as int, pixel_size),
        match res {
            Ok(out) => out@ == indexed_spec(width, height, indices@, palette@, pixel_size, packed, clip),
            Err(e) => e is InvalidData,
        },
{
    validate_indexed_dims(width, height, indices, palette, pixel_size)?;
    let rb = pixel_size.row_bytes(width);
    if rb > 0x3FFE {
        return Err(PictError::invalid("encode_pict_indexed: rowBytes exceeds the 14-bit limit"));
    }
    let op: u16 = if packed { if clip.is_some() { 0x99 } else { 0x98 } } else { if clip.is_some() { 0x91 } else { 0x90 } };
    let mut out: Vec<u8> = Vec::new();
    write_v2_start(&mut out, width, height);
    let ghost a = out@;
    write_u16(&mut out, op);
    write_u16(&mut out, (rb as u16) + 0x8000);
    write_frame(&mut out, width, height);
    write_u16(&mut out, 0);
    write_u16(&mut out, 0);
    write_u32(&mut out, 0);
    write_u32(&mut out, 0x0048_0000);
    write_u32(&mut out, 0x0048_0000);
    write_u16(&mut out, 0);
    write_u16(&mut out, pixel_size.bits());
    write_u16(&mut out, 1);
    write_u16(&mut out, pixel_size.bits());
    write_u32(&mut out, 0);
    write_u32(&mut out, 0);
    write_u32(&mut out, 0);
    let ghost b = out@;
    write_color_table(&mut out, palette);
    write_frame(&mut out, width, height);
    write_frame(&mut out, width, height);
    write_u16(&mut out, 0);
    write_clip_part(&mut out, clip);
    write_index_rows(&mut out, width, height, indices, pixel_size, rb, packed);
    let ghost body = out@;
    if out.len() % 2 != 0 {
        out.push(0);
    }
    assert(out@ == pad_even(body));
    write_u16(&mut out, 0x00FF);
    assert(out@ =~= indexed_spec(width, height, indices@, palette@, pixel_size, packed, clip));
    Ok(out)
}

/// A v2 PICT with one indexed-pixel-map `BitsRect` (`0x0090`, rowBytes
/// with its top bit set): `ColorTable` from `palette`, raw rows.
pub fn encode_pict_indexed_bits_rect(
    width: u32,
    height: u32,
    indices: &[u8],
    palette: &[[u8; 4]],
    pixel_size: IndexedPixelSize,
) -> (res: Result<Vec<u8>>)
    ensures
        res is Ok <==> indexed_ok(width, height, indices@.len() as int, palette@.len() as int, pixel_size),
        match res {
            Ok(out) => out@ == indexed_spec(width, height, indices@, palette@, pixel_size, false, None),
            Err(e) => e is InvalidData,
        },
{
    encode_pict_indexed_pixmap(width, height, indices, palette, pixel_size, false, None)
}

/// A v2 PICT with one indexed-pixel-map `PackBitsRect` (`0x0098`).
pub fn encode_pict_indexed_pack_bits_rect(
    width: u32,
    height: u32,
    indices: &[u8],
    palette: &[[u8; 4]],
    pixel_size: IndexedPixelSize,
) -> (res: Result<Vec<u8>>)
    ensures
        res is Ok <==> indexed_ok(width, height, indices@.len() as int, palette@.len() as int, pixel_size),
        match res {
            Ok(out) => out@ == indexed_spec(width, height, indices@, palette@, pixel_size, true, None),
            Err(e) => e is InvalidData,
        },
{
    encode_pict_indexed_pixmap(width, height, indices, palette, pixel_size, true, None)
}

/// A v2 PICT with one indexed-pixel-map `BitsRgn` (`0x0091`).
pub fn encode_pict_indexed_bits_rgn(
    width: u32,
    height: u32,
    indices: &[u8],
    palette: &[[u8; 4]],
    pixel_size: IndexedPixelSize,
    clip: [i16; 4],
) -> (res: Result<Vec<u8>>)
    ensures
        res is Ok <==> indexed_ok(width, height, indices@.len() as int, palette@.len() as int, pixel_size),
        match res {
            Ok(out) => out@ == indexed_spec(width, height, indices@, palette@, pixel_size, false, Some(clip)),
            Err(e) => e is InvalidData,
        },
{
    encode_pict_indexed_pixmap(width, height, indices, palette, pixel_size, false, Some(clip))
}

/// A v2 PICT with one indexed-pixel-map `PackBitsRgn` (`0x0099`).
pub fn encode_pict_indexed_pack_bits_rgn(
    width: u32,
    height: u32,
    indices: &[u8],
    palette: &[[u8; 4]],
    pixel_size: IndexedPixelSize,
    clip: [i16; 4],
) -> (res: Result<Vec<u8>>)
    ensures
        res is Ok <==> indexed_ok(width, height, indices@.len() as int, palette@.len() as int, pixel_size),
        match res {
            Ok(out) => out@ == indexed_spec(width, height, indices@, palette@, pixel_size, true, Some(clip)),
            Err(e) => e is InvalidData,
        },
{
    encode_pict_indexed_pixmap(width, height, indices, palette, pixel_size, true, Some(clip))
}

// ---------------------------------------------------------------------------
// Colour pixel patterns.
// ---------------------------------------------------------------------------

/// Which pixel-pattern slot an opcode sets.
#[derive(Debug, Clone, Copy, PartialEq, Eq, Structural)]
pub enum PixPatSlot {
    /// `BkPixPat` (`0x0012`), used by erase verbs.
    Background,
    /// `PnPixPat` (`0x0013`), used by frame / paint verbs.
    Pen,
    /// `FillPixPat` (`0x0014`), used by fill verbs.
    Fill,
}

/// Opcode of `s`.
pub open spec fn slot_op(s: PixPatSlot) -> int {
    match s {
        PixPatSlot::Background => 0x0012,
        PixPatSlot::Pen => 0x0013,
        PixPatSlot::Fill => 0x0014,
    }
}

impl PixPatSlot {
    /// PICT opcode word for this slot.
    pub fn opcode(self) -> (op: u16)
        ensures
            op == slot_op(self),
    {
        match self {
            PixPatSlot::Background => 0x0012,
            PixPatSlot::Pen => 0x0013,
            PixPatSlot::Fill => 0x0014,
        }
    }
}

/// Whether `v` is a power of two.
pub open spec fn is_pow2(v: int) -> bool
    decreases v,
{
    if v <= 0 {
        false
    } else if v == 1 {
        true
    } else {
        v % 2 == 0 && is_pow2(v / 2)
    }
}

pub fn is_power_of_two(v: u16) -> (b: bool)
    ensures
        b == is_pow2(v as int),
{
    let mut x: u16 = v;
    while x > 1 && x % 2 == 0
        invariant
            is_pow2(x as int) == is_pow2(v as int),
        decreases x,
    {
        x = x / 2;
    }
    x == 1
}

/// The distinct colours of `px`, in order of first appearance.
pub open spec fn palette_of(px: Seq<[u8; 4]>) -> Seq<[u8; 4]>
    decreases px.len(),
{
    if px.len() == 0 {
        Seq::empty()
    } else {
        let p = palette_of(px.drop_last());
        if p.contains(px.last()) { p } else { p.push(px.last()) }
    }
}

/// Index of the first entry of `p` equal to `x` (`-1` when absent).
pub open spec fn first_index(p: Seq<[u8; 4]>, x: [u8; 4]) -> int
    decreases p.len(),
{
    if p.len() == 0 {
        -1
    } else {
        let f = first_index(p.drop_last(), x);
        if f >= 0 { f } else if p.last() == x { p.len() - 1 } else { -1 }
    }
}

/// The palette index of each pixel.
pub open spec fn palette_indices(px: Seq<[u8; 4]>) -> Seq<u8> {
    Seq::new(px.len(), |i: int| first_index(palette_of(px.subrange(0, i + 1)), px[i]) as u8)
}

proof fn lemma_first_index(p: Seq<[u8; 4]>, x: [u8; 4])
    ensures
        -1 <= first_index(p, x) < p.len(),
        first_index(p, x) >= 0 ==> p[first_index(p, x)] == x,
        first_index(p, x) == -1 <==> !p.contains(x),
        forall|j: int| 0 <= j < first_index(p, x) ==> p[j] != x,
    decreases p.len(),
{
    if p.len() > 0 {
        lemma_first_index(p.drop_last(), x);
        let q = p.drop_last();
        if first_index(q, x) >= 0 {
            assert forall|j: int| 0 <= j < first_index(p, x) implies p[j] != x by {
                assert(q[j] == p[j]);
            }
        } else if p.last() == x {
            assert forall|j: int| 0 <= j < first_index(p, x) implies p[j] != x by {
                assert(q[j] == p[j]);
                assert(!q.contains(x));
            }
        }
        if first_index(q, x) == -1 && p.last() != x {
            assert forall|j: int| 0 <= j < p.len() implies p[j] != x by {
                if j < q.len() {
                    assert(q[j] == p[j]);
                    assert(!q.contains(x));
                }
            }
        }
        if p.contains(x) {
            let j = choose|j: int| 0 <= j < p.len() && p[j] == x;
            if j < q.len() {
                assert(q[j] == x);
            }
        }
    }
}

proof fn lemma_palette_grows(px: Seq<[u8; 4]>, i: int)
    requires
        0 <= i <= px.len(),
    ensures
        palette_of(px.subrange(0, i)).len() <= palette_of(px).len(),
    decreases px.len() - i,
{
    if i < px.len() {
        lemma_palette_grows(px, i + 1);
        assert(px.subrange(0, i + 1).drop_last() =~= px.subrange(0, i));
    } else {
        assert(px.subrange(0, i) =~= px);
    }
}

/// The palette of a prefix of the pixels is a prefix of the palette.
proof fn lemma_palette_prefix(px: Seq<[u8; 4]>, i: int)
    requires
        0 <= i <= px.len(),
    ensures
        palette_of(px.subrange(0, i)).len() <= palette_of(px).len(),
        forall|j: int|
            0 <= j < palette_of(px.subrange(0, i)).len() ==> palette_of(px)[j] == palette_of(
                px.subrange(0, i),
            )[j],
    decreases px.len() - i,
{
    if i < px.len() {
        lemma_palette_prefix(px, i + 1);
        assert(px.subrange(0, i + 1).drop_last() =~= px.subrange(0, i));
    } else {
        assert(px.subrange(0, i) =~= px);
    }
}

/// Each pixel's palette index names an entry of the palette holding
/// that pixel's colour.
pub proof fn lemma_palette_index(px: Seq<[u8; 4]>, i: int)
    requires
        0 <= i < px.len(),
        palette_of(px).len() <= 256,
    ensures
        (palette_indices(px)[i] as int) < palette_of(px).len(),
        palette_of(px)[palette_indices(px)[i] as int] == px[i],
{
    let q = palette_of(px.subrange(0, i + 1));
    lemma_palette_prefix(px, i + 1);
    let t = px.subrange(0, i + 1);
    assert(t.last() == px[i]);
    let q0 = palette_of(t.drop_last());
    if !q0.contains(px[i]) {
        assert(q == q0.push(px[i]));
        assert(q[q0.len() as int] == px[i]);
    }
    assert(q.contains(px[i]));
    lemma_first_index(q, px[i]);
    let k = first_index(q, px[i]);
    assert(0 <= k < q.len());
    assert(k < 256);
    assert(palette_indices(px)[i] == k as u8);
    assert(k as u8 as int == k);
}

fn same4(a: [u8; 4], b: [u8; 4]) -> (r: bool)
    ensures
        r == (a == b),
{
    let r = a[0] == b[0] && a[1] == b[1] && a[2] == b[2] && a[3] == b[3];
    proof {
        if r {
            assert(a@ =~= b@);
            assert(a =~= b);
        }
    }
    r
}

/// Build the palette and per-pixel indices; `None` when more than 256
/// colours occur.
fn build_palette(pixels: &[[u8; 4]]) -> (r: Option<(Vec<[u8; 4]>, Vec<u8>)>)
    ensures
        match r {
            Some((pal, idx)) => palette_of(pixels@).len() <= 256 && pal@ == palette_of(pixels@)
                && idx@ == palette_indices(pixels@),
            None => palette_of(pixels@).len() > 256,
        },
{
    let mut pal: Vec<[u8; 4]> = Vec::new();
    let mut idx: Vec<u8> = Vec::new();
    let n = pixels.len();
    let mut i: usize = 0;
    while i < n
        invariant
            n == pixels@.len(),
            i <= n,
            pal@ == palette_of(pixels@.subrange(0, i as int)),
            pal@.len() <= 256,
            idx@ =~= palette_indices(pixels@.subrange(0, i as int)),
        decreases n - i,
    {
        let px = pixels[i];
        let ghost pre = pixels@.subrange(0, i as int);
        let ghost next = pixels@.subrange(0, i + 1);
        assert(next.drop_last() =~= pre);
        assert(next.last() == px);
        let mut j: usize = 0;
        while j < pal.len() && !same4(pal[j], px)
            invariant
                j <= pal@.len(),
                forall|t: int| 0 <= t < j ==> pal@[t] != px,
            decreases pal@.len() - j,
        {
            j += 1;
        }
        let found = j < pal.len();
        proof {
            lemma_first_index(pal@, px);
        }
        if !found {
            if pal.len() >= 256 {
                proof {
                    assert(!pal@.contains(px)) by {
                        if pal@.contains(px) {
                            let t = choose|t: int| 0 <= t < pal@.len() && pal@[t] == px;
                            assert(pal@[t] != px);
                        }
                    }
                    assert(palette_of(next).len() == 257);
                    lemma_palette_grows(pixels@, i + 1);
                }
                return None;
            }
            pal.push(px);
        }
        proof {
            lemma_first_index(pal@, px);
            assert(pal@[j as int] == px);
            assert(pal@.contains(px));
            assert(first_index(pal@, px) == j);
        }
        idx.push(j as u8);
        i += 1;
        proof {
            let ni = palette_indices(pixels@.subrange(0, i as int));
            assert forall|t: int| 0 <= t < i implies idx@[t] == ni[t] by {
                if t < i - 1 {
                    assert(pixels@.subrange(0, i as int).subrange(0, t + 1) =~= pixels@.subrange(0, t + 1));
                    assert(pre.subrange(0, t + 1) =~= pixels@.subrange(0, t + 1));
                } else {
                    assert(pixels@.subrange(0, i as int).subrange(0, t + 1) =~= next);
                }
            }
        }
    }
    assert(pixels@.subrange(0, n as int) =~= pixels@);
    Some((pal, idx))
}

/// The colour pixel-pattern opcode `build_pix_pat_op_sized` emits.
pub open spec fn pix_pat_spec(s: PixPatSlot, fallback: [u8; 8], w: u16, h: u16, px: Seq<[u8; 4]>) -> Seq<u8> {
    u16_bytes(slot_op(s)) + u16_bytes(1) + fallback@ + u16_bytes(if w >= 0x8000 { w as int } else { w + 0x8000 })
        + u16_bytes(0) + u16_bytes(0) + u16_bytes(h as int) + u16_bytes(w as int) + u16_bytes(0)
        + u16_bytes(0) + u32_bytes(0) + u32_bytes(0x0048_0000) + u32_bytes(0x0048_0000) + u16_bytes(0)
        + u16_bytes(8) + u16_bytes(1) + u16_bytes(8) + u32_bytes(0) + u32_bytes(0) + u32_bytes(0)
        + color_table(palette_of(px)) + index_rows(
        palette_indices(px),
        w as int,
        h as int,
        IndexedPixelSize::EightBpp,
        w as int,
        true,
    )
}

/// A colour pixel-pattern opcode (`patType = 1`) for an 8 x 8 tile.
pub fn build_pix_pat_op(slot: PixPatSlot, fallback: [u8; 8], pixels: &[[u8; 4]; 64]) -> (res: Result<Vec<u8>>)
    ensures
        res is Ok <==> palette_of(pixels@).len() <= 256,
        match res {
            Ok(out) => out@ == pix_pat_spec(slot, fallback, 8, 8, pixels@),
            Err(e) => e is InvalidData,
        },
{
    proof {
        reveal_with_fuel(is_pow2, 5);
    }
    build_pix_pat_op_sized(slot, fallback, 8, 8, pixels.as_slice())
}

/// A colour pixel-pattern opcode (`0x0012` / `0x0013` / `0x0014`,
/// `patType = 1`) for a `width x height` tile (each a power of two):
/// the fallback pattern, an 8-bit indexed pixel map, the colours in
/// order of first appearance as its `ColorTable`, and the pixel indices
/// (raw when a row is under 8 bytes, else PackBits per row).
/// `InvalidData` for a dimension that is not a power of two, a pixel
/// count other than `width * height`, or more than 256 colours.
pub fn build_pix_pat_op_sized(
    slot: PixPatSlot,
    fallback: [u8; 8],
    width: u16,
    height: u16,
    pixels: &[[u8; 4]],
) -> (res: Result<Vec<u8>>)
    ensures
        res is Ok <==> (is_pow2(width as int) && is_pow2(height as int) && pixels@.len()
            == width as int * height as int && palette_of(pixels@).len() <= 256),
        match res {
            Ok(out) => out@ == pix_pat_spec(slot, fallback, width, height, pixels@),
            Err(e) => e is InvalidData,
        },
{
    if !is_power_of_two(width) || !is_power_of_two(height) {
        return Err(PictError::invalid("build_pix_pat_op_sized: width and height must be powers of two"));
    }
    proof {
        assert(width as int * height as int <= 65535 * 65535) by (nonlinear_arith)
            requires width <= 65535, height <= 65535;
    }
    if pixels.len() as u64 != width as u64 * height as u64 {
        return Err(PictError::invalid("build_pix_pat_op_sized: pixel count is not width x height"));
    }
    let (palette, indices) = match build_palette(pixels) {
        Some(r) => r,
        None => {
            return Err(PictError::invalid("build_pix_pat_op_sized: more than 256 colours"));
        },
    };
    let mut buf: Vec<u8> = Vec::new();
    write_u16(&mut buf, slot.opcode());
    write_u16(&mut buf, 1);
    write_bytes(&mut buf, fallback.as_slice());
    write_u16(&mut buf, if width >= 0x8000 { width } else { width + 0x8000 });
    write_u16(&mut buf, 0);
    write_u16(&mut buf, 0);
    write_u16(&mut buf, height);
    write_u16(&mut buf, width);
    write_u16(&mut buf, 0);
    write_u16(&mut buf, 0);
    write_u32(&mut buf, 0);
    write_u32(&mut buf, 0x0048_0000);
    write_u32(&mut buf, 0x0048_0000);
    write_u16(&mut buf, 0);
    write_u16(&mut buf, 8);
    write_u16(&mut buf, 1);
    write_u16(&mut buf, 8);
    write_u32(&mut buf, 0);
    write_u32(&mut buf, 0);
    write_u32(&mut buf, 0);
    proof {
        assert(palette@.len() >= 1) by {
            assert(pixels@.len() >= 1) by (nonlinear_arith)
                requires pixels@.len() == width as int * height as int, width >= 1, height >= 1;
            assert(pixels@.drop_last().len() >= 0);
        }
    }
    write_color_table(&mut buf, palette.as_slice());
    write_index_rows(&mut buf, width as u32, height as u32, indices.as_slice(), IndexedPixelSize::EightBpp, width as usize, true);
    assert(buf@ =~= pix_pat_spec(slot, fallback, width, height, pixels@));
    Ok(buf)
}

/// A dither pixel-pattern opcode (`patType = 2`): the fallback pattern
/// and the target colour, each channel duplicated into 16 bits.
pub fn build_pix_pat_dither_op(slot: PixPatSlot, fallback: [u8; 8], rgb: [u8; 3]) -> (buf: Vec<u8>)
    ensures
        buf@ == u16_bytes(slot_op(slot)) + u16_bytes(2) + fallback@ + u16_bytes(rgb[0] as int * 257)
            + u16_bytes(rgb[1] as int * 257) + u16_bytes(rgb[2] as int * 257),
{
    let mut buf: Vec<u8> = Vec::new();
    write_u16(&mut buf, slot.opcode());
    write_u16(&mut buf, 2);
    write_bytes(&mut buf, fallback.as_slice());
    write_u16(&mut buf, rgb[0] as u16 * 257);
    write_u16(&mut buf, rgb[1] as u16 * 257);
    write_u16(&mut buf, rgb[2] as u16 * 257);
    buf
}

} // verus!

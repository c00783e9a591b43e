//! What the reader makes of the rows the writer produces: the lemmas
//! behind the round trip of a direct-colour raster through
//! `encode_pict_v2` / `encode_pict_v1_with` and `parse_pict`.
use vstd::prelude::*;
use crate::decoder::{
    direct_layout, direct_pixels, looks_like_record, pixmap_header_at, v1_tail_at, v2_tail_at, PixMapHeader,
};
use crate::encoder::{
    byte_count, dims_ok, direct_bits_body, direct_pixmap, frame_bytes, frame_header, pack_word, pad_even,
    pict_v1_spec, pict_v2_spec, plane, raw_pixels, rgb_pixels, rgba_row, row_bytes_raw, row_spec, rows_spec, v1_start,
    v2_start, v2_stride_ok, PackType,
};
use crate::header::{header_version_known, header_wire};
use crate::wire::{be_i16, be_u16, i16_bytes, u16_bytes, u32_bytes};
use crate::packbits::{lemma_decode_extend, lemma_packbits_roundtrip, pb_decode, pb_encode};
use crate::raster::cell;
use crate::rows::{layout_pixel, packed_rows, rgba_at, segments, Layout, MAX_RASTER_BYTES};
use crate::state::Rgba;

verus! {

/// `data` with every alpha byte made opaque.
pub open spec fn opaque_rgba(data: Seq<u8>) -> Seq<u8> {
    Seq::new(data.len(), |k: int| if k % 4 == 3 { 255u8 } else { data[k] })
}

/// The opaque colour of pixel `(x, y)` of a `w`-wide RGBA raster.
pub open spec fn opaque_pixel(data: Seq<u8>, w: int, x: int, y: int) -> Rgba {
    let k = (y * w + x) * 4;
    Rgba { r: data[k], g: data[k + 1], b: data[k + 2], a: 255 }
}

/// The pack types whose rows come back unchanged (16-bit pixels drop
/// the low three bits of each channel).
pub open spec fn lossless_pack(p: PackType) -> bool {
    p is Raw || p is Packed24 || p is ComponentPackBits
}

/// The stored length of one row of `w` pixels for the fixed-size packings.
pub open spec fn fixed_row_len(p: PackType, w: int) -> int {
    if p is Packed24 { 3 * w } else { 4 * w }
}

proof fn lemma_raw_pixels(row: Seq<u8>, n: int)
    requires
        n >= 0,
    ensures
        raw_pixels(row, n).len() == 4 * n,
        forall|i: int| 0 <= i < 4 * n ==> #[trigger] raw_pixels(row, n)[i] == if i % 4 == 0 {
            0xFFu8
        } else {
            row[i - 1]
        },
    decreases n,
{
    if n > 0 {
        lemma_raw_pixels(row, n - 1);
    }
}

proof fn lemma_rgb_pixels(row: Seq<u8>, n: int)
    requires
        n >= 0,
    ensures
        rgb_pixels(row, n).len() == 3 * n,
        forall|x: int, c: int| 0 <= x < n && 0 <= c < 3 ==> #[trigger] rgb_pixels(row, n)[3 * x + c] == row[4 * x + c],
    decreases n,
{
    if n > 0 {
        lemma_rgb_pixels(row, n - 1);
        let prev = rgb_pixels(row, n - 1);
        let cur = rgb_pixels(row, n);
        assert forall|x: int, c: int| 0 <= x < n && 0 <= c < 3 implies #[trigger] cur[3 * x + c] == row[4 * x + c] by {
            if x < n - 1 {
                assert(cur[3 * x + c] == prev[3 * x + c]);
            }
        }
    }
}

/// One stored row of a fixed-size packing has the fixed length.
proof fn lemma_fixed_row_len(p: PackType, row: Seq<u8>, w: int)
    requires
        p is Raw || p is Packed24,
        w >= 0,
    ensures
        row_spec(p, row, w).len() == fixed_row_len(p, w),
{
    if p is Raw {
        lemma_raw_pixels(row, w);
    } else {
        lemma_rgb_pixels(row, w);
    }
}

/// The stored rows of a fixed-size packing: their length, and byte `j`
/// of row `y` is byte `j` of that row's stored form.
proof fn lemma_rows_fixed(p: PackType, data: Seq<u8>, w: int, n: int, y: int, j: int)
    requires
        p is Raw || p is Packed24,
        w >= 0,
        n >= 0,
        0 <= y < n,
        0 <= j < fixed_row_len(p, w),
    ensures
        rows_spec(p, data, w, n).len() == n * fixed_row_len(p, w),
        y * fixed_row_len(p, w) + j < n * fixed_row_len(p, w),
        rows_spec(p, data, w, n)[y * fixed_row_len(p, w) + j] == row_spec(p, rgba_row(data, w, y), w)[j],
    decreases n,
{
    let l = fixed_row_len(p, w);
    lemma_fixed_row_len(p, rgba_row(data, w, n - 1), w);
    lemma_rows_len_fixed(p, data, w, n - 1);
    if y < n - 1 {
        lemma_rows_fixed(p, data, w, n - 1, y, j);
        assert(y * l + j < (n - 1) * l) by (nonlinear_arith)
            requires
                y < n - 1,
                j < l,
                0 <= y,
                0 <= l,
        {
            assert((y + 1) * l <= (n - 1) * l);
        }
    } else {
        assert(y * l == (n - 1) * l);
    }
    assert(n * l == (n - 1) * l + l) by (nonlinear_arith);
    assert(y * l + j < n * l) by (nonlinear_arith)
        requires
            y < n,
            j < l,
            0 <= y,
            0 <= l,
    {
        assert((y + 1) * l <= n * l);
    }
}

pub proof fn lemma_rows_len_fixed(p: PackType, data: Seq<u8>, w: int, n: int)
    requires
        p is Raw || p is Packed24,
        w >= 0,
        n >= 0,
    ensures
        rows_spec(p, data, w, n).len() == n * fixed_row_len(p, w),
    decreases n,
{
    if n > 0 {
        lemma_rows_len_fixed(p, data, w, n - 1);
        lemma_fixed_row_len(p, rgba_row(data, w, n - 1), w);
        assert(n * fixed_row_len(p, w) == (n - 1) * fixed_row_len(p, w) + fixed_row_len(p, w)) by (nonlinear_arith);
    } else {
        assert(n * fixed_row_len(p, w) == 0) by (nonlinear_arith)
            requires
                n == 0,
        ;
    }
}

/// Pixel `(x, y)` of the stored raw or three-byte rows, read back in the
/// decoder's layout, is the opaque source pixel.
pub proof fn lemma_fixed_rows_pixel(p: PackType, data: Seq<u8>, w: int, h: int, x: int, y: int, pal: Seq<Rgba>)
    requires
        p is Raw || p is Packed24,
        data.len() == w * h * 4,
        0 <= x < w,
        0 <= y < h,
    ensures
        layout_pixel(
            if p is Raw { Layout::Xrgb } else { Layout::Rgb24 },
            rows_spec(p, data, w, h),
            fixed_row_len(p, w),
            w,
            pal,
            x,
            y,
        ) == opaque_pixel(data, w, x, y),
{
    let l = fixed_row_len(p, w);
    let row = rgba_row(data, w, y);
    let stored = rows_spec(p, data, w, h);
    assert(0 <= y * w * 4) by (nonlinear_arith)
        requires
            0 <= y,
            0 <= w,
    ;
    assert((y + 1) * w * 4 <= h * w * 4) by (nonlinear_arith)
        requires
            y + 1 <= h,
            0 <= w,
    ;
    assert(h * w * 4 == w * h * 4) by (nonlinear_arith);
    assert((y * w + x) * 4 == y * w * 4 + 4 * x) by (nonlinear_arith);
    assert((y + 1) * w * 4 == y * w * 4 + w * 4) by (nonlinear_arith);
    if p is Raw {
        lemma_raw_pixels(row, w);
        lemma_rows_fixed(p, data, w, h, y, 4 * x + 1);
        lemma_rows_fixed(p, data, w, h, y, 4 * x + 2);
        lemma_rows_fixed(p, data, w, h, y, 4 * x + 3);
        assert((4 * x + 1) % 4 == 1);
        assert((4 * x + 2) % 4 == 2);
        assert((4 * x + 3) % 4 == 3);
    } else {
        lemma_rgb_pixels(row, w);
        lemma_rows_fixed(p, data, w, h, y, 3 * x);
        lemma_rows_fixed(p, data, w, h, y, 3 * x + 1);
        lemma_rows_fixed(p, data, w, h, y, 3 * x + 2);
        assert(row_spec(p, row, w)[3 * x + 0] == row[4 * x + 0]);
    }
}

/// Two `w x h` RGBA buffers that agree pixel by pixel are equal.
pub proof fn lemma_cells_equal(a: Seq<u8>, b: Seq<u8>, w: int, h: int)
    requires
        w > 0,
        h >= 0,
        a.len() == w * h * 4,
        b.len() == w * h * 4,
        forall|x: int, y: int| 0 <= x < w && 0 <= y < h ==> #[trigger] rgba_at(a, w, x, y) == rgba_at(b, w, x, y),
    ensures
        a == b,
{
    assert forall|k: int| 0 <= k < a.len() implies a[k] == b[k] by {
        let q = k / 4;
        let c = k % 4;
        let y = q / w;
        let x = q % w;
        assert(k == q * 4 + c);
        assert(q == y * w + x) by (nonlinear_arith)
            requires
                w > 0,
                y == q / w,
                x == q % w,
        ;
        assert(0 <= y);
        assert(y < h) by (nonlinear_arith)
            requires
                q == y * w + x,
                0 <= x,
                k == q * 4 + c,
                0 <= c,
                k < w * h * 4,
                w > 0,
        ;
        assert(rgba_at(a, w, x, y) == rgba_at(b, w, x, y));
        assert(cell(a, y * w + x) == cell(b, y * w + x));
    }
    assert(a =~= b);
}

/// Every pixel of [`opaque_rgba`] is the opaque source pixel.
pub proof fn lemma_opaque_cells(data: Seq<u8>, w: int, h: int, x: int, y: int)
    requires
        data.len() == w * h * 4,
        0 <= x < w,
        0 <= y < h,
    ensures
        rgba_at(opaque_rgba(data), w, x, y) == opaque_pixel(data, w, x, y),
{
    let k = (y * w + x) * 4;
    assert(k + 4 <= w * h * 4) by (nonlinear_arith)
        requires
            0 <= x < w,
            0 <= y < h,
            k == (y * w + x) * 4,
    ;
    assert(0 <= k) by (nonlinear_arith)
        requires
            0 <= x,
            0 <= y,
            0 <= w,
            k == (y * w + x) * 4,
    ;
    assert(k % 4 == 0);
    assert((k + 1) % 4 == 1);
    assert((k + 2) % 4 == 2);
    assert((k + 3) % 4 == 3);
}

/// The planes of rows `0..n`, as the decoder unpacks component-packed
/// rows: for each row its R plane, then G, then B.
pub open spec fn planar_rows(data: Seq<u8>, w: int, n: int) -> Seq<u8>
    decreases n,
{
    if n <= 0 {
        Seq::empty()
    } else {
        let row = rgba_row(data, w, n - 1);
        planar_rows(data, w, n - 1) + plane(row, w, 0) + plane(row, w, 1) + plane(row, w, 2)
    }
}

/// PackBits decoding stops at the end of what was encoded.
proof fn lemma_pb_prefix(x: Seq<u8>, t: Seq<u8>)
    ensures
        pb_decode(pb_encode(x) + t, x.len()) == Some((x, pb_encode(x).len())),
{
    lemma_packbits_roundtrip(x);
    lemma_decode_extend(pb_encode(x), t, x.len());
}

/// Three PackBits-coded planes of `w` bytes each decode back in order.
proof fn lemma_three_segments(a: Seq<u8>, b: Seq<u8>, c: Seq<u8>, t: Seq<u8>, w: nat)
    requires
        a.len() == w,
        b.len() == w,
        c.len() == w,
    ensures
        segments(pb_encode(a) + pb_encode(b) + pb_encode(c) + t, w, 3) == Some(
            (a + b + c, pb_encode(a).len() + pb_encode(b).len() + pb_encode(c).len()),
        ),
{
    let ea = pb_encode(a);
    let eb = pb_encode(b);
    let ec = pb_encode(c);
    let s = ea + eb + ec + t;
    reveal_with_fuel(segments, 4);
    assert(s.subrange(0, s.len() as int) =~= ea + (eb + ec + t));
    lemma_pb_prefix(a, eb + ec + t);
    assert(segments(s, w, 1) == Some((Seq::<u8>::empty() + a, ea.len())));
    assert(s.subrange(ea.len() as int, s.len() as int) =~= eb + (ec + t));
    lemma_pb_prefix(b, ec + t);
    assert(segments(s, w, 2) == Some((Seq::<u8>::empty() + a + b, ea.len() + eb.len())));
    assert(s.subrange((ea.len() + eb.len()) as int, s.len() as int) =~= ec + t);
    lemma_pb_prefix(c, t);
    assert(Seq::<u8>::empty() + a + b + c =~= a + b + c);
}

/// The component-packed rows the writer produces unpack to
/// [`planar_rows`], consuming exactly the stored rows.
#[verifier::rlimit(40)]
#[verifier::spinoff_prover]
pub proof fn lemma_packed_rows_cpb(data: Seq<u8>, w: int, n: int, t: Seq<u8>)
    requires
        w >= 0,
        n >= 0,
    ensures
        packed_rows(rows_spec(PackType::ComponentPackBits, data, w, n) + t, w as nat, 3, n as nat, w * 4 > 250)
            == Some((planar_rows(data, w, n), rows_spec(PackType::ComponentPackBits, data, w, n).len())),
    decreases n,
{
    if n > 0 {
        let p = PackType::ComponentPackBits;
        let s1 = rows_spec(p, data, w, n - 1);
        let row = rgba_row(data, w, n - 1);
        let pr = plane(row, w, 0);
        let pg = plane(row, w, 1);
        let pb = plane(row, w, 2);
        let rc = pb_encode(pr);
        let gc = pb_encode(pg);
        let bc = pb_encode(pb);
        let bcount = byte_count(w * 4, (rc.len() + gc.len() + bc.len()) as int);
        let r = row_spec(p, row, w);
        assert(r == bcount + rc + gc + bc);
        let all = rows_spec(p, data, w, n) + t;
        assert(all =~= s1 + (r + t));
        lemma_packed_rows_cpb(data, w, n - 1, r + t);
        let c: nat = if w * 4 > 250 { 2 } else { 1 };
        assert(bcount.len() == c);
        assert(all.subrange((s1.len() + c) as int, all.len() as int) =~= rc + gc + bc + t);
        lemma_three_segments(pr, pg, pb, t, w as nat);
        assert(rows_spec(p, data, w, n).len() == s1.len() + c + rc.len() + gc.len() + bc.len());
    }
}

proof fn lemma_planar_len(data: Seq<u8>, w: int, n: int)
    requires
        w >= 0,
        n >= 0,
    ensures
        planar_rows(data, w, n).len() == n * (3 * w),
    decreases n,
{
    if n > 0 {
        lemma_planar_len(data, w, n - 1);
        let row = rgba_row(data, w, n - 1);
        assert(plane(row, w, 0).len() == w);
        assert(plane(row, w, 1).len() == w);
        assert(plane(row, w, 2).len() == w);
        assert(n * (3 * w) == (n - 1) * (3 * w) + 3 * w) by (nonlinear_arith);
    } else {
        assert(n * (3 * w) == 0) by (nonlinear_arith)
            requires
                n == 0,
        ;
    }
}

/// Byte `j` of row `y` of [`planar_rows`].
proof fn lemma_planar_index(data: Seq<u8>, w: int, n: int, y: int, j: int)
    requires
        w >= 0,
        0 <= y < n,
        0 <= j < 3 * w,
    ensures
        y * (3 * w) + j < n * (3 * w),
        planar_rows(data, w, n)[y * (3 * w) + j] == ({
            let row = rgba_row(data, w, y);
            plane(row, w, 0) + plane(row, w, 1) + plane(row, w, 2)
        })[j],
    decreases n,
{
    let l = 3 * w;
    lemma_planar_len(data, w, n - 1);
    if y < n - 1 {
        lemma_planar_index(data, w, n - 1, y, j);
    } else {
        assert(y * l == (n - 1) * l);
    }
    assert(y * l + j < n * l) by (nonlinear_arith)
        requires
            y < n,
            j < l,
            0 <= y,
            0 <= l,
    {
        assert((y + 1) * l <= n * l);
    }
}

/// Pixel `(x, y)` of the unpacked planes, read in the planar layout, is
/// the opaque source pixel.
pub proof fn lemma_planar_pixel(data: Seq<u8>, w: int, h: int, x: int, y: int, pal: Seq<Rgba>)
    requires
        data.len() == w * h * 4,
        0 <= x < w,
        0 <= y < h,
    ensures
        layout_pixel(Layout::Planar3, planar_rows(data, w, h), 3 * w, w, pal, x, y) == opaque_pixel(data, w, x, y),
{
    let row = rgba_row(data, w, y);
    assert(0 <= y * w * 4) by (nonlinear_arith)
        requires
            0 <= y,
            0 <= w,
    ;
    assert((y + 1) * w * 4 <= h * w * 4) by (nonlinear_arith)
        requires
            y + 1 <= h,
            0 <= w,
    ;
    assert(h * w * 4 == w * h * 4) by (nonlinear_arith);
    assert((y * w + x) * 4 == y * w * 4 + 4 * x) by (nonlinear_arith);
    assert((y + 1) * w * 4 == y * w * 4 + w * 4) by (nonlinear_arith);
    assert(y * (3 * w) == y * 3 * w) by (nonlinear_arith);
    lemma_planar_index(data, w, h, y, x);
    lemma_planar_index(data, w, h, y, w + x);
    lemma_planar_index(data, w, h, y, 2 * w + x);
}

/// The fields the reader finds in a `DirectBitsRect` record the writer
/// produced at `p`: the PixMap header, the destination (the whole
/// frame), `srcCopy`, and the stored rows right after.
#[verifier::rlimit(80)]
#[verifier::spinoff_prover]
pub proof fn lemma_direct_record_fields(s: Seq<u8>, p: int, pk: PackType, w: u32, h: u32, data: Seq<u8>)
    requires
        0 <= p,
        p + direct_bits_body(pk, w, h, frame_bytes(w, h), 0, data).len() <= s.len(),
        s.subrange(p, p + direct_bits_body(pk, w, h, frame_bytes(w, h), 0, data).len()) == direct_bits_body(
            pk,
            w,
            h,
            frame_bytes(w, h),
            0,
            data,
        ),
        1 <= w <= 32767,
        1 <= h <= 32767,
        row_bytes_raw(pk, w as int) + 0x8000 < 0x10000,
    ensures
        be_u16(s, p + 4) == row_bytes_raw(pk, w as int) + 0x8000,
        pixmap_header_at(s, p) == (PixMapHeader {
            row_bytes: ((row_bytes_raw(pk, w as int) + 0x8000) % 0x4000) as usize,
            width: w,
            height: h,
            pack_type: pack_word(pk) as u16,
            pixel_size: if pk is Rle16 { 16 } else { 32 },
            comp_count: 3,
            comp_size: if pk is Rle16 { 5 } else { 8 },
        }),
        be_i16(s, p + 58) == 0,
        be_i16(s, p + 60) == 0,
        be_i16(s, p + 62) == h,
        be_i16(s, p + 64) == w,
        be_u16(s, p + 66) == 0,
        s.subrange(p + 68, s.len() as int) == rows_spec(pk, data, w as int, h as int) + s.subrange(
            p + direct_bits_body(pk, w, h, frame_bytes(w, h), 0, data).len(),
            s.len() as int,
        ),
{
    let rows = rows_spec(pk, data, w as int, h as int);
    let fb = frame_bytes(w, h);
    let dp = direct_pixmap(pk, w, h);
    let body = direct_bits_body(pk, w, h, fb, 0, data);
    let hdr = u32_bytes(0xFF) + dp + fb + fb + u16_bytes(0);
    assert(body =~= hdr + rows);
    assert(dp.len() == 46);
    assert(hdr.len() == 68);
    let rbr = row_bytes_raw(pk, w as int);
    assert(forall|k: int| 0 <= k < 68 ==> #[trigger] s[p + k] == hdr[k]) by {
        assert forall|k: int| 0 <= k < 68 implies #[trigger] s[p + k] == hdr[k] by {
            assert(s.subrange(p, p + body.len())[k] == body[k]);
        }
    }
    assert(fb =~= u16_bytes(0) + u16_bytes(0) + u16_bytes((h % 65536) as int) + u16_bytes((w % 65536) as int));
    assert(s[p + 4] == hdr[4] && s[p + 5] == hdr[5]);
    assert(hdr[4] == u16_bytes(rbr + 0x8000)[0]);
    assert(hdr[5] == u16_bytes(rbr + 0x8000)[1]);
    assert(be_u16(s, p + 4) == rbr + 0x8000);
    assert(s[p + 6] == 0 && s[p + 7] == 0 && s[p + 8] == 0 && s[p + 9] == 0);
    assert(s[p + 10] == hdr[10] && s[p + 11] == hdr[11]);
    assert(hdr[10] == u16_bytes(h as int)[0] && hdr[11] == u16_bytes(h as int)[1]);
    assert(s[p + 12] == hdr[12] && s[p + 13] == hdr[13]);
    assert(hdr[12] == u16_bytes(w as int)[0] && hdr[13] == u16_bytes(w as int)[1]);
    assert(s[p + 16] == hdr[16] && s[p + 17] == hdr[17]);
    assert(hdr[16] == u16_bytes(pack_word(pk))[0] && hdr[17] == u16_bytes(pack_word(pk))[1]);
    assert(s[p + 32] == hdr[32] && s[p + 33] == hdr[33]);
    assert(s[p + 34] == hdr[34] && s[p + 35] == hdr[35]);
    assert(s[p + 36] == hdr[36] && s[p + 37] == hdr[37]);
    assert(s[p + 58] == hdr[58] && s[p + 59] == hdr[59] && s[p + 60] == hdr[60] && s[p + 61] == hdr[61]);
    assert(s[p + 62] == hdr[62] && s[p + 63] == hdr[63]);
    assert(hdr[62] == u16_bytes(h as int)[0] && hdr[63] == u16_bytes(h as int)[1]);
    assert(s[p + 64] == hdr[64] && s[p + 65] == hdr[65]);
    assert(hdr[64] == u16_bytes(w as int)[0] && hdr[65] == u16_bytes(w as int)[1]);
    assert(s[p + 66] == hdr[66] && s[p + 67] == hdr[67]);
    let tail = s.subrange(p + body.len(), s.len() as int);
    assert forall|k: int| 0 <= k < s.len() - (p + 68) implies #[trigger] s.subrange(p + 68, s.len() as int)[k] == (rows
        + tail)[k] by {
        if k < rows.len() {
            assert(s.subrange(p, p + body.len())[68 + k] == body[68 + k]);
        }
    }
    assert(s.subrange(p + 68, s.len() as int) =~= rows + tail);
}

/// The writer's `DirectBitsRect` record for the `w x h` raster `data`
/// packed with `pk` stands at `p` in `s`, and the raster is one the
/// reader takes back whole.
pub open spec fn record_at(s: Seq<u8>, p: int, pk: PackType, w: u32, h: u32, data: Seq<u8>) -> bool {
    let body = direct_bits_body(pk, w, h, frame_bytes(w, h), 0, data);
    &&& 0 <= p
    &&& p + body.len() <= s.len()
    &&& s.subrange(p, p + body.len()) == body
    &&& lossless_pack(pk)
    &&& 1 <= w <= 32767
    &&& 1 <= h <= 32767
    &&& v2_stride_ok(pk, w)
    &&& data.len() == w * h * 4
    &&& w * h * 4 <= MAX_RASTER_BYTES
}

/// The length of that record.
pub open spec fn record_len(pk: PackType, w: u32, h: u32, data: Seq<u8>) -> int {
    direct_bits_body(pk, w, h, frame_bytes(w, h), 0, data).len() as int
}

/// The layout the reader picks for a lossless packing.
pub open spec fn pack_layout(pk: PackType) -> Layout {
    if pk is Raw {
        Layout::Xrgb
    } else if pk is Packed24 {
        Layout::Rgb24
    } else {
        Layout::Planar3
    }
}

/// In the reader's terms, the writer's record decodes to the opaque
/// raster: a direct PixMap of the raster's size, whose stored pixels,
/// read in the chosen layout, are the source pixels, ending where the
/// record ends.
#[verifier::rlimit(60)]
#[verifier::spinoff_prover]
pub proof fn lemma_record_decodes(s: Seq<u8>, p: int, pk: PackType, w: u32, h: u32, data: Seq<u8>)
    requires
        record_at(s, p, pk, w, h, data),
    ensures
        ({
            let hd = pixmap_header_at(s, p);
            let rest = s.subrange(p + 68, s.len() as int);
            let dp = direct_pixels(hd, rest)->0;
            &&& s.len() - p >= 68
            &&& be_u16(s, p + 4) >= 0x8000
            &&& hd.width == w
            &&& hd.height == h
            &&& direct_layout(hd) == Some(pack_layout(pk))
            &&& direct_pixels(hd, rest) is Some
            &&& 68 + dp.2 == record_len(pk, w, h, data)
            &&& forall|x: int, y: int|
                0 <= x < w && 0 <= y < h ==> #[trigger] layout_pixel(
                    pack_layout(pk),
                    dp.0,
                    dp.1,
                    w as int,
                    Seq::empty(),
                    x,
                    y,
                ) == opaque_pixel(data, w as int, x, y)
            &&& be_i16(s, p + 58) == 0
            &&& be_i16(s, p + 60) == 0
            &&& be_i16(s, p + 62) == h
            &&& be_i16(s, p + 64) == w
            &&& be_u16(s, p + 66) == 0
        }),
{
    lemma_direct_record_fields(s, p, pk, w, h, data);
    let hd = pixmap_header_at(s, p);
    let rest = s.subrange(p + 68, s.len() as int);
    let rows = rows_spec(pk, data, w as int, h as int);
    let dp = direct_pixels(hd, rest)->0;
    let body = direct_bits_body(pk, w, h, frame_bytes(w, h), 0, data);
    let tail = s.subrange(p + body.len(), s.len() as int);
    assert(rest == rows + tail);
    assert(body.len() == 68 + rows.len());
    let wi = w as int;
    let hi = h as int;
    if !(pk is Packed24) {
        assert((4 * wi + 0x8000) % 0x4000 == 4 * wi);
        assert(hd.row_bytes == 4 * wi);
    }
    assert(hd.pack_type == pack_word(pk));
    assert(hd.pixel_size == 32 && hd.comp_count == 3 && hd.comp_size == 8);
    if pk is Raw || pk is Packed24 {
        lemma_rows_len_fixed(pk, data, wi, hi);
        let l = fixed_row_len(pk, wi);
        assert(rest.subrange(0, hi * l) =~= rows);
        if pk is Raw {
            assert(hi * l == l * hi) by (nonlinear_arith);
            assert(hd.row_bytes == 4 * wi);
        } else {
            assert(3 * wi * hi == hi * l) by (nonlinear_arith)
                requires
                    l == 3 * wi,
            ;
        }
        assert forall|x: int, y: int| 0 <= x < w && 0 <= y < h implies #[trigger] layout_pixel(
            pack_layout(pk),
            dp.0,
            dp.1,
            wi,
            Seq::empty(),
            x,
            y,
        ) == opaque_pixel(data, wi, x, y) by {
            lemma_fixed_rows_pixel(pk, data, wi, hi, x, y, Seq::empty());
        }
    } else {
        lemma_packed_rows_cpb(data, wi, hi, tail);
        assert(hd.row_bytes as int > 250 <==> wi * 4 > 250);
        assert forall|x: int, y: int| 0 <= x < w && 0 <= y < h implies #[trigger] layout_pixel(
            pack_layout(pk),
            dp.0,
            dp.1,
            wi,
            Seq::empty(),
            x,
            y,
        ) == opaque_pixel(data, wi, x, y) by {
            lemma_planar_pixel(data, wi, hi, x, y, Seq::empty());
        }
    }
}

/// The unpacked rows `0..n` of `A1R5G5B5` units of an RGBA raster, each
/// unit big-endian.
pub open spec fn rows555(data: Seq<u8>, w: int, n: int) -> Seq<u8>
    decreases n,
{
    if n <= 0 {
        Seq::empty()
    } else {
        rows555(data, w, n - 1) + crate::packbits::units_bytes(crate::encoder::pixels16(rgba_row(data, w, n - 1), w))
    }
}

/// The writer's 16-bit PackBits rows unpack to [`rows555`], consuming
/// exactly the stored rows.
#[verifier::rlimit(40)]
#[verifier::spinoff_prover]
proof fn lemma_packed16_rows_rle16(data: Seq<u8>, w: int, n: int, t: Seq<u8>)
    requires
        w >= 0,
        n >= 0,
    ensures
        crate::rows::packed16_rows(rows_spec(PackType::Rle16, data, w, n) + t, w as nat, n as nat, w * 2 > 250)
            == Some((rows555(data, w, n), rows_spec(PackType::Rle16, data, w, n).len())),
    decreases n,
{
    if n > 0 {
        let p = PackType::Rle16;
        let s1 = rows_spec(p, data, w, n - 1);
        let u = crate::encoder::pixels16(rgba_row(data, w, n - 1), w);
        let e = crate::packbits::pb_encode16(u);
        let bc = byte_count(w * 2, e.len() as int);
        let r = row_spec(p, rgba_row(data, w, n - 1), w);
        assert(r == bc + e);
        let all = rows_spec(p, data, w, n) + t;
        assert(all =~= s1 + (r + t));
        lemma_packed16_rows_rle16(data, w, n - 1, r + t);
        let c: nat = if w * 2 > 250 { 2 } else { 1 };
        assert(bc.len() == c);
        assert(all.subrange((s1.len() + c) as int, all.len() as int) =~= e + t);
        assert(u.len() == w);
        crate::packbits::lemma_packbits16_bytes(u);
        crate::packbits::lemma_decode16_extend(e, t, w as nat);
        assert(rows_spec(p, data, w, n).len() == s1.len() + c + e.len());
    }
}

/// [`rows555`] holds two bytes per pixel.
proof fn lemma_rows555_len(data: Seq<u8>, w: int, n: int)
    requires
        w >= 0,
        n >= 0,
    ensures
        rows555(data, w, n).len() == 2 * w * n,
    decreases n,
{
    if n > 0 {
        lemma_rows555_len(data, w, n - 1);
        let u = crate::encoder::pixels16(rgba_row(data, w, n - 1), w);
        crate::packbits::lemma_units_bytes_index(u);
        assert(2 * w * n == 2 * w * (n - 1) + 2 * w) by (nonlinear_arith);
    } else {
        assert(2 * w * n == 0) by (nonlinear_arith)
            requires
                n == 0,
        ;
    }
}

/// Pixel `x` of row `y` of [`rows555`] stands big-endian at byte
/// `2 (y w + x)`.
#[verifier::spinoff_prover]
proof fn lemma_rows555_at(data: Seq<u8>, w: int, n: int, y: int, x: int)
    requires
        0 <= y < n,
        0 <= x < w,
    ensures
        ({
            let v = crate::encoder::pixels16(rgba_row(data, w, y), w)[x] as int;
            &&& rows555(data, w, n)[y * (2 * w) + 2 * x] == (v / 256) as u8
            &&& rows555(data, w, n)[y * (2 * w) + 2 * x + 1] == (v % 256) as u8
        }),
    decreases n,
{
    let prev = rows555(data, w, n - 1);
    let u = crate::encoder::pixels16(rgba_row(data, w, n - 1), w);
    crate::packbits::lemma_units_bytes_index(u);
    lemma_rows555_len(data, w, n - 1);
    if y < n - 1 {
        lemma_rows555_at(data, w, n - 1, y, x);
        assert(y * (2 * w) + 2 * x + 1 < 2 * w * (n - 1)) by (nonlinear_arith)
            requires
                y + 1 <= n - 1,
                0 <= x < w,
        ;
    } else {
        assert(y * (2 * w) == 2 * w * (n - 1)) by (nonlinear_arith)
            requires
                y == n - 1,
        ;
        assert(rows555(data, w, n)[y * (2 * w) + 2 * x] == crate::packbits::units_bytes(u)[2 * x]);
        assert(rows555(data, w, n)[y * (2 * w) + 2 * x + 1] == crate::packbits::units_bytes(u)[2 * x + 1]);
    }
}

/// An `A1R5G5B5` unit made from an RGB colour reads back with each
/// channel cut to its top five bits and widened again.
proof fn lemma_rgb555_of_pixel16(r: u8, g: u8, b: u8)
    ensures
        crate::rows::rgb555_spec(crate::encoder::pixel16(r, g, b) as int) == (Rgba {
            r: ((r / 8) * 8 + (r / 8) / 4) as u8,
            g: ((g / 8) * 8 + (g / 8) / 4) as u8,
            b: ((b / 8) * 8 + (b / 8) / 4) as u8,
            a: 255,
        }),
{
    let r5 = (r / 8) as int;
    let g5 = (g / 8) as int;
    let b5 = (b / 8) as int;
    let p = 0x8000 + r5 * 1024 + g5 * 32 + b5;
    assert(crate::encoder::pixel16(r, g, b) as int == p);
    assert(p / 1024 == 32 + r5 && (p / 1024) % 32 == r5) by (nonlinear_arith)
        requires
            p == 0x8000 + r5 * 1024 + g5 * 32 + b5,
            0 <= r5 < 32,
            0 <= g5 < 32,
            0 <= b5 < 32,
    ;
    assert(p / 32 == 1024 + r5 * 32 + g5 && (p / 32) % 32 == g5) by (nonlinear_arith)
        requires
            p == 0x8000 + r5 * 1024 + g5 * 32 + b5,
            0 <= r5 < 32,
            0 <= g5 < 32,
            0 <= b5 < 32,
    ;
    assert(p % 32 == b5) by (nonlinear_arith)
        requires
            p == 0x8000 + r5 * 1024 + g5 * 32 + b5,
            0 <= r5 < 32,
            0 <= g5 < 32,
            0 <= b5 < 32,
    ;
}

/// The writer's `DirectBitsRect` record of an RGBA raster packed as
/// `Rle16` (`A1R5G5B5` units, PackBits per row in 16-bit units, each
/// unit big-endian) reads back, for a 14-bit stride, as a 16-bit
/// direct pixel map whose rows take exactly the stored bytes and whose
/// every pixel is the written pixel with each colour channel cut to
/// its top five bits and widened again, opaque.
#[verifier::rlimit(60)]
#[verifier::spinoff_prover]
pub proof fn lemma_rle16_record_reads_back(s: Seq<u8>, p: int, w: u32, h: u32, data: Seq<u8>)
    requires
        0 <= p,
        p + direct_bits_body(PackType::Rle16, w, h, frame_bytes(w, h), 0, data).len() <= s.len(),
        s.subrange(p, p + direct_bits_body(PackType::Rle16, w, h, frame_bytes(w, h), 0, data).len())
            == direct_bits_body(PackType::Rle16, w, h, frame_bytes(w, h), 0, data),
        1 <= w,
        w * 2 <= 0x3FFF,
        1 <= h <= 32767,
        data.len() == w * h * 4,
    ensures
        ({
            let hd = pixmap_header_at(s, p);
            let rest = s.subrange(p + 68, s.len() as int);
            &&& hd.width == w && hd.height == h
            &&& direct_layout(hd) == Some(Layout::Rgb555)
            &&& direct_pixels(hd, rest) matches Some((pix, stride, used))
            &&& 68 + used == direct_bits_body(PackType::Rle16, w, h, frame_bytes(w, h), 0, data).len()
            &&& forall|x: int, y: int|
                0 <= x < w && 0 <= y < h ==> #[trigger] layout_pixel(Layout::Rgb555, pix, stride, w as int, Seq::empty(), x, y)
                    == (Rgba {
                    r: ((data[4 * (y * w + x)] / 8) * 8 + (data[4 * (y * w + x)] / 8) / 4) as u8,
                    g: ((data[4 * (y * w + x) + 1] / 8) * 8 + (data[4 * (y * w + x) + 1] / 8) / 4) as u8,
                    b: ((data[4 * (y * w + x) + 2] / 8) * 8 + (data[4 * (y * w + x) + 2] / 8) / 4) as u8,
                    a: 255,
                })
        }),
{
    let pk = PackType::Rle16;
    lemma_direct_record_fields(s, p, pk, w, h, data);
    let hd = pixmap_header_at(s, p);
    let rest = s.subrange(p + 68, s.len() as int);
    let rows = rows_spec(pk, data, w as int, h as int);
    let body = direct_bits_body(pk, w, h, frame_bytes(w, h), 0, data);
    let tail = s.subrange(p + body.len(), s.len() as int);
    assert(rest == rows + tail);
    assert(body.len() == 68 + rows.len()) by {
        lemma_direct_record_fields(s, p, pk, w, h, data);
    }
    let wi = w as int;
    let hi = h as int;
    assert((2 * wi + 0x8000) % 0x4000 == 2 * wi);
    assert(hd.row_bytes == 2 * wi);
    lemma_packed16_rows_rle16(data, wi, hi, tail);
    let pix = rows555(data, wi, hi);
    assert(direct_pixels(hd, rest) == Some((pix, 2 * wi, rows.len() as int)));
    assert forall|x: int, y: int| 0 <= x < w && 0 <= y < h implies #[trigger] layout_pixel(
        Layout::Rgb555,
        pix,
        2 * wi,
        wi,
        Seq::empty(),
        x,
        y,
    ) == (Rgba {
        r: ((data[4 * (y * w + x)] / 8) * 8 + (data[4 * (y * w + x)] / 8) / 4) as u8,
        g: ((data[4 * (y * w + x) + 1] / 8) * 8 + (data[4 * (y * w + x) + 1] / 8) / 4) as u8,
        b: ((data[4 * (y * w + x) + 2] / 8) * 8 + (data[4 * (y * w + x) + 2] / 8) / 4) as u8,
        a: 255,
    }) by {
        lemma_rows555_at(data, wi, hi, y, x);
        lemma_rows555_len(data, wi, hi);
        let row = rgba_row(data, wi, y);
        assert(crate::encoder::pixels16(row, wi)[x] == crate::encoder::pixel16(row[4 * x], row[4 * x + 1], row[4 * x + 2]));
        assert(0 <= y * wi * 4 && (y + 1) * wi * 4 <= wi * hi * 4) by (nonlinear_arith)
            requires
                0 <= y < hi,
                wi >= 1,
        ;
        assert(y * wi * 4 + 4 * x == 4 * (y * wi + x)) by (nonlinear_arith);
        assert((y + 1) * wi * 4 == y * wi * 4 + 4 * wi) by (nonlinear_arith);
        assert(row[4 * x] == data[4 * (y * w + x)]);
        assert(row[4 * x + 1] == data[4 * (y * w + x) + 1]);
        assert(row[4 * x + 2] == data[4 * (y * w + x) + 2]);
        let v = crate::encoder::pixel16(row[4 * x], row[4 * x + 1], row[4 * x + 2]) as int;
        assert(y * (2 * wi) == y * wi * 2) by (nonlinear_arith);
        assert(crate::wire::be_u16(pix, y * (2 * wi) + 2 * x) == v);
        lemma_rgb555_of_pixel16(row[4 * x], row[4 * x + 1], row[4 * x + 2]);
    }
}

/// The rasters whose picture the reader takes back whole: positive
/// dimensions matching the buffer, a stride the PixMap can hold, a
/// lossless packing, a height the 16-bit frame can hold, and within the
/// raster budget.
pub open spec fn roundtrip_ok(w: u32, h: u32, data: Seq<u8>, pk: PackType) -> bool {
    &&& dims_ok(w, h, data.len() as int)
    &&& v2_stride_ok(pk, w)
    &&& lossless_pack(pk)
    &&& h <= 32767
    &&& w * h * 4 <= MAX_RASTER_BYTES
}

/// The shape the reader finds in the writer's v2 picture record `b`: the
/// picture frame, the v2 stanza and `HeaderOp`, then at offset 40 the
/// raster opcode, its record, an optional pad byte and `OpEndPic`.
pub open spec fn v2_record_shape(b: Seq<u8>, w: u32, h: u32, data: Seq<u8>, pk: PackType) -> bool {
    &&& b.len() >= 40
    &&& be_i16(b, 2) == 0
    &&& be_i16(b, 4) == 0
    &&& be_i16(b, 6) == h
    &&& be_i16(b, 8) == w
    &&& be_u16(b, 10) == 0x0011
    &&& be_u16(b, 12) == 0x02FF
    &&& be_u16(b, 14) == 0x0C00
    &&& v2_tail_at(b, 40, pk, w, h, data)
}

/// The writer's v2 picture `s`: no record at 0, and after the 512-byte
/// stub a record of the shape above.
pub open spec fn v2_stream_shape(s: Seq<u8>, w: u32, h: u32, data: Seq<u8>, pk: PackType) -> bool {
    let b = s.subrange(512, s.len() as int);
    &&& s.len() >= 512 + 12
    &&& !looks_like_record(s)
    &&& looks_like_record(b)
    &&& v2_record_shape(b, w, h, data, pk)
}

/// The record part of the writer's v2 picture: the 40 bytes of picture
/// header, stanza and `HeaderOp` payload, the raster opcode and record,
/// the pad byte when the record ends odd, and `OpEndPic`.
#[verifier::rlimit(60)]
#[verifier::spinoff_prover]
proof fn lemma_v2_record_bytes(w: u32, h: u32, data: Seq<u8>, pk: PackType, b: Seq<u8>, pad: Seq<u8>)
    requires
        roundtrip_ok(w, h, data, pk),
        pad == (if (42 + record_len(pk, w, h, data)) % 2 == 1 { seq![0u8] } else { Seq::<u8>::empty() }),
        b == u16_bytes(0) + frame_bytes(w, h) + u16_bytes(0x0011) + u16_bytes(0x02FF) + u16_bytes(0x0C00)
            + header_wire(frame_header(w, h)) + u16_bytes(0x009A) + direct_bits_body(
            pk,
            w,
            h,
            frame_bytes(w, h),
            0,
            data,
        ) + pad + u16_bytes(0x00FF),
    ensures
        v2_record_shape(b, w, h, data, pk),
{
    let fb = frame_bytes(w, h);
    let hw = header_wire(frame_header(w, h));
    let vb = u16_bytes(0) + fb + u16_bytes(0x0011) + u16_bytes(0x02FF) + u16_bytes(0x0C00) + hw;
    assert(hw.len() == 24);
    assert(vb.len() == 40);
    let body = direct_bits_body(pk, w, h, fb, 0, data);
    assert(b =~= vb + u16_bytes(0x009A) + body + pad + u16_bytes(0x00FF));
    assert(w <= 5461);
    assert(fb =~= u16_bytes(0) + u16_bytes(0) + u16_bytes((h % 65536) as int) + u16_bytes((w % 65536) as int));
    assert(b[2] == 0 && b[3] == 0 && b[4] == 0 && b[5] == 0);
    assert(b[6] == u16_bytes(h as int)[0] && b[7] == u16_bytes(h as int)[1]);
    assert(b[8] == u16_bytes(w as int)[0] && b[9] == u16_bytes(w as int)[1]);
    assert(b[10] == 0 && b[11] == 0x11 && b[12] == 2 && b[13] == 0xFF && b[14] == 0x0C && b[15] == 0);
    assert(b[40] == 0 && b[41] == 0x9A);
    let q = 40 + 2 + record_len(pk, w, h, data);
    assert(b.subrange(42, 42 + body.len() as int) =~= body);
    let e = if q % 2 == 1 { q + 1 } else { q };
    assert(b[e] == 0 && b[e + 1] == 0xFF);
    assert(be_i16(b, 2) == 0);
    assert(be_i16(b, 6) == h);
    assert(be_i16(b, 8) == w);
    assert(be_u16(b, 14) == 0x0C00);
    assert(record_at(b, 42, pk, w, h, data));
    assert(be_u16(b, e) == 0x00FF);
    assert(be_u16(b, 40) == 0x009A);
}

/// The writer's v2 picture of a raster that round-trips has the shape
/// the reader walks.
#[verifier::rlimit(60)]
#[verifier::spinoff_prover]
pub proof fn lemma_v2_stream_shape(w: u32, h: u32, data: Seq<u8>, pk: PackType)
    requires
        roundtrip_ok(w, h, data, pk),
    ensures
        v2_stream_shape(pict_v2_spec(w, h, data, pk), w, h, data, pk),
{
    let fb = frame_bytes(w, h);
    let hw = header_wire(frame_header(w, h));
    let zeros = Seq::new(512, |i: int| 0u8);
    let vb = u16_bytes(0) + fb + u16_bytes(0x0011) + u16_bytes(0x02FF) + u16_bytes(0x0C00) + hw;
    let v = v2_start(w, h);
    assert(v =~= zeros + vb);
    assert(hw.len() == 24);
    assert(vb.len() == 40);
    let body = direct_bits_body(pk, w, h, fb, 0, data);
    let x = v + u16_bytes(0x009A) + body;
    let padded = pad_even(x);
    let s = pict_v2_spec(w, h, data, pk);
    assert(s == padded + u16_bytes(0x00FF));
    let pad: Seq<u8> = if x.len() % 2 == 1 { seq![0u8] } else { Seq::empty() };
    assert(padded =~= x + pad);
    assert(x.len() == 554 + body.len());
    let b = s.subrange(512, s.len() as int);
    assert(b =~= vb + u16_bytes(0x009A) + body + pad + u16_bytes(0x00FF));
    assert(s[10] == 0 && s[11] == 0);
    lemma_v2_record_bytes(w, h, data, pk, b, pad);
    assert(b[10] == 0 && b[11] == 0x11 && b[12] == 2 && b[13] == 0xFF);
    assert(!looks_like_record(s));
    assert(looks_like_record(b));
}

/// The shape the reader finds in the writer's v1 picture record `b`: the
/// picture frame and the `11 01` stanza, then at offset 12 the one-byte
/// raster opcode, its record and the one-byte `OpEndPic`.
pub open spec fn v1_record_shape(b: Seq<u8>, w: u32, h: u32, data: Seq<u8>, pk: PackType) -> bool {
    &&& be_i16(b, 2) == 0
    &&& be_i16(b, 4) == 0
    &&& be_i16(b, 6) == h
    &&& be_i16(b, 8) == w
    &&& be_u16(b, 10) == 0x1101
    &&& v1_tail_at(b, 12, pk, w, h, data)
}

/// The writer's v1 picture `s`: a record at 0 of the shape above.
pub open spec fn v1_stream_shape(s: Seq<u8>, w: u32, h: u32, data: Seq<u8>, pk: PackType) -> bool {
    &&& looks_like_record(s)
    &&& v1_record_shape(s, w, h, data, pk)
}

/// The writer's v1 picture of a raster that round-trips has the shape
/// the reader walks.
#[verifier::rlimit(80)]
#[verifier::spinoff_prover]
pub proof fn lemma_v1_stream_shape(w: u32, h: u32, data: Seq<u8>, pk: PackType)
    requires
        roundtrip_ok(w, h, data, pk),
    ensures
        v1_stream_shape(pict_v1_spec(w, h, data, pk), w, h, data, pk),
{
    let fb = frame_bytes(w, h);
    let body = direct_bits_body(pk, w, h, fb, 0, data);
    let v = v1_start(w, h);
    let s = pict_v1_spec(w, h, data, pk);
    assert(s =~= v + seq![0x9Au8] + body + seq![0xFFu8]);
    assert(v.len() == 12);
    assert(w <= 5461);
    assert(fb =~= u16_bytes(0) + u16_bytes(0) + u16_bytes((h % 65536) as int) + u16_bytes((w % 65536) as int));
    assert(s[2] == 0 && s[3] == 0 && s[4] == 0 && s[5] == 0);
    assert(s[6] == u16_bytes(h as int)[0] && s[7] == u16_bytes(h as int)[1]);
    assert(s[8] == u16_bytes(w as int)[0] && s[9] == u16_bytes(w as int)[1]);
    assert(s[10] == 0x11 && s[11] == 0x01 && s[12] == 0x9A);
    assert(s.subrange(13, 13 + body.len() as int) =~= body);
    let q = 13 + record_len(pk, w, h, data);
    assert(s[q] == 0xFF);
    assert(looks_like_record(s));
    assert(be_i16(s, 2) == 0);
    assert(be_i16(s, 6) == h);
    assert(be_i16(s, 8) == w);
    assert(be_u16(s, 10) == 0x1101);
    assert(record_at(s, 13, pk, w, h, data));
}

/// Packing `k + m` values is packing the first `k`, shifted up by `m`
/// digits, plus a remainder below `L^m`.
proof fn lemma_pack_acc_split(vals: Seq<u8>, bits: int, i: int, k: int, m: int)
    requires
        bits == 1 || bits == 2 || bits == 4 || bits == 8,
        0 <= k,
        0 <= m,
    ensures
        0 <= crate::encoder::pack_acc(vals, bits, i, k + m) - crate::encoder::pack_acc(vals, bits, i, k)
            * crate::encoder::lpow(crate::encoder::level_count(bits), m) < crate::encoder::lpow(
            crate::encoder::level_count(bits),
            m,
        ),
    decreases m,
{
    let l = crate::encoder::level_count(bits);
    if m > 0 {
        lemma_pack_acc_split(vals, bits, i, k, m - 1);
        let a = crate::encoder::pack_acc(vals, bits, i, k);
        let b = crate::encoder::pack_acc(vals, bits, i, k + m - 1);
        let p = crate::encoder::lpow(l, m - 1);
        let idx = i * (8int / bits) + k + m - 1;
        let v = if idx < vals.len() { vals[idx] as int % l } else { 0 };
        assert(crate::encoder::pack_acc(vals, bits, i, k + m) == b * l + v);
        assert(crate::encoder::lpow(l, m) == p * l);
        assert(0 <= v < l);
        assert(0 <= b * l + v - a * (p * l) < p * l) by (nonlinear_arith)
            requires
                0 <= b - a * p < p,
                0 <= v < l,
                l > 0,
        ;
    }
}

/// `2^(m * bits)` is `L^m` for the `L = 2^bits` levels of a pixel.
proof fn lemma_pow2_levels(bits: int, m: int)
    requires
        bits == 1 || bits == 2 || bits == 4 || bits == 8,
        0 <= m,
    ensures
        crate::state::pow2_spec(m * bits) == crate::encoder::lpow(crate::encoder::level_count(bits), m),
    decreases m,
{
    if m > 0 {
        lemma_pow2_levels(bits, m - 1);
        assert(m * bits == (m - 1) * bits + bits) by (nonlinear_arith);
        lemma_pow2_add((m - 1) * bits, bits);
        reveal_with_fuel(crate::state::pow2_spec, 9);
    }
}

proof fn lemma_pow2_add(a: int, b: int)
    requires
        0 <= a,
        0 <= b,
    ensures
        crate::state::pow2_spec(a + b) == crate::state::pow2_spec(a) * crate::state::pow2_spec(b),
    decreases b,
{
    if b > 0 {
        lemma_pow2_add(a, b - 1);
        assert(crate::state::pow2_spec(a) * (2 * crate::state::pow2_spec(b - 1)) == 2 * (crate::state::pow2_spec(a)
            * crate::state::pow2_spec(b - 1))) by (nonlinear_arith);
    }
}

/// Every index the writer packs into a row of `bits`-bit pixels reads
/// back at its position, masked to its bits.
pub proof fn lemma_packed_index_reads_back(vals: Seq<u8>, bits: int, rb: int, x: int)
    requires
        bits == 1 || bits == 2 || bits == 4 || bits == 8,
        0 <= x < vals.len(),
        x / (8int / bits) < rb,
    ensures
        crate::rows::indexed_value(crate::encoder::pack_bytes(vals, bits, rb), 0, bits, x) == vals[x] as int
            % crate::encoder::level_count(bits),
{
    let l = crate::encoder::level_count(bits);
    let per = 8int / bits;
    let j = x / per;
    let r = x % per;
    let k = r + 1;
    let m = per - 1 - r;
    assert(0 <= r < per);
    lemma_pack_acc_split(vals, bits, j, k, m);
    lemma_pack_acc_split(vals, bits, j, 0, per);
    lemma_pow2_levels(bits, m);
    lemma_pow2_levels(bits, per);
    assert(per * bits == 8);
    assert(crate::state::pow2_spec(8) == 256) by {
        reveal_with_fuel(crate::state::pow2_spec, 9);
    }
    let full = crate::encoder::pack_acc(vals, bits, j, per);
    assert(k + m == per);
    assert(crate::encoder::pack_acc(vals, bits, j, 0) == 0);
    assert(0 <= full < 256);
    let byte = crate::encoder::pack_bytes(vals, bits, rb)[j];
    assert(byte == full as u8);
    assert(byte as int == full);
    let pk = crate::encoder::pack_acc(vals, bits, j, k);
    let pm = crate::encoder::lpow(l, m);
    assert(pm >= 1) by {
        lemma_lpow_pos(l, m);
    }
    assert(full / pm == pk) by {
        vstd::arithmetic::div_mod::lemma_fundamental_div_mod_converse(full, pm, pk, full - pk * pm);
    }
    let prev = crate::encoder::pack_acc(vals, bits, j, k - 1);
    let idx = j * per + k - 1;
    assert(idx == x) by {
        vstd::arithmetic::div_mod::lemma_fundamental_div_mod(x, per);
        assert(j * per == per * j) by (nonlinear_arith);
    }
    lemma_pow2_levels(bits, 1);
    assert(1 * bits == bits);
    assert(crate::encoder::lpow(l, 1) == l) by {
        reveal_with_fuel(crate::encoder::lpow, 2);
    }
    assert(crate::state::pow2_spec((per - 1 - x % per) * bits) == pm);
    assert(pk == prev * l + vals[x] as int % l);
    assert(pk % l == vals[x] as int % l) by {
        vstd::arithmetic::div_mod::lemma_fundamental_div_mod_converse(pk, l, prev, vals[x] as int % l);
    }
}

proof fn lemma_lpow_pos(l: int, m: int)
    requires
        l >= 1,
        m >= 0,
    ensures
        crate::encoder::lpow(l, m) >= 1,
    decreases m,
{
    if m > 0 {
        lemma_lpow_pos(l, m - 1);
        assert(crate::encoder::lpow(l, m - 1) * l >= 1) by (nonlinear_arith)
            requires
                crate::encoder::lpow(l, m - 1) >= 1,
                l >= 1,
        ;
    }
}

/// Entry `i` of the first `n` colour specs is the spec of palette
/// entry `i`, eight bytes each.
proof fn lemma_color_specs_at(p: Seq<[u8; 4]>, n: int, i: int, k: int)
    requires
        0 <= i < n <= p.len(),
        0 <= k < 8,
    ensures
        crate::encoder::color_specs(p, n).len() == 8 * n,
        crate::encoder::color_specs(p, n)[8 * i + k] == crate::encoder::color_spec(i, p[i])[k],
    decreases n,
{
    let prev = crate::encoder::color_specs(p, n - 1);
    if n - 1 > 0 {
        if i < n - 1 {
            lemma_color_specs_at(p, n - 1, i, k);
        } else {
            lemma_color_specs_at(p, n - 1, 0, 0);
        }
    }
    assert(crate::encoder::color_spec(n - 1, p[n - 1]).len() == 8);
}

/// The colour table the writer stores reads back as its palette: one
/// entry per palette colour, each channel the colour's own byte, opaque.
pub proof fn lemma_color_table_reads_back(p: Seq<[u8; 4]>, t: Seq<u8>)
    requires
        1 <= p.len() <= 256,
    ensures
        ({
            let s = crate::encoder::color_table(p) + t;
            &&& crate::decoder::color_table_len(s, 0) == crate::encoder::color_table(p).len()
            &&& crate::decoder::color_table_at(s, 0) matches Some(ct) && ct.len() == p.len() && forall|i: int|
                0 <= i < p.len() ==> #[trigger] ct[i] == (Rgba { r: p[i][0], g: p[i][1], b: p[i][2], a: 255 })
        }),
{
    let n = p.len() as int;
    let s = crate::encoder::color_table(p) + t;
    let specs = crate::encoder::color_specs(p, n);
    lemma_color_specs_at(p, n, 0, 0);
    assert(crate::encoder::color_table(p).len() == 8 + 8 * n);
    assert(s[6] == ((n - 1) / 256) as u8 && s[7] == ((n - 1) % 256) as u8);
    assert(be_i16(s, 6) == n - 1);
    let ct = crate::decoder::color_table_at(s, 0)->0;
    assert forall|i: int| 0 <= i < n implies #[trigger] ct[i] == (Rgba { r: p[i][0], g: p[i][1], b: p[i][2], a: 255 }) by {
        let c = p[i];
        let base = 8 + 8 * i;
        assert forall|k: int| 0 <= k < 8 implies s[base + k] == #[trigger] crate::encoder::color_spec(i, c)[k] by {
            lemma_color_specs_at(p, n, i, k);
        }
        let cs = crate::encoder::color_spec(i, c);
        assert(s[base + 2] == cs[2] && s[base + 3] == cs[3]);
        assert(cs[2] == ((c[0] as int * 257) / 256) as u8);
        assert(cs[3] == ((c[0] as int * 257) % 256) as u8);
        assert((c[0] as int * 257) / 256 == c[0] as int);
        assert((c[1] as int * 257) / 256 == c[1] as int);
        assert((c[2] as int * 257) / 256 == c[2] as int);
        assert(s[base + 4] == cs[4] && s[base + 6] == cs[6]);
        assert(be_u16(s, base + 2) / 256 == c[0] as int);
        assert(be_u16(s, base + 4) / 256 == c[1] as int);
        assert(be_u16(s, base + 6) / 256 == c[2] as int);
    }
}

/// Byte `j` of row `y` of the writer's unpacked indexed rows is byte
/// `j` of that row's packing.
proof fn lemma_index_rows_at(
    idx: Seq<u8>,
    w: int,
    n: int,
    ps: crate::encoder::IndexedPixelSize,
    rb: int,
    y: int,
    j: int,
)
    requires
        0 <= y < n,
        0 <= j < rb,
    ensures
        crate::encoder::index_rows(idx, w, n, ps, rb, false).len() == n * rb,
        crate::encoder::index_rows(idx, w, n, ps, rb, false)[y * rb + j] == crate::encoder::index_row(
            idx,
            w,
            y,
            ps,
            rb,
        )[j],
    decreases n,
{
    let prev = crate::encoder::index_rows(idx, w, n - 1, ps, rb, false);
    if n - 1 == 0 {
        assert((n - 1) * rb == 0);
        assert(prev.len() == 0);
    }
    if n - 1 > 0 {
        if y < n - 1 {
            lemma_index_rows_at(idx, w, n - 1, ps, rb, y, j);
        } else {
            lemma_index_rows_at(idx, w, n - 1, ps, rb, 0, 0);
        }
    }
    let last = crate::encoder::index_row(idx, w, n - 1, ps, rb);
    assert(last.len() == rb);
    assert(crate::encoder::stored_row(last, rb, false) == last);
    assert(crate::encoder::index_rows(idx, w, n, ps, rb, false) == prev + last);
    assert(n * rb == (n - 1) * rb + rb) by (nonlinear_arith);
    if y == n - 1 {
        assert(y * rb == (n - 1) * rb);
    } else {
        assert((y + 1) * rb <= (n - 1) * rb) by (nonlinear_arith)
            requires
                y + 1 <= n - 1,
                rb >= 0,
        ;
        assert((y + 1) * rb == y * rb + rb) by (nonlinear_arith);
    }
}

/// The index the reader takes from the writer's unpacked indexed rows
/// at pixel `(x, y)` is the pixel's index masked to its bits.
proof fn lemma_index_rows_value(idx: Seq<u8>, w: int, h: int, ps: crate::encoder::IndexedPixelSize, x: int, y: int)
    requires
        idx.len() == w * h,
        0 <= x < w,
        0 <= y < h,
    ensures
        crate::rows::indexed_value(
            crate::encoder::index_rows(idx, w, h, ps, crate::encoder::ips_row_bytes(ps, w), false),
            y * crate::encoder::ips_row_bytes(ps, w),
            crate::encoder::ips_bits(ps),
            x,
        ) == idx[y * w + x] as int % crate::encoder::level_count(crate::encoder::ips_bits(ps)),
{
    let bits = crate::encoder::ips_bits(ps);
    let rb = crate::encoder::ips_row_bytes(ps, w);
    let per = 8int / bits;
    assert(per * bits == 8) by {
        if bits == 1 {
            assert(per == 8);
        } else if bits == 2 {
            assert(per == 4);
        } else if bits == 4 {
            assert(per == 2);
        } else {
            assert(bits == 8 && per == 1);
        }
    }
    let row = idx.subrange(y * w, (y + 1) * w);
    assert(0 <= y * w) by (nonlinear_arith)
        requires
            0 <= y,
            0 <= w,
    ;
    assert((y + 1) * w <= h * w) by (nonlinear_arith)
        requires
            y < h,
            0 <= w,
    ;
    assert(h * w == w * h) by (nonlinear_arith);
    assert((y + 1) * w == y * w + w) by (nonlinear_arith);
    assert(row.len() == w);
    assert(x / per < rb) by (nonlinear_arith)
        requires
            per * bits == 8,
            bits >= 1,
            0 <= x < w,
            rb == (w * bits + 7) / 8,
            per >= 1,
    {
        assert(x / per * per <= x);
        assert(x / per * 8 == x / per * per * bits);
    }
    lemma_index_rows_at(idx, w, h, ps, rb, y, x / per);
    lemma_packed_index_reads_back(row, bits, rb, x);
    assert(row[x] == idx[y * w + x]);
}

/// The writer's unpacked indexed rows read back through a palette:
/// pixel `(x, y)` is the palette colour of its index, masked to the
/// pixel's bits, or black past the end of the palette.
pub proof fn lemma_index_rows_read_back(
    idx: Seq<u8>,
    w: int,
    h: int,
    ps: crate::encoder::IndexedPixelSize,
    palette: Seq<Rgba>,
    x: int,
    y: int,
)
    requires
        idx.len() == w * h,
        0 <= x < w,
        0 <= y < h,
    ensures
        ({
            let bits = crate::encoder::ips_bits(ps);
            let rb = crate::encoder::ips_row_bytes(ps, w);
            let j = idx[y * w + x] as int % crate::encoder::level_count(bits);
            layout_pixel(
                Layout::Indexed(bits as u16),
                crate::encoder::index_rows(idx, w, h, ps, rb, false),
                rb,
                w,
                palette,
                x,
                y,
            ) == if j < palette.len() {
                palette[j]
            } else {
                crate::state::black_spec()
            }
        }),
{
    lemma_index_rows_value(idx, w, h, ps, x, y);
}

/// One PackBits-coded segment decodes back, consuming exactly its code.
proof fn lemma_one_segment(a: Seq<u8>, t: Seq<u8>)
    ensures
        segments(pb_encode(a) + t, a.len(), 1) == Some((a, pb_encode(a).len())),
{
    let s = pb_encode(a) + t;
    reveal_with_fuel(segments, 2);
    assert(s.subrange(0, s.len() as int) =~= s);
    lemma_pb_prefix(a, t);
    assert(Seq::<u8>::empty() + a =~= a);
}

/// The writer's PackBits-coded indexed rows unpack to its plain rows,
/// consuming exactly the stored rows.
#[verifier::rlimit(40)]
#[verifier::spinoff_prover]
proof fn lemma_packed_index_rows(
    idx: Seq<u8>,
    w: int,
    n: int,
    ps: crate::encoder::IndexedPixelSize,
    rb: int,
    t: Seq<u8>,
)
    requires
        rb >= 8,
        n >= 0,
    ensures
        packed_rows(crate::encoder::index_rows(idx, w, n, ps, rb, true) + t, rb as nat, 1, n as nat, rb > 250)
            == Some(
            (
                crate::encoder::index_rows(idx, w, n, ps, rb, false),
                crate::encoder::index_rows(idx, w, n, ps, rb, true).len(),
            ),
        ),
    decreases n,
{
    if n > 0 {
        let s1 = crate::encoder::index_rows(idx, w, n - 1, ps, rb, true);
        let row = crate::encoder::index_row(idx, w, n - 1, ps, rb);
        assert(row.len() == rb);
        let e = pb_encode(row);
        let bc = byte_count(rb, e.len() as int);
        let r = crate::encoder::stored_row(row, rb, true);
        assert(r == bc + e);
        let all = crate::encoder::index_rows(idx, w, n, ps, rb, true) + t;
        assert(all =~= s1 + (r + t));
        lemma_packed_index_rows(idx, w, n - 1, ps, rb, r + t);
        let c: nat = if rb > 250 { 2 } else { 1 };
        assert(bc.len() == c);
        assert(all.subrange((s1.len() + c) as int, all.len() as int) =~= e + t);
        lemma_one_segment(row, t);
        assert(crate::encoder::stored_row(row, rb, false) == row);
    }
}

/// Rows under 8 bytes are stored as they are.
proof fn lemma_short_index_rows(idx: Seq<u8>, w: int, n: int, ps: crate::encoder::IndexedPixelSize, rb: int)
    requires
        rb < 8,
    ensures
        crate::encoder::index_rows(idx, w, n, ps, rb, true) == crate::encoder::index_rows(idx, w, n, ps, rb, false),
    decreases n,
{
    if n > 0 {
        lemma_short_index_rows(idx, w, n - 1, ps, rb);
    }
}

/// The rows of the writer's colour pattern of `w x h` pixels stand at
/// the end of `s`, from `c`: the reader unpacks them to the plain rows
/// and stops at the end.
proof fn lemma_pix_pat_rows(s: Seq<u8>, c: int, idx: Seq<u8>, w: int, h: int)
    requires
        1 <= w,
        1 <= h,
        0 <= c <= s.len(),
        idx.len() == w * h,
        s.subrange(c, s.len() as int) == crate::encoder::index_rows(
            idx,
            w,
            h,
            crate::encoder::IndexedPixelSize::EightBpp,
            w,
            true,
        ),
    ensures
        crate::decoder::pixel_rows_at(s, c, w, h, true) == Some(
            (crate::encoder::index_rows(idx, w, h, crate::encoder::IndexedPixelSize::EightBpp, w, false), s.len() as int),
        ),
{
    let ps = crate::encoder::IndexedPixelSize::EightBpp;
    let rt = crate::encoder::index_rows(idx, w, h, ps, w, true);
    let rf = crate::encoder::index_rows(idx, w, h, ps, w, false);
    assert(crate::encoder::ips_bits(ps) == 8);
    assert((w * 8 + 7) / 8 == w) by (nonlinear_arith)
        requires
            w >= 1,
    ;
    assert(crate::encoder::ips_row_bytes(ps, w) == w);
    lemma_index_rows_at(idx, w, h, ps, w, 0, 0);
    assert(rf.len() == h * w);
    assert(h * w == w * h) by (nonlinear_arith);
    if w < 8 {
        lemma_short_index_rows(idx, w, h, ps, w);
        assert(s.subrange(c, c + w * h) =~= rt);
    } else {
        lemma_packed_index_rows(idx, w, h, ps, w, Seq::empty());
        assert(rt + Seq::<u8>::empty() =~= rt);
    }
}

/// The fields of the writer's colour pattern that the reader consults,
/// read after the opcode word: type 1, the fallback pattern, the
/// row-bytes word with its pixel-map flag, the bounds, the pixel size,
/// then the colour table and the rows to the end.
#[verifier::rlimit(60)]
#[verifier::spinoff_prover]
proof fn lemma_pix_pat_fields(slot: crate::encoder::PixPatSlot, fb: [u8; 8], w: u16, h: u16, px: Seq<[u8; 4]>)
    requires
        1 <= w < 0x4000,
        1 <= h < 0x8000,
    ensures
        ({
            let s = crate::encoder::pix_pat_spec(slot, fb, w, h, px);
            let ct = crate::encoder::color_table(crate::encoder::palette_of(px));
            let rt = crate::encoder::index_rows(
                crate::encoder::palette_indices(px),
                w as int,
                h as int,
                crate::encoder::IndexedPixelSize::EightBpp,
                w as int,
                true,
            );
            &&& s.len() == 58 + ct.len() + rt.len()
            &&& be_u16(s, 2) == 1
            &&& s.subrange(4, 12) == fb@
            &&& be_u16(s, 12) == w + 0x8000
            &&& crate::decoder::bounds_size(s, 14) == (w as int, h as int)
            &&& be_u16(s, 40) == 8
            &&& s.subrange(58, s.len() as int) == ct + rt
        }),
{
    let s = crate::encoder::pix_pat_spec(slot, fb, w, h, px);
    let ct = crate::encoder::color_table(crate::encoder::palette_of(px));
    let rt = crate::encoder::index_rows(
        crate::encoder::palette_indices(px),
        w as int,
        h as int,
        crate::encoder::IndexedPixelSize::EightBpp,
        w as int,
        true,
    );
    let hdr = u16_bytes(crate::encoder::slot_op(slot)) + u16_bytes(1) + fb@ + u16_bytes(w + 0x8000) + u16_bytes(0)
        + u16_bytes(0) + u16_bytes(h as int) + u16_bytes(w as int) + u16_bytes(0) + u16_bytes(0) + u32_bytes(0)
        + u32_bytes(0x0048_0000) + u32_bytes(0x0048_0000) + u16_bytes(0) + u16_bytes(8) + u16_bytes(1)
        + u16_bytes(8) + u32_bytes(0) + u32_bytes(0) + u32_bytes(0);
    assert(s =~= hdr + ct + rt);
    assert(hdr.len() == 58);
    assert(s[2] == hdr[2] && s[3] == hdr[3]);
    assert(s.subrange(4, 12) =~= fb@);
    assert(s[12] == hdr[12] && s[13] == hdr[13]);
    assert(s[14] == hdr[14] && s[15] == hdr[15] && s[16] == hdr[16] && s[17] == hdr[17]);
    assert(s[18] == hdr[18] && s[19] == hdr[19] && s[20] == hdr[20] && s[21] == hdr[21]);
    assert(be_i16(s, 14) == 0 && be_i16(s, 16) == 0 && be_i16(s, 18) == h && be_i16(s, 20) == w);
    assert(s[40] == hdr[40] && s[41] == hdr[41]);
    assert(s.subrange(58, s.len() as int) =~= ct + rt);
}

/// Cell `k` of the tile decoded from the writer's plain 8-bit rows
/// through the colour table read back from its palette is pixel `k`'s
/// colour, opaque.
#[verifier::spinoff_prover]
proof fn lemma_pix_pat_cell(px: Seq<[u8; 4]>, w: int, h: int, cpal: Seq<Rgba>, pat1: crate::state::Pattern, k: int)
    requires
        1 <= w,
        1 <= h,
        px.len() == w * h,
        0 <= k < w * h,
        crate::encoder::palette_of(px).len() <= 256,
        cpal.len() == crate::encoder::palette_of(px).len(),
        forall|i: int|
            0 <= i < cpal.len() ==> #[trigger] cpal[i] == (Rgba {
                r: crate::encoder::palette_of(px)[i][0],
                g: crate::encoder::palette_of(px)[i][1],
                b: crate::encoder::palette_of(px)[i][2],
                a: 255,
            }),
    ensures
        crate::decoder::pix_pat_cell(
            crate::encoder::index_rows(
                crate::encoder::palette_indices(px),
                w,
                h,
                crate::encoder::IndexedPixelSize::EightBpp,
                w,
                false,
            ),
            w,
            8,
            cpal,
            pat1,
            k % w,
            k / w,
        ) == (Rgba { r: px[k][0], g: px[k][1], b: px[k][2], a: 255 }),
{
    let ps = crate::encoder::IndexedPixelSize::EightBpp;
    let idx = crate::encoder::palette_indices(px);
    let x = k % w;
    let y = k / w;
    assert(0 <= x < w && 0 <= y < h && y * w + x == k) by (nonlinear_arith)
        requires
            0 <= k < w * h,
            w >= 1,
            x == k % w,
            y == k / w,
    ;
    assert(crate::encoder::ips_bits(ps) == 8);
    assert((w * 8 + 7) / 8 == w) by (nonlinear_arith)
        requires
            w >= 1,
    ;
    assert(crate::encoder::ips_row_bytes(ps, w) == w);
    lemma_index_rows_value(idx, w, h, ps, x, y);
    crate::encoder::lemma_palette_index(px, k);
    assert(idx[k] as int % 256 == idx[k] as int);
    assert(cpal[idx[k] as int] == (Rgba { r: px[k][0], g: px[k][1], b: px[k][2], a: 255 }));
}

/// A colour pattern that `build_pix_pat_op_sized` writes reads back
/// whole: the reader accepts the record after the opcode word, takes
/// all of it, keeps the fallback pattern, and decodes a `w x h` tile
/// whose every cell is the written pixel's colour, opaque. It holds
/// while the 8-bit rows fit the 14-bit row-bytes field, the height the
/// signed bounds, and the tile the raster budget.
#[verifier::rlimit(60)]
#[verifier::spinoff_prover]
pub proof fn lemma_pix_pat_reads_back(
    slot: crate::encoder::PixPatSlot,
    fb: [u8; 8],
    w: u16,
    h: u16,
    px: Seq<[u8; 4]>,
)
    requires
        crate::encoder::is_pow2(w as int),
        crate::encoder::is_pow2(h as int),
        w < 0x4000,
        h < 0x8000,
        px.len() == w * h,
        crate::encoder::palette_of(px).len() <= 256,
        w * h * 4 <= MAX_RASTER_BYTES,
    ensures
        crate::decoder::pix_pat_ok(crate::encoder::pix_pat_spec(slot, fb, w, h, px), 2),
        forall|pat1: crate::state::Pattern, colour: Option<crate::state::PixPattern>, e: int|
            #[trigger] crate::decoder::pix_pat_decoded(crate::encoder::pix_pat_spec(slot, fb, w, h, px), 2, pat1, colour, e)
                ==> {
                &&& e == crate::encoder::pix_pat_spec(slot, fb, w, h, px).len()
                &&& pat1.0@ == fb@
                &&& colour matches Some(pp)
                &&& pp.width == w && pp.height == h
                &&& forall|k: int|
                    0 <= k < w * h ==> #[trigger] pp.pixels@[k] == (Rgba { r: px[k][0], g: px[k][1], b: px[k][2], a: 255 })
            },
{
    let ps = crate::encoder::IndexedPixelSize::EightBpp;
    let s = crate::encoder::pix_pat_spec(slot, fb, w, h, px);
    let pal = crate::encoder::palette_of(px);
    let idx = crate::encoder::palette_indices(px);
    let ct = crate::encoder::color_table(pal);
    let rt = crate::encoder::index_rows(idx, w as int, h as int, ps, w as int, true);
    let rf = crate::encoder::index_rows(idx, w as int, h as int, ps, w as int, false);
    assert(w >= 1 && h >= 1) by {
        reveal_with_fuel(crate::encoder::is_pow2, 1);
    }
    assert(w * h >= 1) by (nonlinear_arith)
        requires
            w >= 1,
            h >= 1,
    ;
    assert(idx.len() == w * h);
    crate::encoder::lemma_palette_index(px, 0);
    assert(1 <= pal.len() <= 256);
    lemma_pix_pat_fields(slot, fb, w, h, px);
    assert((w + 0x8000) % 0x4000 == w);
    lemma_color_table_at_shift(s, 58);
    lemma_color_table_reads_back(pal, rt);
    let cpal = crate::decoder::color_table_at(s, 58)->0;
    let c = 58 + ct.len();
    assert(s.subrange(c as int, s.len() as int) =~= rt) by {
        assert forall|i: int| 0 <= i < rt.len() implies #[trigger] s.subrange(c as int, s.len() as int)[i] == rt[i] by {
            assert(s.subrange(58, s.len() as int)[ct.len() + i] == (ct + rt)[ct.len() + i]);
        }
    }
    lemma_pix_pat_rows(s, c as int, idx, w as int, h as int);
    assert(crate::decoder::pix_pat_tiled(w as int, h as int));
    assert(crate::decoder::pix_pat1_ok(s, 2));
    assert forall|pat1: crate::state::Pattern, colour: Option<crate::state::PixPattern>, e: int|
        #[trigger] crate::decoder::pix_pat_decoded(s, 2, pat1, colour, e) implies {
            &&& e == s.len()
            &&& pat1.0@ == fb@
            &&& colour matches Some(pp)
            &&& pp.width == w && pp.height == h
            &&& forall|k: int|
                0 <= k < w * h ==> #[trigger] pp.pixels@[k] == (Rgba { r: px[k][0], g: px[k][1], b: px[k][2], a: 255 })
        } by {
        let pp = colour->0;
        assert forall|k: int| 0 <= k < w * h implies #[trigger] pp.pixels@[k] == (Rgba {
            r: px[k][0],
            g: px[k][1],
            b: px[k][2],
            a: 255,
        }) by {
            lemma_pix_pat_cell(px, w as int, h as int, cpal, pat1, k);
        }
    }
}

/// The ink value (1 where the luminance is below 128) of every pixel
/// of a `w x h` RGBA raster, row by row.
pub open spec fn ink_values(data: Seq<u8>, w: int, h: int) -> Seq<u8> {
    Seq::new(
        (w * h) as nat,
        |k: int| if crate::encoder::inked(data[4 * k], data[4 * k + 1], data[4 * k + 2]) { 1u8 } else { 0u8 },
    )
}

/// The writer's one-bit bitmap rows are the one-bit indexed rows of the
/// raster's ink values.
proof fn lemma_mono_rows_are_index_rows(data: Seq<u8>, w: int, hh: int, n: int, rb: int, packed: bool)
    requires
        w >= 0,
        0 <= n <= hh,
        data.len() == w * hh * 4,
    ensures
        crate::encoder::mono_rows(data, w, n, rb, packed) == crate::encoder::index_rows(
            ink_values(data, w, hh),
            w,
            n,
            crate::encoder::IndexedPixelSize::OneBpp,
            rb,
            packed,
        ),
    decreases n,
{
    if n > 0 {
        lemma_mono_rows_are_index_rows(data, w, hh, n - 1, rb, packed);
        let y = n - 1;
        let inks = ink_values(data, w, hh);
        let row = rgba_row(data, w, y);
        assert(0 <= y * w && (y + 1) * w <= w * hh && y * w * 4 >= 0 && (y + 1) * w * 4 <= w * hh * 4) by (nonlinear_arith)
            requires
                0 <= y < hh,
                w >= 0,
        ;
        assert((y + 1) * w == y * w + w && (y + 1) * w * 4 == y * w * 4 + 4 * w) by (nonlinear_arith);
        assert(crate::encoder::ink_bits(row, w) =~= inks.subrange(y * w, (y + 1) * w)) by {
            assert forall|x: int| 0 <= x < w implies #[trigger] crate::encoder::ink_bits(row, w)[x] == inks.subrange(
                y * w,
                (y + 1) * w,
            )[x] by {
                assert(y * w * 4 + 4 * x == 4 * (y * w + x)) by (nonlinear_arith);
                assert(row[4 * x] == data[4 * (y * w + x)]);
                assert(row[4 * x + 1] == data[4 * (y * w + x) + 1]);
                assert(row[4 * x + 2] == data[4 * (y * w + x) + 2]);
            }
        }
    }
}

/// The writer's one-bit bitmap record (the bytes after the opcode
/// word: `rowBytes`, bounds, source and destination rectangles,
/// `srcCopy`, an optional rectangular region, the rows, PackBits-coded
/// when `packed` and rows are 8 bytes or more) reads back as its image:
/// the reader accepts it, takes exactly its bytes, and decodes a
/// `w x h` `srcCopy` raster onto the frame, black where the pixel's
/// luminance `(299 r + 587 g + 114 b) / 1000` is below 128 and white
/// elsewhere, with the region's rectangle where there is one.
#[verifier::rlimit(100)]
#[verifier::spinoff_prover]
pub proof fn lemma_mono_record_reads_back(
    s: Seq<u8>,
    p: int,
    w: u32,
    h: u32,
    data: Seq<u8>,
    packed: bool,
    clip: Option<[i16; 4]>,
)
    requires
        1 <= w <= 32767,
        1 <= h <= 32767,
        crate::encoder::mono_rb(w) <= 0x3FFE,
        data.len() == w * h * 4,
        w * h * 4 <= MAX_RASTER_BYTES,
        0 <= p,
        p + crate::encoder::mono_body(w, h, data, packed, clip).len() <= s.len(),
        s.subrange(p, p + crate::encoder::mono_body(w, h, data, packed, clip).len()) == crate::encoder::mono_body(
            w,
            h,
            data,
            packed,
            clip,
        ),
    ensures
        crate::decoder::bits_record_ok(s, p, packed, clip is Some),
        forall|sub: crate::decoder::RasterSub, dst: crate::state::RectI32, g: Option<crate::region::Region>, e: int|
            #[trigger] crate::decoder::bits_record_decoded(s, p, packed, clip is Some, sub, dst, g, e) ==> {
                &&& e == p + crate::encoder::mono_body(w, h, data, packed, clip).len()
                &&& sub.width == w && sub.height == h && sub.mode == 0
                &&& dst == (crate::state::RectI32 { top: 0, left: 0, bottom: h as i32, right: w as i32 })
                &&& (clip matches Some(c) ==> g matches Some(rg) && rg.bbox == (crate::state::RectI32 {
                    top: c[0] as i32,
                    left: c[1] as i32,
                    bottom: c[2] as i32,
                    right: c[3] as i32,
                }))
                &&& forall|x: int, y: int|
                    0 <= x < w && 0 <= y < h ==> #[trigger] rgba_at(sub.data@, w as int, x, y) == (if (299
                        * data[4 * (y * w + x)] as int + 587 * data[4 * (y * w + x) + 1] as int + 114 * data[4
                        * (y * w + x) + 2] as int) / 1000 < 128 {
                        Rgba { r: 0, g: 0, b: 0, a: 255 }
                    } else {
                        Rgba { r: 255, g: 255, b: 255, a: 255 }
                    })
            },
{
    let ps = crate::encoder::IndexedPixelSize::OneBpp;
    let wi = w as int;
    let hi = h as int;
    let rb = crate::encoder::mono_rb(w);
    let inks = ink_values(data, wi, hi);
    let body = crate::encoder::mono_body(w, h, data, packed, clip);
    let fb = frame_bytes(w, h);
    let cp = crate::encoder::clip_part(clip);
    let rt = crate::encoder::mono_rows(data, wi, hi, rb, packed);
    let rf = crate::encoder::index_rows(inks, wi, hi, ps, rb, false);
    let hdr = u16_bytes(rb) + fb + fb + fb + u16_bytes(0);
    assert(body =~= hdr + cp + rt);
    assert(hdr.len() == 28);
    lemma_mono_rows_are_index_rows(data, wi, hi, hi, rb, packed);
    lemma_mono_rows_are_index_rows(data, wi, hi, hi, rb, false);
    assert(crate::encoder::ips_row_bytes(ps, wi) == rb);
    assert(inks.len() == wi * hi);
    lemma_index_rows_at(inks, wi, hi, ps, rb, 0, 0);
    assert(rf.len() == hi * rb);
    assert(h as int % 65536 == h as int && w as int % 65536 == w as int);
    assert(fb =~= u16_bytes(0) + u16_bytes(0) + u16_bytes(h as int) + u16_bytes(w as int));
    let b = p + 2;
    lemma_word_at(s, p, body, 0);
    assert(be_u16(s, p) == rb);
    lemma_word_at(s, p, body, 2);
    lemma_word_at(s, p, body, 4);
    lemma_word_at(s, p, body, 6);
    lemma_word_at(s, p, body, 8);
    assert(be_i16(s, b) == 0 && be_i16(s, b + 2) == 0 && be_i16(s, b + 4) == h && be_i16(s, b + 6) == w);
    assert(crate::decoder::bounds_size(s, b) == (w as int, h as int));
    lemma_word_at(s, p, body, 18);
    lemma_word_at(s, p, body, 20);
    lemma_word_at(s, p, body, 22);
    lemma_word_at(s, p, body, 24);
    lemma_word_at(s, p, body, 26);
    assert(crate::decoder::rect_at(s, b + 16) == (crate::state::RectI32 {
        top: 0,
        left: 0,
        bottom: h as i32,
        right: w as i32,
    }));
    assert(be_u16(s, b + 24) == 0);
    let q = b + 26;
    let q2 = q + cp.len();
    if clip is Some {
        let c = clip->0;
        assert(cp.len() == 10);
        lemma_word_at(s, p, body, 28);
        lemma_word_at(s, p, body, 30);
        lemma_word_at(s, p, body, 32);
        lemma_word_at(s, p, body, 34);
        lemma_word_at(s, p, body, 36);
        let t = s.subrange(q, s.len() as int);
        assert(t[0] == s[q] && t[1] == s[q + 1]);
        assert(be_u16(t, 0) == 10);
        assert(crate::region::rgn_ok(t));
        assert(t[2] == s[q + 2] && t[3] == s[q + 3] && t[4] == s[q + 4] && t[5] == s[q + 5]);
        assert(t[6] == s[q + 6] && t[7] == s[q + 7] && t[8] == s[q + 8] && t[9] == s[q + 9]);
        crate::wire::lemma_i16_roundtrip(c[0] as int, u16_bytes(10), i16_bytes(c[1] as int) + i16_bytes(c[2] as int) + i16_bytes(c[3] as int));
        crate::wire::lemma_i16_roundtrip(c[1] as int, u16_bytes(10) + i16_bytes(c[0] as int), i16_bytes(c[2] as int) + i16_bytes(c[3] as int));
        crate::wire::lemma_i16_roundtrip(c[2] as int, u16_bytes(10) + i16_bytes(c[0] as int) + i16_bytes(c[1] as int), i16_bytes(c[3] as int));
        crate::wire::lemma_i16_roundtrip(c[3] as int, u16_bytes(10) + i16_bytes(c[0] as int) + i16_bytes(c[1] as int) + i16_bytes(c[2] as int), Seq::empty());
        assert(cp =~= u16_bytes(10) + i16_bytes(c[0] as int) + (i16_bytes(c[1] as int) + i16_bytes(c[2] as int) + i16_bytes(c[3] as int)));
        assert(cp =~= u16_bytes(10) + i16_bytes(c[0] as int) + i16_bytes(c[1] as int) + (i16_bytes(c[2] as int) + i16_bytes(c[3] as int)));
        assert(cp =~= u16_bytes(10) + i16_bytes(c[0] as int) + i16_bytes(c[1] as int) + i16_bytes(c[2] as int) + i16_bytes(c[3] as int) + Seq::<u8>::empty());
        assert(be_i16(t, 2) == be_i16(cp, 2) && be_i16(t, 4) == be_i16(cp, 4) && be_i16(t, 6) == be_i16(cp, 6) && be_i16(t, 8) == be_i16(cp, 8));
        assert(crate::region::rgn_bbox(t) == (crate::state::RectI32 {
            top: c[0] as i32,
            left: c[1] as i32,
            bottom: c[2] as i32,
            right: c[3] as i32,
        }));
        assert(crate::decoder::after_region(s, q, true) == q2);
    } else {
        assert(cp.len() == 0);
    }
    // Rows.
    assert(s.subrange(q2, s.len() as int) =~= rt + s.subrange(p + body.len(), s.len() as int)) by {
        assert forall|k: int| 0 <= k < s.len() - q2 implies #[trigger] s.subrange(q2, s.len() as int)[k] == (rt
            + s.subrange(p + body.len(), s.len() as int))[k] by {
            if k < rt.len() {
                lemma_byte_at(s, p, body, 28 + cp.len() + k);
            }
        }
    }
    assert(rb * hi == hi * rb) by (nonlinear_arith);
    if packed && rb >= 8 {
        lemma_packed_index_rows(inks, wi, hi, ps, rb, s.subrange(p + body.len(), s.len() as int));
        assert(crate::decoder::pixel_rows_at(s, q2, rb, hi, packed) == Some((rf, q2 + rt.len())));
    } else {
        if packed {
            lemma_short_index_rows(inks, wi, hi, ps, rb);
        }
        assert(rt == rf);
        assert(s.subrange(q2, q2 + rb * hi) =~= rf);
        assert(crate::decoder::pixel_rows_at(s, q2, rb, hi, packed) == Some((rf, q2 + rt.len())));
    }
    assert(rb * 8 >= wi) by (nonlinear_arith)
        requires
            rb == (wi + 7) / 8,
            wi >= 1,
    ;
    assert(rb <= wi) by (nonlinear_arith)
        requires
            rb == (wi + 7) / 8,
            wi >= 1,
    ;
    assert(rb * hi <= wi * hi * 4) by (nonlinear_arith)
        requires
            rb <= wi,
            hi >= 0,
            rb >= 0,
    ;
    assert(crate::decoder::raster_size_ok(wi, hi, rb, 8));
    assert(crate::decoder::bitmap_body_ok(s, b, rb, packed, clip is Some));
    assert forall|sub: crate::decoder::RasterSub, dst: crate::state::RectI32, g: Option<crate::region::Region>, e: int|
        #[trigger] crate::decoder::bits_record_decoded(s, p, packed, clip is Some, sub, dst, g, e) implies {
            &&& e == p + body.len()
            &&& sub.width == w && sub.height == h && sub.mode == 0
            &&& dst == (crate::state::RectI32 { top: 0, left: 0, bottom: h as i32, right: w as i32 })
            &&& (clip matches Some(c) ==> g matches Some(rg) && rg.bbox == (crate::state::RectI32 {
                top: c[0] as i32,
                left: c[1] as i32,
                bottom: c[2] as i32,
                right: c[3] as i32,
            }))
            &&& forall|x: int, y: int|
                0 <= x < w && 0 <= y < h ==> #[trigger] rgba_at(sub.data@, w as int, x, y) == (if (299
                    * data[4 * (y * w + x)] as int + 587 * data[4 * (y * w + x) + 1] as int + 114 * data[4
                    * (y * w + x) + 2] as int) / 1000 < 128 {
                    Rgba { r: 0, g: 0, b: 0, a: 255 }
                } else {
                    Rgba { r: 255, g: 255, b: 255, a: 255 }
                })
        } by {
        assert forall|x: int, y: int| 0 <= x < w && 0 <= y < h implies #[trigger] rgba_at(sub.data@, w as int, x, y) == (if (299
            * data[4 * (y * w + x)] as int + 587 * data[4 * (y * w + x) + 1] as int + 114 * data[4 * (y * w + x)
            + 2] as int) / 1000 < 128 {
            Rgba { r: 0, g: 0, b: 0, a: 255 }
        } else {
            Rgba { r: 255, g: 255, b: 255, a: 255 }
        }) by {
            lemma_index_rows_value(inks, wi, hi, ps, x, y);
            assert(0 <= y * wi + x < wi * hi) by (nonlinear_arith)
                requires
                    0 <= x < wi,
                    0 <= y < hi,
            ;
            assert(crate::state::pow2_spec(1) == 2) by {
                reveal_with_fuel(crate::state::pow2_spec, 2);
            }
        }
    }
}

/// The writer's indexed `BitsRect` record (the bytes after the opcode
/// word): PixMap with the row-bytes flag, colour table, source and
/// destination rectangles, `srcCopy`, unpacked rows.
pub open spec fn indexed_record(
    w: u32,
    h: u32,
    idx: Seq<u8>,
    palette: Seq<[u8; 4]>,
    ps: crate::encoder::IndexedPixelSize,
) -> Seq<u8> {
    let rb = crate::encoder::ips_row_bytes(ps, w as int);
    let bits = crate::encoder::ips_bits(ps);
    u16_bytes(rb + 0x8000) + frame_bytes(w, h) + u16_bytes(0) + u16_bytes(0) + u32_bytes(0) + u32_bytes(0x0048_0000)
        + u32_bytes(0x0048_0000) + u16_bytes(0) + u16_bytes(bits) + u16_bytes(1) + u16_bytes(bits) + u32_bytes(0)
        + u32_bytes(0) + u32_bytes(0) + crate::encoder::color_table(palette) + frame_bytes(w, h) + frame_bytes(w, h)
        + u16_bytes(0) + crate::encoder::index_rows(idx, w as int, h as int, ps, rb, false)
}

/// The writer's indexed `BitsRect` record of an image the reader takes
/// back whole stands at `p` in `s`.
pub open spec fn indexed_record_at(
    s: Seq<u8>,
    p: int,
    w: u32,
    h: u32,
    idx: Seq<u8>,
    palette: Seq<[u8; 4]>,
    ps: crate::encoder::IndexedPixelSize,
) -> bool {
    let rec = indexed_record(w, h, idx, palette, ps);
    &&& crate::encoder::indexed_ok(w, h, idx.len() as int, palette.len() as int, ps)
    &&& w <= 32767
    &&& h <= 32767
    &&& w * h * 4 <= MAX_RASTER_BYTES
    &&& 0 <= p
    &&& p + rec.len() <= s.len()
    &&& s.subrange(p, p + rec.len()) == rec
}

/// Pixel `(x, y)` of a `w`-wide indexed image: the palette colour of
/// its index masked to the pixel's bits, opaque, or black past the end
/// of the palette.
pub open spec fn palette_pixel(
    idx: Seq<u8>,
    palette: Seq<[u8; 4]>,
    ps: crate::encoder::IndexedPixelSize,
    w: int,
    x: int,
    y: int,
) -> Rgba {
    let j = idx[y * w + x] as int % crate::encoder::level_count(crate::encoder::ips_bits(ps));
    if j < palette.len() {
        Rgba { r: palette[j][0], g: palette[j][1], b: palette[j][2], a: 255 }
    } else {
        crate::state::black_spec()
    }
}

/// The colour table at `q` reads the same from the bytes that start
/// there.
proof fn lemma_color_table_at_shift(s: Seq<u8>, q: int)
    requires
        0 <= q,
        q + 8 <= s.len(),
    ensures
        crate::decoder::color_table_at(s, q) == crate::decoder::color_table_at(s.subrange(q, s.len() as int), 0),
        crate::decoder::color_table_len(s, q) == crate::decoder::color_table_len(s.subrange(q, s.len() as int), 0),
{
    let t = s.subrange(q, s.len() as int);
    if q + 8 <= s.len() {
        assert(t[6] == s[q + 6] && t[7] == s[q + 7]);
        let n = be_i16(s, q + 6) + 1;
        if 1 <= n <= 256 && q + 8 + 8 * n <= s.len() {
            let a = Seq::new(n as nat, |i: int| crate::probe::rgb16_at(s, q + 8 + 8 * i + 2));
            let b = Seq::new(n as nat, |i: int| crate::probe::rgb16_at(t, 8 + 8 * i + 2));
            assert forall|i: int| 0 <= i < n implies a[i] == b[i] by {
                let o = 8 + 8 * i + 2;
                assert(t[o] == s[q + o] && t[o + 1] == s[q + o + 1] && t[o + 2] == s[q + o + 2]);
                assert(t[o + 3] == s[q + o + 3] && t[o + 4] == s[q + o + 4] && t[o + 5] == s[q + o + 5]);
            }
            assert(a =~= b);
        }
    }
}

/// A byte of `rec`, stored at `p` in `s`, read from `s`.
proof fn lemma_byte_at(s: Seq<u8>, p: int, rec: Seq<u8>, i: int)
    requires
        0 <= p,
        p + rec.len() <= s.len(),
        s.subrange(p, p + rec.len()) == rec,
        0 <= i < rec.len(),
    ensures
        s[p + i] == rec[i],
{
    assert(s.subrange(p, p + rec.len())[i] == s[p + i]);
}

/// A big-endian word of `rec`, stored at `p` in `s`, read from `s`.
proof fn lemma_word_at(s: Seq<u8>, p: int, rec: Seq<u8>, i: int)
    requires
        0 <= p,
        p + rec.len() <= s.len(),
        s.subrange(p, p + rec.len()) == rec,
        0 <= i,
        i + 1 < rec.len(),
    ensures
        be_u16(s, p + i) == be_u16(rec, i),
{
    lemma_byte_at(s, p, rec, i);
    lemma_byte_at(s, p, rec, i + 1);
}

/// The writer's indexed `BitsRect` record reads back as its image: the
/// reader accepts it, takes exactly its bytes, and decodes a `w x h`
/// `srcCopy` raster onto the frame whose every pixel is
/// [`palette_pixel`].
#[verifier::rlimit(80)]
#[verifier::spinoff_prover]
pub proof fn lemma_indexed_record_reads_back(
    s: Seq<u8>,
    p: int,
    w: u32,
    h: u32,
    idx: Seq<u8>,
    palette: Seq<[u8; 4]>,
    ps: crate::encoder::IndexedPixelSize,
)
    requires
        crate::encoder::indexed_ok(w, h, idx.len() as int, palette.len() as int, ps),
        w <= 32767,
        h <= 32767,
        w * h * 4 <= MAX_RASTER_BYTES,
        0 <= p,
        p + indexed_record(w, h, idx, palette, ps).len() <= s.len(),
        s.subrange(p, p + indexed_record(w, h, idx, palette, ps).len()) == indexed_record(w, h, idx, palette, ps),
    ensures
        crate::decoder::bits_record_ok(s, p, false, false),
        forall|sub: crate::decoder::RasterSub, dst: crate::state::RectI32, e: int|
            #[trigger] crate::decoder::bits_record_decoded(s, p, false, false, sub, dst, None, e) ==> {
                &&& e == p + indexed_record(w, h, idx, palette, ps).len()
                &&& sub.width == w && sub.height == h && sub.mode == 0
                &&& dst == (crate::state::RectI32 { top: 0, left: 0, bottom: h as i32, right: w as i32 })
                &&& forall|x: int, y: int|
                    0 <= x < w && 0 <= y < h ==> #[trigger] rgba_at(sub.data@, w as int, x, y) == palette_pixel(
                        idx,
                        palette,
                        ps,
                        w as int,
                        x,
                        y,
                    )
            },
{
    let rb = crate::encoder::ips_row_bytes(ps, w as int);
    let bits = crate::encoder::ips_bits(ps);
    let n = palette.len() as int;
    let rec = indexed_record(w, h, idx, palette, ps);
    let fb = frame_bytes(w, h);
    let hdr = u16_bytes(rb + 0x8000) + fb + u16_bytes(0) + u16_bytes(0) + u32_bytes(0) + u32_bytes(0x0048_0000)
        + u32_bytes(0x0048_0000) + u16_bytes(0) + u16_bytes(bits) + u16_bytes(1) + u16_bytes(bits) + u32_bytes(0)
        + u32_bytes(0) + u32_bytes(0);
    let ct = crate::encoder::color_table(palette);
    let mid = fb + fb + u16_bytes(0);
    let rows = crate::encoder::index_rows(idx, w as int, h as int, ps, rb, false);
    assert(rec =~= hdr + ct + mid + rows);
    assert(hdr.len() == 46);
    assert(mid.len() == 18);
    lemma_color_specs_at(palette, n, 0, 0);
    assert(ct.len() == 8 + 8 * n);
    lemma_index_rows_at(idx, w as int, h as int, ps, rb, 0, 0);
    assert(rows.len() == h * rb);
    assert(h as int % 65536 == h as int && w as int % 65536 == w as int);
    assert(fb =~= u16_bytes(0) + u16_bytes(0) + u16_bytes(h as int) + u16_bytes(w as int));
    let b = p + 2;
    // PixMap fields.
    lemma_word_at(s, p, rec, 0);
    assert(be_u16(rec, 0) == rb + 0x8000);
    assert(be_u16(s, p) == rb + 0x8000);
    lemma_word_at(s, p, rec, 2);
    lemma_word_at(s, p, rec, 4);
    lemma_word_at(s, p, rec, 6);
    lemma_word_at(s, p, rec, 8);
    assert(be_u16(rec, 2) == 0 && be_u16(rec, 4) == 0 && be_u16(rec, 6) == h && be_u16(rec, 8) == w);
    assert(be_i16(s, b) == 0 && be_i16(s, b + 2) == 0 && be_i16(s, b + 4) == h && be_i16(s, b + 6) == w);
    assert(crate::decoder::bounds_size(s, b) == (w as int, h as int));
    lemma_word_at(s, p, rec, 28);
    assert(be_u16(rec, 28) == bits);
    assert(be_u16(s, b + 26) == bits);
    // Colour table.
    let tail = s.subrange(b + 44 + ct.len(), s.len() as int);
    assert(s.subrange(b + 44, s.len() as int) =~= ct + tail) by {
        assert forall|k: int| 0 <= k < s.len() - (b + 44) implies #[trigger] s.subrange(b + 44, s.len() as int)[k]
            == (ct + tail)[k] by {
            if k < ct.len() {
                lemma_byte_at(s, p, rec, 46 + k);
            }
        }
    }
    lemma_color_table_at_shift(s, b + 44);
    lemma_color_table_reads_back(palette, tail);
    let pal = crate::decoder::color_table_at(s, b + 44)->0;
    let c = crate::decoder::indexed_rects_at(s, b);
    assert(c == b + 44 + ct.len());
    // Rectangles and mode.
    let m0: int = 46 + ct.len() as int;
    lemma_word_at(s, p, rec, m0 + 8);
    lemma_word_at(s, p, rec, m0 + 10);
    lemma_word_at(s, p, rec, m0 + 12);
    lemma_word_at(s, p, rec, m0 + 14);
    lemma_word_at(s, p, rec, m0 + 16);
    assert(be_u16(rec, m0 + 8) == 0 && be_u16(rec, m0 + 10) == 0 && be_u16(rec, m0 + 12) == h && be_u16(rec, m0 + 14)
        == w && be_u16(rec, m0 + 16) == 0);
    assert(crate::decoder::rect_at(s, c + 8) == (crate::state::RectI32 {
        top: 0,
        left: 0,
        bottom: h as i32,
        right: w as i32,
    }));
    assert(be_u16(s, c + 16) == 0);
    // Rows.
    let q = c + 18;
    assert(s.subrange(q, q + rb * h) =~= rows) by {
        assert(rb * h == h * rb) by (nonlinear_arith);
        assert forall|k: int| 0 <= k < rows.len() implies #[trigger] s.subrange(q, q + rb * h)[k] == rows[k] by {
            lemma_byte_at(s, p, rec, m0 + 18 + k);
        }
    }
    assert(rb * h == h * rb) by (nonlinear_arith);
    assert(crate::decoder::pixel_rows_at(s, q, rb, h as int, false) == Some((rows, q + rb * h)));
    // Size checks.
    let per = 8int / bits;
    assert(per * bits == 8) by {
        if bits == 1 {
        } else if bits == 2 {
        } else if bits == 4 {
        } else {
        }
    }
    assert(rb * per >= w) by (nonlinear_arith)
        requires
            rb == (w * bits + 7) / 8,
            per * bits == 8,
            bits >= 1,
            per >= 1,
            w >= 0,
    {
        assert(rb * 8 >= w * bits);
        assert(rb * per * bits == rb * 8);
    }
    assert(rb <= w) by (nonlinear_arith)
        requires
            rb == (w * bits + 7) / 8,
            1 <= bits <= 8,
            w >= 1,
    ;
    assert(rb * h <= w * h * 4) by (nonlinear_arith)
        requires
            rb <= w,
            h >= 0,
            rb >= 0,
    ;
    assert(crate::decoder::raster_size_ok(w as int, h as int, rb, per));
    assert(crate::decoder::indexed_body_ok(s, b, rb, false, false));
    assert((rb + 0x8000) % 0x4000 == rb);
    assert forall|sub: crate::decoder::RasterSub, dst: crate::state::RectI32, e: int|
        #[trigger] crate::decoder::bits_record_decoded(s, p, false, false, sub, dst, None, e) implies {
            &&& e == p + rec.len()
            &&& sub.width == w && sub.height == h && sub.mode == 0
            &&& dst == (crate::state::RectI32 { top: 0, left: 0, bottom: h as i32, right: w as i32 })
            &&& forall|x: int, y: int|
                0 <= x < w && 0 <= y < h ==> #[trigger] rgba_at(sub.data@, w as int, x, y) == palette_pixel(
                    idx,
                    palette,
                    ps,
                    w as int,
                    x,
                    y,
                )
        } by {
        assert forall|x: int, y: int| 0 <= x < w && 0 <= y < h implies #[trigger] rgba_at(sub.data@, w as int, x, y)
            == palette_pixel(idx, palette, ps, w as int, x, y) by {
            lemma_index_rows_read_back(idx, w as int, h as int, ps, pal, x, y);
        }
    }
}

/// The shape the reader finds in the writer's indexed v2 picture
/// record `b`: the picture frame, the v2 stanza and `HeaderOp`, then at
/// offset 40 the `BitsRect` opcode, its record, an optional pad byte
/// and `OpEndPic`.
pub open spec fn v2_indexed_record_shape(
    b: Seq<u8>,
    w: u32,
    h: u32,
    idx: Seq<u8>,
    pal: Seq<[u8; 4]>,
    ps: crate::encoder::IndexedPixelSize,
) -> bool {
    &&& b.len() >= 40
    &&& be_i16(b, 2) == 0
    &&& be_i16(b, 4) == 0
    &&& be_i16(b, 6) == h
    &&& be_i16(b, 8) == w
    &&& be_u16(b, 10) == 0x0011
    &&& be_u16(b, 12) == 0x02FF
    &&& be_u16(b, 14) == 0x0C00
    &&& crate::decoder::v2_indexed_tail_at(b, 40, w, h, idx, pal, ps)
}

/// The writer's indexed v2 picture `s`: no record at 0, and after the
/// 512-byte stub a record of the shape above.
pub open spec fn v2_indexed_stream_shape(
    s: Seq<u8>,
    w: u32,
    h: u32,
    idx: Seq<u8>,
    pal: Seq<[u8; 4]>,
    ps: crate::encoder::IndexedPixelSize,
) -> bool {
    let b = s.subrange(512, s.len() as int);
    &&& s.len() >= 512 + 12
    &&& !looks_like_record(s)
    &&& looks_like_record(b)
    &&& v2_indexed_record_shape(b, w, h, idx, pal, ps)
}

/// The writer's indexed pictures a reader takes back whole.
pub open spec fn indexed_roundtrip_ok(
    w: u32,
    h: u32,
    idx: Seq<u8>,
    pal: Seq<[u8; 4]>,
    ps: crate::encoder::IndexedPixelSize,
) -> bool {
    &&& crate::encoder::indexed_ok(w, h, idx.len() as int, pal.len() as int, ps)
    &&& w <= 32767
    &&& h <= 32767
    &&& w * h * 4 <= MAX_RASTER_BYTES
}

#[verifier::rlimit(60)]
#[verifier::spinoff_prover]
proof fn lemma_v2_indexed_record_bytes(
    w: u32,
    h: u32,
    idx: Seq<u8>,
    pal: Seq<[u8; 4]>,
    ps: crate::encoder::IndexedPixelSize,
    b: Seq<u8>,
    pad: Seq<u8>,
)
    requires
        indexed_roundtrip_ok(w, h, idx, pal, ps),
        pad == (if (42 + indexed_record(w, h, idx, pal, ps).len()) % 2 == 1 {
            seq![0u8]
        } else {
            Seq::<u8>::empty()
        }),
        b == u16_bytes(0) + frame_bytes(w, h) + u16_bytes(0x0011) + u16_bytes(0x02FF) + u16_bytes(0x0C00)
            + header_wire(frame_header(w, h)) + u16_bytes(0x0090) + indexed_record(w, h, idx, pal, ps) + pad + u16_bytes(
            0x00FF,
        ),
    ensures
        v2_indexed_record_shape(b, w, h, idx, pal, ps),
{
    let fb = frame_bytes(w, h);
    let hw = header_wire(frame_header(w, h));
    let vb = u16_bytes(0) + fb + u16_bytes(0x0011) + u16_bytes(0x02FF) + u16_bytes(0x0C00) + hw;
    assert(hw.len() == 24);
    assert(vb.len() == 40);
    let rec = indexed_record(w, h, idx, pal, ps);
    assert(b =~= vb + u16_bytes(0x0090) + rec + pad + u16_bytes(0x00FF));
    assert(h as int % 65536 == h as int && w as int % 65536 == w as int);
    assert(fb =~= u16_bytes(0) + u16_bytes(0) + u16_bytes((h % 65536) as int) + u16_bytes((w % 65536) as int));
    assert(b[2] == 0 && b[3] == 0 && b[4] == 0 && b[5] == 0);
    assert(b[6] == u16_bytes(h as int)[0] && b[7] == u16_bytes(h as int)[1]);
    assert(b[8] == u16_bytes(w as int)[0] && b[9] == u16_bytes(w as int)[1]);
    assert(b[10] == 0 && b[11] == 0x11 && b[12] == 2 && b[13] == 0xFF && b[14] == 0x0C && b[15] == 0);
    assert(b[40] == 0 && b[41] == 0x90);
    let q: int = 40 + 2 + rec.len() as int;
    assert(b.subrange(42, 42 + rec.len() as int) =~= rec);
    let e = if q % 2 == 1 { q + 1 } else { q };
    assert(b[e] == 0 && b[e + 1] == 0xFF);
    assert(be_i16(b, 2) == 0);
    assert(be_i16(b, 6) == h);
    assert(be_i16(b, 8) == w);
    assert(be_u16(b, 14) == 0x0C00);
    assert(indexed_record_at(b, 42, w, h, idx, pal, ps));
    assert(be_u16(b, e) == 0x00FF);
    assert(be_u16(b, 40) == 0x0090);
}

/// The writer's indexed picture is the v2 start, the `BitsRect` opcode
/// and [`indexed_record`], padded to a word, then `OpEndPic`.
#[verifier::rlimit(40)]
proof fn lemma_indexed_spec_is_record(
    w: u32,
    h: u32,
    idx: Seq<u8>,
    pal: Seq<[u8; 4]>,
    ps: crate::encoder::IndexedPixelSize,
)
    ensures
        crate::encoder::indexed_spec(w, h, idx, pal, ps, false, None) == pad_even(
            v2_start(w, h) + u16_bytes(0x90) + indexed_record(w, h, idx, pal, ps),
        ) + u16_bytes(0x00FF),
{
    let rb = crate::encoder::ips_row_bytes(ps, w as int);
    let bits = crate::encoder::ips_bits(ps);
    let a = v2_start(w, h) + u16_bytes(0x90);
    let p1 = u16_bytes(rb + 0x8000);
    let i1 = a + u16_bytes(rb + 0x8000);
    assert(i1 =~= a + p1);
    let p2 = p1 + frame_bytes(w, h);
    let i2 = i1 + frame_bytes(w, h);
    vstd::seq_lib::lemma_concat_associative(a, p1, frame_bytes(w, h));
    assert(i2 == a + p2);
    let p3 = p2 + u16_bytes(0);
    let i3 = i2 + u16_bytes(0);
    vstd::seq_lib::lemma_concat_associative(a, p2, u16_bytes(0));
    assert(i3 == a + p3);
    let p4 = p3 + u16_bytes(0);
    let i4 = i3 + u16_bytes(0);
    vstd::seq_lib::lemma_concat_associative(a, p3, u16_bytes(0));
    assert(i4 == a + p4);
    let p5 = p4 + u32_bytes(0);
    let i5 = i4 + u32_bytes(0);
    vstd::seq_lib::lemma_concat_associative(a, p4, u32_bytes(0));
    assert(i5 == a + p5);
    let p6 = p5 + u32_bytes(0x0048_0000);
    let i6 = i5 + u32_bytes(0x0048_0000);
    vstd::seq_lib::lemma_concat_associative(a, p5, u32_bytes(0x0048_0000));
    assert(i6 == a + p6);
    let p7 = p6 + u32_bytes(0x0048_0000);
    let i7 = i6 + u32_bytes(0x0048_0000);
    vstd::seq_lib::lemma_concat_associative(a, p6, u32_bytes(0x0048_0000));
    assert(i7 == a + p7);
    let p8 = p7 + u16_bytes(0);
    let i8 = i7 + u16_bytes(0);
    vstd::seq_lib::lemma_concat_associative(a, p7, u16_bytes(0));
    assert(i8 == a + p8);
    let p9 = p8 + u16_bytes(bits);
    let i9 = i8 + u16_bytes(bits);
    vstd::seq_lib::lemma_concat_associative(a, p8, u16_bytes(bits));
    assert(i9 == a + p9);
    let p10 = p9 + u16_bytes(1);
    let i10 = i9 + u16_bytes(1);
    vstd::seq_lib::lemma_concat_associative(a, p9, u16_bytes(1));
    assert(i10 == a + p10);
    let p11 = p10 + u16_bytes(bits);
    let i11 = i10 + u16_bytes(bits);
    vstd::seq_lib::lemma_concat_associative(a, p10, u16_bytes(bits));
    assert(i11 == a + p11);
    let p12 = p11 + u32_bytes(0);
    let i12 = i11 + u32_bytes(0);
    vstd::seq_lib::lemma_concat_associative(a, p11, u32_bytes(0));
    assert(i12 == a + p12);
    let p13 = p12 + u32_bytes(0);
    let i13 = i12 + u32_bytes(0);
    vstd::seq_lib::lemma_concat_associative(a, p12, u32_bytes(0));
    assert(i13 == a + p13);
    let p14 = p13 + u32_bytes(0);
    let i14 = i13 + u32_bytes(0);
    vstd::seq_lib::lemma_concat_associative(a, p13, u32_bytes(0));
    assert(i14 == a + p14);
    let p15 = p14 + crate::encoder::color_table(pal);
    let i15 = i14 + crate::encoder::color_table(pal);
    vstd::seq_lib::lemma_concat_associative(a, p14, crate::encoder::color_table(pal));
    assert(i15 == a + p15);
    let p16 = p15 + frame_bytes(w, h);
    let i16 = i15 + frame_bytes(w, h);
    vstd::seq_lib::lemma_concat_associative(a, p15, frame_bytes(w, h));
    assert(i16 == a + p16);
    let p17 = p16 + frame_bytes(w, h);
    let i17 = i16 + frame_bytes(w, h);
    vstd::seq_lib::lemma_concat_associative(a, p16, frame_bytes(w, h));
    assert(i17 == a + p17);
    let p18 = p17 + u16_bytes(0);
    let i18 = i17 + u16_bytes(0);
    vstd::seq_lib::lemma_concat_associative(a, p17, u16_bytes(0));
    assert(i18 == a + p18);
    let rows = crate::encoder::index_rows(idx, w as int, h as int, ps, rb, false);
    assert(i18 + crate::encoder::clip_part(None) =~= i18);
    vstd::seq_lib::lemma_concat_associative(a, p18, rows);
    assert(p18 + rows == indexed_record(w, h, idx, pal, ps));
    assert(i18 + crate::encoder::clip_part(None) + rows == a + indexed_record(w, h, idx, pal, ps));
}

/// The writer's indexed v2 picture (`BitsRect`, no clip) of an image the
/// reader takes back whole has the shape the reader walks.
#[verifier::rlimit(60)]
#[verifier::spinoff_prover]
pub proof fn lemma_v2_indexed_stream_shape(
    w: u32,
    h: u32,
    idx: Seq<u8>,
    pal: Seq<[u8; 4]>,
    ps: crate::encoder::IndexedPixelSize,
)
    requires
        indexed_roundtrip_ok(w, h, idx, pal, ps),
    ensures
        v2_indexed_stream_shape(crate::encoder::indexed_spec(w, h, idx, pal, ps, false, None), w, h, idx, pal, ps),
{
    let fb = frame_bytes(w, h);
    let hw = header_wire(frame_header(w, h));
    let zeros = Seq::new(512, |i: int| 0u8);
    let vb = u16_bytes(0) + fb + u16_bytes(0x0011) + u16_bytes(0x02FF) + u16_bytes(0x0C00) + hw;
    let v = v2_start(w, h);
    assert(v =~= zeros + vb);
    assert(hw.len() == 24);
    assert(vb.len() == 40);
    let rec = indexed_record(w, h, idx, pal, ps);
    let rb = crate::encoder::ips_row_bytes(ps, w as int);
    let bits = crate::encoder::ips_bits(ps);
    let x = v + u16_bytes(0x0090) + rec;
    lemma_indexed_spec_is_record(w, h, idx, pal, ps);
    let padded = pad_even(x);
    let s = crate::encoder::indexed_spec(w, h, idx, pal, ps, false, None);
    assert(s == padded + u16_bytes(0x00FF));
    let pad: Seq<u8> = if x.len() % 2 == 1 { seq![0u8] } else { Seq::empty() };
    assert(padded =~= x + pad);
    assert(x.len() == 554 + rec.len());
    let b = s.subrange(512, s.len() as int);
    assert(b =~= vb + u16_bytes(0x0090) + rec + pad + u16_bytes(0x00FF));
    assert(s[10] == 0 && s[11] == 0);
    lemma_v2_indexed_record_bytes(w, h, idx, pal, ps, b, pad);
    assert(b[10] == 0 && b[11] == 0x11 && b[12] == 2 && b[13] == 0xFF);
    assert(!looks_like_record(s));
    assert(looks_like_record(b));
}

} // verus!

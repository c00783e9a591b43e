//! The 24-byte payload that follows the v2 `HeaderOp` (`0x0C00`).
//!
//! Extended version 2 (`version = -2`):
//! `FFFE`, reserved word, hRes (Fixed), vRes (Fixed), optimal source
//! rectangle (four `i16`), reserved long.
//!
//! Version 2 (`version = -1`): `FFFF FFFF`, fixed-point bounding
//! rectangle (four Fixed), reserved long.
use vstd::prelude::*;
use crate::error::{hex4_spec, message_with_hex, PictError, Result};
use crate::reader::Reader;
use crate::state::RectI32;
use crate::wire::{
    be_i16, be_i32, be_u16, i16_bytes, i32_bytes, lemma_i16_bytes_read, lemma_i32_bytes_read,
    u16_bytes, write_i16, write_i32, write_u16,
};

verus! {

/// QuickDraw `Fixed`: a signed 16.16 fixed-point number stored as a
/// big-endian `i32`.
#[derive(Debug, Clone, Copy, PartialEq, Eq, Structural)]
pub struct Fixed(pub i32);

impl Fixed {
    /// 72.0 dpi (`0x0048_0000`), the QuickDraw default resolution.
    pub fn seventy_two_dpi() -> (f: Self)
        ensures
            f.0 == 0x0048_0000,
    {
        Fixed(0x0048_0000)
    }

    /// The `Fixed` with integer part `n` and no fraction.
    pub fn from_integer(n: i16) -> (f: Self)
        ensures
            f.0 == n as int * 65536,
    {
        Fixed((n as i32) * 65536)
    }

    /// Integer part: the high 16 bits, i.e. the value rounded down.
    pub fn integer_part(self) -> (n: i16)
        ensures
            n as int == (self.0 as int) / 65536,
    {
        let x = self.0;
        if x >= 0 {
            (x / 65536) as i16
        } else {
            let nx: i64 = -(x as i64);
            let q: i64 = (nx + 65535) / 65536;
            proof {
                let r = (nx + 65535) % 65536;
                vstd::arithmetic::div_mod::lemma_fundamental_div_mod((nx + 65535) as int, 65536);
                assert(x as int == (-q) * 65536 + (65535 - r));
                vstd::arithmetic::div_mod::lemma_fundamental_div_mod_converse(
                    x as int,
                    65536,
                    -q as int,
                    65535 - r as int,
                );
            }
            (-q) as i16
        }
    }

    /// The raw on-disk pattern as an unsigned 32-bit value.
    pub fn as_u32(self) -> (u: u32)
        ensures
            u as int == (if self.0 < 0 { self.0 as int + 0x1_0000_0000 } else { self.0 as int }),
    {
        if self.0 < 0 {
            (self.0 as i64 + 0x1_0000_0000) as u32
        } else {
            self.0 as u32
        }
    }
}

/// Decoded form of the 24-byte `HeaderOp` payload.
#[derive(Debug, Clone, Copy, PartialEq, Eq)]
pub enum PictHeader {
    /// Extended version 2 header (`version = -2`).
    ExtendedV2 { hres: Fixed, vres: Fixed, optimal_source_rect: RectI32 },
    /// Version 2 header (`version = -1`).
    V2 { fixed_bounds: [Fixed; 4] },
}

/// The low 16 bits of `v` as an unsigned pattern.
pub open spec fn low16(v: int) -> int {
    v % 65536
}

/// The 24 bytes `to_wire` produces for `h`.
pub open spec fn header_wire(h: PictHeader) -> Seq<u8> {
    match h {
        PictHeader::ExtendedV2 { hres, vres, optimal_source_rect: r } => u16_bytes(0xFFFE)
            + u16_bytes(0) + i32_bytes(hres.0 as int) + i32_bytes(vres.0 as int) + u16_bytes(
            low16(r.top as int),
        ) + u16_bytes(low16(r.left as int)) + u16_bytes(low16(r.bottom as int)) + u16_bytes(
            low16(r.right as int),
        ) + u16_bytes(0) + u16_bytes(0),
        PictHeader::V2 { fixed_bounds: b } => u16_bytes(0xFFFF) + u16_bytes(0xFFFF) + i32_bytes(
            b[0].0 as int,
        ) + i32_bytes(b[1].0 as int) + i32_bytes(b[2].0 as int) + i32_bytes(b[3].0 as int)
            + u16_bytes(0) + u16_bytes(0),
    }
}

/// Whether the header payload at `s[i..]` starts with one of the two
/// documented version words.
pub open spec fn header_version_known(s: Seq<u8>, i: int) -> bool {
    be_u16(s, i) == 0xFFFE || be_u16(s, i) == 0xFFFF
}

/// The header that `parse` reads from the 24 bytes at `s[i..]`.
pub open spec fn header_from_bytes(s: Seq<u8>, i: int) -> PictHeader {
    if be_u16(s, i) == 0xFFFE {
        PictHeader::ExtendedV2 {
            hres: Fixed(be_i32(s, i + 4) as i32),
            vres: Fixed(be_i32(s, i + 8) as i32),
            optimal_source_rect: RectI32 {
                top: be_i16(s, i + 12) as i32,
                left: be_i16(s, i + 14) as i32,
                bottom: be_i16(s, i + 16) as i32,
                right: be_i16(s, i + 18) as i32,
            },
        }
    } else {
        PictHeader::V2 {
            fixed_bounds: [
                Fixed(be_i32(s, i + 4) as i32),
                Fixed(be_i32(s, i + 8) as i32),
                Fixed(be_i32(s, i + 12) as i32),
                Fixed(be_i32(s, i + 16) as i32),
            ],
        }
    }
}

/// Whether every edge of the rectangle fits the on-disk `i16` field.
pub open spec fn rect_fits_i16(r: RectI32) -> bool {
    &&& -32768 <= r.top < 32768
    &&& -32768 <= r.left < 32768
    &&& -32768 <= r.bottom < 32768
    &&& -32768 <= r.right < 32768
}

/// Whether `to_wire` loses nothing of `h`.
pub open spec fn header_representable(h: PictHeader) -> bool {
    match h {
        PictHeader::ExtendedV2 { optimal_source_rect, .. } => rect_fits_i16(optimal_source_rect),
        PictHeader::V2 { .. } => true,
    }
}

fn write_low16(out: &mut Vec<u8>, v: i32)
    ensures
        final(out)@ == old(out)@ + u16_bytes(low16(v as int)),
{
    let m = crate::state::euclid_mod(v, 65536);
    write_u16(out, m as u16);
}

impl PictHeader {
    /// Wire size of the payload (excluding the `HeaderOp` word).
    pub const WIRE_SIZE: usize = 24;

    /// Extended v2 header at 72.0 dpi whose optimal source rectangle is
    /// `pic_frame`.
    pub fn extended_v2_72dpi(pic_frame: RectI32) -> (h: Self)
        ensures
            h == (PictHeader::ExtendedV2 {
                hres: Fixed(0x0048_0000),
                vres: Fixed(0x0048_0000),
                optimal_source_rect: pic_frame,
            }),
    {
        PictHeader::ExtendedV2 {
            hres: Fixed(0x0048_0000),
            vres: Fixed(0x0048_0000),
            optimal_source_rect: pic_frame,
        }
    }

    /// v2 header whose fixed-point bounding rectangle is `pic_frame`
    /// (each edge truncated to its low 16 bits, then promoted to Fixed).
    pub fn v2_from_pic_frame(pic_frame: RectI32) -> (h: Self)
        ensures
            h == (PictHeader::V2 {
                fixed_bounds: [
                    Fixed(((pic_frame.top as i16) * 65536) as i32),
                    Fixed(((pic_frame.left as i16) * 65536) as i32),
                    Fixed(((pic_frame.bottom as i16) * 65536) as i32),
                    Fixed(((pic_frame.right as i16) * 65536) as i32),
                ],
            }),
    {
        PictHeader::V2 {
            fixed_bounds: [
                Fixed::from_integer(pic_frame.top as i16),
                Fixed::from_integer(pic_frame.left as i16),
                Fixed::from_integer(pic_frame.bottom as i16),
                Fixed::from_integer(pic_frame.right as i16),
            ],
        }
    }

    /// Parse the 24-byte payload at the cursor; advances exactly 24
    /// bytes on success. An unknown version word is `InvalidData`.
    pub fn parse(r: &mut Reader<'_>) -> (res: Result<Self>)
        ensures
            final(r).bytes@ == old(r).bytes@,
            res is Ok <==> (old(r).rem() >= 24 && header_version_known(
                old(r).bytes@,
                old(r).pos as int,
            )),
            match res {
                Ok(h) => {
                    &&& final(r).pos == old(r).pos + 24
                    &&& h == header_from_bytes(old(r).bytes@, old(r).pos as int)
                },
                Err(e) => {
                    &&& e is InvalidData
                    &&& (old(r).rem() >= 2 && !header_version_known(
                        old(r).bytes@,
                        old(r).pos as int,
                    )) ==> final(r).pos == old(r).pos + 2
                    &&& (old(r).rem() >= 2 && !header_version_known(old(r).bytes@, old(r).pos as int))
                        ==> e->InvalidData_0@ == "unrecognised v2 header version word "@ + "0x"@ + hex4_spec(
                        be_u16(old(r).bytes@, old(r).pos as int) as u16,
                    )
                },
            },
    {
        let version_word = r.read_u16()?;
        if version_word == 0xFFFE || version_word == 0xFFFF {
            if r.remaining() < 22 {
                return Err(PictError::invalid("truncated v2 header payload"));
            }
        }
        if version_word == 0xFFFE {
            let _reserved1 = r.read_u16()?;
            let hres = Fixed(r.read_i32()?);
            let vres = Fixed(r.read_i32()?);
            let (top, left, bottom, right) = r.read_rect()?;
            let _reserved2 = r.read_u32()?;
            Ok(
                PictHeader::ExtendedV2 {
                    hres,
                    vres,
                    optimal_source_rect: RectI32::from_be(top, left, bottom, right),
                },
            )
        } else if version_word == 0xFFFF {
            let _version_low = r.read_u16()?;
            let b0 = Fixed(r.read_i32()?);
            let b1 = Fixed(r.read_i32()?);
            let b2 = Fixed(r.read_i32()?);
            let b3 = Fixed(r.read_i32()?);
            let _reserved = r.read_u32()?;
            Ok(PictHeader::V2 { fixed_bounds: [b0, b1, b2, b3] })
        } else {
            let msg = message_with_hex("unrecognised v2 header version word ", version_word);
            Err(PictError::InvalidData(msg))
        }
    }

    /// Serialise into the 24 big-endian bytes that follow `HeaderOp`.
    pub fn to_wire(&self) -> (out: [u8; 24])
        ensures
            out@ == header_wire(*self),
    {
        let mut v: Vec<u8> = Vec::new();
        match *self {
            PictHeader::ExtendedV2 { hres, vres, optimal_source_rect } => {
                write_u16(&mut v, 0xFFFE);
                write_u16(&mut v, 0);
                write_i32(&mut v, hres.0);
                write_i32(&mut v, vres.0);
                write_low16(&mut v, optimal_source_rect.top);
                write_low16(&mut v, optimal_source_rect.left);
                write_low16(&mut v, optimal_source_rect.bottom);
                write_low16(&mut v, optimal_source_rect.right);
                write_u16(&mut v, 0);
                write_u16(&mut v, 0);
            },
            PictHeader::V2 { fixed_bounds } => {
                write_u16(&mut v, 0xFFFF);
                write_u16(&mut v, 0xFFFF);
                write_i32(&mut v, fixed_bounds[0].0);
                write_i32(&mut v, fixed_bounds[1].0);
                write_i32(&mut v, fixed_bounds[2].0);
                write_i32(&mut v, fixed_bounds[3].0);
                write_u16(&mut v, 0);
                write_u16(&mut v, 0);
            },
        }
        assert(v@ =~= header_wire(*self));
        let mut out = [0u8; 24];
        let mut i: usize = 0;
        while i < 24
            invariant
                i <= 24,
                v@ == header_wire(*self),
                v@.len() == 24,
                out@.len() == 24,
                forall|j: int| 0 <= j < i ==> out@[j] == v@[j],
            decreases 24 - i,
        {
            out[i] = v[i];
            i += 1;
        }
        assert(out@ =~= v@);
        out
    }

    /// `true` for the extended-v2 variant.
    pub fn is_extended(&self) -> (b: bool)
        ensures
            b == (*self is ExtendedV2),
    {
        match self {
            PictHeader::ExtendedV2 { .. } => true,
            PictHeader::V2 { .. } => false,
        }
    }
}

proof fn lemma_low16_of_i16(v: int)
    requires
        -32768 <= v < 32768,
    ensures
        low16(v) == (if v < 0 { v + 65536 } else { v }),
        i16_bytes(v) == u16_bytes(low16(v)),
{
    if v < 0 {
        vstd::arithmetic::div_mod::lemma_fundamental_div_mod_converse(v, 65536, -1, v + 65536);
    } else {
        vstd::arithmetic::div_mod::lemma_fundamental_div_mod_converse(v, 65536, 0, v);
    }
}

#[verifier::rlimit(40)]
proof fn lemma_ext_roundtrip(h: PictHeader)
    requires
        h is ExtendedV2,
        header_representable(h),
    ensures
        header_wire(h).len() == 24,
        header_version_known(header_wire(h), 0),
        header_from_bytes(header_wire(h), 0) == h,
{
    let s = header_wire(h);
    let hres = h->hres;
    let vres = h->vres;
    let r = h->optimal_source_rect;
    let a = u16_bytes(0xFFFE);
    let hb = i32_bytes(hres.0 as int);
    let vb = i32_bytes(vres.0 as int);
    let tb = u16_bytes(low16(r.top as int));
    let lb = u16_bytes(low16(r.left as int));
    let bb = u16_bytes(low16(r.bottom as int));
    let rb = u16_bytes(low16(r.right as int));
    lemma_i32_bytes_read(hres.0 as int);
    lemma_i32_bytes_read(vres.0 as int);
    lemma_i16_bytes_read(r.top as int);
    lemma_i16_bytes_read(r.left as int);
    lemma_i16_bytes_read(r.bottom as int);
    lemma_i16_bytes_read(r.right as int);
    lemma_low16_of_i16(r.top as int);
    lemma_low16_of_i16(r.left as int);
    lemma_low16_of_i16(r.bottom as int);
    lemma_low16_of_i16(r.right as int);
    assert(s.len() == 24);
    assert(s[0] == a[0] && s[1] == a[1]);
    assert(s[4] == hb[0] && s[5] == hb[1] && s[6] == hb[2] && s[7] == hb[3]);
    assert(s[8] == vb[0] && s[9] == vb[1] && s[10] == vb[2] && s[11] == vb[3]);
    assert(s[12] == tb[0] && s[13] == tb[1]);
    assert(s[14] == lb[0] && s[15] == lb[1]);
    assert(s[16] == bb[0] && s[17] == bb[1]);
    assert(s[18] == rb[0] && s[19] == rb[1]);
}

proof fn lemma_v2_roundtrip(h: PictHeader)
    requires
        h is V2,
    ensures
        header_wire(h).len() == 24,
        header_version_known(header_wire(h), 0),
        header_from_bytes(header_wire(h), 0) == h,
{
    let s = header_wire(h);
    let b = h->fixed_bounds;
    let a = u16_bytes(0xFFFF);
    let b0 = i32_bytes(b[0].0 as int);
    let b1 = i32_bytes(b[1].0 as int);
    let b2 = i32_bytes(b[2].0 as int);
    let b3 = i32_bytes(b[3].0 as int);
    lemma_i32_bytes_read(b[0].0 as int);
    lemma_i32_bytes_read(b[1].0 as int);
    lemma_i32_bytes_read(b[2].0 as int);
    lemma_i32_bytes_read(b[3].0 as int);
    assert(s.len() == 24);
    assert(s[0] == a[0] && s[1] == a[1]);
    assert(s[4] == b0[0] && s[5] == b0[1] && s[6] == b0[2] && s[7] == b0[3]);
    assert(s[8] == b1[0] && s[9] == b1[1] && s[10] == b1[2] && s[11] == b1[3]);
    assert(s[12] == b2[0] && s[13] == b2[1] && s[14] == b2[2] && s[15] == b2[3]);
    assert(s[16] == b3[0] && s[17] == b3[1] && s[18] == b3[2] && s[19] == b3[3]);
    let got = header_from_bytes(s, 0)->fixed_bounds;
    assert(got[0] == b[0] && got[1] == b[1] && got[2] == b[2] && got[3] == b[3]);
    assert(got =~= b);
}

/// Every header survives a write followed by a read: the 24 bytes that
/// `to_wire` produces start with a known version word and `parse`
/// reads back the same header (for an extended-v2 header, as long as
/// its rectangle fits the on-disk 16-bit fields).
pub proof fn lemma_header_roundtrip(h: PictHeader)
    requires
        header_representable(h),
    ensures
        header_wire(h).len() == 24,
        header_version_known(header_wire(h), 0),
        header_from_bytes(header_wire(h), 0) == h,
{
    match h {
        PictHeader::ExtendedV2 { .. } => lemma_ext_roundtrip(h),
        PictHeader::V2 { .. } => lemma_v2_roundtrip(h),
    }
}

} // verus!

//! Typed parsing of the QuickTime picture opcodes' payloads
//! (`CompressedQuickTime` `$8200`, `UncompressedQuickTime` `$8201`) and
//! of the `ImageDescription` record both embed.
//!
//! `$8200` fixed part (68 bytes): version, 3x3 Fixed matrix, matte size,
//! matte rectangle, mode, source rectangle, accuracy, mask size; then
//! the matte description and data (when the matte size is not zero),
//! the mask region (when the mask size is not zero), the image
//! description and the image data (`dataSize` bytes, or the rest of the
//! payload when `dataSize` is 0). `$8201` stops its fixed part after the
//! matte rectangle (50 bytes), then the matte, a pixel-data subopcode
//! in `$0098..=$009B` and that subopcode's data (the rest).
use vstd::prelude::*;
use crate::error::{message_with_hex, PictError, Result};
use crate::header::Fixed;
use crate::reader::Reader;
use crate::state::RectI32;
use crate::wire::{
    be_i16, be_i32, be_u16, be_u32, i16_bytes, i32_bytes, lemma_i16_bytes_read,
    lemma_i32_bytes_read, lemma_u16_bytes_read, lemma_u32_bytes_read, u16_bytes, u32_bytes,
    write_bytes, write_i16, write_i32, write_u16, write_u32,
};

verus! {

/// The 3x3 transformation matrix, row-major, as nine `Fixed` values.
#[derive(Debug, Clone, Copy, PartialEq, Eq)]
pub struct QuickTimeMatrix(pub [Fixed; 9]);

/// The 36 bytes of a matrix.
pub open spec fn matrix_bytes(m: Seq<Fixed>, n: int) -> Seq<u8>
    decreases n,
{
    if n <= 0 {
        Seq::empty()
    } else {
        matrix_bytes(m, n - 1) + i32_bytes(m[n - 1].0 as int)
    }
}

impl QuickTimeMatrix {
    /// The identity matrix with every element in 16.16 form.
    pub fn identity() -> (m: Self)
        ensures
            m.0@ == seq![Fixed(0x0001_0000), Fixed(0), Fixed(0), Fixed(0), Fixed(0x0001_0000), Fixed(0), Fixed(0), Fixed(0), Fixed(0x0001_0000)],
    {
        let m = QuickTimeMatrix(
            [
                Fixed(0x0001_0000),
                Fixed(0),
                Fixed(0),
                Fixed(0),
                Fixed(0x0001_0000),
                Fixed(0),
                Fixed(0),
                Fixed(0),
                Fixed(0x0001_0000),
            ],
        );
        assert(m.0@ =~= seq![Fixed(0x0001_0000), Fixed(0), Fixed(0), Fixed(0), Fixed(0x0001_0000), Fixed(0), Fixed(0), Fixed(0), Fixed(0x0001_0000)]);
        m
    }

    /// Element at `row`, `col` (0-based, row-major).
    pub fn at(&self, row: usize, col: usize) -> (f: Fixed)
        requires
            row < 3,
            col < 3,
        ensures
            f == self.0@[row * 3 + col],
    {
        self.0[row * 3 + col]
    }

    /// Whether the matrix maps coordinates unchanged: off-diagonal
    /// zero, the first two diagonal elements 1.0 in 16.16, the last 1.0
    /// in 16.16 or in 2.30 (`0x4000_0000`).
    pub fn is_identity(&self) -> (b: bool)
        ensures
            b == (self.0@[1].0 == 0 && self.0@[2].0 == 0 && self.0@[3].0 == 0 && self.0@[5].0 == 0
                && self.0@[6].0 == 0 && self.0@[7].0 == 0 && self.0@[0].0 == 0x0001_0000
                && self.0@[4].0 == 0x0001_0000 && (self.0@[8].0 == 0x0001_0000 || self.0@[8].0
                == 0x4000_0000)),
    {
        let m = &self.0;
        m[1].0 == 0 && m[2].0 == 0 && m[3].0 == 0 && m[5].0 == 0 && m[6].0 == 0 && m[7].0 == 0
            && m[0].0 == 0x0001_0000 && m[4].0 == 0x0001_0000 && (m[8].0 == 0x0001_0000 || m[8].0
            == 0x4000_0000)
    }

    /// Read the 36-byte matrix at the cursor.
    pub fn parse(r: &mut Reader<'_>) -> (res: Result<Self>)
        ensures
            final(r).bytes@ == old(r).bytes@,
            res is Ok <==> old(r).rem() >= 36,
            match res {
                Ok(m) => final(r).pos == old(r).pos + 36 && forall|k: int|
                    0 <= k < 9 ==> m.0@[k].0 == be_i32(old(r).bytes@, old(r).pos + 4 * k),
                Err(e) => e is InvalidData,
            },
    {
        if r.remaining() < 36 {
            return Err(PictError::invalid("truncated QuickTime matrix"));
        }
        let mut m = [Fixed(0); 9];
        let ghost p0 = r.pos;
        let mut k: usize = 0;
        while k < 9
            invariant
                k <= 9,
                r.bytes@ == old(r).bytes@,
                p0 == old(r).pos,
                r.pos == p0 + 4 * k,
                old(r).rem() >= 36,
                forall|j: int| 0 <= j < k ==> m@[j].0 == be_i32(old(r).bytes@, p0 + 4 * j),
            decreases 9 - k,
        {
            let v = r.read_i32()?;
            m[k] = Fixed(v);
            k += 1;
        }
        Ok(QuickTimeMatrix(m))
    }

    /// The 36-byte on-disk form.
    pub fn to_wire(&self) -> (out: [u8; 36])
        ensures
            out@ == matrix_bytes(self.0@, 9),
    {
        let mut v: Vec<u8> = Vec::new();
        let mut k: usize = 0;
        while k < 9
            invariant
                k <= 9,
                v@ == matrix_bytes(self.0@, k as int),
                v@.len() == 4 * k,
            decreases 9 - k,
        {
            write_i32(&mut v, self.0[k].0);
            k += 1;
        }
        let mut out = [0u8; 36];
        let mut i: usize = 0;
        while i < 36
            invariant
                i <= 36,
                v@.len() == 36,
                out@.len() == 36,
                forall|j: int| 0 <= j < i ==> out@[j] == v@[j],
            decreases 36 - i,
        {
            out[i] = v[i];
            i += 1;
        }
        assert(out@ =~= v@);
        out
    }
}

/// The QuickTime `ImageDescription` record: 86 fixed bytes and an
/// extension tail; `id_size` covers both.
#[derive(Debug, Clone, PartialEq, Eq)]
pub struct ImageDescription {
    pub id_size: u32,
    pub codec: [u8; 4],
    pub version: u16,
    pub revision_level: u16,
    pub vendor: [u8; 4],
    pub temporal_quality: u32,
    pub spatial_quality: u32,
    pub width: u16,
    pub height: u16,
    pub h_res: Fixed,
    pub v_res: Fixed,
    pub data_size: u32,
    pub frame_count: u16,
    pub name_raw: [u8; 32],
    pub depth: u16,
    pub clut_id: i16,
    pub extension: Vec<u8>,
}

/// Fixed (pre-extension) byte length of an `ImageDescription`.
pub const IMAGE_DESCRIPTION_FIXED_LEN: usize = 86;

/// Whether an `ImageDescription` can be read at `s[i..]`: its `idSize`
/// is at least 86 and that many bytes are present.
pub open spec fn idesc_ok(s: Seq<u8>, i: int) -> bool {
    &&& 0 <= i
    &&& i + 4 <= s.len()
    &&& be_u32(s, i) >= 86
    &&& i + be_u32(s, i) <= s.len()
}

/// Whether `d` is the `ImageDescription` stored at `s[i..]`.
pub open spec fn idesc_matches(d: ImageDescription, s: Seq<u8>, i: int) -> bool {
    &&& d.id_size == be_u32(s, i)
    &&& d.codec@ == s.subrange(i + 4, i + 8)
    &&& d.version == be_u16(s, i + 16)
    &&& d.revision_level == be_u16(s, i + 18)
    &&& d.vendor@ == s.subrange(i + 20, i + 24)
    &&& d.temporal_quality == be_u32(s, i + 24)
    &&& d.spatial_quality == be_u32(s, i + 28)
    &&& d.width == be_u16(s, i + 32)
    &&& d.height == be_u16(s, i + 34)
    &&& d.h_res.0 == be_i32(s, i + 36)
    &&& d.v_res.0 == be_i32(s, i + 40)
    &&& d.data_size == be_u32(s, i + 44)
    &&& d.frame_count == be_u16(s, i + 48)
    &&& d.name_raw@ == s.subrange(i + 50, i + 82)
    &&& d.depth == be_u16(s, i + 82)
    &&& d.clut_id == be_i16(s, i + 84)
    &&& d.extension@ == s.subrange(i + 86, i + be_u32(s, i))
}

/// The bytes `to_bytes` writes for `d`.
pub open spec fn idesc_bytes(d: ImageDescription) -> Seq<u8> {
    u32_bytes(86 + d.extension@.len() as int) + d.codec@ + Seq::new(8, |k: int| 0u8) + u16_bytes(
        d.version as int,
    ) + u16_bytes(d.revision_level as int) + d.vendor@ + u32_bytes(d.temporal_quality as int)
        + u32_bytes(d.spatial_quality as int) + u16_bytes(d.width as int) + u16_bytes(
        d.height as int,
    ) + i32_bytes(d.h_res.0 as int) + i32_bytes(d.v_res.0 as int) + u32_bytes(d.data_size as int)
        + u16_bytes(d.frame_count as int) + d.name_raw@ + u16_bytes(d.depth as int) + i16_bytes(
        d.clut_id as int,
    ) + d.extension@
}

/// All fields of two descriptions agree.
pub open spec fn idesc_eq(a: ImageDescription, b: ImageDescription) -> bool {
    &&& a.id_size == b.id_size
    &&& a.codec == b.codec
    &&& a.version == b.version
    &&& a.revision_level == b.revision_level
    &&& a.vendor == b.vendor
    &&& a.temporal_quality == b.temporal_quality
    &&& a.spatial_quality == b.spatial_quality
    &&& a.width == b.width
    &&& a.height == b.height
    &&& a.h_res == b.h_res
    &&& a.v_res == b.v_res
    &&& a.data_size == b.data_size
    &&& a.frame_count == b.frame_count
    &&& a.name_raw == b.name_raw
    &&& a.depth == b.depth
    &&& a.clut_id == b.clut_id
    &&& a.extension@ == b.extension@
}

/// Whether `c` is the character of the byte value `b` (a lossy
/// Latin-1 reading).
pub open spec fn byte_char(b: u8) -> char {
    b as char
}

#[verifier::external_body]
fn push_char(s: &mut String, c: char)
    ensures
        final(s)@ == old(s)@.push(c),
{
    s.push(c)
}

fn bytes_to_string(b: &[u8]) -> (s: String)
    ensures
        s@ == Seq::new(b@.len(), |k: int| byte_char(b@[k])),
{
    let mut s = String::new();
    let mut i: usize = 0;
    while i < b.len()
        invariant
            i <= b@.len(),
            s@ =~= Seq::new(i as nat, |k: int| byte_char(b@[k])),
        decreases b@.len() - i,
    {
        push_char(&mut s, b[i] as char);
        i += 1;
    }
    s
}

impl ImageDescription {
    /// The compressor FourCC as a string, one character per byte.
    pub fn codec_str(&self) -> (s: String)
        ensures
            s@ == Seq::new(4, |k: int| byte_char(self.codec@[k])),
    {
        bytes_to_string(self.codec.as_slice())
    }

    /// The `name` Pascal string: at most 31 bytes after the length byte.
    pub fn name(&self) -> (s: String)
        ensures
            ({
                let len = if self.name_raw@[0] > 31 { 31 } else { self.name_raw@[0] as int };
                s@ == Seq::new(len as nat, |k: int| byte_char(self.name_raw@[1 + k]))
            }),
    {
        let len: usize = if self.name_raw[0] > 31 { 31 } else { self.name_raw[0] as usize };
        let s = bytes_to_string(vstd::slice::slice_subrange(self.name_raw.as_slice(), 1, 1 + len));
        assert(s@ =~= Seq::new(len as nat, |k: int| byte_char(self.name_raw@[1 + k])));
        s
    }

    /// Whether `depth` is one of the grayscale codes 34, 36, 40.
    pub fn is_grayscale(&self) -> (b: bool)
        ensures
            b == (self.depth == 34 || self.depth == 36 || self.depth == 40),
    {
        self.depth == 34 || self.depth == 36 || self.depth == 40
    }

    /// Parse one `ImageDescription` at the cursor, consuming `idSize`
    /// bytes. `InvalidData` for an `idSize` under 86 or a truncated
    /// record.
    pub fn parse(r: &mut Reader<'_>) -> (res: Result<Self>)
        ensures
            final(r).bytes@ == old(r).bytes@,
            res is Ok <==> idesc_ok(old(r).rest(), 0),
            match res {
                Ok(d) => final(r).pos == old(r).pos + d.id_size && idesc_matches(d, old(r).rest(), 0),
                Err(e) => e is InvalidData,
            },
    {
        let ghost s = r.rest();
        let ghost p0 = r.pos as int;
        if r.remaining() < 4 {
            return Err(PictError::invalid("truncated ImageDescription"));
        }
        proof {
            assert(s =~= r.bytes@.subrange(p0, r.bytes@.len() as int));
        }
        let id_size = r.read_u32()?;
        proof {
            assert(id_size == be_u32(s, 0));
        }
        if id_size < 86 {
            return Err(PictError::invalid("ImageDescription idSize smaller than the 86-byte fixed part"));
        }
        if (r.remaining() as u64) < (id_size as u64) - 4 {
            return Err(PictError::invalid("truncated ImageDescription"));
        }
        let codec_b = r.read_bytes(4)?;
        let codec = [codec_b[0], codec_b[1], codec_b[2], codec_b[3]];
        r.skip(8)?;
        let version = r.read_u16()?;
        let revision_level = r.read_u16()?;
        let vendor_b = r.read_bytes(4)?;
        let vendor = [vendor_b[0], vendor_b[1], vendor_b[2], vendor_b[3]];
        let temporal_quality = r.read_u32()?;
        let spatial_quality = r.read_u32()?;
        let width = r.read_u16()?;
        let height = r.read_u16()?;
        let h_res = Fixed(r.read_i32()?);
        let v_res = Fixed(r.read_i32()?);
        let data_size = r.read_u32()?;
        let frame_count = r.read_u16()?;
        let name_b = r.read_bytes(32)?;
        let mut name_raw = [0u8; 32];
        let mut k: usize = 0;
        while k < 32
            invariant
                k <= 32,
                name_b@.len() == 32,
                forall|j: int| 0 <= j < k ==> name_raw@[j] == name_b@[j],
            decreases 32 - k,
        {
            name_raw[k] = name_b[k];
            k += 1;
        }
        let depth = r.read_u16()?;
        let clut_id = r.read_i16()?;
        let ext_len = (id_size - 86) as usize;
        let ext = r.read_bytes(ext_len)?;
        let extension = crate::wire::copy_bytes(ext);
        let d = ImageDescription {
            id_size,
            codec,
            version,
            revision_level,
            vendor,
            temporal_quality,
            spatial_quality,
            width,
            height,
            h_res,
            v_res,
            data_size,
            frame_count,
            name_raw,
            depth,
            clut_id,
            extension,
        };
        proof {
            let b = r.bytes@;
            assert forall|j: int| 0 <= j < s.len() implies s[j] == b[p0 + j] by {}
            assert(d.codec@ =~= s.subrange(4, 8));
            assert(d.vendor@ =~= s.subrange(20, 24));
            assert(d.name_raw@ =~= s.subrange(50, 82));
            assert(d.extension@ =~= s.subrange(86, be_u32(s, 0)));
        }
        Ok(d)
    }

    /// The on-disk form; `idSize` is recomputed as 86 plus the
    /// extension length.
    pub fn to_bytes(&self) -> (out: Vec<u8>)
        requires
            86 + self.extension@.len() <= 0xFFFF_FFFF,
        ensures
            out@ == idesc_bytes(*self),
    {
        let mut out: Vec<u8> = Vec::new();
        write_u32(&mut out, (86 + self.extension.len()) as u32);
        write_bytes(&mut out, self.codec.as_slice());
        write_u32(&mut out, 0);
        write_u32(&mut out, 0);
        write_u16(&mut out, self.version);
        write_u16(&mut out, self.revision_level);
        write_bytes(&mut out, self.vendor.as_slice());
        write_u32(&mut out, self.temporal_quality);
        write_u32(&mut out, self.spatial_quality);
        write_u16(&mut out, self.width);
        write_u16(&mut out, self.height);
        write_i32(&mut out, self.h_res.0);
        write_i32(&mut out, self.v_res.0);
        write_u32(&mut out, self.data_size);
        write_u16(&mut out, self.frame_count);
        write_bytes(&mut out, self.name_raw.as_slice());
        write_u16(&mut out, self.depth);
        write_i16(&mut out, self.clut_id);
        write_bytes(&mut out, self.extension.as_slice());
        assert(u32_bytes(0) + u32_bytes(0) =~= Seq::new(8, |k: int| 0u8));
        assert(out@ =~= idesc_bytes(*self));
        out
    }
}

/// An `ImageDescription` survives `to_bytes` followed by `parse`: the
/// bytes are a readable record and any description read from them
/// agrees with the original in every field (when its `id_size` is the
/// one `to_bytes` writes).
pub proof fn lemma_idesc_roundtrip(d: ImageDescription)
    requires
        d.id_size == 86 + d.extension@.len(),
    ensures
        idesc_ok(idesc_bytes(d), 0),
        idesc_matches(d, idesc_bytes(d), 0),
        forall|d2: ImageDescription| idesc_matches(d2, idesc_bytes(d), 0) ==> idesc_eq(d2, d),
{
    let s = idesc_bytes(d);
    lemma_u32_bytes_read(86 + d.extension@.len() as int);
    lemma_u16_bytes_read(d.version as int);
    lemma_u16_bytes_read(d.revision_level as int);
    lemma_u32_bytes_read(d.temporal_quality as int);
    lemma_u32_bytes_read(d.spatial_quality as int);
    lemma_u16_bytes_read(d.width as int);
    lemma_u16_bytes_read(d.height as int);
    lemma_i32_bytes_read(d.h_res.0 as int);
    lemma_i32_bytes_read(d.v_res.0 as int);
    lemma_u32_bytes_read(d.data_size as int);
    lemma_u16_bytes_read(d.frame_count as int);
    lemma_u16_bytes_read(d.depth as int);
    lemma_i16_bytes_read(d.clut_id as int);
    let a = u32_bytes(86 + d.extension@.len() as int);
    assert(s.len() == 86 + d.extension@.len());
    assert(s.subrange(0, 4) =~= a);
    assert(s.subrange(4, 8) =~= d.codec@);
    assert(s.subrange(16, 18) =~= u16_bytes(d.version as int));
    assert(s.subrange(18, 20) =~= u16_bytes(d.revision_level as int));
    assert(s.subrange(20, 24) =~= d.vendor@);
    assert(s.subrange(24, 28) =~= u32_bytes(d.temporal_quality as int));
    assert(s.subrange(28, 32) =~= u32_bytes(d.spatial_quality as int));
    assert(s.subrange(32, 34) =~= u16_bytes(d.width as int));
    assert(s.subrange(34, 36) =~= u16_bytes(d.height as int));
    assert(s.subrange(36, 40) =~= i32_bytes(d.h_res.0 as int));
    assert(s.subrange(40, 44) =~= i32_bytes(d.v_res.0 as int));
    assert(s.subrange(44, 48) =~= u32_bytes(d.data_size as int));
    assert(s.subrange(48, 50) =~= u16_bytes(d.frame_count as int));
    assert(s.subrange(50, 82) =~= d.name_raw@);
    assert(s.subrange(82, 84) =~= u16_bytes(d.depth as int));
    assert(s.subrange(84, 86) =~= i16_bytes(d.clut_id as int));
    assert(s.subrange(86, s.len() as int) =~= d.extension@);
    lemma_be_window(s, 0, a);
    lemma_be_window(s, 16, u16_bytes(d.version as int));
    lemma_be_window(s, 18, u16_bytes(d.revision_level as int));
    lemma_be_window(s, 24, u32_bytes(d.temporal_quality as int));
    lemma_be_window(s, 28, u32_bytes(d.spatial_quality as int));
    lemma_be_window(s, 32, u16_bytes(d.width as int));
    lemma_be_window(s, 34, u16_bytes(d.height as int));
    lemma_be_window(s, 36, i32_bytes(d.h_res.0 as int));
    lemma_be_window(s, 40, i32_bytes(d.v_res.0 as int));
    lemma_be_window(s, 44, u32_bytes(d.data_size as int));
    lemma_be_window(s, 48, u16_bytes(d.frame_count as int));
    lemma_be_window(s, 82, u16_bytes(d.depth as int));
    lemma_be_window(s, 84, i16_bytes(d.clut_id as int));
    assert forall|d2: ImageDescription| idesc_matches(d2, s, 0) implies idesc_eq(d2, d) by {
        assert(d2.codec@ =~= d.codec@);
        assert(d2.codec =~= d.codec);
        assert(d2.vendor@ =~= d.vendor@);
        assert(d2.vendor =~= d.vendor);
        assert(d2.name_raw@ =~= d.name_raw@);
        assert(d2.name_raw =~= d.name_raw);
    }
}

/// Writing back a 16-bit word read from `s` at `i`, unsigned or
/// signed, gives the two bytes there.
proof fn lemma_word_rewrite(s: Seq<u8>, i: int)
    requires
        0 <= i,
        i + 2 <= s.len(),
    ensures
        u16_bytes(be_u16(s, i)) == s.subrange(i, i + 2),
        i16_bytes(be_i16(s, i)) == s.subrange(i, i + 2),
{
    let v = be_u16(s, i);
    assert(v / 256 == s[i] as int && v % 256 == s[i + 1] as int);
    assert(u16_bytes(v) =~= s.subrange(i, i + 2));
    assert(i16_bytes(be_i16(s, i)) == u16_bytes(v));
}

/// Writing back a 32-bit word read from `s` at `i`, unsigned or
/// signed, gives the four bytes there.
proof fn lemma_long_rewrite(s: Seq<u8>, i: int)
    requires
        0 <= i,
        i + 4 <= s.len(),
    ensures
        u32_bytes(be_u32(s, i)) == s.subrange(i, i + 4),
        i32_bytes(be_i32(s, i)) == s.subrange(i, i + 4),
{
    let v = be_u32(s, i);
    lemma_word_rewrite(s, i);
    lemma_word_rewrite(s, i + 2);
    assert(v / 65536 == be_u16(s, i) && v % 65536 == be_u16(s, i + 2));
    assert(u32_bytes(v) =~= s.subrange(i, i + 2) + s.subrange(i + 2, i + 4));
    assert(u32_bytes(v) =~= s.subrange(i, i + 4));
    assert(i32_bytes(be_i32(s, i)) == u32_bytes(v));
}

/// A whole `ImageDescription` record whose reserved bytes are zero
/// survives `parse` followed by `to_bytes`: the description read from
/// it writes back exactly its bytes.
pub proof fn lemma_idesc_reemit(d: ImageDescription, s: Seq<u8>)
    requires
        idesc_ok(s, 0),
        s.len() == be_u32(s, 0),
        forall|k: int| 8 <= k < 16 ==> s[k] == 0,
        idesc_matches(d, s, 0),
    ensures
        idesc_bytes(d) == s,
{
    lemma_long_rewrite(s, 0);
    lemma_word_rewrite(s, 16);
    lemma_word_rewrite(s, 18);
    lemma_long_rewrite(s, 24);
    lemma_long_rewrite(s, 28);
    lemma_word_rewrite(s, 32);
    lemma_word_rewrite(s, 34);
    lemma_long_rewrite(s, 36);
    lemma_long_rewrite(s, 40);
    lemma_long_rewrite(s, 44);
    lemma_word_rewrite(s, 48);
    lemma_word_rewrite(s, 82);
    lemma_word_rewrite(s, 84);
    assert(86 + d.extension@.len() == be_u32(s, 0));
    assert(Seq::new(8, |k: int| 0u8) =~= s.subrange(8, 16));
    assert(s =~= s.subrange(0, 4) + s.subrange(4, 8) + s.subrange(8, 16) + s.subrange(16, 18) + s.subrange(18, 20)
        + s.subrange(20, 24) + s.subrange(24, 28) + s.subrange(28, 32) + s.subrange(32, 34) + s.subrange(34, 36)
        + s.subrange(36, 40) + s.subrange(40, 44) + s.subrange(44, 48) + s.subrange(48, 50) + s.subrange(50, 82)
        + s.subrange(82, 84) + s.subrange(84, 86) + s.subrange(86, s.len() as int));
}

/// Big-endian reads of `s` at `i` see the window `w` placed there.
proof fn lemma_be_window(s: Seq<u8>, i: int, w: Seq<u8>)
    requires
        0 <= i,
        i + w.len() <= s.len(),
        s.subrange(i, i + w.len()) == w,
    ensures
        w.len() >= 2 ==> be_u16(s, i) == be_u16(w, 0) && be_i16(s, i) == be_i16(w, 0),
        w.len() >= 4 ==> be_u32(s, i) == be_u32(w, 0) && be_i32(s, i) == be_i32(w, 0),
{
    if w.len() >= 2 {
        assert(s[i] == w[0]);
        assert(s[i + 1] == w[1]);
    }
    if w.len() >= 4 {
        assert(s[i + 2] == w[2]);
        assert(s[i + 3] == w[3]);
    }
}

/// A matrix survives `to_wire` followed by `parse`.
pub proof fn lemma_matrix_roundtrip(m: QuickTimeMatrix)
    ensures
        matrix_bytes(m.0@, 9).len() == 36,
        forall|k: int| 0 <= k < 9 ==> be_i32(matrix_bytes(m.0@, 9), 4 * k) == m.0@[k].0,
{
    assert forall|k: int| 0 <= k < 9 implies be_i32(matrix_bytes(m.0@, 9), 4 * k) == m.0@[k].0 by {
        lemma_matrix_prefix(m.0@, 9, k);
    }
    lemma_matrix_len(m.0@, 9);
}

proof fn lemma_matrix_len(m: Seq<Fixed>, n: int)
    requires
        0 <= n,
    ensures
        matrix_bytes(m, n).len() == 4 * n,
    decreases n,
{
    if n > 0 {
        lemma_matrix_len(m, n - 1);
    }
}

proof fn lemma_matrix_prefix(m: Seq<Fixed>, n: int, k: int)
    requires
        0 <= k < n,
    ensures
        be_i32(matrix_bytes(m, n), 4 * k) == m[k].0,
    decreases n,
{
    lemma_matrix_len(m, n - 1);
    let b = matrix_bytes(m, n);
    if k == n - 1 {
        lemma_i32_bytes_read(m[k].0 as int);
        assert(b.subrange(4 * k, 4 * k + 4) =~= i32_bytes(m[k].0 as int));
        lemma_be_window(b, 4 * k, i32_bytes(m[k].0 as int));
    } else {
        lemma_matrix_prefix(m, n - 1, k);
        let a = matrix_bytes(m, n - 1);
        assert(b.subrange(4 * k, 4 * k + 4) =~= a.subrange(4 * k, 4 * k + 4));
        lemma_be_window(a, 4 * k, a.subrange(4 * k, 4 * k + 4));
        lemma_be_window(b, 4 * k, a.subrange(4 * k, 4 * k + 4));
    }
}

proof fn lemma_idesc_shift(s: Seq<u8>, p: int)
    requires
        0 <= p <= s.len(),
    ensures
        idesc_ok(s.subrange(p, s.len() as int), 0) == idesc_ok(s, p),
        forall|d: ImageDescription| idesc_ok(s, p) ==> (idesc_matches(d, s.subrange(p, s.len() as int), 0) == idesc_matches(d, s, p)),
{
    let t = s.subrange(p, s.len() as int);
    assert forall|j: int| 0 <= j < t.len() implies t[j] == s[p + j] by {}
    assert forall|d: ImageDescription| idesc_ok(s, p) implies (idesc_matches(d, t, 0) == idesc_matches(d, s, p)) by {
        assert(t.subrange(4, 8) =~= s.subrange(p + 4, p + 8));
        assert(t.subrange(20, 24) =~= s.subrange(p + 20, p + 24));
        assert(t.subrange(50, 82) =~= s.subrange(p + 50, p + 82));
        assert(t.subrange(86, be_u32(t, 0)) =~= s.subrange(p + 86, p + be_u32(s, p)));
    }
}

/// A matte: its own description and its data.
#[derive(Debug, Clone, PartialEq, Eq)]
pub struct QuickTimeMatte {
    pub description: ImageDescription,
    pub data: Vec<u8>,
}

/// Typed form of a `CompressedQuickTime` (`$8200`) payload.
#[derive(Debug, Clone, PartialEq, Eq)]
pub struct QuickTimeCompressed {
    pub version: u16,
    pub matrix: QuickTimeMatrix,
    pub matte_rect: RectI32,
    pub mode: u16,
    pub src_rect: RectI32,
    pub accuracy: u32,
    pub matte: Option<QuickTimeMatte>,
    pub mask_region: Option<Vec<u8>>,
    pub image_description: ImageDescription,
    pub image_data: Vec<u8>,
}

/// Fixed length of the `$8200` payload before its variable fields.
pub const COMPRESSED_QT_FIXED_LEN: usize = 68;

/// Fixed length of the `$8201` payload before its variable fields.
pub const UNCOMPRESSED_QT_FIXED_LEN: usize = 50;

/// Typed form of an `UncompressedQuickTime` (`$8201`) payload.
#[derive(Debug, Clone, PartialEq, Eq)]
pub struct QuickTimeUncompressed {
    pub version: u16,
    pub matrix: QuickTimeMatrix,
    pub matte_rect: RectI32,
    pub matte: Option<QuickTimeMatte>,
    pub subopcode: u16,
    pub sub_data: Vec<u8>,
}

impl QuickTimeUncompressed {
    /// Whether the subopcode is one of `$0098..=$009B`.
    pub fn subopcode_in_range(&self) -> (b: bool)
        ensures
            b == (0x0098 <= self.subopcode <= 0x009B),
    {
        0x0098 <= self.subopcode && self.subopcode <= 0x009B
    }
}

/// Typed view of a QuickTime picture-opcode payload.
#[derive(Debug, Clone, PartialEq, Eq)]
pub enum QuickTimePayload {
    Compressed(QuickTimeCompressed),
    Uncompressed(QuickTimeUncompressed),
}

impl QuickTimePayload {
    /// The compressor FourCC of a `$8200` payload; `None` for `$8201`.
    pub fn codec(&self) -> (c: Option<[u8; 4]>)
        ensures
            c == (match self {
                QuickTimePayload::Compressed(q) => Some(q.image_description.codec),
                QuickTimePayload::Uncompressed(_) => None,
            }),
    {
        match self {
            QuickTimePayload::Compressed(c) => Some(c.image_description.codec),
            QuickTimePayload::Uncompressed(_) => None,
        }
    }

    /// The display matrix.
    pub fn matrix(&self) -> (m: &QuickTimeMatrix)
        ensures
            *m == (match self {
                QuickTimePayload::Compressed(q) => q.matrix,
                QuickTimePayload::Uncompressed(u) => u.matrix,
            }),
    {
        match self {
            QuickTimePayload::Compressed(c) => &c.matrix,
            QuickTimePayload::Uncompressed(u) => &u.matrix,
        }
    }
}

/// The rectangle stored at `s[i..i + 8]`.
pub open spec fn rect_at(s: Seq<u8>, i: int) -> RectI32 {
    RectI32 {
        top: be_i16(s, i) as i32,
        left: be_i16(s, i + 2) as i32,
        bottom: be_i16(s, i + 4) as i32,
        right: be_i16(s, i + 6) as i32,
    }
}

/// Whether the matte of matte size `ms` at `s[p..]` is readable.
pub open spec fn matte_ok(s: Seq<u8>, p: int, ms: int) -> bool {
    ms == 0 || (idesc_ok(s, p) && p + be_u32(s, p) + ms <= s.len())
}

/// Position after the matte of matte size `ms` at `s[p..]`.
pub open spec fn matte_end(s: Seq<u8>, p: int, ms: int) -> int {
    if ms == 0 { p } else { p + be_u32(s, p) + ms }
}

/// Whether `m` is the matte of matte size `ms` stored at `s[p..]`.
pub open spec fn matte_matches(m: Option<QuickTimeMatte>, s: Seq<u8>, p: int, ms: int) -> bool {
    match m {
        None => ms == 0,
        Some(mm) => ms != 0 && idesc_matches(mm.description, s, p) && mm.data@ == s.subrange(
            p + be_u32(s, p),
            p + be_u32(s, p) + ms,
        ),
    }
}

fn parse_matte(r: &mut Reader<'_>, matte_size: u32) -> (res: Result<Option<QuickTimeMatte>>)
    requires
        old(r).pos <= old(r).bytes@.len(),
    ensures
        final(r).bytes@ == old(r).bytes@,
        res is Ok <==> matte_ok(old(r).bytes@, old(r).pos as int, matte_size as int),
        match res {
            Ok(m) => final(r).pos == matte_end(old(r).bytes@, old(r).pos as int, matte_size as int)
                && matte_matches(m, old(r).bytes@, old(r).pos as int, matte_size as int),
            Err(e) => e is InvalidData,
        },
{
    if matte_size == 0 {
        return Ok(None);
    }
    proof {
        lemma_idesc_shift(r.bytes@, r.pos as int);
    }
    let description = ImageDescription::parse(r)?;
    if (r.remaining() as u64) < matte_size as u64 {
        return Err(PictError::invalid("QuickTime matte data truncated"));
    }
    let d = r.read_bytes(matte_size as usize)?;
    let data = crate::wire::copy_bytes(d);
    Ok(Some(QuickTimeMatte { description, data }))
}

/// Where the fields of a `$8200` payload lie and whether it parses.
pub open spec fn qtc_ok(s: Seq<u8>) -> bool {
    let ms = be_u32(s, 38);
    let ks = be_u32(s, 64);
    let p2 = matte_end(s, 68, ms);
    let p3 = if ks == 0 { p2 } else { p2 + ks };
    &&& s.len() >= 68
    &&& matte_ok(s, 68, ms)
    &&& (ks == 0 || (ks >= 10 && p2 + ks <= s.len()))
    &&& idesc_ok(s, p3)
    &&& p3 + be_u32(s, p3) + qtc_data_len(s, p3) <= s.len()
}

/// Length of the image data that follows the image description at
/// `s[p3..]`: its `dataSize`, or the rest when that is 0.
pub open spec fn qtc_data_len(s: Seq<u8>, p3: int) -> int {
    let p4 = p3 + be_u32(s, p3);
    if be_u32(s, p3 + 44) != 0 { be_u32(s, p3 + 44) } else { s.len() - p4 }
}

/// Whether `q` holds exactly the fields of the `$8200` payload `s`.
pub open spec fn qtc_matches(q: QuickTimeCompressed, s: Seq<u8>) -> bool {
    let ms = be_u32(s, 38);
    let ks = be_u32(s, 64);
    let p2 = matte_end(s, 68, ms);
    let p3 = if ks == 0 { p2 } else { p2 + ks };
    let p4 = p3 + be_u32(s, p3);
    &&& q.version == be_u16(s, 0)
    &&& forall|k: int| 0 <= k < 9 ==> q.matrix.0@[k].0 == be_i32(s, 2 + 4 * k)
    &&& q.matte_rect == rect_at(s, 42)
    &&& q.mode == be_u16(s, 50)
    &&& q.src_rect == rect_at(s, 52)
    &&& q.accuracy == be_u32(s, 60)
    &&& matte_matches(q.matte, s, 68, ms)
    &&& match q.mask_region {
        None => ks == 0,
        Some(m) => ks != 0 && m@ == s.subrange(p2, p3),
    }
    &&& idesc_matches(q.image_description, s, p3)
    &&& q.image_data@ == s.subrange(p4, p4 + qtc_data_len(s, p3))
}

fn read_rect32(r: &mut Reader<'_>) -> (res: Result<RectI32>)
    ensures
        final(r).bytes@ == old(r).bytes@,
        res is Ok <==> old(r).rem() >= 8,
        match res {
            Ok(rc) => final(r).pos == old(r).pos + 8 && rc == rect_at(old(r).bytes@, old(r).pos as int),
            Err(e) => e is InvalidData,
        },
{
    let (t, l, b, rt) = r.read_rect()?;
    Ok(RectI32::from_be(t, l, b, rt))
}

/// Parse a `CompressedQuickTime` (`$8200`) payload (the bytes after its
/// `Size` field). Every field is bounded by the payload; a mask region
/// shorter than the 10-byte region header is `InvalidData`.
#[verifier::rlimit(40)]
#[verifier::spinoff_prover]
pub fn parse_compressed_quicktime(payload: &[u8]) -> (res: Result<QuickTimeCompressed>)
    ensures
        res is Ok <==> qtc_ok(payload@),
        match res {
            Ok(q) => qtc_matches(q, payload@),
            Err(e) => e is InvalidData,
        },
{
    let mut r = Reader::new(payload);
    let ghost s = payload@;
    if r.remaining() < 68 {
        return Err(PictError::invalid("CompressedQuickTime payload shorter than its fixed part"));
    }
    let version = r.read_u16()?;
    let matrix = QuickTimeMatrix::parse(&mut r)?;
    let matte_size = r.read_u32()?;
    let matte_rect = read_rect32(&mut r)?;
    let mode = r.read_u16()?;
    let src_rect = read_rect32(&mut r)?;
    let accuracy = r.read_u32()?;
    let mask_size = r.read_u32()?;
    let matte = parse_matte(&mut r, matte_size)?;
    let ghost p2 = r.pos as int;
    let mask_region = if mask_size != 0 {
        if (r.remaining() as u64) < mask_size as u64 {
            return Err(PictError::invalid("QuickTime mask region truncated"));
        }
        let bytes = r.read_bytes(mask_size as usize)?;
        if bytes.len() < 10 {
            return Err(PictError::invalid("QuickTime mask region smaller than the 10-byte Region header"));
        }
        Some(crate::wire::copy_bytes(bytes))
    } else {
        None
    };
    let ghost p3 = r.pos as int;
    proof {
        lemma_idesc_shift(s, p3);
    }
    let image_description = ImageDescription::parse(&mut r)?;
    let data_len: usize = if image_description.data_size != 0 {
        if (r.remaining() as u64) < image_description.data_size as u64 {
            return Err(PictError::invalid("QuickTime image data overruns the payload"));
        }
        image_description.data_size as usize
    } else {
        r.remaining()
    };
    let d = r.read_bytes(data_len)?;
    let image_data = crate::wire::copy_bytes(d);
    Ok(QuickTimeCompressed {
        version,
        matrix,
        matte_rect,
        mode,
        src_rect,
        accuracy,
        matte,
        mask_region,
        image_description,
        image_data,
    })
}

/// Whether a `$8201` payload parses.
pub open spec fn qtu_ok(s: Seq<u8>) -> bool {
    let ms = be_u32(s, 38);
    let p2 = matte_end(s, 50, ms);
    &&& s.len() >= 50
    &&& matte_ok(s, 50, ms)
    &&& p2 + 2 <= s.len()
    &&& 0x0098 <= be_u16(s, p2) <= 0x009B
}

/// Whether `q` holds exactly the fields of the `$8201` payload `s`.
pub open spec fn qtu_matches(q: QuickTimeUncompressed, s: Seq<u8>) -> bool {
    let ms = be_u32(s, 38);
    let p2 = matte_end(s, 50, ms);
    &&& q.version == be_u16(s, 0)
    &&& forall|k: int| 0 <= k < 9 ==> q.matrix.0@[k].0 == be_i32(s, 2 + 4 * k)
    &&& q.matte_rect == rect_at(s, 42)
    &&& matte_matches(q.matte, s, 50, ms)
    &&& q.subopcode == be_u16(s, p2)
    &&& q.sub_data@ == s.subrange(p2 + 2, s.len() as int)
}

/// Parse an `UncompressedQuickTime` (`$8201`) payload. A subopcode
/// outside `$0098..=$009B` is `InvalidData`.
pub fn parse_uncompressed_quicktime(payload: &[u8]) -> (res: Result<QuickTimeUncompressed>)
    ensures
        res is Ok <==> qtu_ok(payload@),
        match res {
            Ok(q) => qtu_matches(q, payload@),
            Err(e) => e is InvalidData,
        },
{
    let mut r = Reader::new(payload);
    if r.remaining() < 50 {
        return Err(PictError::invalid("UncompressedQuickTime payload shorter than its fixed part"));
    }
    let version = r.read_u16()?;
    let matrix = QuickTimeMatrix::parse(&mut r)?;
    let matte_size = r.read_u32()?;
    let matte_rect = read_rect32(&mut r)?;
    let matte = parse_matte(&mut r, matte_size)?;
    let subopcode = r.read_u16()?;
    if subopcode < 0x0098 || subopcode > 0x009B {
        return Err(PictError::InvalidData(message_with_hex(
            "UncompressedQuickTime subopcode outside $98-$9B: ",
            subopcode,
        )));
    }
    let n = r.remaining();
    let d = r.read_bytes(n)?;
    let sub_data = crate::wire::copy_bytes(d);
    Ok(QuickTimeUncompressed { version, matrix, matte_rect, matte, subopcode, sub_data })
}

} // verus!

//! Big-endian integer encodings, as mathematical sequences of bytes,
//! together with the executable writers that produce them.
use vstd::prelude::*;

verus! {

/// Unsigned 16-bit big-endian value of `s[i..i+2]`.
pub open spec fn be_u16(s: Seq<u8>, i: int) -> int {
    s[i] as int * 256 + s[i + 1] as int
}

/// Signed (two's complement) 16-bit big-endian value of `s[i..i+2]`.
pub open spec fn be_i16(s: Seq<u8>, i: int) -> int {
    let u = be_u16(s, i);
    if u >= 32768 { u - 65536 } else { u }
}

/// Unsigned 32-bit big-endian value of `s[i..i+4]`.
pub open spec fn be_u32(s: Seq<u8>, i: int) -> int {
    be_u16(s, i) * 65536 + be_u16(s, i + 2)
}

/// Signed (two's complement) 32-bit big-endian value of `s[i..i+4]`.
pub open spec fn be_i32(s: Seq<u8>, i: int) -> int {
    let u = be_u32(s, i);
    if u >= 0x8000_0000 { u - 0x1_0000_0000 } else { u }
}

/// The two big-endian bytes of the 16-bit pattern `v` (`0 <= v < 2^16`).
pub open spec fn u16_bytes(v: int) -> Seq<u8> {
    seq![(v / 256) as u8, (v % 256) as u8]
}

/// The two big-endian bytes of the signed 16-bit value `v`.
pub open spec fn i16_bytes(v: int) -> Seq<u8> {
    u16_bytes(if v < 0 { v + 65536 } else { v })
}

/// The four big-endian bytes of the 32-bit pattern `v` (`0 <= v < 2^32`).
pub open spec fn u32_bytes(v: int) -> Seq<u8> {
    u16_bytes(v / 65536) + u16_bytes(v % 65536)
}

/// The four big-endian bytes of the signed 32-bit value `v`.
pub open spec fn i32_bytes(v: int) -> Seq<u8> {
    u32_bytes(if v < 0 { v + 0x1_0000_0000 } else { v })
}

/// Reading back the bytes of an unsigned 16-bit value gives the value.
pub proof fn lemma_u16_roundtrip(v: int, pre: Seq<u8>, post: Seq<u8>)
    requires
        0 <= v < 65536,
    ensures
        be_u16(pre + u16_bytes(v) + post, pre.len() as int) == v,
{
    let s = pre + u16_bytes(v) + post;
    assert(s[pre.len() as int] == (v / 256) as u8);
    assert(s[pre.len() as int + 1] == (v % 256) as u8);
}

/// Reading back the bytes of a signed 16-bit value gives the value.
pub proof fn lemma_i16_roundtrip(v: int, pre: Seq<u8>, post: Seq<u8>)
    requires
        -32768 <= v < 32768,
    ensures
        be_i16(pre + i16_bytes(v) + post, pre.len() as int) == v,
{
    lemma_u16_roundtrip(if v < 0 { v + 65536 } else { v }, pre, post);
}

/// Reading back the bytes of an unsigned 32-bit value gives the value.
pub proof fn lemma_u32_roundtrip(v: int, pre: Seq<u8>, post: Seq<u8>)
    requires
        0 <= v < 0x1_0000_0000,
    ensures
        be_u32(pre + u32_bytes(v) + post, pre.len() as int) == v,
{
    let s = pre + u32_bytes(v) + post;
    assert(s =~= pre + u16_bytes(v / 65536) + (u16_bytes(v % 65536) + post));
    lemma_u16_roundtrip(v / 65536, pre, u16_bytes(v % 65536) + post);
    assert(s =~= (pre + u16_bytes(v / 65536)) + u16_bytes(v % 65536) + post);
    lemma_u16_roundtrip(v % 65536, pre + u16_bytes(v / 65536), post);
}

/// Reading back the bytes of a signed 32-bit value gives the value.
pub proof fn lemma_i32_roundtrip(v: int, pre: Seq<u8>, post: Seq<u8>)
    requires
        -0x8000_0000 <= v < 0x8000_0000,
    ensures
        be_i32(pre + i32_bytes(v) + post, pre.len() as int) == v,
{
    lemma_u32_roundtrip(if v < 0 { v + 0x1_0000_0000 } else { v }, pre, post);
}

/// The bytes of an unsigned 16-bit value read back as that value.
pub proof fn lemma_u16_bytes_read(v: int)
    requires
        0 <= v < 65536,
    ensures
        u16_bytes(v).len() == 2,
        be_u16(u16_bytes(v), 0) == v,
{
}

/// The bytes of a signed 16-bit value read back as that value.
pub proof fn lemma_i16_bytes_read(v: int)
    requires
        -32768 <= v < 32768,
    ensures
        i16_bytes(v).len() == 2,
        be_i16(i16_bytes(v), 0) == v,
{
}

/// The bytes of an unsigned 32-bit value read back as that value.
pub proof fn lemma_u32_bytes_read(v: int)
    requires
        0 <= v < 0x1_0000_0000,
    ensures
        u32_bytes(v).len() == 4,
        be_u32(u32_bytes(v), 0) == v,
{
    let b = u32_bytes(v);
    assert(b[0] == u16_bytes(v / 65536)[0]);
    assert(b[1] == u16_bytes(v / 65536)[1]);
    assert(b[2] == u16_bytes(v % 65536)[0]);
    assert(b[3] == u16_bytes(v % 65536)[1]);
}

/// The bytes of a signed 32-bit value read back as that value.
pub proof fn lemma_i32_bytes_read(v: int)
    requires
        -0x8000_0000 <= v < 0x8000_0000,
    ensures
        i32_bytes(v).len() == 4,
        be_i32(i32_bytes(v), 0) == v,
{
    lemma_u32_bytes_read(if v < 0 { v + 0x1_0000_0000 } else { v });
}

/// Append the big-endian bytes of `v`.
pub fn write_u16(out: &mut Vec<u8>, v: u16)
    ensures
        final(out)@ == old(out)@ + u16_bytes(v as int),
{
    out.push((v / 256) as u8);
    out.push((v % 256) as u8);
    assert(final(out)@ =~= old(out)@ + u16_bytes(v as int));
}

/// Append the big-endian two's-complement bytes of `v`.
pub fn write_i16(out: &mut Vec<u8>, v: i16)
    ensures
        final(out)@ == old(out)@ + i16_bytes(v as int),
{
    let u: u16 = if v < 0 { (v as i32 + 65536) as u16 } else { v as u16 };
    write_u16(out, u);
}

/// Append the big-endian bytes of `v`.
pub fn write_u32(out: &mut Vec<u8>, v: u32)
    ensures
        final(out)@ == old(out)@ + u32_bytes(v as int),
{
    write_u16(out, (v / 65536) as u16);
    write_u16(out, (v % 65536) as u16);
    assert(final(out)@ =~= old(out)@ + u32_bytes(v as int));
}

/// Append the big-endian two's-complement bytes of `v`.
pub fn write_i32(out: &mut Vec<u8>, v: i32)
    ensures
        final(out)@ == old(out)@ + i32_bytes(v as int),
{
    let u: u32 = if v < 0 { (v as i64 + 0x1_0000_0000) as u32 } else { v as u32 };
    write_u32(out, u);
}

/// Append every byte of `src`.
pub fn write_bytes(out: &mut Vec<u8>, src: &[u8])
    ensures
        final(out)@ == old(out)@ + src@,
{
    let mut i: usize = 0;
    while i < src.len()
        invariant
            i <= src@.len(),
            out@ == old(out)@ + src@.subrange(0, i as int),
        decreases src@.len() - i,
    {
        out.push(src[i]);
        i += 1;
        assert(out@ =~= old(out)@ + src@.subrange(0, i as int));
    }
    assert(src@.subrange(0, src@.len() as int) =~= src@);
}

/// A fresh vector holding the bytes of `src`.
pub fn copy_bytes(src: &[u8]) -> (v: Vec<u8>)
    ensures
        v@ == src@,
{
    let mut v = Vec::new();
    write_bytes(&mut v, src);
    assert(v@ =~= src@);
    v
}

/// Big-endian unsigned 16-bit value of the two bytes `b0 b1`.
pub fn u16_from_be(b0: u8, b1: u8) -> (v: u16)
    ensures
        v == b0 as int * 256 + b1 as int,
{
    (b0 as u16) * 256 + (b1 as u16)
}

/// Big-endian signed 16-bit value of the two bytes `b0 b1`.
pub fn i16_from_be(b0: u8, b1: u8) -> (v: i16)
    ensures
        v == be_i16(seq![b0, b1], 0),
{
    let u = u16_from_be(b0, b1);
    if u >= 32768 {
        (u as i32 - 65536) as i16
    } else {
        u as i16
    }
}

} // verus!

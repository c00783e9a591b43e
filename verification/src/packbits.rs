//! PackBits run-length coding (the `PackBitsRect` row compression).
//!
//! Each packet starts with a flag byte `n`, read as `i8`:
//! * `0..=127`: copy the next `n + 1` bytes verbatim;
//! * `-127..=-1`: repeat the next byte `1 - n` times;
//! * `-128`: no operation.
use vstd::prelude::*;
use crate::error::{PictError, Result};
use crate::reader::Reader;

verus! {

/// Decode packets from the start of `s` until exactly `n` bytes are
/// produced. `Some((out, used))` gives the output and the number of
/// source bytes consumed; `None` when a packet would overrun `n` or
/// the source ends mid-packet.
pub open spec fn pb_decode(s: Seq<u8>, n: nat) -> Option<(Seq<u8>, nat)>
    decreases s.len(),
{
    if n == 0 {
        Some((Seq::empty(), 0))
    } else if s.len() == 0 {
        None
    } else {
        let flag = s[0];
        if flag < 128 {
            let k = flag as int + 1;
            if k > n || s.len() < 1 + k {
                None
            } else {
                match pb_decode(s.subrange(1 + k, s.len() as int), (n - k) as nat) {
                    Some((rest, used)) => Some(
                        (s.subrange(1, 1 + k) + rest, (1 + k + used) as nat),
                    ),
                    None => None,
                }
            }
        } else if flag == 128 {
            match pb_decode(s.subrange(1, s.len() as int), n) {
                Some((rest, used)) => Some((rest, (1 + used) as nat)),
                None => None,
            }
        } else {
            let k = 257 - flag as int;
            if k > n || s.len() < 2 {
                None
            } else {
                match pb_decode(s.subrange(2, s.len() as int), (n - k) as nat) {
                    Some((rest, used)) => Some(
                        (Seq::new(k as nat, |j: int| s[1]) + rest, (2 + used) as nat),
                    ),
                    None => None,
                }
            }
        }
    }
}

/// Length of the run of bytes equal to `s[0]` that starts at index `j`
/// and extends up to index 128 (exclusive) or the end of `s`.
pub open spec fn run_from(s: Seq<u8>, j: int) -> int
    decreases 128 - j,
{
    if 0 < j < 128 && j < s.len() && s[j] == s[0] {
        run_from(s, j + 1)
    } else {
        j
    }
}

/// Length of the run of equal bytes at the start of `s`, capped at 128.
pub open spec fn run_len(s: Seq<u8>) -> int {
    run_from(s, 1)
}

/// Whether three equal bytes start at index `j`.
pub open spec fn triple_at(s: Seq<u8>, j: int) -> bool {
    j + 2 < s.len() && s[j] == s[j + 1] && s[j + 1] == s[j + 2]
}

/// Extent of a literal packet: grows from index `j` until 128 bytes,
/// the end of `s`, or the start of a run of three.
pub open spec fn raw_from(s: Seq<u8>, j: int) -> int
    decreases 128 - j,
{
    if 0 < j < 128 && j < s.len() && !triple_at(s, j) {
        raw_from(s, j + 1)
    } else {
        j
    }
}

/// Length of the literal packet that starts `s`.
pub open spec fn raw_len(s: Seq<u8>) -> int {
    raw_from(s, 1)
}

/// The greedy packetisation `encode` produces: a run packet for every
/// run of three or more equal bytes (at most 128), otherwise a literal
/// packet that stops before the next such run (at most 128 bytes).
pub open spec fn pb_encode(s: Seq<u8>) -> Seq<u8>
    decreases s.len(),
{
    if s.len() == 0 {
        Seq::empty()
    } else {
        let r = run_len(s);
        if r >= 3 {
            proof {
                lemma_run_from_bounds(s, 1);
            }
            seq![(257 - r) as u8, s[0]] + pb_encode(s.subrange(r, s.len() as int))
        } else {
            let k = raw_len(s);
            proof {
                lemma_raw_from_bounds(s, 1);
            }
            seq![(k - 1) as u8] + s.subrange(0, k) + pb_encode(s.subrange(k, s.len() as int))
        }
    }
}

pub proof fn lemma_run_from_bounds(s: Seq<u8>, j: int)
    requires
        1 <= j <= s.len(),
        j <= 128,
        forall|t: int| 0 <= t < j ==> #[trigger] s[t] == s[0],
    ensures
        j <= run_from(s, j) <= s.len(),
        run_from(s, j) <= 128,
        forall|t: int| 0 <= t < run_from(s, j) ==> #[trigger] s[t] == s[0],
    decreases 128 - j,
{
    if j < 128 && j < s.len() && s[j] == s[0] {
        lemma_run_from_bounds(s, j + 1);
    }
}

pub proof fn lemma_raw_from_bounds(s: Seq<u8>, j: int)
    requires
        1 <= j <= s.len(),
        j <= 128,
    ensures
        j <= raw_from(s, j) <= s.len(),
        raw_from(s, j) <= 128,
    decreases 128 - j,
{
    if j < 128 && j < s.len() && !triple_at(s, j) {
        lemma_raw_from_bounds(s, j + 1);
    }
}

/// A literal packet stops at 128 bytes, at the end of the input, or
/// where a run of three begins.
proof fn lemma_raw_from_stop(s: Seq<u8>, j: int)
    requires
        1 <= j <= s.len(),
        j <= 128,
    ensures
        raw_from(s, j) == 128 || raw_from(s, j) == s.len() || triple_at(s, raw_from(s, j)),
    decreases 128 - j,
{
    if j < 128 && j < s.len() && !triple_at(s, j) {
        lemma_raw_from_stop(s, j + 1);
    }
}

/// The packed form is at most one byte longer than the input, plus
/// one byte per 128 input bytes.
pub proof fn lemma_pb_encode_len(s: Seq<u8>)
    ensures
        pb_encode(s).len() <= s.len() + 1 + s.len() / 128,
    decreases s.len(),
{
    if s.len() > 0 {
        let r = run_len(s);
        lemma_run_from_bounds(s, 1);
        if r >= 3 {
            lemma_pb_encode_len(s.subrange(r, s.len() as int));
        } else {
            let k = raw_len(s);
            lemma_raw_from_bounds(s, 1);
            lemma_raw_from_stop(s, 1);
            let rest = s.subrange(k, s.len() as int);
            lemma_pb_encode_len(rest);
            if k < 128 && k < s.len() {
                assert(rest[1] == rest[0] && rest[2] == rest[0]);
                lemma_run_from_bounds(rest, 1);
                lemma_run_from_bounds(rest, 3);
                assert(run_from(rest, 1) == run_from(rest, 2));
                assert(run_from(rest, 2) == run_from(rest, 3));
                let r2 = run_len(rest);
                assert(r2 >= 3);
                lemma_pb_encode_len(rest.subrange(r2, rest.len() as int));
            }
        }
    }
}

/// `s` is a sequence of whole PackBits packets of the shapes the
/// encoder emits: literal packets (flag `0..=127`) carrying 1 to 128
/// bytes, and run packets (flag `129..=254`) of 3 to 128 copies of one
/// byte; no `0x80` no-op and no two-copy run.
pub open spec fn pb_packets_ok(s: Seq<u8>) -> bool
    decreases s.len(),
{
    if s.len() == 0 {
        true
    } else if s[0] < 128 {
        let k = s[0] as int + 1;
        s.len() >= 1 + k && pb_packets_ok(s.subrange(1 + k, s.len() as int))
    } else if 129 <= s[0] <= 254 {
        s.len() >= 2 && pb_packets_ok(s.subrange(2, s.len() as int))
    } else {
        false
    }
}

/// The encoder emits only literal packets of 1 to 128 bytes and run
/// packets of 3 to 128 copies.
pub proof fn lemma_pb_encode_packets(s: Seq<u8>)
    ensures
        pb_packets_ok(pb_encode(s)),
    decreases s.len(),
{
    if s.len() > 0 {
        let r = run_len(s);
        lemma_run_from_bounds(s, 1);
        let e = pb_encode(s);
        if r >= 3 {
            let rest = s.subrange(r, s.len() as int);
            lemma_pb_encode_packets(rest);
            assert(e.subrange(2, e.len() as int) =~= pb_encode(rest));
        } else {
            let k = raw_len(s);
            lemma_raw_from_bounds(s, 1);
            let rest = s.subrange(k, s.len() as int);
            lemma_pb_encode_packets(rest);
            assert(e[0] == (k - 1) as u8);
            assert(e.subrange(1 + k, e.len() as int) =~= pb_encode(rest));
        }
    }
}

/// Decoding does not look past what it consumes: appending bytes to
/// the source changes nothing.
pub proof fn lemma_decode_extend(s: Seq<u8>, t: Seq<u8>, n: nat)
    requires
        pb_decode(s, n) is Some,
    ensures
        pb_decode(s + t, n) == pb_decode(s, n),
    decreases s.len(),
{
    let st = s + t;
    if n == 0 {
    } else {
        let flag = s[0];
        assert(st[0] == flag);
        if flag < 128 {
            let k = flag as int + 1;
            assert(st.subrange(1 + k, st.len() as int) =~= s.subrange(1 + k, s.len() as int) + t);
            assert(st.subrange(1, 1 + k) =~= s.subrange(1, 1 + k));
            lemma_decode_extend(s.subrange(1 + k, s.len() as int), t, (n - k) as nat);
        } else if flag == 128 {
            assert(st.subrange(1, st.len() as int) =~= s.subrange(1, s.len() as int) + t);
            lemma_decode_extend(s.subrange(1, s.len() as int), t, n);
        } else {
            let k = 257 - flag as int;
            assert(st.subrange(2, st.len() as int) =~= s.subrange(2, s.len() as int) + t);
            assert(st[1] == s[1]);
            lemma_decode_extend(s.subrange(2, s.len() as int), t, (n - k) as nat);
        }
    }
}

/// PackBits round trip: decoding what `encode` produces gives back the
/// input, consuming exactly the encoded bytes.
pub proof fn lemma_packbits_roundtrip(s: Seq<u8>)
    ensures
        pb_decode(pb_encode(s), s.len()) == Some((s, pb_encode(s).len())),
    decreases s.len(),
{
    let e = pb_encode(s);
    if s.len() == 0 {
    } else {
        let r = run_len(s);
        lemma_run_from_bounds(s, 1);
        lemma_raw_from_bounds(s, 1);
        if r >= 3 {
            let tail = s.subrange(r, s.len() as int);
            lemma_packbits_roundtrip(tail);
            let et = pb_encode(tail);
            assert(e =~= seq![(257 - r) as u8, s[0]] + et);
            assert(e[0] == (257 - r) as u8);
            assert(e.subrange(2, e.len() as int) =~= et);
            let k = 257 - e[0] as int;
            assert(k == r);
            assert(Seq::new(k as nat, |j: int| e[1]) + tail =~= s);
        } else {
            let k = raw_len(s);
            let tail = s.subrange(k, s.len() as int);
            lemma_packbits_roundtrip(tail);
            let et = pb_encode(tail);
            assert(e =~= seq![(k - 1) as u8] + s.subrange(0, k) + et);
            assert(e[0] == (k - 1) as u8);
            assert(e.subrange(1 + k, e.len() as int) =~= et);
            assert(e.subrange(1, 1 + k) =~= s.subrange(0, k));
            assert(s.subrange(0, k) + tail =~= s);
        }
    }
}

/// Decode one PackBits-compressed run into `out`, filling all of it.
/// The reader advances past the packets consumed. A packet that would
/// write past the end of `out`, or a source that ends mid-packet, is
/// `InvalidData`.
pub fn decode_into(src: &mut Reader<'_>, out: &mut [u8]) -> (res: Result<()>)
    ensures
        final(src).bytes@ == old(src).bytes@,
        final(out)@.len() == old(out)@.len(),
        match pb_decode(old(src).rest(), old(out)@.len()) {
            Some((data, used)) => res is Ok && final(out)@ == data && final(src).pos == old(
                src,
            ).pos + used,
            None => res is Err && res->Err_0 is InvalidData,
        },
{
    let expected_len = out.len();
    if expected_len == 0 {
        return Ok(());
    }
    if src.remaining() == 0 {
        assert(old(src).rest().len() == 0);
        return Err(PictError::invalid("PackBits data truncated"));
    }
    let ghost s0 = src.bytes@;
    let ghost p0: int = src.pos as int;
    let mut written: usize = 0;
    while written < expected_len
        invariant
            src.bytes@ == s0,
            s0 == old(src).bytes@,
            p0 == old(src).pos,
            expected_len == old(out)@.len(),
            out@.len() == expected_len,
            written <= expected_len,
            p0 <= src.pos <= s0.len(),
            pb_decode(s0.subrange(p0, s0.len() as int), expected_len as nat) == match pb_decode(
                s0.subrange(src.pos as int, s0.len() as int),
                (expected_len - written) as nat,
            ) {
                Some((rest, used)) => Some(
                    (out@.subrange(0, written as int) + rest, (used + src.pos - p0) as nat),
                ),
                None => None,
            },
        decreases s0.len() - src.pos,
    {
        let ghost pos = src.pos as int;
        let ghost cur = s0.subrange(pos, s0.len() as int);
        let ghost out_before = out@;
        let flag = match src.read_u8() {
            Ok(f) => f,
            Err(e) => {
                assert(cur.len() == 0);
                return Err(e);
            },
        };
        assert(cur[0] == flag);
        assert(s0.subrange(pos + 1, s0.len() as int) =~= cur.subrange(1, cur.len() as int));
        if flag < 128 {
            let n = flag as usize + 1;
            if n > expected_len - written {
                return Err(PictError::invalid("PackBits literal packet overruns the row"));
            }
            let bytes = match src.read_bytes(n) {
                Ok(b) => b,
                Err(e) => {
                    assert(cur.len() < 1 + n);
                    return Err(e);
                },
            };
            let mut j: usize = 0;
            while j < n
                invariant
                    j <= n,
                    written + n <= expected_len,
                    out@.len() == expected_len,
                    bytes@.len() == n,
                    forall|t: int| 0 <= t < written ==> out@[t] == out_before[t],
                    forall|t: int| written <= t < written + j ==> out@[t] == bytes@[t - written],
                decreases n - j,
            {
                out[written + j] = bytes[j];
                j += 1;
            }
            proof {
                assert(bytes@ =~= cur.subrange(1, 1 + n as int));
                assert(s0.subrange(pos + 1 + n, s0.len() as int) =~= cur.subrange(
                    1 + n as int,
                    cur.len() as int,
                ));
                assert(out@.subrange(0, written + n) =~= out_before.subrange(0, written as int)
                    + cur.subrange(1, 1 + n as int));
            }
            written = written + n;
        } else if flag == 128 {
        } else {
            let n: usize = (257 - flag as u32) as usize;
            if n > expected_len - written {
                return Err(PictError::invalid("PackBits run packet overruns the row"));
            }
            let v = match src.read_u8() {
                Ok(v) => v,
                Err(e) => {
                    assert(cur.len() < 2);
                    return Err(e);
                },
            };
            assert(cur[1] == v);
            let mut j: usize = 0;
            while j < n
                invariant
                    j <= n,
                    written + n <= expected_len,
                    out@.len() == expected_len,
                    forall|t: int| 0 <= t < written ==> out@[t] == out_before[t],
                    forall|t: int| written <= t < written + j ==> out@[t] == v,
                decreases n - j,
            {
                out[written + j] = v;
                j += 1;
            }
            proof {
                assert(s0.subrange(pos + 2, s0.len() as int) =~= cur.subrange(
                    2,
                    cur.len() as int,
                ));
                assert(out@.subrange(0, written + n) =~= out_before.subrange(0, written as int)
                    + Seq::new(n as nat, |t: int| cur[1]));
            }
            written = written + n;
        }
    }
    proof {
        assert(out@.subrange(0, written as int) =~= out@);
    }
    Ok(())
}

/// Encode `src` with the greedy PackBits packetisation (see
/// [`pb_encode`]); one row at a time.
pub fn encode(src: &[u8]) -> (out: Vec<u8>)
    ensures
        out@ == pb_encode(src@),
{
    let mut out: Vec<u8> = Vec::new();
    let mut i: usize = 0;
    let len = src.len();
    assert(src@.subrange(0, len as int) =~= src@);
    assert(out@ + src@ =~= src@);
    while i < len
        invariant
            len == src@.len(),
            i <= len,
            out@ + pb_encode(src@.subrange(i as int, len as int)) == pb_encode(src@),
        decreases len - i,
    {
        let ghost s = src@.subrange(i as int, len as int);
        let mut run: usize = 1;
        while run < 128 && i + run < len && src[i + run] == src[i]
            invariant
                len == src@.len(),
                i < len,
                1 <= run <= 128,
                i + run <= len,
                s == src@.subrange(i as int, len as int),
                run_from(s, run as int) == run_len(s),
            decreases 128 - run,
        {
            run += 1;
        }
        assert(run_from(s, run as int) == run as int);
        if run >= 3 {
            out.push((257 - run) as u8);
            out.push(src[i]);
            proof {
                lemma_run_from_bounds(s, 1);
                assert(pb_encode(s) == seq![(257 - run) as u8, s[0]] + pb_encode(
                    s.subrange(run as int, s.len() as int),
                ));
                assert(s.subrange(run as int, s.len() as int) =~= src@.subrange(
                    i + run,
                    len as int,
                ));
                assert(out@ + pb_encode(src@.subrange(i + run, len as int)) =~= out@.subrange(
                    0,
                    out@.len() - 2,
                ) + pb_encode(s));
            }
            i += run;
        } else {
            let mut raw: usize = 1;
            while raw < 128 && i + raw < len && !(raw + 2 < len - i && src[i + raw] == src[i + raw
                + 1] && src[i + raw + 1] == src[i + raw + 2])
                invariant
                    len == src@.len(),
                    i < len,
                    1 <= raw <= 128,
                    i + raw <= len,
                    s == src@.subrange(i as int, len as int),
                    raw_from(s, raw as int) == raw_len(s),
                decreases 128 - raw,
            {
                proof {
                    assert(!triple_at(s, raw as int));
                }
                raw += 1;
            }
            proof {
                if raw < 128 && i + raw < len {
                    assert(triple_at(s, raw as int));
                }
            }
            assert(raw_from(s, raw as int) == raw as int);
            let ghost before = out@;
            out.push((raw - 1) as u8);
            let mut j: usize = 0;
            while j < raw
                invariant
                    len == src@.len(),
                    i + raw <= len,
                    j <= raw,
                    out@ == before.push((raw - 1) as u8) + src@.subrange(i as int, i + j),
                decreases raw - j,
            {
                out.push(src[i + j]);
                j += 1;
                assert(out@ =~= before.push((raw - 1) as u8) + src@.subrange(i as int, i + j));
            }
            proof {
                lemma_raw_from_bounds(s, 1);
                assert(s.subrange(0, raw as int) =~= src@.subrange(i as int, i + raw));
                assert(s.subrange(raw as int, s.len() as int) =~= src@.subrange(
                    i + raw,
                    len as int,
                ));
                assert(pb_encode(s) == seq![(raw - 1) as u8] + s.subrange(0, raw as int)
                    + pb_encode(s.subrange(raw as int, s.len() as int)));
                assert(out@ + pb_encode(src@.subrange(i + raw, len as int)) =~= before
                    + pb_encode(s));
            }
            i += raw;
        }
    }
    proof {
        assert(src@.subrange(len as int, len as int) =~= Seq::<u8>::empty());
        assert(out@ + Seq::<u8>::empty() =~= out@);
    }
    out
}

/// The big-endian bytes of a sequence of 16-bit units.
pub open spec fn units_bytes(u: Seq<u16>) -> Seq<u8>
    decreases u.len(),
{
    if u.len() == 0 {
        Seq::empty()
    } else {
        units_bytes(u.drop_last()) + crate::wire::u16_bytes(u.last() as int)
    }
}

/// [`run_from`] over 16-bit units.
pub open spec fn run_from16(s: Seq<u16>, j: int) -> int
    decreases 128 - j,
{
    if 0 < j < 128 && j < s.len() && s[j] == s[0] {
        run_from16(s, j + 1)
    } else {
        j
    }
}

/// [`triple_at`] over 16-bit units.
pub open spec fn triple16_at(s: Seq<u16>, j: int) -> bool {
    j + 2 < s.len() && s[j] == s[j + 1] && s[j + 1] == s[j + 2]
}

/// [`raw_from`] over 16-bit units.
pub open spec fn raw_from16(s: Seq<u16>, j: int) -> int
    decreases 128 - j,
{
    if 0 < j < 128 && j < s.len() && !triple16_at(s, j) {
        raw_from16(s, j + 1)
    } else {
        j
    }
}

pub proof fn lemma_run_from16_bounds(s: Seq<u16>, j: int)
    requires
        1 <= j <= s.len(),
        j <= 128,
    ensures
        j <= run_from16(s, j) <= s.len(),
        run_from16(s, j) <= 128,
    decreases 128 - j,
{
    if j < 128 && j < s.len() && s[j] == s[0] {
        lemma_run_from16_bounds(s, j + 1);
    }
}

pub proof fn lemma_raw_from16_bounds(s: Seq<u16>, j: int)
    requires
        1 <= j <= s.len(),
        j <= 128,
    ensures
        j <= raw_from16(s, j) <= s.len(),
        raw_from16(s, j) <= 128,
    decreases 128 - j,
{
    if j < 128 && j < s.len() && !triple16_at(s, j) {
        lemma_raw_from16_bounds(s, j + 1);
    }
}

/// The greedy PackBits packetisation over 16-bit units: a run packet
/// carries one unit (two bytes), a literal packet carries its units.
pub open spec fn pb_encode16(s: Seq<u16>) -> Seq<u8>
    decreases s.len(),
{
    if s.len() == 0 {
        Seq::empty()
    } else {
        let r = run_from16(s, 1);
        if r >= 3 {
            proof {
                lemma_run_from16_bounds(s, 1);
            }
            seq![(257 - r) as u8] + crate::wire::u16_bytes(s[0] as int) + pb_encode16(
                s.subrange(r, s.len() as int),
            )
        } else {
            let k = raw_from16(s, 1);
            proof {
                lemma_raw_from16_bounds(s, 1);
            }
            seq![(k - 1) as u8] + units_bytes(s.subrange(0, k)) + pb_encode16(
                s.subrange(k, s.len() as int),
            )
        }
    }
}

/// Encode a row of 16-bit pixels with PackBits in 16-bit units (see
/// [`pb_encode16`]); each unit is written big-endian.
pub fn encode_u16(src: &[u16]) -> (out: Vec<u8>)
    ensures
        out@ == pb_encode16(src@),
{
    let mut out: Vec<u8> = Vec::new();
    let mut i: usize = 0;
    let len = src.len();
    assert(src@.subrange(0, len as int) =~= src@);
    assert(out@ + pb_encode16(src@) =~= pb_encode16(src@));
    while i < len
        invariant
            len == src@.len(),
            i <= len,
            out@ + pb_encode16(src@.subrange(i as int, len as int)) == pb_encode16(src@),
        decreases len - i,
    {
        let ghost s = src@.subrange(i as int, len as int);
        let mut run: usize = 1;
        while run < 128 && run < len - i && src[i + run] == src[i]
            invariant
                len == src@.len(),
                i < len,
                1 <= run <= 128,
                i + run <= len,
                s == src@.subrange(i as int, len as int),
                run_from16(s, run as int) == run_from16(s, 1),
            decreases 128 - run,
        {
            run += 1;
        }
        assert(run_from16(s, run as int) == run as int);
        let ghost before = out@;
        if run >= 3 {
            out.push((257 - run) as u8);
            crate::wire::write_u16(&mut out, src[i]);
            proof {
                lemma_run_from16_bounds(s, 1);
                assert(s.subrange(run as int, s.len() as int) =~= src@.subrange(
                    i + run,
                    len as int,
                ));
                assert(out@ + pb_encode16(src@.subrange(i + run, len as int)) =~= before
                    + pb_encode16(s));
            }
            i += run;
        } else {
            let mut raw: usize = 1;
            while raw < 128 && raw < len - i && !(raw + 2 < len - i && src[i + raw] == src[i + raw
                + 1] && src[i + raw + 1] == src[i + raw + 2])
                invariant
                    len == src@.len(),
                    i < len,
                    1 <= raw <= 128,
                    i + raw <= len,
                    s == src@.subrange(i as int, len as int),
                    raw_from16(s, raw as int) == raw_from16(s, 1),
                decreases 128 - raw,
            {
                proof {
                    assert(!triple16_at(s, raw as int));
                }
                raw += 1;
            }
            proof {
                if raw < 128 && i + raw < len {
                    assert(triple16_at(s, raw as int));
                }
            }
            assert(raw_from16(s, raw as int) == raw as int);
            out.push((raw - 1) as u8);
            let mut j: usize = 0;
            while j < raw
                invariant
                    len == src@.len(),
                    i + raw <= len,
                    j <= raw,
                    out@ == before.push((raw - 1) as u8) + units_bytes(src@.subrange(i as int, i + j)),
                decreases raw - j,
            {
                crate::wire::write_u16(&mut out, src[i + j]);
                proof {
                    let p = src@.subrange(i as int, i + j + 1);
                    assert(p.drop_last() =~= src@.subrange(i as int, i + j));
                }
                j += 1;
                assert(out@ =~= before.push((raw - 1) as u8) + units_bytes(
                    src@.subrange(i as int, i + j),
                ));
            }
            proof {
                lemma_raw_from16_bounds(s, 1);
                assert(s.subrange(0, raw as int) =~= src@.subrange(i as int, i + raw));
                assert(s.subrange(raw as int, s.len() as int) =~= src@.subrange(
                    i + raw,
                    len as int,
                ));
                assert(out@ + pb_encode16(src@.subrange(i + raw, len as int)) =~= before
                    + pb_encode16(s));
            }
            i += raw;
        }
    }
    proof {
        assert(src@.subrange(len as int, len as int) =~= Seq::<u16>::empty());
        assert(out@ + Seq::<u8>::empty() =~= out@);
    }
    out
}


/// The big-endian bytes of units appended one after another are the
/// bytes of each part, in order.
proof fn lemma_units_bytes_concat(a: Seq<u16>, b: Seq<u16>)
    ensures
        units_bytes(a + b) == units_bytes(a) + units_bytes(b),
    decreases b.len(),
{
    if b.len() == 0 {
        assert(a + b =~= a);
        assert(units_bytes(a) + units_bytes(b) =~= units_bytes(a));
    } else {
        assert((a + b).drop_last() =~= a + b.drop_last());
        assert((a + b).last() == b.last());
        lemma_units_bytes_concat(a, b.drop_last());
        assert(units_bytes(a) + units_bytes(b.drop_last()) + crate::wire::u16_bytes(b.last() as int) =~= units_bytes(a)
            + units_bytes(b));
    }
}

/// Unit `i` of `u` stands big-endian at bytes `2i` and `2i + 1`.
pub proof fn lemma_units_bytes_index(u: Seq<u16>)
    ensures
        units_bytes(u).len() == 2 * u.len(),
        forall|i: int|
            0 <= i < u.len() ==> units_bytes(u)[2 * i] == (u[i] as int / 256) as u8 && units_bytes(u)[2 * i + 1] == (
            u[i] as int % 256) as u8,
    decreases u.len(),
{
    if u.len() > 0 {
        let p = u.drop_last();
        lemma_units_bytes_index(p);
        assert forall|i: int| 0 <= i < u.len() implies units_bytes(u)[2 * i] == (u[i] as int / 256) as u8
            && units_bytes(u)[2 * i + 1] == (u[i] as int % 256) as u8 by {
            if i < p.len() {
                assert(p[i] == u[i]);
            }
        }
    }
}

/// The units of a run all equal the first one.
proof fn lemma_run_from16_same(s: Seq<u16>, j: int)
    requires
        1 <= j <= s.len(),
        j <= 128,
    ensures
        forall|m: int| j <= m < run_from16(s, j) ==> #[trigger] s[m] == s[0],
    decreases 128 - j,
{
    if j < 128 && j < s.len() && s[j] == s[0] {
        lemma_run_from16_same(s, j + 1);
    }
}

/// `k` copies of one unit, as big-endian bytes, are the two bytes of
/// that unit repeated `k` times.
proof fn lemma_units_repeat(x: u16, k: int)
    requires
        k >= 0,
    ensures
        units_bytes(Seq::new(k as nat, |j: int| x)) == crate::rows::unit_repeat(
            (x as int / 256) as u8,
            (x as int % 256) as u8,
            k,
        ),
    decreases k,
{
    let hi = (x as int / 256) as u8;
    let lo = (x as int % 256) as u8;
    if k > 0 {
        lemma_units_repeat(x, k - 1);
        assert(Seq::new(k as nat, |j: int| x).drop_last() =~= Seq::new((k - 1) as nat, |j: int| x));
        assert(crate::rows::unit_repeat(hi, lo, k - 1) + crate::wire::u16_bytes(x as int) =~= crate::rows::unit_repeat(
            hi,
            lo,
            k,
        ));
    } else {
        assert(crate::rows::unit_repeat(hi, lo, 0) =~= Seq::<u8>::empty());
    }
}

/// Decoding the 16-bit PackBits of `s` gives back its units as
/// big-endian bytes, consuming exactly the encoded bytes.
pub proof fn lemma_packbits16_bytes(s: Seq<u16>)
    ensures
        crate::rows::pb_decode16(pb_encode16(s), s.len()) == Some((units_bytes(s), pb_encode16(s).len())),
    decreases s.len(),
{
    let e = pb_encode16(s);
    if s.len() == 0 {
        assert(units_bytes(s) =~= Seq::<u8>::empty());
    } else {
        let r = run_from16(s, 1);
        lemma_run_from16_bounds(s, 1);
        lemma_raw_from16_bounds(s, 1);
        if r >= 3 {
            let tail = s.subrange(r, s.len() as int);
            lemma_packbits16_bytes(tail);
            let et = pb_encode16(tail);
            let x = s[0];
            assert(e =~= seq![(257 - r) as u8] + crate::wire::u16_bytes(x as int) + et);
            assert(e[0] == (257 - r) as u8);
            assert(e[1] == (x as int / 256) as u8 && e[2] == (x as int % 256) as u8);
            assert(e.subrange(3, e.len() as int) =~= et);
            lemma_run_from16_same(s, 1);
            assert(s.subrange(0, r) =~= Seq::new(r as nat, |j: int| x));
            lemma_units_repeat(x, r);
            assert(s =~= s.subrange(0, r) + tail);
            lemma_units_bytes_concat(s.subrange(0, r), tail);
        } else {
            let k = raw_from16(s, 1);
            let tail = s.subrange(k, s.len() as int);
            lemma_packbits16_bytes(tail);
            let et = pb_encode16(tail);
            let head = units_bytes(s.subrange(0, k));
            lemma_units_bytes_index(s.subrange(0, k));
            assert(e =~= seq![(k - 1) as u8] + head + et);
            assert(e[0] == (k - 1) as u8);
            assert(e.subrange(1, 1 + 2 * k) =~= head);
            assert(e.subrange(1 + 2 * k, e.len() as int) =~= et);
            assert(s =~= s.subrange(0, k) + tail);
            lemma_units_bytes_concat(s.subrange(0, k), tail);
        }
    }
}

/// 16-bit PackBits round trip: a reader that decodes flag bytes
/// followed by big-endian 16-bit units gets back, from what
/// [`encode_u16`] writes for a row `s`, exactly `s.len()` units, unit
/// `i` being `s[i]`, and stops at the end of the encoded bytes.
pub proof fn lemma_packbits16_roundtrip(s: Seq<u16>)
    ensures
        crate::rows::pb_decode16(pb_encode16(s), s.len()) matches Some((d, used)) && used == pb_encode16(s).len()
            && d.len() == 2 * s.len() && forall|i: int|
            0 <= i < s.len() ==> #[trigger] crate::wire::be_u16(d, 2 * i) == s[i] as int,
{
    lemma_packbits16_bytes(s);
    lemma_units_bytes_index(s);
    let d = units_bytes(s);
    assert forall|i: int| 0 <= i < s.len() implies #[trigger] crate::wire::be_u16(d, 2 * i) == s[i] as int by {
        assert(d[2 * i] == (s[i] as int / 256) as u8 && d[2 * i + 1] == (s[i] as int % 256) as u8);
    }
}

/// 16-bit PackBits decoding does not look past what it consumes:
/// appending bytes to the source changes nothing.
pub proof fn lemma_decode16_extend(s: Seq<u8>, t: Seq<u8>, n: nat)
    requires
        crate::rows::pb_decode16(s, n) is Some,
    ensures
        crate::rows::pb_decode16(s + t, n) == crate::rows::pb_decode16(s, n),
    decreases s.len(),
{
    let st = s + t;
    if n > 0 {
        let flag = s[0];
        assert(st[0] == flag);
        if flag < 128 {
            let k = flag as int + 1;
            assert(st.subrange(1 + 2 * k, st.len() as int) =~= s.subrange(1 + 2 * k, s.len() as int) + t);
            assert(st.subrange(1, 1 + 2 * k) =~= s.subrange(1, 1 + 2 * k));
            lemma_decode16_extend(s.subrange(1 + 2 * k, s.len() as int), t, (n - k) as nat);
        } else if flag == 128 {
            assert(st.subrange(1, st.len() as int) =~= s.subrange(1, s.len() as int) + t);
            lemma_decode16_extend(s.subrange(1, s.len() as int), t, n);
        } else {
            let k = 257 - flag as int;
            assert(st.subrange(3, st.len() as int) =~= s.subrange(3, s.len() as int) + t);
            assert(st[1] == s[1] && st[2] == s[2]);
            lemma_decode16_extend(s.subrange(3, s.len() as int), t, (n - k) as nat);
        }
    }
}

} // verus!

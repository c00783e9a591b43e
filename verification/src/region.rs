//! QuickDraw regions: the `rgnSize` + bounding box header and the
//! scan-line inversion encoding of a non-rectangular region.
//!
//! A region of `rgnSize == 10` is exactly its bounding box. Otherwise
//! the tail holds records `y x0 x1 ... 0x7FFF`, ended by a final
//! `0x7FFF`: each `x` toggles a vertical edge at column `x` from row
//! `y` down; a row's membership at column `c` is the parity of the
//! edges at columns `0..=c`. Coordinates outside the box are clamped,
//! rows below the last record keep the running parity, and a missing
//! final terminator is tolerated; an x-list cut off by the end of the
//! data is `InvalidData`.
use vstd::prelude::*;
use crate::error::{PictError, Result};
use crate::reader::Reader;
use crate::state::RectI32;
use crate::wire::{be_i16, be_u16, i16_from_be};

verus! {

/// A QuickDraw region: its bounding box and, for a non-rectangular
/// region, a row-major coverage mask of the box.
#[derive(Debug, Clone)]
pub struct Region {
    pub bbox: RectI32,
    pub mask: Option<Vec<bool>>,
}

/// `max(v, 0)`.
pub open spec fn nonneg(v: int) -> int {
    if v < 0 { 0 } else { v }
}

/// Whether every edge of `b` fits 16 bits (as parsed boxes do).
pub open spec fn box16(b: RectI32) -> bool {
    &&& -32768 <= b.top < 32768
    &&& -32768 <= b.left < 32768
    &&& -32768 <= b.bottom < 32768
    &&& -32768 <= b.right < 32768
}

impl Region {
    /// The box fits 16 bits and the mask, when present, covers it.
    pub open spec fn wf(&self) -> bool {
        &&& box16(self.bbox)
        &&& (self.mask matches Some(m) ==> m@.len() == nonneg(self.bbox.right - self.bbox.left)
            * nonneg(self.bbox.bottom - self.bbox.top))
    }

    /// Whether picture-frame pixel `(x, y)` is inside the region.
    pub open spec fn contains_spec(&self, x: int, y: int) -> bool {
        &&& self.bbox.left <= x < self.bbox.right
        &&& self.bbox.top <= y < self.bbox.bottom
        &&& match self.mask {
            None => true,
            Some(m) => m@[(y - self.bbox.top) * (self.bbox.right - self.bbox.left) + (x
                - self.bbox.left)],
        }
    }

    /// Width of the bounding box.
    pub fn width(&self) -> (w: i32)
        requires
            box16(self.bbox),
        ensures
            w == self.bbox.right - self.bbox.left,
    {
        self.bbox.right - self.bbox.left
    }

    /// Height of the bounding box.
    pub fn height(&self) -> (h: i32)
        requires
            box16(self.bbox),
        ensures
            h == self.bbox.bottom - self.bbox.top,
    {
        self.bbox.bottom - self.bbox.top
    }

    /// True if picture-frame pixel `(x, y)` is inside the region.
    pub fn contains(&self, x: i32, y: i32) -> (b: bool)
        requires
            self.wf(),
        ensures
            b == self.contains_spec(x as int, y as int),
    {
        if x < self.bbox.left || x >= self.bbox.right || y < self.bbox.top || y
            >= self.bbox.bottom {
            return false;
        }
        match &self.mask {
            None => true,
            Some(mask) => {
                let n = mask.len();
                let lx = (x - self.bbox.left) as usize;
                let ly = (y - self.bbox.top) as usize;
                let w = (self.bbox.right - self.bbox.left) as usize;
                let h = (self.bbox.bottom - self.bbox.top) as usize;
                proof {
                    assert(ly * w + lx < h * w) by (nonlinear_arith)
                        requires ly < h, lx < w;
                    assert(h * w == w * h) by (nonlinear_arith);
                }
                mask[ly * w + lx]
            },
        }
    }
}

/// Parity of the edges at columns `0..=x`.
pub open spec fn parity(edge: Seq<bool>, x: int) -> bool
    decreases x + 1,
{
    if x < 0 {
        false
    } else {
        parity(edge, x - 1) != edge[x]
    }
}

/// `mask` with the rows `from..to` (clamped to the box) set to the
/// running edge parity.
pub open spec fn emit(mask: Seq<bool>, edge: Seq<bool>, w: int, top: int, bottom: int, from: int, to: int) -> Seq<bool> {
    Seq::new(
        mask.len(),
        |k: int|
            {
                let y = top + k / w;
                if (if from < top { top } else { from }) <= y < (if to > bottom { bottom } else { to }) {
                    parity(edge, k % w)
                } else {
                    mask[k]
                }
            },
    )
}

/// Apply the x-list that starts at `p[i]`: toggles of the clamped
/// columns until a `0x7FFF`. `Some((edge, next))` with the position
/// after the terminator; `None` when the data ends first.
pub open spec fn x_walk(p: Seq<u8>, i: int, left: int, w: int, edge: Seq<bool>) -> Option<(Seq<bool>, int)>
    decreases p.len() - i,
{
    if i < 0 || i + 2 > p.len() {
        None
    } else {
        let x = be_i16(p, i);
        if x == 0x7FFF {
            Some((edge, i + 2))
        } else {
            let c = if x - left < 0 { 0 } else if x - left > w { w } else { x - left };
            x_walk(p, i + 2, left, w, edge.update(c, !edge[c]))
        }
    }
}

/// Decode the records from `p[i]` on, given the running edges, the
/// mask so far and the previous record's row.
pub open spec fn inv_walk(
    p: Seq<u8>,
    i: int,
    b: RectI32,
    w: int,
    edge: Seq<bool>,
    mask: Seq<bool>,
    prev_y: int,
) -> Option<Seq<bool>>
    decreases p.len() - i,
{
    if i < 0 || i + 2 > p.len() {
        Some(emit(mask, edge, w, b.top as int, b.bottom as int, prev_y, b.bottom as int))
    } else {
        let y = be_i16(p, i);
        if y == 0x7FFF {
            Some(emit(mask, edge, w, b.top as int, b.bottom as int, prev_y, b.bottom as int))
        } else {
            let m2 = emit(mask, edge, w, b.top as int, b.bottom as int, prev_y, y);
            match x_walk(p, i + 2, b.left as int, w, edge) {
                None => None,
                Some((e2, j)) => if i < j <= p.len() {
                    inv_walk(p, j, b, w, e2, m2, y)
                } else {
                    None
                },
            }
        }
    }
}

/// The coverage mask the inversion data `p` describes for box `b`
/// (empty for an empty box); `None` for a truncated x-list.
pub open spec fn inversion_mask(p: Seq<u8>, b: RectI32) -> Option<Seq<bool>> {
    let w = nonneg(b.right - b.left);
    let h = nonneg(b.bottom - b.top);
    if w == 0 || h == 0 {
        Some(Seq::empty())
    } else {
        inv_walk(p, 0, b, w, Seq::new((w + 1) as nat, |c: int| false), Seq::new((w * h) as nat, |k: int| false), b.top as int)
    }
}

/// Position after an x-list walk.
pub open spec fn walk_end(o: Option<(Seq<bool>, int)>) -> int {
    match o {
        Some((_, j)) => j,
        None => 0,
    }
}

/// Edges after an x-list walk.
pub open spec fn walk_edges(o: Option<(Seq<bool>, int)>) -> Seq<bool> {
    match o {
        Some((e, _)) => e,
        None => Seq::empty(),
    }
}

proof fn lemma_x_walk_advances(p: Seq<u8>, i: int, left: int, w: int, edge: Seq<bool>)
    requires
        x_walk(p, i, left, w, edge) is Some,
        edge.len() == w + 1,
        w >= 0,
    ensures
        walk_end(x_walk(p, i, left, w, edge)) > i,
        walk_end(x_walk(p, i, left, w, edge)) <= p.len(),
        walk_edges(x_walk(p, i, left, w, edge)).len() == w + 1,
    decreases p.len() - i,
{
    let x = be_i16(p, i);
    if x != 0x7FFF {
        let c = if x - left < 0 { 0 } else if x - left > w { w } else { x - left };
        lemma_x_walk_advances(p, i + 2, left, w, edge.update(c, !edge[c]));
    }
}

fn emit_rows(mask: &mut Vec<bool>, edge: &Vec<bool>, w: usize, top: i32, bottom: i32, from: i32, to: i32)
    requires
        w > 0,
        old(mask)@.len() == w * nonneg(bottom - top),
        edge@.len() == w + 1,
        -32768 <= top <= bottom <= 32767,
    ensures
        final(mask)@ == emit(old(mask)@, edge@, w as int, top as int, bottom as int, from as int, to as int),
{
    let lo = if from < top { top } else { from };
    let hi = if to > bottom { bottom } else { to };
    let ghost m0 = mask@;
    let len = mask.len();
    let mut fy = lo;
    while fy < hi
        invariant
            w > 0,
            len == m0.len(),
            -32768 <= top <= bottom <= 32767,
            m0.len() == w * nonneg(bottom - top),
            mask@.len() == m0.len(),
            edge@.len() == w + 1,
            top <= lo,
            lo <= fy,
            fy <= hi || (hi < lo && fy == lo),
            hi <= bottom,
            forall|k: int| 0 <= k < m0.len() ==> #[trigger] mask@[k] == (if lo <= top + k / (w as int) < fy {
                parity(edge@, k % (w as int))
            } else {
                m0[k]
            }),
        decreases hi - fy,
    {
        let row = (fy - top) as usize;
        proof {
            assert(row < bottom - top);
            assert((row as int) * (w as int) + (w as int) <= (w as int) * nonneg(bottom - top)) by (nonlinear_arith)
                requires row < bottom - top, w > 0, nonneg(bottom - top) == bottom - top;
        }
        let base = row * w;
        let mut inside = false;
        let mut x: usize = 0;
        while x < w
            invariant
                w > 0,
                len == m0.len(),
                edge@.len() == w + 1,
                mask@.len() == m0.len(),
                m0.len() == w * nonneg(bottom - top),
                base == row * w,
                base + w <= m0.len(),
                x <= w,
                inside == parity(edge@, x as int - 1),
                forall|k: int| 0 <= k < m0.len() ==> #[trigger] mask@[k] == (if base <= k < base + x {
                    parity(edge@, k - base)
                } else if lo <= top + k / (w as int) < fy {
                    parity(edge@, k % (w as int))
                } else {
                    m0[k]
                }),
            decreases w - x,
        {
            if edge[x] {
                inside = !inside;
            }
            mask.set(base + x, inside);
            x += 1;
        }
        proof {
            assert forall|k: int| 0 <= k < m0.len() implies #[trigger] mask@[k] == (if lo <= top + k / (w as int) < fy + 1 {
                parity(edge@, k % (w as int))
            } else {
                m0[k]
            }) by {
                let wi = w as int;
                let ri = row as int;
                if base <= k < base + w {
                    assert(k == ri * wi + (k - base)) by (nonlinear_arith)
                        requires base == ri * wi;
                    vstd::arithmetic::div_mod::lemma_fundamental_div_mod_converse(k, wi, ri, k - base);
                } else if k < base {
                    assert(ri >= 1) by (nonlinear_arith)
                        requires base == ri * wi, 0 <= k < base, ri >= 0;
                    assert(base - 1 == (ri - 1) * wi + (wi - 1)) by (nonlinear_arith)
                        requires base == ri * wi;
                    vstd::arithmetic::div_mod::lemma_fundamental_div_mod_converse(base - 1, wi, ri - 1, wi - 1);
                    vstd::arithmetic::div_mod::lemma_div_is_ordered(k, base - 1, wi);
                } else {
                    assert(base + wi == (ri + 1) * wi + 0) by (nonlinear_arith)
                        requires base == ri * wi;
                    vstd::arithmetic::div_mod::lemma_fundamental_div_mod_converse(base + wi, wi, ri + 1, 0);
                    vstd::arithmetic::div_mod::lemma_div_is_ordered(base + wi, k, wi);
                }
            }
        }
        fy = fy + 1;
    }
    proof {
        let e = emit(m0, edge@, w as int, top as int, bottom as int, from as int, to as int);
        assert forall|k: int| 0 <= k < m0.len() implies mask@[k] == e[k] by {
            let y = top + k / (w as int);
            if hi < lo {
                assert(fy == lo);
            } else {
                assert(fy == hi);
            }
        }
        assert(mask@ =~= e);
    }
}

/// Decode the scan-line inversion tail into a row-major coverage mask
/// of the box.
pub fn decode_inversion(payload: &[u8], bbox: &RectI32) -> (res: Result<Vec<bool>>)
    requires
        box16(*bbox),
    ensures
        match inversion_mask(payload@, *bbox) {
            Some(m) => res is Ok && res->Ok_0@ == m,
            None => res is Err && res->Err_0 is InvalidData,
        },
{
    let wi: i32 = if bbox.right - bbox.left < 0 { 0 } else { bbox.right - bbox.left };
    let hi: i32 = if bbox.bottom - bbox.top < 0 { 0 } else { bbox.bottom - bbox.top };
    if wi == 0 || hi == 0 {
        return Ok(Vec::new());
    }
    let w = wi as usize;
    let h = hi as usize;
    proof {
        assert(w * h <= 65535 * 65535) by (nonlinear_arith)
            requires w <= 65535, h <= 65535;
    }
    let mut edge: Vec<bool> = vec![false; w + 1];
    let mut mask: Vec<bool> = vec![false; w * h];
    let ghost e0 = edge@;
    let ghost m0 = mask@;
    assert(e0 =~= Seq::new((w + 1) as nat, |c: int| false));
    assert(m0 =~= Seq::new((w * h) as nat, |k: int| false));
    let mut prev_y: i32 = bbox.top;
    let mut i: usize = 0;
    let n = payload.len();
    while n - i >= 2
        invariant
            n == payload@.len(),
            box16(*bbox),
            w == wi && h == hi && w > 0 && h > 0,
            wi == bbox.right - bbox.left,
            hi == bbox.bottom - bbox.top,
            edge@.len() == w + 1,
            mask@.len() == w * h,
            i <= n,
            -32768 <= prev_y <= 32767,
            inversion_mask(payload@, *bbox) == inv_walk(payload@, i as int, *bbox, w as int, edge@, mask@, prev_y as int),
        decreases n - i,
    {
        let y = i16_from_be(payload[i], payload[i + 1]);
        proof {
            assert(y == be_i16(payload@, i as int));
        }
        if y == 0x7FFF {
            emit_rows(&mut mask, &edge, w, bbox.top, bbox.bottom, prev_y, bbox.bottom);
            return Ok(mask);
        }
        let ghost i0 = i;
        let ghost e_before = edge@;
        let ghost m_before = mask@;
        let ghost p_before = prev_y as int;
        i += 2;
        let y = y as i32;
        emit_rows(&mut mask, &edge, w, bbox.top, bbox.bottom, prev_y, y);
        prev_y = y;
        loop
            invariant_except_break
                n == payload@.len(),
                box16(*bbox),
                w == wi && h == hi && w > 0 && h > 0,
                wi == bbox.right - bbox.left,
                edge@.len() == w + 1,
                i0 + 2 <= i <= n,
                x_walk(payload@, i0 + 2, bbox.left as int, w as int, e_before) == x_walk(payload@, i as int, bbox.left as int, w as int, edge@),
                i0 + 2 <= n,
                be_i16(payload@, i0 as int) == y,
                y != 0x7FFF,
                mask@ == emit(m_before, e_before, w as int, bbox.top as int, bbox.bottom as int, p_before, y as int),
                inversion_mask(payload@, *bbox) == inv_walk(payload@, i0 as int, *bbox, w as int, e_before, m_before, p_before),
            ensures
                edge@.len() == w + 1,
                i0 + 2 < i <= n,
                x_walk(payload@, i0 + 2, bbox.left as int, w as int, e_before) == Some((edge@, i as int)),
            decreases n - i,
        {
            if n - i < 2 {
                return Err(PictError::invalid("region inversion data truncated mid-x-list"));
            }
            let x = i16_from_be(payload[i], payload[i + 1]);
            proof {
                assert(x == be_i16(payload@, i as int));
            }
            i += 2;
            if x == 0x7FFF {
                break;
            }
            let d = x as i32 - bbox.left;
            let col: usize = if d < 0 { 0 } else if d > wi { w } else { d as usize };
            let cur = edge[col];
            edge.set(col, !cur);
        }
        proof {
            lemma_x_walk_advances(payload@, i0 + 2, bbox.left as int, w as int, e_before);
        }
    }
    emit_rows(&mut mask, &edge, w, bbox.top, bbox.bottom, prev_y, bbox.bottom);
    Ok(mask)
}

/// The bounding box stored at the start of region bytes `s`.
pub open spec fn rgn_bbox(s: Seq<u8>) -> RectI32 {
    RectI32 {
        top: be_i16(s, 2) as i32,
        left: be_i16(s, 4) as i32,
        bottom: be_i16(s, 6) as i32,
        right: be_i16(s, 8) as i32,
    }
}

/// The inversion data of region bytes `s` (after the 10-byte header).
pub open spec fn rgn_payload(s: Seq<u8>) -> Seq<u8> {
    s.subrange(10, be_u16(s, 0))
}

/// Whether region bytes `s` parse: a size word of at least 10, that
/// many bytes present, and (for a non-rectangular region) inversion
/// data whose x-lists are complete.
pub open spec fn rgn_ok(s: Seq<u8>) -> bool {
    &&& s.len() >= 2
    &&& be_u16(s, 0) >= 10
    &&& s.len() >= be_u16(s, 0)
    &&& (be_u16(s, 0) > 10 ==> inversion_mask(rgn_payload(s), rgn_bbox(s)) is Some)
}

/// Parse a `Region` at the cursor; consumes exactly `rgnSize` bytes.
pub fn parse_region(r: &mut Reader<'_>) -> (res: Result<Region>)
    ensures
        final(r).bytes@ == old(r).bytes@,
        res is Ok <==> rgn_ok(old(r).rest()),
        match res {
            Ok(g) => {
                let s = old(r).rest();
                &&& final(r).pos == old(r).pos + be_u16(s, 0)
                &&& g.wf()
                &&& g.bbox == rgn_bbox(s)
                &&& match g.mask {
                    None => be_u16(s, 0) == 10,
                    Some(m) => be_u16(s, 0) > 10 && inversion_mask(rgn_payload(s), rgn_bbox(s)) == Some(m@),
                }
            },
            Err(e) => e is InvalidData,
        },
{
    let ghost s = r.rest();
    let ghost p0 = r.pos;
    let rgn_size = r.read_u16()? as usize;
    proof {
        assert(s[0] == r.bytes@[p0 as int] && s[1] == r.bytes@[p0 + 1]);
    }
    if rgn_size < 10 {
        return Err(PictError::invalid("region size smaller than the 10-byte header"));
    }
    if r.remaining() < rgn_size - 2 {
        return Err(PictError::invalid("region data truncated"));
    }
    let (t, l, b, rt) = r.read_rect()?;
    let bbox = RectI32::from_be(t, l, b, rt);
    proof {
        assert(s[2] == r.bytes@[p0 + 2] && s[3] == r.bytes@[p0 + 3]);
        assert(s[4] == r.bytes@[p0 + 4] && s[5] == r.bytes@[p0 + 5]);
        assert(s[6] == r.bytes@[p0 + 6] && s[7] == r.bytes@[p0 + 7]);
        assert(s[8] == r.bytes@[p0 + 8] && s[9] == r.bytes@[p0 + 9]);
        assert(bbox == rgn_bbox(s));
    }
    let payload_len = rgn_size - 10;
    if payload_len == 0 {
        return Ok(Region { bbox, mask: None });
    }
    let payload = r.read_bytes(payload_len)?;
    proof {
        assert(payload@ =~= rgn_payload(s));
    }
    let mask = decode_inversion(payload, &bbox)?;
    proof {
        if nonneg(bbox.right - bbox.left) == 0 || nonneg(bbox.bottom - bbox.top) == 0 {
            assert(mask@.len() == 0);
        } else {
            lemma_inv_walk_len(payload@, 0, bbox, nonneg(bbox.right - bbox.left),
                Seq::new((nonneg(bbox.right - bbox.left) + 1) as nat, |c: int| false),
                Seq::new((nonneg(bbox.right - bbox.left) * nonneg(bbox.bottom - bbox.top)) as nat, |k: int| false),
                bbox.top as int);
        }
    }
    Ok(Region { bbox, mask: Some(mask) })
}

proof fn lemma_inv_walk_len(p: Seq<u8>, i: int, b: RectI32, w: int, edge: Seq<bool>, mask: Seq<bool>, prev_y: int)
    requires
        inv_walk(p, i, b, w, edge, mask, prev_y) is Some,
    ensures
        inv_walk(p, i, b, w, edge, mask, prev_y)->Some_0.len() == mask.len(),
    decreases p.len() - i,
{
    if i < 0 || i + 2 > p.len() {
    } else {
        let y = be_i16(p, i);
        if y != 0x7FFF {
            let m2 = emit(mask, edge, w, b.top as int, b.bottom as int, prev_y, y);
            match x_walk(p, i + 2, b.left as int, w, edge) {
                None => {},
                Some((e2, j)) => {
                    if i < j <= p.len() {
                        lemma_inv_walk_len(p, j, b, w, e2, m2, y);
                    }
                },
            }
        }
    }
}

} // verus!

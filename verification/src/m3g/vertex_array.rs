//! Reader of the `VertexArray` object: raw or delta-encoded 8- and 16-bit components.
use vstd::prelude::*;
use crate::le::{le_u16, le_i16, read_i16_le};
use crate::m3g::cursor::Cursor;
use crate::m3g::objects::{base_end, base_matches, read_object3d_base};
use crate::m3g::{VertexArray, VertexArrayComponents};

verus! {

/// Index of component `k` of vertex `v` in a flat array of `cc` components per vertex.
pub open spec fn flat(v: int, cc: int, k: int) -> int {
    v * cc + k
}

/// Component `i` as stored from `r` on: a signed byte, or a little-endian `i16` (`wide`).
pub open spec fn raw_component(s: Seq<u8>, r: int, wide: bool, i: int) -> int {
    if wide {
        le_i16(s, r + 2 * i) as int
    } else {
        (s[r + i] as i8) as int
    }
}

/// Component `k` of vertex `v` under delta encoding: the sum of the stored component `k`
/// of vertices `0..=v`.
pub open spec fn accumulated(s: Seq<u8>, r: int, wide: bool, cc: int, v: int, k: int) -> int
    decreases v,
{
    if v <= 0 {
        raw_component(s, r, wide, k)
    } else {
        accumulated(s, r, wide, cc, v - 1, k) + raw_component(s, r, wide, flat(v, cc, k))
    }
}

/// Bytes taken by the components of a vertex array whose fixed fields start at `q`.
pub open spec fn components_len(s: Seq<u8>, q: int) -> int {
    s[q] * (le_u16(s, q + 3) * s[q + 1])
}

/// End of a vertex array at `p`: the base; component size (1 or 2 bytes), component count,
/// encoding, vertex count; then `vertex count * component count` components, kept as a
/// range of the buffer (encoding 0, not checked against its length) or read and
/// delta-decoded (encoding 1). Other sizes and encodings are not read.
pub open spec fn vertex_array_end(s: Seq<u8>, p: int) -> Option<int> {
    match base_end(s, p) {
        None => None,
        Some(q) => if q + 5 > s.len() || (s[q] != 1 && s[q] != 2) || s[q + 2] > 1 {
            None
        } else {
            let r = q + 5;
            let end = r + components_len(s, q);
            if end > usize::MAX || (s[q + 2] == 1 && end > s.len()) {
                None
            } else {
                Some(end)
            }
        },
    }
}

pub open spec fn vertex_array_matches(a: VertexArray, s: Seq<u8>, p: int) -> bool {
    let q = base_end(s, p)->0;
    let r = q + 5;
    let cc = s[q + 1] as int;
    let vc = le_u16(s, q + 3) as int;
    let wide = s[q] == 2;
    &&& base_matches(a.base, s, p)
    &&& a.component_size == s[q]
    &&& a.component_count == s[q + 1]
    &&& a.vertex_count == le_u16(s, q + 3)
    &&& if s[q + 2] == 0 {
        if wide {
            a.components matches VertexArrayComponents::BorrowedI16(buf, rg) && buf@ == s && rg.start == r
                && rg.end == r + components_len(s, q)
        } else {
            a.components matches VertexArrayComponents::BorrowedI8(buf, rg) && buf@ == s && rg.start == r
                && rg.end == r + components_len(s, q)
        }
    } else {
        &&& a.components matches VertexArrayComponents::Owned(out)
        &&& out@.len() == vc * cc
        &&& forall|v: int, k: int|
            0 <= v < vc && 0 <= k < cc ==> #[trigger] out@[flat(v, cc, k)] == accumulated(s, r, wide, cc, v, k)
    }
}

proof fn lemma_flat_bounds(v: int, vc: int, cc: int, k: int)
    requires
        0 <= v < vc,
        0 <= k < cc,
    ensures
        0 <= flat(v, cc, k) < vc * cc,
        flat(v, cc, k) >= cc ==> flat(v, cc, k) - cc == flat(v - 1, cc, k),
        v >= 1 ==> flat(v, cc, k) >= cc,
{
    assert(0 <= v * cc + k < vc * cc) by (nonlinear_arith)
        requires
            0 <= v < vc,
            0 <= k < cc,
    ;
    assert(v * cc - cc == (v - 1) * cc) by (nonlinear_arith);
    assert(v >= 1 ==> v * cc >= cc) by (nonlinear_arith)
        requires
            0 <= k < cc,
    ;
}

proof fn lemma_flat_distinct(v1: int, k1: int, v2: int, k2: int, cc: int)
    requires
        0 <= k1 < cc,
        0 <= k2 < cc,
        v1 != v2 || k1 != k2,
    ensures
        flat(v1, cc, k1) != flat(v2, cc, k2),
{
    if v1 < v2 {
        assert(v1 * cc + k1 < v2 * cc + k2) by (nonlinear_arith)
            requires
                0 <= k1 < cc,
                0 <= k2,
                v1 < v2,
        ;
    } else if v2 < v1 {
        assert(v2 * cc + k2 < v1 * cc + k1) by (nonlinear_arith)
            requires
                0 <= k2 < cc,
                0 <= k1,
                v2 < v1,
        ;
    }
}

/// Bound on the stored components: `-bound <= c < bound`.
pub open spec fn raw_bound(wide: bool) -> int {
    if wide {
        0x8000
    } else {
        0x80
    }
}

proof fn lemma_accumulated_bounds(s: Seq<u8>, r: int, wide: bool, cc: int, v: int, k: int)
    requires
        0 <= v,
        forall|i: int| -raw_bound(wide) <= #[trigger] raw_component(s, r, wide, i) < raw_bound(wide),
    ensures
        -(v + 1) * raw_bound(wide) <= accumulated(s, r, wide, cc, v, k) <= (v + 1) * raw_bound(wide),
    decreases v,
{
    let b = raw_bound(wide);
    if v > 0 {
        lemma_accumulated_bounds(s, r, wide, cc, v - 1, k);
        assert(-b <= raw_component(s, r, wide, flat(v, cc, k)) < b);
        assert((v + 1) * b == v * b + b) by (nonlinear_arith);
    } else {
        assert(-b <= raw_component(s, r, wide, k) < b);
        assert((v + 1) * b == b);
    }
}

proof fn lemma_raw_bounds(s: Seq<u8>, r: int, wide: bool)
    ensures
        forall|i: int| -raw_bound(wide) <= #[trigger] raw_component(s, r, wide, i) < raw_bound(wide),
{
}

/// Turns per-vertex deltas into values: component `k` of vertex `v` becomes the sum of
/// component `k` of vertices `0..=v`.
fn accumulate_deltas(out: &mut Vec<i32>, vertex_count: usize, component_count: usize, Ghost(s): Ghost<Seq<u8>>, Ghost(r): Ghost<int>, Ghost(wide): Ghost<bool>)
    requires
        vertex_count <= 0xffff,
        component_count <= 0xff,
        old(out)@.len() == vertex_count * component_count,
        forall|i: int| 0 <= i < old(out)@.len() ==> #[trigger] old(out)@[i] == raw_component(s, r, wide, i),
    ensures
        final(out)@.len() == vertex_count * component_count,
        forall|v: int, k: int|
            0 <= v < vertex_count && 0 <= k < component_count ==> #[trigger] final(out)@[flat(v, component_count as int, k)]
                == accumulated(s, r, wide, component_count as int, v, k),
{
    let ghost cc = component_count as int;
    let ghost vc = vertex_count as int;
    proof {
        lemma_raw_bounds(s, r, wide);
        assert(vc * cc <= 0xffff * 0xff) by (nonlinear_arith)
            requires
                0 <= vc <= 0xffff,
                0 <= cc <= 0xff,
        ;
        assert forall|vv: int, k: int| 0 <= vv < vc && 0 <= k < cc implies #[trigger] out@[flat(vv, cc, k)]
            == raw_component(s, r, wide, flat(vv, cc, k)) by {
            lemma_flat_bounds(vv, vc, cc, k);
        }
        assert forall|vv: int, k: int| 0 <= vv < 1 && vv < vc && 0 <= k < cc implies #[trigger] out@[flat(vv, cc, k)]
            == accumulated(s, r, wide, cc, vv, k) by {
            lemma_flat_bounds(vv, vc, cc, k);
            assert(flat(0, cc, k) == k);
        }
    }
    let mut v: usize = 1;
    while v < vertex_count
        invariant
            1 <= v,
            v <= vertex_count || vertex_count == 0,
            vertex_count <= 0xffff,
            cc == component_count,
            vc == vertex_count,
            vc * cc <= 0xffff * 0xff,
            out@.len() == vc * cc,
            forall|i: int| -raw_bound(wide) <= #[trigger] raw_component(s, r, wide, i) < raw_bound(wide),
            forall|vv: int, k: int|
                0 <= vv < v && vv < vc && 0 <= k < cc ==> #[trigger] out@[flat(vv, cc, k)] == accumulated(s, r, wide, cc, vv, k),
            forall|vv: int, k: int|
                v <= vv < vc && 0 <= k < cc ==> #[trigger] out@[flat(vv, cc, k)] == raw_component(s, r, wide, flat(vv, cc, k)),
        decreases vertex_count - v,
    {
        let mut k: usize = 0;
        while k < component_count
            invariant
                1 <= v < vertex_count,
                vertex_count <= 0xffff,
                cc == component_count,
                vc == vertex_count,
                k <= component_count,
                vc * cc <= 0xffff * 0xff,
                out@.len() == vc * cc,
                forall|i: int| -raw_bound(wide) <= #[trigger] raw_component(s, r, wide, i) < raw_bound(wide),
                forall|vv: int, kk: int|
                    0 <= vv < vc && 0 <= kk < cc && (vv < v || (vv == v && kk < k)) ==> #[trigger] out@[flat(vv, cc, kk)]
                        == accumulated(s, r, wide, cc, vv, kk),
                forall|vv: int, kk: int|
                    0 <= vv < vc && 0 <= kk < cc && (vv > v || (vv == v && kk >= k)) ==> #[trigger] out@[flat(vv, cc, kk)]
                        == raw_component(s, r, wide, flat(vv, cc, kk)),
            decreases component_count - k,
        {
            proof {
                lemma_flat_bounds(v as int, vc, cc, k as int);
                lemma_accumulated_bounds(s, r, wide, cc, v - 1, k as int);
                let b = raw_bound(wide);
                assert(0 <= v * b <= 0xfffe * 0x8000) by (nonlinear_arith)
                    requires
                        0 <= v <= 0xfffe,
                        0 <= b <= 0x8000,
                ;
                assert(((v - 1) + 1) * b == v * b);
            }
            let idx = v * component_count + k;
            assert(idx == flat(v as int, cc, k as int));
            let ghost prev = out@;
            let prev_value = out[idx - component_count];
            let cur = out[idx];
            assert(prev_value == accumulated(s, r, wide, cc, v - 1, k as int));
            assert(cur == raw_component(s, r, wide, idx as int));
            out[idx] = prev_value + cur;
            proof {
                assert forall|vv: int, kk: int|
                    0 <= vv < vc && 0 <= kk < cc && (vv < v || (vv == v && kk < k + 1)) implies #[trigger] out@[flat(vv, cc, kk)]
                        == accumulated(s, r, wide, cc, vv, kk) by {
                    lemma_flat_bounds(vv, vc, cc, kk);
                    if vv != v || kk != k {
                        lemma_flat_distinct(vv, kk, v as int, k as int, cc);
                        assert(out@[flat(vv, cc, kk)] == prev[flat(vv, cc, kk)]);
                    }
                }
                assert forall|vv: int, kk: int|
                    0 <= vv < vc && 0 <= kk < cc && (vv > v || (vv == v && kk >= k + 1)) implies #[trigger] out@[flat(vv, cc, kk)]
                        == raw_component(s, r, wide, flat(vv, cc, kk)) by {
                    lemma_flat_bounds(vv, vc, cc, kk);
                    lemma_flat_distinct(vv, kk, v as int, k as int, cc);
                    assert(out@[flat(vv, cc, kk)] == prev[flat(vv, cc, kk)]);
                }
            }
            k = k + 1;
        }
        v = v + 1;
    }
    proof {
        if vertex_count == 0 {
            assert forall|vv: int, kk: int|
                0 <= vv < vc && 0 <= kk < cc implies #[trigger] out@[flat(vv, cc, kk)] == accumulated(s, r, wide, cc, vv, kk) by {}
        }
    }
}

/// Reads a vertex array. A component size other than 1 or 2, or an encoding other than 0
/// or 1, is not part of the format: the read then returns `None` rather than stopping the
/// program, as it does when a field runs past the data.
pub fn read_vertex_array(c: &mut Cursor) -> (r: Option<VertexArray>)
    ensures
        final(c).data == old(c).data,
        r is Some <==> vertex_array_end(old(c).data@, old(c).pos as int) is Some,
        r matches Some(a) ==> final(c).pos == vertex_array_end(old(c).data@, old(c).pos as int)->0
            && vertex_array_matches(a, old(c).data@, old(c).pos as int),
{
    let ghost s = c.data@;
    let ghost p = c.pos as int;
    let base = read_object3d_base(c)?;
    let ghost q = c.pos as int;
    let component_size = c.u8();
    let component_count = c.u8();
    let encoding = c.u8();
    let vertex_count = c.u16();
    if component_size.is_none() || component_count.is_none() || encoding.is_none() || vertex_count.is_none() {
        return None;
    }
    let component_size = component_size.unwrap();
    let component_count = component_count.unwrap();
    let encoding = encoding.unwrap();
    let vertex_count = vertex_count.unwrap();

    assert(vertex_count as usize * component_count as usize <= 0xffff * 0xff) by (nonlinear_arith)
        requires
            vertex_count <= 0xffff,
            component_count <= 0xff,
    ;
    let n = vertex_count as usize * component_count as usize;
    let ghost r = c.pos as int;
    let components = if component_size == 1 {
        let range = c.range(n)?;
        if encoding == 0 {
            VertexArrayComponents::BorrowedI8(c.data.clone(), range)
        } else if encoding == 1 {
            if range.end > c.data.len() {
                return None;
            }
            let mut out: Vec<i32> = Vec::new();
            let mut i: usize = 0;
            while i < n
                invariant
                    s == c.data@,
                    range.start == r,
                    range.end == r + n,
                    range.end <= s.len(),
                    i <= n,
                    out@.len() == i,
                    forall|j: int| 0 <= j < i ==> #[trigger] out@[j] == raw_component(s, r, false, j),
                decreases n - i,
            {
                out.push(#[verifier::truncate] (c.data[range.start + i] as i8) as i32);
                i = i + 1;
            }
            accumulate_deltas(&mut out, vertex_count as usize, component_count as usize, Ghost(s), Ghost(r), Ghost(false));
            VertexArrayComponents::Owned(out)
        } else {
            return None;
        }
    } else if component_size == 2 {
        let range = c.range(n.checked_mul(2)?)?;
        if encoding == 0 {
            VertexArrayComponents::BorrowedI16(c.data.clone(), range)
        } else if encoding == 1 {
            if range.end > c.data.len() {
                return None;
            }
            let mut out: Vec<i32> = Vec::new();
            let mut i: usize = 0;
            while i < n
                invariant
                    s == c.data@,
                    range.start == r,
                    range.end == r + 2 * n,
                    range.end <= s.len(),
                    i <= n,
                    out@.len() == i,
                    forall|j: int| 0 <= j < i ==> #[trigger] out@[j] == raw_component(s, r, true, j),
                decreases n - i,
            {
                let offset = range.start + i * 2;
                let bytes = vstd::slice::slice_subrange(c.data.as_slice(), offset, offset + 2);
                let val = read_i16_le(bytes);
                out.push(val as i32);
                i = i + 1;
            }
            accumulate_deltas(&mut out, vertex_count as usize, component_count as usize, Ghost(s), Ghost(r), Ghost(true));
            VertexArrayComponents::Owned(out)
        } else {
            return None;
        }
    } else {
        return None;
    };

    Some(VertexArray { base, component_size, component_count, components, vertex_count })
}

}

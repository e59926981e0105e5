//! Where the fields of the objects lie in their bytes, stated over the bytes themselves:
//! what a successful read of an object must give back.
use vstd::prelude::*;
use crate::le::{le_u32, le_i16};
use crate::m3g::objects::{
    triangle_strips_end, triangle_strips_matches, seq_sum, node_end, node_matches,
    vertex_buffer_end, vertex_buffer_matches, vertex_buffer_normals_pos, tex_coords_end,
    lemma_tex_coords_end_prefix,
    base_matches, params_end, lemma_params_end_prefix, base_end, image2d_end, image2d_matches, keyframe_sequence_end, keyframe_sequence_matches,
};
use crate::m3g::vertex_array::{vertex_array_end, vertex_array_matches};
use crate::m3g::{VertexBuffer, NodeBase, IndexBuffer, IndexData, IndexBufferData, VertexArray, VertexArrayComponents, Image2D, ImageBytes, KeyframeData, KeyframeSequence, Object3DBase, ObjRef};

verus! {

/// In an immutable image the palette and the pixels are byte ranges of the object, each
/// preceded by its length: the palette length follows the width and height, the palette
/// follows its length, the pixel length follows the palette and the pixels follow their
/// length. The object ends with the pixels.
pub proof fn lemma_image_bytes_layout(im: Image2D, s: Seq<u8>, p: int)
    requires
        image2d_end(s, p) is Some,
        image2d_matches(im, s, p),
        !im.is_mutable,
    ensures
        im.palette is Borrowed,
        im.pixels is Borrowed,
        ({
            let q = base_end(s, p)->0;
            let pal = im.palette->Borrowed_1;
            let pix = im.pixels->Borrowed_1;
            &&& im.palette->Borrowed_0@ == s
            &&& im.pixels->Borrowed_0@ == s
            &&& pal.start == q + 14
            &&& pal.end - pal.start == le_u32(s, q + 10)
            &&& pix.start == pal.end + 4
            &&& pix.end - pix.start == le_u32(s, pal.end as int)
            &&& image2d_end(s, p) == Some(pix.end as int)
            &&& im.palette@ == s.subrange(q + 14, pal.end as int)
        }),
{
}

/// A keyframe sequence stores, after its base: interpolation, repeat mode and encoding
/// bytes, then duration, valid range, component count and keyframe count as little-endian
/// `u32`s (23 bytes). Quantized sequences then store the `component count` bias floats and
/// after them the `component count` scale floats; the keyframes follow, each a time and its
/// components.
pub proof fn lemma_keyframe_layout(k: KeyframeSequence, s: Seq<u8>, p: int)
    requires
        keyframe_sequence_end(s, p) is Some,
        keyframe_sequence_matches(k, s, p),
    ensures
        ({
            let q = base_end(s, p)->0;
            let cc = k.component_count as int;
            &&& k.interpolation == s[q]
            &&& k.repeat_mode == s[q + 1]
            &&& k.duration == le_u32(s, q + 3)
            &&& k.valid_range_first == le_u32(s, q + 7)
            &&& k.valid_range_last == le_u32(s, q + 11)
            &&& cc == le_u32(s, q + 15)
            &&& k.keyframe_count == le_u32(s, q + 19)
            &&& s[q + 2] == 0 ==> (k.data matches KeyframeData::Float(frames) && frames@.len() == k.keyframe_count
                && forall|i: int, j: int|
                0 <= i < frames@.len() && 0 <= j < cc ==> frames@[i].1@.len() == cc && #[trigger] frames@[i].1@[j]
                    == le_u32(s, q + 23 + i * (4 + 4 * cc) + 4 + 4 * j) && frames@[i].0 == le_u32(
                    s,
                    q + 23 + i * (4 + 4 * cc),
                ))
            &&& s[q + 2] != 0 ==> (k.data matches KeyframeData::Quantized { bias, scale, frames } && bias@.len()
                == cc && scale@.len() == cc && (forall|j: int|
                0 <= j < cc ==> #[trigger] bias@[j] == le_u32(s, q + 23 + 4 * j) && scale@[j] == le_u32(
                    s,
                    q + 23 + 4 * cc + 4 * j,
                )) && frames@.len() == k.keyframe_count && (k.keyframe_count > 0 ==> frames@[0].0 == le_u32(
                s,
                q + 23 + 8 * cc,
            )))
        }),
{
}


/// An Object3D base stores its user id, its animation-track count and that many track
/// references, then its user-parameter count and the parameters one after the other: each
/// an id and a length, followed by that many bytes. The base ends with the last parameter.
pub proof fn lemma_base_layout(b: Object3DBase, s: Seq<u8>, p: int)
    requires
        base_end(s, p) is Some,
        base_matches(b, s, p),
    ensures
        ({
            let tc = le_u32(s, p + 4) as int;
            let pc = p + 8 + 4 * tc;
            let n = b.user_parameters@.len() as int;
            &&& b.user_id == le_u32(s, p)
            &&& b.animation_tracks@.len() == tc
            &&& forall|i: int| 0 <= i < tc ==> #[trigger] b.animation_tracks@[i] == ObjRef(le_u32(s, p + 8 + 4 * i))
            &&& n == le_u32(s, pc)
            &&& forall|i: int| #![trigger b.user_parameters@[i]] 0 <= i < n ==> {
                let r = b.user_parameters@[i].1->Borrowed_1;
                &&& b.user_parameters@[i].1 is Borrowed
                &&& b.user_parameters@[i].1->Borrowed_0@ == s
                &&& r.end - r.start == le_u32(s, r.start - 4)
                &&& b.user_parameters@[i].0 == le_u32(s, r.start - 8)
                &&& i == 0 ==> r.start == pc + 12
                &&& i > 0 ==> r.start == b.user_parameters@[i - 1].1->Borrowed_1.end + 8
            }
            &&& n == 0 ==> base_end(s, p) == Some(pc + 4)
            &&& n > 0 ==> base_end(s, p) == Some(b.user_parameters@[n - 1].1->Borrowed_1.end as int)
        }),
{
    let tc = le_u32(s, p + 4) as int;
    let pc = p + 8 + 4 * tc;
    let n = le_u32(s, pc) as nat;
    assert forall|i: int| 0 <= i < n implies #[trigger] params_end(s, pc + 4, (i + 1) as nat) == Some(
        params_end(s, pc + 4, i as nat)->0 + 8 + le_u32(s, params_end(s, pc + 4, i as nat)->0 + 4),
    ) && params_end(s, pc + 4, i as nat) is Some by {
        lemma_params_end_prefix(s, pc + 4, (i + 1) as nat, n);
    }
    assert forall|i: int| #![trigger b.user_parameters@[i]] 0 <= i < n implies ({
        let r = b.user_parameters@[i].1->Borrowed_1;
        &&& i == 0 ==> r.start == pc + 12
        &&& i > 0 ==> r.start == b.user_parameters@[i - 1].1->Borrowed_1.end + 8
    }) by {
        assert(params_end(s, pc + 4, (i + 1) as nat) is Some);
        if i > 0 {
            assert(params_end(s, pc + 4, ((i - 1) + 1) as nat) is Some);
        }
    }
    if n > 0 {
        assert(params_end(s, pc + 4, ((n - 1) + 1) as nat) is Some);
    }
}


/// Component `i` of a vertex array as stored: a signed byte, or (`wide`) a little-endian
/// two's-complement 16-bit value.
pub open spec fn stored_component(s: Seq<u8>, r: int, wide: bool, i: int) -> int {
    if wide {
        le_i16(s, r + 2 * i) as int
    } else {
        (s[r + i] as i8) as int
    }
}

/// A vertex array stores, after its base, component size, component count, encoding and a
/// little-endian 16-bit vertex count, then the components vertex by vertex. With encoding
/// 0 the components are the stored bytes themselves (a range of `size * count * vertices`
/// bytes). With encoding 1 they are deltas: the first vertex is stored as is and every
/// later vertex differs from the one before by its stored values.
pub proof fn lemma_vertex_array_layout(a: VertexArray, s: Seq<u8>, p: int)
    requires
        vertex_array_end(s, p) is Some,
        vertex_array_matches(a, s, p),
    ensures
        ({
            let q = base_end(s, p)->0;
            let r = q + 5;
            let cc = a.component_count as int;
            let vc = a.vertex_count as int;
            let wide = a.component_size == 2;
            &&& a.component_size == s[q] && (a.component_size == 1 || a.component_size == 2)
            &&& cc == s[q + 1]
            &&& vc == s[q + 3] + 256 * s[q + 4]
            &&& s[q + 2] == 0 ==> ({
                let rg = if wide { a.components->BorrowedI16_1 } else { a.components->BorrowedI8_1 };
                &&& (if wide { a.components is BorrowedI16 } else { a.components is BorrowedI8 })
                &&& rg.start == r
                &&& rg.end - rg.start == a.component_size * (vc * cc)
            })
            &&& s[q + 2] == 1 ==> ({
                let out = a.components->Owned_0@;
                &&& a.components is Owned
                &&& out.len() == vc * cc
                &&& forall|k: int| 0 <= k < cc && vc > 0 ==> #[trigger] out[k] == stored_component(s, r, wide, k)
                &&& forall|v: int, k: int|
                    1 <= v < vc && 0 <= k < cc ==> #[trigger] out[v * cc + k] - out[(v - 1) * cc + k]
                        == stored_component(s, r, wide, v * cc + k)
            })
        }),
{
    let q = base_end(s, p)->0;
    let cc = s[q + 1] as int;
    let vc = crate::le::le_u16(s, q + 3) as int;
    assert(vc == s[q + 3] + 256 * s[q + 4]);
    if s[q + 2] == 1 {
        let out = a.components->Owned_0@;
        assert forall|k: int| 0 <= k < cc && vc > 0 implies #[trigger] out[k] == stored_component(s, q + 5, s[q] == 2, k) by {
            assert(out[crate::m3g::vertex_array::flat(0, cc, k)] == crate::m3g::vertex_array::accumulated(s, q + 5, s[q] == 2, cc, 0, k));
        }
        assert forall|v: int, k: int| 1 <= v < vc && 0 <= k < cc implies #[trigger] out[v * cc + k] - out[(v - 1) * cc + k]
            == stored_component(s, q + 5, s[q] == 2, v * cc + k) by {
            assert((v - 1) * cc + k == v * cc + k - cc) by (nonlinear_arith);
            assert(out[crate::m3g::vertex_array::flat(v, cc, k)] == crate::m3g::vertex_array::accumulated(s, q + 5, s[q] == 2, cc, v, k));
            assert(out[crate::m3g::vertex_array::flat(v - 1, cc, k)] == crate::m3g::vertex_array::accumulated(s, q + 5, s[q] == 2, cc, v - 1, k));
        }
    } else if s[q + 2] == 0 {
        assert(s[q] * (vc * s[q + 1]) == s[q] * (vc * cc));
    }
}


/// A triangle strip array stores, after its base, an encoding byte. Encodings 0x80, 0x81
/// and 0x82 then store an index count and that many indices of 4, 1 or 2 bytes, which the
/// index data covers; encodings 0, 1 and 2 store a first index of 4, 1 or 2 bytes and the
/// indices are implicit; other encodings store nothing there. Then, always, a strip count
/// and that many strip lengths; implicit indices number as many as the strip lengths add
/// up to, from the first index on.
pub proof fn lemma_triangle_strips_layout(b: IndexBuffer, s: Seq<u8>, p: int)
    requires
        triangle_strips_end(s, p) is Some,
        triangle_strips_matches(b, s, p),
    ensures
        ({
            let q = base_end(s, p)->0;
            let e = s[q];
            let lengths = b.data->strip_lengths@;
            let indices = b.data->indices;
            let width = if e == 0x80 { 4int } else if e == 0x81 { 1int } else if e == 0x82 { 2int } else { 0int };
            let lp = if width != 0 {
                q + 5 + width * le_u32(s, q + 1)
            } else if e == 0 {
                q + 5
            } else if e == 1 {
                q + 2
            } else if e == 2 {
                q + 3
            } else {
                q + 1
            };
            &&& lengths.len() == le_u32(s, lp)
            &&& forall|i: int| 0 <= i < lengths.len() ==> #[trigger] lengths[i] == le_u32(s, lp + 4 + 4 * i)
            &&& width == 4 ==> (indices matches IndexData::BorrowedU32(buf, r) && buf@ == s && r.start == q + 5
                && r.end == lp)
            &&& width == 1 ==> (indices matches IndexData::BorrowedU8(buf, r) && buf@ == s && r.start == q + 5
                && r.end == lp)
            &&& width == 2 ==> (indices matches IndexData::BorrowedU16(buf, r) && buf@ == s && r.start == q + 5
                && r.end == lp)
            &&& width == 0 ==> (indices matches IndexData::Implicit { first, count } && count == seq_sum(lengths)
                && first == (if e == 0 {
                le_u32(s, q + 1) as int
            } else if e == 1 {
                s[q + 1] as int
            } else if e == 2 {
                s[q + 1] + 256 * s[q + 2]
            } else {
                0
            }))
        }),
{
    let q = base_end(s, p)->0;
    let lengths = b.data->strip_lengths@;
    crate::m3g::lemma_seq_sum_nonneg(lengths);
}


/// A node stores, after its base: a component-transform flag and, when set, translation
/// (3 floats), scale (3 floats), orientation angle and orientation axis (3 floats), in that
/// order; otherwise the translation is zero, the scale one and the orientation a zero turn
/// about x. Then a general-transform flag and, when set, 16 floats; then the rendering and
/// picking flags, the alpha factor, the scope, and an alignment flag followed, when set, by
/// the two target bytes and the two references. The node ends there.
pub proof fn lemma_node_layout(n: NodeBase, s: Seq<u8>, p: int)
    requires
        node_end(s, p) is Some,
        node_matches(n, s, p),
    ensures
        ({
            let q0 = base_end(s, p)->0;
            let q1 = q0 + 1 + if s[q0] != 0 { 40int } else { 0int };
            let q2 = q1 + 1 + if s[q1] != 0 { 64int } else { 0int };
            let one: u32 = 0x3f80_0000;
            &&& s[q0] != 0 ==> forall|i: int| 0 <= i < 3 ==> #[trigger] n.translation@[i] == le_u32(s, q0 + 1 + 4 * i)
                && n.scale@[i] == le_u32(s, q0 + 13 + 4 * i) && n.orientation_axis@[i] == le_u32(s, q0 + 29 + 4 * i)
            &&& s[q0] != 0 ==> n.orientation_angle == le_u32(s, q0 + 25)
            &&& s[q0] == 0 ==> n.translation@ == seq![0u32, 0, 0] && n.scale@ == seq![one, one, one]
                && n.orientation_angle == 0 && n.orientation_axis@ == seq![one, 0, 0]
            &&& s[q1] != 0 ==> (n.general_transform matches Some(m) && forall|i: int|
                0 <= i < 16 ==> #[trigger] m@[i] == le_u32(s, q1 + 1 + 4 * i))
            &&& s[q1] == 0 ==> n.general_transform is None
            &&& n.enable_rendering == (s[q2] != 0)
            &&& n.enable_picking == (s[q2 + 1] != 0)
            &&& n.alpha_factor == s[q2 + 2]
            &&& n.scope == le_u32(s, q2 + 3)
            &&& s[q2 + 7] != 0 ==> (n.alignment matches Some(a) && a.z_target == s[q2 + 8] && a.y_target
                == s[q2 + 9] && a.z_reference == ObjRef(le_u32(s, q2 + 10)) && a.y_reference == ObjRef(
                le_u32(s, q2 + 14),
            ))
            &&& s[q2 + 7] == 0 ==> n.alignment is None
            &&& node_end(s, p) == Some(q2 + 8 + if s[q2 + 7] != 0 { 10int } else { 0int })
        }),
{
}


/// A vertex buffer stores, after its base: four default-colour bytes; a positions
/// reference followed, when not null, by the position bias (3 floats) and scale (1 float)
/// (otherwise bias zero and scale one); the normals and colours references; a count of
/// texture-coordinate bindings and the bindings one after the other, each a reference
/// followed, when not null, by 3 bias floats and a scale float (20 bytes), or alone (4
/// bytes) with bias and scale zero.
pub proof fn lemma_vertex_buffer_layout(v: VertexBuffer, s: Seq<u8>, p: int)
    requires
        0 <= p,
        vertex_buffer_end(s, p) is Some,
        vertex_buffer_matches(v, s, p),
    ensures
        ({
            let q = base_end(s, p)->0;
            let r = q + 8 + if le_u32(s, q + 4) != 0 { 16int } else { 0int };
            let n = v.tex_coords@.len() as int;
            let t = |i: int| tex_coords_end(s, r + 12, i as nat)->0;
            &&& v.default_color@ == seq![s[q], s[q + 1], s[q + 2], s[q + 3]]
            &&& v.positions == ObjRef(le_u32(s, q + 4))
            &&& v.positions.0 != 0 ==> forall|i: int| 0 <= i < 3 ==> #[trigger] v.position_bias@[i] == le_u32(
                s,
                q + 8 + 4 * i,
            )
            &&& v.positions.0 != 0 ==> v.position_scale == le_u32(s, q + 20)
            &&& v.positions.0 == 0 ==> v.position_bias@ == seq![0u32, 0, 0] && v.position_scale == 0x3f80_0000u32
            &&& v.normals == ObjRef(le_u32(s, r))
            &&& v.colors == ObjRef(le_u32(s, r + 4))
            &&& n == le_u32(s, r + 8)
            &&& t(0) == r + 12
            &&& forall|i: int| #![trigger v.tex_coords@[i]] 0 <= i < n ==> {
                let a = v.tex_coords@[i];
                &&& a.array == ObjRef(le_u32(s, t(i)))
                &&& t(i + 1) == t(i) + if a.array.0 == 0 { 4int } else { 20int }
                &&& a.array.0 != 0 ==> a.bias@ == seq![le_u32(s, t(i) + 4), le_u32(s, t(i) + 8), le_u32(s, t(i) + 12)]
                    && a.scale == le_u32(s, t(i) + 16)
                &&& a.array.0 == 0 ==> a.bias@ == seq![0u32, 0, 0] && a.scale == 0
            }
            &&& vertex_buffer_end(s, p) == Some(t(n))
        }),
{
    let q = base_end(s, p)->0;
    let r = vertex_buffer_normals_pos(s, p);
    let n = le_u32(s, r + 8) as nat;
    let tc = le_u32(s, p + 4) as int;
    let pc = p + 8 + 4 * tc;
    lemma_params_end_prefix(s, pc + 4, 0, le_u32(s, pc) as nat);
    assert(0 <= q && q + 8 <= s.len());
    assert(v.default_color@ =~= seq![s[q], s[q + 1], s[q + 2], s[q + 3]]);
    if le_u32(s, q + 4) != 0 {
        assert(v.position_bias@[0] == le_u32(s, q + 8) && v.position_bias@[1] == le_u32(s, q + 12) && v.position_bias@[2] == le_u32(s, q + 16));
    }
    assert forall|i: int| #![trigger v.tex_coords@[i]] 0 <= i < n implies {
        let ti = tex_coords_end(s, r + 12, i as nat)->0;
        let a = v.tex_coords@[i];
        &&& tex_coords_end(s, r + 12, (i + 1) as nat)->0 == ti + if a.array.0 == 0 { 4int } else { 20int }
        &&& a.array.0 != 0 ==> a.bias@ == seq![le_u32(s, ti + 4), le_u32(s, ti + 8), le_u32(s, ti + 12)]
    } by {
        lemma_tex_coords_end_prefix(s, r + 12, (i + 1) as nat, n);
        let ti = tex_coords_end(s, r + 12, i as nat)->0;
        let a = v.tex_coords@[i];
        if a.array.0 != 0 {
            assert(a.bias@ =~= seq![le_u32(s, ti + 4), le_u32(s, ti + 8), le_u32(s, ti + 12)]);
        }
    }
}

}

//! Readers of the object types of an M3G file, each from a cursor over the object's bytes.
use std::rc::Rc;
use vstd::prelude::*;
use crate::le::{le_u16, le_u32, le_i32};
use crate::m3g::cursor::{Cursor, can_read, u32s_at, obj_refs_at, first_nul, utf8_lossy};
use crate::m3g::{
    ObjRef, ImageBytes, Object3DBase, NodeBase, Alignment, Header, AnimationController,
    AnimationTrack, KeyframeData, KeyframeSequence, Image2D, Appearance, Group, SubMesh, Mesh,
    BoneRef, SkinnedMesh, IndexData, IndexBufferData, IndexBuffer, TexCoordArray, VertexBuffer,
};
use core::ops::Range;

verus! {

/// The bit pattern of the `f32` 1.0.
pub open spec fn one_bits() -> u32 {
    0x3f80_0000
}

/// `b` borrows the bytes `start..end` of a buffer holding `s`.
pub open spec fn borrows(b: ImageBytes, s: Seq<u8>, start: int, end: int) -> bool {
    b matches ImageBytes::Borrowed(buf, r) && buf@ == s && r.start == start && r.end == end
}

// ---------------------------------------------------------------------------------------
// Object3D base
// ---------------------------------------------------------------------------------------

/// End of the first `n` user parameters that start at `q` (each: id, length, that many
/// bytes), or `None` when a header runs past the data or a range past `usize::MAX`.
pub open spec fn params_end(s: Seq<u8>, q: int, n: nat) -> Option<int>
    decreases n,
{
    if n == 0 {
        Some(q)
    } else {
        match params_end(s, q, (n - 1) as nat) {
            Some(r) => if r + 8 <= s.len() && r + 8 + le_u32(s, r + 4) <= usize::MAX {
                Some(r + 8 + le_u32(s, r + 4))
            } else {
                None
            },
            None => None,
        }
    }
}

/// The user parameters of `params` are the `n` parameters stored from `q` on.
pub open spec fn params_match(params: Seq<(u32, ImageBytes)>, s: Seq<u8>, q: int, n: nat) -> bool {
    &&& params.len() == n
    &&& forall|i: int| #![trigger params[i]] 0 <= i < n ==> {
        let r = params_end(s, q, i as nat)->0;
        &&& params[i].0 == le_u32(s, r)
        &&& borrows(params[i].1, s, r + 8, r + 8 + le_u32(s, r + 4))
    }
}

/// Where the user-parameter count of an Object3D base at `p` is stored.
pub open spec fn base_params_pos(s: Seq<u8>, p: int) -> int {
    p + 8 + 4 * le_u32(s, p + 4)
}

/// End of an Object3D base at `p`: user id, animation-track references, user parameters.
pub open spec fn base_end(s: Seq<u8>, p: int) -> Option<int> {
    if p + 8 > s.len() || base_params_pos(s, p) + 4 > s.len() {
        None
    } else {
        params_end(s, base_params_pos(s, p) + 4, le_u32(s, base_params_pos(s, p)) as nat)
    }
}

/// `b` is the Object3D base stored at `p`.
pub open spec fn base_matches(b: Object3DBase, s: Seq<u8>, p: int) -> bool {
    let q = base_params_pos(s, p);
    &&& b.user_id == le_u32(s, p)
    &&& b.animation_tracks@ == obj_refs_at(s, p + 8, le_u32(s, p + 4) as int)
    &&& params_match(b.user_parameters@, s, q + 4, le_u32(s, q) as nat)
}

pub(crate) proof fn lemma_params_end_prefix(s: Seq<u8>, q: int, i: nat, n: nat)
    requires
        i <= n,
        params_end(s, q, n) is Some,
    ensures
        params_end(s, q, i) is Some,
        q <= params_end(s, q, i)->0 <= params_end(s, q, n)->0,
    decreases n,
{
    if i < n {
        lemma_params_end_prefix(s, q, i, (n - 1) as nat);
    } else if n > 0 {
        lemma_params_end_prefix(s, q, (n - 1) as nat, (n - 1) as nat);
    }
}

pub fn read_object3d_base(c: &mut Cursor) -> (r: Option<Object3DBase>)
    ensures
        final(c).data == old(c).data,
        r is Some <==> base_end(old(c).data@, old(c).pos as int) is Some,
        r matches Some(b) ==> final(c).pos == base_end(old(c).data@, old(c).pos as int)->0
            && base_matches(b, old(c).data@, old(c).pos as int),
{
    let ghost s = c.data@;
    let ghost p = c.pos as int;
    let user_id = c.u32()?;
    let track_count = c.u32()?;
    let animation_tracks = c.obj_refs(track_count);
    if animation_tracks.is_none() {
        assert(base_params_pos(s, p) + 4 > s.len());
        return None;
    }
    let animation_tracks = animation_tracks.unwrap();
    let param_count = c.u32()?;
    let ghost q = c.pos as int;
    let mut user_parameters: Vec<(u32, ImageBytes)> = Vec::new();
    let mut i: u32 = 0;
    while i < param_count
        invariant
            c.data == old(c).data,
            s == c.data@,
            s == old(c).data@,
            p == old(c).pos,
            p + 8 <= s.len(),
            base_params_pos(s, p) + 4 <= s.len(),
            q == base_params_pos(s, p) + 4,
            param_count == le_u32(s, base_params_pos(s, p)),
            animation_tracks@ == obj_refs_at(s, p + 8, le_u32(s, p + 4) as int),
            user_id == le_u32(s, p),
            i <= param_count,
            params_end(s, q, i as nat) == Some(c.pos as int),
            params_match(user_parameters@, s, q, i as nat),
        decreases param_count - i,
    {
        let ghost r = c.pos as int;
        let id = c.u32();
        if id.is_none() {
            assert(params_end(s, q, (i + 1) as nat) is None);
            proof {
                if params_end(s, q, param_count as nat) is Some {
                    lemma_params_end_prefix(s, q, (i + 1) as nat, param_count as nat);
                }
            }
            return None;
        }
        let id = id.unwrap();
        let len = c.u32();
        if len.is_none() {
            assert(params_end(s, q, (i + 1) as nat) is None);
            proof {
                if params_end(s, q, param_count as nat) is Some {
                    lemma_params_end_prefix(s, q, (i + 1) as nat, param_count as nat);
                }
            }
            return None;
        }
        let len = len.unwrap() as usize;
        let range = c.range(len);
        if range.is_none() {
            assert(params_end(s, q, (i + 1) as nat) is None);
            proof {
                if params_end(s, q, param_count as nat) is Some {
                    lemma_params_end_prefix(s, q, (i + 1) as nat, param_count as nat);
                }
            }
            return None;
        }
        let range = range.unwrap();
        let data = ImageBytes::Borrowed(c.data.clone(), range);
        let ghost before = user_parameters@;
        user_parameters.push((id, data));
        assert(forall|j: int| 0 <= j < i ==> user_parameters@[j] == before[j]);
        proof {
            assert(params_end(s, q, (i + 1) as nat) == Some(c.pos as int));
        }
        i = i + 1;
    }
    Some(Object3DBase { user_id, animation_tracks, user_parameters })
}


// ---------------------------------------------------------------------------------------
// Node base
// ---------------------------------------------------------------------------------------

/// Where the general-transform flag of a node at `p` is stored (after the base and the
/// optional component transform: translation, scale, orientation angle and axis).
pub open spec fn node_gt_pos(s: Seq<u8>, p: int) -> int {
    let q0 = base_end(s, p)->0;
    q0 + 1 + if s[q0] != 0 { 40int } else { 0int }
}

/// Where the rendering flags of a node at `p` are stored (after the optional general
/// transform of sixteen floats).
pub open spec fn node_flags_pos(s: Seq<u8>, p: int) -> int {
    let q1 = node_gt_pos(s, p);
    q1 + 1 + if s[q1] != 0 { 64int } else { 0int }
}

/// End of a node at `p`, or `None` when a field runs past the data.
pub open spec fn node_end(s: Seq<u8>, p: int) -> Option<int> {
    match base_end(s, p) {
        None => None,
        Some(q0) => if q0 + 1 > s.len() || (s[q0] != 0 && q0 + 41 > s.len()) {
            None
        } else {
            let q1 = node_gt_pos(s, p);
            if q1 + 1 > s.len() || (s[q1] != 0 && q1 + 65 > s.len()) {
                None
            } else {
                let q2 = node_flags_pos(s, p);
                if q2 + 8 > s.len() || (s[q2 + 7] != 0 && q2 + 18 > s.len()) {
                    None
                } else {
                    Some(q2 + 8 + if s[q2 + 7] != 0 { 10int } else { 0int })
                }
            }
        },
    }
}

/// `n` is the node stored at `p`; without a component transform the translation is zero,
/// the scale one and the orientation a zero rotation about the x axis.
pub open spec fn node_matches(n: NodeBase, s: Seq<u8>, p: int) -> bool {
    let q0 = base_end(s, p)->0;
    let q1 = node_gt_pos(s, p);
    let q2 = node_flags_pos(s, p);
    &&& base_matches(n.base, s, p)
    &&& if s[q0] != 0 {
        &&& n.translation@ == u32s_at(s, q0 + 1, 3)
        &&& n.scale@ == u32s_at(s, q0 + 13, 3)
        &&& n.orientation_angle == le_u32(s, q0 + 25)
        &&& n.orientation_axis@ == u32s_at(s, q0 + 29, 3)
    } else {
        &&& n.translation@ == seq![0u32, 0u32, 0u32]
        &&& n.scale@ == seq![one_bits(), one_bits(), one_bits()]
        &&& n.orientation_angle == 0
        &&& n.orientation_axis@ == seq![one_bits(), 0u32, 0u32]
    }
    &&& if s[q1] != 0 {
        n.general_transform matches Some(m) && m@ == u32s_at(s, q1 + 1, 16)
    } else {
        n.general_transform is None
    }
    &&& n.enable_rendering == (s[q2] != 0)
    &&& n.enable_picking == (s[q2 + 1] != 0)
    &&& n.alpha_factor == s[q2 + 2]
    &&& n.scope == le_u32(s, q2 + 3)
    &&& if s[q2 + 7] != 0 {
        n.alignment == Some(
            Alignment {
                z_target: s[q2 + 8],
                y_target: s[q2 + 9],
                z_reference: ObjRef(le_u32(s, q2 + 10)),
                y_reference: ObjRef(le_u32(s, q2 + 14)),
            },
        )
    } else {
        n.alignment is None
    }
}

/// Order of the component transform: translation, then scale, then orientation (angle and
/// axis).
#[verifier::spinoff_prover]
#[verifier::rlimit(40)]
pub fn read_node_base(c: &mut Cursor) -> (r: Option<NodeBase>)
    ensures
        final(c).data == old(c).data,
        r is Some <==> node_end(old(c).data@, old(c).pos as int) is Some,
        r matches Some(n) ==> final(c).pos == node_end(old(c).data@, old(c).pos as int)->0
            && node_matches(n, old(c).data@, old(c).pos as int),
{
    let ghost s = c.data@;
    let ghost p = c.pos as int;
    let base = read_object3d_base(c)?;

    let has_component_transform = c.bool()?;
    let (translation, scale, orientation_angle, orientation_axis) = if has_component_transform {
        let t0 = c.f32_bits()?;
        let t1 = c.f32_bits()?;
        let t2 = c.f32_bits()?;
        let s0 = c.f32_bits()?;
        let s1 = c.f32_bits()?;
        let s2 = c.f32_bits()?;
        let angle = c.f32_bits()?;
        let a0 = c.f32_bits()?;
        let a1 = c.f32_bits()?;
        let a2 = c.f32_bits()?;
        ([t0, t1, t2], [s0, s1, s2], angle, [a0, a1, a2])
    } else {
        ([0u32, 0u32, 0u32], [0x3f80_0000u32, 0x3f80_0000u32, 0x3f80_0000u32], 0u32, [0x3f80_0000u32, 0u32, 0u32])
    };
    assert(c.pos == node_gt_pos(s, p));
    let has_general_transform = c.bool()?;
    let general_transform = if has_general_transform {
        let m = c.u32s(16)?;
        Some([
            m[0], m[1], m[2], m[3], m[4], m[5], m[6], m[7],
            m[8], m[9], m[10], m[11], m[12], m[13], m[14], m[15],
        ])
    } else {
        None
    };
    assert(c.pos == node_flags_pos(s, p));

    let enable_rendering = c.bool()?;
    let enable_picking = c.bool()?;
    let alpha_factor = c.u8()?;
    let scope = c.u32()?;
    let has_alignment = c.bool()?;
    let alignment = if has_alignment {
        let z_target = c.u8()?;
        let y_target = c.u8()?;
        let z_reference = c.obj_ref()?;
        let y_reference = c.obj_ref()?;
        Some(Alignment { z_target, y_target, z_reference, y_reference })
    } else {
        None
    };
    let n = NodeBase {
        base,
        enable_rendering,
        enable_picking,
        alpha_factor,
        scope,
        translation,
        orientation_angle,
        orientation_axis,
        scale,
        general_transform,
        alignment,
    };
    proof {
        let q0 = base_end(s, p)->0;
        if has_component_transform {
            assert(n.translation@ =~= u32s_at(s, q0 + 1, 3));
            assert(n.scale@ =~= u32s_at(s, q0 + 13, 3));
            assert(n.orientation_axis@ =~= u32s_at(s, q0 + 29, 3));
        } else {
            assert(n.translation@ =~= seq![0u32, 0u32, 0u32]);
            assert(n.scale@ =~= seq![one_bits(), one_bits(), one_bits()]);
            assert(n.orientation_axis@ =~= seq![one_bits(), 0u32, 0u32]);
        }
        if has_general_transform {
            let q1 = node_gt_pos(s, p);
            assert(n.general_transform->0@ =~= u32s_at(s, q1 + 1, 16));
        }
    }
    Some(n)
}

// ---------------------------------------------------------------------------------------
// Header, AnimationController, AnimationTrack
// ---------------------------------------------------------------------------------------

/// End of a header object at `p`: version, external-references flag, total file size,
/// approximate content size, then a NUL-terminated authoring field.
pub open spec fn header_end(s: Seq<u8>, p: int) -> Option<int> {
    if p + 11 > s.len() {
        None
    } else {
        match first_nul(s, p + 11) {
            Some(n) => Some(n + 1),
            None => None,
        }
    }
}

pub open spec fn header_matches(h: Header, s: Seq<u8>, p: int) -> bool {
    &&& h.version == (s[p], s[p + 1])
    &&& h.has_external_references == (s[p + 2] != 0)
    &&& h.total_file_size == le_u32(s, p + 3)
    &&& h.approximate_content_size == le_u32(s, p + 7)
    &&& h.authoring_field@ == utf8_lossy(s.subrange(p + 11, first_nul(s, p + 11)->0))
}

pub fn read_header(c: &mut Cursor) -> (r: Option<Header>)
    ensures
        final(c).data == old(c).data,
        r is Some <==> header_end(old(c).data@, old(c).pos as int) is Some,
        r matches Some(h) ==> final(c).pos == header_end(old(c).data@, old(c).pos as int)->0
            && header_matches(h, old(c).data@, old(c).pos as int),
{
    let ghost s = c.data@;
    let ghost p = c.pos as int;
    let version_high = c.u8();
    let version_low = c.u8();
    let has_external_references = c.u8();
    let total_file_size = c.u32();
    let approximate_content_size = c.u32();
    if version_high.is_none() || version_low.is_none() || has_external_references.is_none()
        || total_file_size.is_none() || approximate_content_size.is_none() {
        return None;
    }
    let authoring_field = c.string()?;
    Some(Header {
        version: (version_high.unwrap(), version_low.unwrap()),
        has_external_references: has_external_references.unwrap() != 0,
        total_file_size: total_file_size.unwrap(),
        approximate_content_size: approximate_content_size.unwrap(),
        authoring_field,
    })
}

/// End of an animation controller at `p`: the base, then speed, weight, active interval
/// start and end, reference sequence time and reference world time.
pub open spec fn controller_end(s: Seq<u8>, p: int) -> Option<int> {
    match base_end(s, p) {
        Some(q) => if q + 24 <= s.len() {
            Some(q + 24)
        } else {
            None
        },
        None => None,
    }
}

pub open spec fn controller_matches(a: AnimationController, s: Seq<u8>, p: int) -> bool {
    let q = base_end(s, p)->0;
    &&& base_matches(a.base, s, p)
    &&& a.speed == le_u32(s, q)
    &&& a.weight == le_u32(s, q + 4)
    &&& a.active_interval_start == le_u32(s, q + 8)
    &&& a.active_interval_end == le_u32(s, q + 12)
    &&& a.reference_sequence_time == le_u32(s, q + 16)
    &&& a.reference_world_time == le_i32(s, q + 20)
}

pub fn read_animation_controller(c: &mut Cursor) -> (r: Option<AnimationController>)
    ensures
        final(c).data == old(c).data,
        r is Some <==> controller_end(old(c).data@, old(c).pos as int) is Some,
        r matches Some(a) ==> final(c).pos == controller_end(old(c).data@, old(c).pos as int)->0
            && controller_matches(a, old(c).data@, old(c).pos as int),
{
    let base = read_object3d_base(c)?;
    let speed = c.f32_bits()?;
    let weight = c.f32_bits()?;
    let active_interval_start = c.u32()?;
    let active_interval_end = c.u32()?;
    let reference_sequence_time = c.f32_bits()?;
    let reference_world_time = c.i32()?;
    Some(AnimationController {
        base,
        speed,
        weight,
        active_interval_start,
        active_interval_end,
        reference_sequence_time,
        reference_world_time,
    })
}

/// End of an animation track at `p`: the base, then keyframe sequence, animation
/// controller and property id.
pub open spec fn track_end(s: Seq<u8>, p: int) -> Option<int> {
    match base_end(s, p) {
        Some(q) => if q + 12 <= s.len() {
            Some(q + 12)
        } else {
            None
        },
        None => None,
    }
}

pub open spec fn track_matches(t: AnimationTrack, s: Seq<u8>, p: int) -> bool {
    let q = base_end(s, p)->0;
    &&& base_matches(t.base, s, p)
    &&& t.keyframe_sequence == ObjRef(le_u32(s, q))
    &&& t.animation_controller == ObjRef(le_u32(s, q + 4))
    &&& t.property_id == le_u32(s, q + 8)
}

pub fn read_animation_track(c: &mut Cursor) -> (r: Option<AnimationTrack>)
    ensures
        final(c).data == old(c).data,
        r is Some <==> track_end(old(c).data@, old(c).pos as int) is Some,
        r matches Some(t) ==> final(c).pos == track_end(old(c).data@, old(c).pos as int)->0
            && track_matches(t, old(c).data@, old(c).pos as int),
{
    let base = read_object3d_base(c)?;
    let keyframe_sequence = c.obj_ref()?;
    let animation_controller = c.obj_ref()?;
    let property_id = c.u32()?;
    Some(AnimationTrack { base, keyframe_sequence, animation_controller, property_id })
}


// ---------------------------------------------------------------------------------------
// KeyframeSequence
// ---------------------------------------------------------------------------------------

proof fn lemma_mul_step(i: int, st: int)
    ensures
        (i + 1) * st == i * st + st,
{
    assert((i + 1) * st == i * st + st) by (nonlinear_arith);
}

proof fn lemma_mul_mono(i: int, k: int, st: int)
    requires
        0 <= i <= k,
        0 <= st,
    ensures
        i * st <= k * st,
        0 <= i * st,
{
    assert(i * st <= k * st && 0 <= i * st) by (nonlinear_arith)
        requires
            0 <= i <= k,
            0 <= st,
    ;
}

/// Quantized keyframe components: `n` unsigned little-endian 16-bit values (`wide`) or
/// signed bytes, stored from `x` on.
pub open spec fn quantized_at(s: Seq<u8>, x: int, n: int, wide: bool) -> Seq<i32> {
    Seq::new(n as nat, |j: int| if wide { le_u16(s, x + 2 * j) as i32 } else { (s[x + j] as i8) as i32 })
}

/// Bytes taken by one keyframe of `cc` components under `encoding`.
pub open spec fn keyframe_stride(encoding: u8, cc: int) -> int {
    if encoding == 0 {
        4 + 4 * cc
    } else if encoding == 1 {
        4 + 2 * cc
    } else {
        4 + cc
    }
}

/// Where the keyframes of a keyframe sequence whose fixed fields start at `q` begin: after
/// the 23 bytes of fixed fields, and after bias and scale for the quantized encodings.
pub open spec fn keyframes_pos(s: Seq<u8>, q: int) -> int {
    q + 23 + if s[q + 2] == 0 { 0 } else { 8 * le_u32(s, q + 15) }
}

/// End of a keyframe sequence at `p`: the base; interpolation, repeat mode, encoding,
/// duration, valid range, component count, keyframe count; then either keyframes of float
/// components (encoding 0), or bias and scale followed by keyframes of 16-bit (encoding 1)
/// or 8-bit (encoding 2) quantized components. Other encodings are not read.
pub open spec fn keyframe_sequence_end(s: Seq<u8>, p: int) -> Option<int> {
    match base_end(s, p) {
        None => None,
        Some(q) => if q + 23 > s.len() || s[q + 2] > 2 {
            None
        } else {
            let cc = le_u32(s, q + 15) as int;
            let kc = le_u32(s, q + 19) as int;
            let f = keyframes_pos(s, q);
            let st = keyframe_stride(s[q + 2], cc);
            if s[q + 2] != 0 && !can_read(s, q + 23, 8 * cc) {
                None
            } else if !can_read(s, f, kc * st) {
                None
            } else {
                Some(f + kc * st)
            }
        },
    }
}

pub open spec fn keyframe_sequence_matches(k: KeyframeSequence, s: Seq<u8>, p: int) -> bool {
    let q = base_end(s, p)->0;
    let encoding = s[q + 2];
    let cc = le_u32(s, q + 15) as int;
    let kc = le_u32(s, q + 19) as int;
    let f = keyframes_pos(s, q);
    let st = keyframe_stride(encoding, cc);
    &&& base_matches(k.base, s, p)
    &&& k.interpolation == s[q]
    &&& k.repeat_mode == s[q + 1]
    &&& k.duration == le_u32(s, q + 3)
    &&& k.valid_range_first == le_u32(s, q + 7)
    &&& k.valid_range_last == le_u32(s, q + 11)
    &&& k.component_count == cc
    &&& k.keyframe_count == kc
    &&& if encoding == 0 {
        &&& k.data matches KeyframeData::Float(frames)
        &&& frames@.len() == kc
        &&& forall|i: int| #![trigger frames@[i]] 0 <= i < kc ==> {
            &&& frames@[i].0 == le_u32(s, f + i * st)
            &&& frames@[i].1@ == u32s_at(s, f + i * st + 4, cc)
        }
    } else {
        &&& k.data matches KeyframeData::Quantized { bias, scale, frames }
        &&& bias@ == u32s_at(s, q + 23, cc)
        &&& scale@ == u32s_at(s, q + 23 + 4 * cc, cc)
        &&& frames@.len() == kc
        &&& forall|i: int| #![trigger frames@[i]] 0 <= i < kc ==> {
            &&& frames@[i].0 == le_u32(s, f + i * st)
            &&& frames@[i].1@ == quantized_at(s, f + i * st + 4, cc, encoding == 1)
        }
    }
}

/// `n` quantized components: unsigned 16-bit values when `wide`, signed bytes otherwise.
fn read_quantized(c: &mut Cursor, n: usize, wide: bool) -> (r: Option<Vec<i32>>)
    ensures
        final(c).data == old(c).data,
        r is Some <==> can_read(old(c).data@, old(c).pos as int, n * if wide { 2int } else { 1int }),
        r matches Some(v) ==> v@ == quantized_at(old(c).data@, old(c).pos as int, n as int, wide)
            && final(c).pos == old(c).pos + n * if wide { 2int } else { 1int },
{
    let ghost s = c.data@;
    let ghost start = c.pos as int;
    let ghost k: int = if wide { 2 } else { 1 };
    let mut out: Vec<i32> = Vec::new();
    let mut j: usize = 0;
    while j < n
        invariant
            c.data == old(c).data,
            s == c.data@,
            start == old(c).pos,
            k == if wide { 2int } else { 1int },
            j <= n,
            j > 0 ==> c.pos <= s.len(),
            c.pos == start + k * j,
            out@ =~= quantized_at(s, start, j as int, wide),
        decreases n - j,
    {
        let v = if wide {
            let x = c.u16()?;
            x as i32
        } else {
            let x = c.i8()?;
            x as i32
        };
        out.push(v);
        j = j + 1;
    }
    Some(out)
}

/// Reads a keyframe sequence. An encoding other than 0 (floats), 1 (16-bit) or 2 (8-bit
/// quantized components) is not part of the format: the read then returns `None` rather
/// than stopping the program, as it does when a field runs past the data.
pub fn read_keyframe_sequence(c: &mut Cursor) -> (r: Option<KeyframeSequence>)
    ensures
        final(c).data == old(c).data,
        r is Some <==> keyframe_sequence_end(old(c).data@, old(c).pos as int) is Some,
        r matches Some(k) ==> final(c).pos == keyframe_sequence_end(old(c).data@, old(c).pos as int)->0
            && keyframe_sequence_matches(k, old(c).data@, old(c).pos as int),
{
    let ghost s = c.data@;
    let ghost p = c.pos as int;
    let base = read_object3d_base(c)?;
    let ghost q = c.pos as int;
    let interpolation = c.u8();
    let repeat_mode = c.u8();
    let encoding = c.u8();
    let duration = c.u32();
    let valid_range_first = c.u32();
    let valid_range_last = c.u32();
    let component_count = c.u32();
    let keyframe_count = c.u32();
    if interpolation.is_none() || repeat_mode.is_none() || encoding.is_none() || duration.is_none()
        || valid_range_first.is_none() || valid_range_last.is_none() || component_count.is_none()
        || keyframe_count.is_none() {
        return None;
    }
    let interpolation = interpolation.unwrap();
    let repeat_mode = repeat_mode.unwrap();
    let encoding = encoding.unwrap();
    let duration = duration.unwrap();
    let valid_range_first = valid_range_first.unwrap();
    let valid_range_last = valid_range_last.unwrap();
    let component_count = component_count.unwrap() as usize;
    let keyframe_count = keyframe_count.unwrap();
    let ghost cc = component_count as int;
    let ghost kc = keyframe_count as int;

    let data = if encoding == 0 {
        let ghost st = keyframe_stride(encoding, cc);
        let ghost f = c.pos as int;
        let mut frames: Vec<(u32, Vec<u32>)> = Vec::new();
        let mut i: u32 = 0;
        while i < keyframe_count
            invariant
                c.data == old(c).data,
                s == c.data@,
                s == old(c).data@,
                p == old(c).pos,
                base_end(s, p) == Some(q),
                q + 23 <= s.len(),
                encoding == s[q + 2],
                cc == le_u32(s, q + 15),
                kc == le_u32(s, q + 19),
                kc == keyframe_count,
                cc == component_count,
                f == keyframes_pos(s, q),
                st == keyframe_stride(encoding, cc),
                st == 4 + 4 * cc,
                i <= keyframe_count,
                i > 0 ==> c.pos <= s.len(),
                c.pos == f + i * st,
                frames@.len() == i,
                forall|j: int| #![trigger frames@[j]] 0 <= j < i ==> {
                    &&& frames@[j].0 == le_u32(s, f + j * st)
                    &&& frames@[j].1@ == u32s_at(s, f + j * st + 4, cc)
                },
            decreases keyframe_count - i,
        {
            proof {
                lemma_mul_step(i as int, st);
                lemma_mul_mono(i as int + 1, kc, st);
            }
            let time = c.u32()?;
            let comps = c.u32s(component_count)?;
            frames.push((time, comps));
            i = i + 1;
        }
        KeyframeData::Float(frames)
    } else if encoding == 1 || encoding == 2 {
        let bias = c.u32s(component_count)?;
        let scale = c.u32s(component_count)?;
        let wide = encoding == 1;
        let ghost st = keyframe_stride(encoding, cc);
        let ghost f = c.pos as int;
        assert(f == keyframes_pos(s, q));
        let mut frames: Vec<(u32, Vec<i32>)> = Vec::new();
        let mut i: u32 = 0;
        while i < keyframe_count
            invariant
                c.data == old(c).data,
                s == c.data@,
                s == old(c).data@,
                p == old(c).pos,
                base_end(s, p) == Some(q),
                q + 23 <= s.len(),
                encoding == s[q + 2],
                cc == le_u32(s, q + 15),
                kc == le_u32(s, q + 19),
                kc == keyframe_count,
                cc == component_count,
                wide == (encoding == 1),
                encoding == 1 || encoding == 2,
                can_read(s, q + 23, 8 * cc),
                f == keyframes_pos(s, q),
                st == keyframe_stride(encoding, cc),
                st == 4 + cc * if wide { 2int } else { 1int },
                i <= keyframe_count,
                i > 0 ==> c.pos <= s.len(),
                c.pos == f + i * st,
                frames@.len() == i,
                forall|j: int| #![trigger frames@[j]] 0 <= j < i ==> {
                    &&& frames@[j].0 == le_u32(s, f + j * st)
                    &&& frames@[j].1@ == quantized_at(s, f + j * st + 4, cc, wide)
                },
            decreases keyframe_count - i,
        {
            proof {
                lemma_mul_step(i as int, st);
                lemma_mul_mono(i as int + 1, kc, st);
            }
            let time = c.u32()?;
            let comps = read_quantized(c, component_count, wide)?;
            frames.push((time, comps));
            i = i + 1;
        }
        KeyframeData::Quantized { bias, scale, frames }
    } else {
        return None;
    };

    Some(KeyframeSequence {
        base,
        interpolation,
        repeat_mode,
        duration,
        valid_range_first,
        valid_range_last,
        component_count: component_count as u32,
        keyframe_count,
        data,
    })
}


// ---------------------------------------------------------------------------------------
// Image2D, Appearance
// ---------------------------------------------------------------------------------------

/// End of an image at `p`: the base; format, mutability flag, width, height; then, for an
/// immutable image, a length-prefixed palette and a length-prefixed pixel array (ranges of
/// the buffer that are not checked against its length).
pub open spec fn image2d_end(s: Seq<u8>, p: int) -> Option<int> {
    match base_end(s, p) {
        None => None,
        Some(q) => if q + 10 > s.len() {
            None
        } else if s[q + 1] != 0 {
            Some(q + 10)
        } else {
            let r = q + 10;
            let pl = le_u32(s, r) as int;
            if r + 4 > s.len() || r + 4 + pl > usize::MAX {
                None
            } else {
                let r2 = r + 4 + pl;
                let xl = le_u32(s, r2) as int;
                if r2 + 4 > s.len() || r2 + 4 + xl > usize::MAX {
                    None
                } else {
                    Some(r2 + 4 + xl)
                }
            }
        },
    }
}

pub open spec fn image2d_matches(im: Image2D, s: Seq<u8>, p: int) -> bool {
    let q = base_end(s, p)->0;
    let r = q + 10;
    let pl = le_u32(s, r) as int;
    let r2 = r + 4 + pl;
    let xl = le_u32(s, r2) as int;
    &&& base_matches(im.base, s, p)
    &&& im.format == s[q]
    &&& im.is_mutable == (s[q + 1] != 0)
    &&& im.width == le_u32(s, q + 2)
    &&& im.height == le_u32(s, q + 6)
    &&& if s[q + 1] != 0 {
        im.palette is Empty && im.pixels is Empty
    } else {
        borrows(im.palette, s, r + 4, r + 4 + pl) && borrows(im.pixels, s, r2 + 4, r2 + 4 + xl)
    }
}

pub fn read_image2d(c: &mut Cursor) -> (r: Option<Image2D>)
    ensures
        final(c).data == old(c).data,
        r is Some <==> image2d_end(old(c).data@, old(c).pos as int) is Some,
        r matches Some(im) ==> final(c).pos == image2d_end(old(c).data@, old(c).pos as int)->0
            && image2d_matches(im, old(c).data@, old(c).pos as int),
{
    let base = read_object3d_base(c)?;
    let format = c.u8();
    let is_mutable = c.u8();
    let width = c.u32();
    let height = c.u32();
    if format.is_none() || is_mutable.is_none() || width.is_none() || height.is_none() {
        return None;
    }
    let format = format.unwrap();
    let is_mutable = is_mutable.unwrap() != 0;
    let width = width.unwrap();
    let height = height.unwrap();
    let (palette, pixels) = if is_mutable {
        (ImageBytes::Empty, ImageBytes::Empty)
    } else {
        let palette_len = c.u32()? as usize;
        let palette_range = c.range(palette_len)?;
        let palette = ImageBytes::Borrowed(c.data.clone(), palette_range);

        let pixels_len = c.u32()? as usize;
        let pixels_range = c.range(pixels_len)?;
        let pixels = ImageBytes::Borrowed(c.data.clone(), pixels_range);
        (palette, pixels)
    };
    Some(Image2D { base, format, is_mutable, width, height, palette, pixels })
}

/// End of an appearance at `p`: the base; layer, compositing mode, fog, polygon mode,
/// material, texture count; then that many texture references.
pub open spec fn appearance_end(s: Seq<u8>, p: int) -> Option<int> {
    match base_end(s, p) {
        None => None,
        Some(q) => {
            let tc = le_u32(s, q + 17) as int;
            if q + 21 > s.len() || !can_read(s, q + 21, 4 * tc) {
                None
            } else {
                Some(q + 21 + 4 * tc)
            }
        },
    }
}

pub open spec fn appearance_matches(a: Appearance, s: Seq<u8>, p: int) -> bool {
    let q = base_end(s, p)->0;
    &&& base_matches(a.base, s, p)
    &&& a.layer == s[q] as i8
    &&& a.compositing_mode == ObjRef(le_u32(s, q + 1))
    &&& a.fog == ObjRef(le_u32(s, q + 5))
    &&& a.polygon_mode == ObjRef(le_u32(s, q + 9))
    &&& a.material == ObjRef(le_u32(s, q + 13))
    &&& a.textures@ == obj_refs_at(s, q + 21, le_u32(s, q + 17) as int)
}

pub fn read_appearance(c: &mut Cursor) -> (r: Option<Appearance>)
    ensures
        final(c).data == old(c).data,
        r is Some <==> appearance_end(old(c).data@, old(c).pos as int) is Some,
        r matches Some(a) ==> final(c).pos == appearance_end(old(c).data@, old(c).pos as int)->0
            && appearance_matches(a, old(c).data@, old(c).pos as int),
{
    let base = read_object3d_base(c)?;
    let layer = c.i8();
    let compositing_mode = c.obj_ref();
    let fog = c.obj_ref();
    let polygon_mode = c.obj_ref();
    let material = c.obj_ref();
    let tex_count = c.u32();
    if layer.is_none() || compositing_mode.is_none() || fog.is_none() || polygon_mode.is_none()
        || material.is_none() || tex_count.is_none() {
        return None;
    }
    let textures = c.obj_refs(tex_count.unwrap())?;
    Some(Appearance {
        base,
        layer: layer.unwrap(),
        compositing_mode: compositing_mode.unwrap(),
        fog: fog.unwrap(),
        polygon_mode: polygon_mode.unwrap(),
        material: material.unwrap(),
        textures,
    })
}

// ---------------------------------------------------------------------------------------
// Group, Mesh, SkinnedMesh
// ---------------------------------------------------------------------------------------

/// End of a group at `p`: the node, a child count and that many child references.
pub open spec fn group_end(s: Seq<u8>, p: int) -> Option<int> {
    match node_end(s, p) {
        None => None,
        Some(q) => {
            let n = le_u32(s, q) as int;
            if q + 4 > s.len() || !can_read(s, q + 4, 4 * n) {
                None
            } else {
                Some(q + 4 + 4 * n)
            }
        },
    }
}

pub open spec fn group_matches(g: Group, s: Seq<u8>, p: int) -> bool {
    let q = node_end(s, p)->0;
    &&& node_matches(g.node, s, p)
    &&& g.children@ == obj_refs_at(s, q + 4, le_u32(s, q) as int)
}

pub fn read_group(c: &mut Cursor) -> (r: Option<Group>)
    ensures
        final(c).data == old(c).data,
        r is Some <==> group_end(old(c).data@, old(c).pos as int) is Some,
        r matches Some(g) ==> final(c).pos == group_end(old(c).data@, old(c).pos as int)->0
            && group_matches(g, old(c).data@, old(c).pos as int),
{
    let node = read_node_base(c)?;
    let child_count = c.u32()?;
    let children = c.obj_refs(child_count)?;
    Some(Group { node, children })
}

/// The submeshes stored from `x` on (index buffer and appearance references, 8 bytes each).
pub open spec fn submeshes_at(s: Seq<u8>, x: int, n: int) -> Seq<SubMesh> {
    Seq::new(
        n as nat,
        |i: int| SubMesh { index_buffer: ObjRef(le_u32(s, x + 8 * i)), appearance: ObjRef(le_u32(s, x + 8 * i + 4)) },
    )
}

/// End of a mesh at `p`: the node, a vertex buffer reference, a submesh count and that many
/// submeshes.
pub open spec fn mesh_end(s: Seq<u8>, p: int) -> Option<int> {
    match node_end(s, p) {
        None => None,
        Some(q) => {
            let n = le_u32(s, q + 4) as int;
            if q + 8 > s.len() || !can_read(s, q + 8, 8 * n) {
                None
            } else {
                Some(q + 8 + 8 * n)
            }
        },
    }
}

pub open spec fn mesh_matches(m: Mesh, s: Seq<u8>, p: int) -> bool {
    let q = node_end(s, p)->0;
    &&& node_matches(m.node, s, p)
    &&& m.vertex_buffer == ObjRef(le_u32(s, q))
    &&& m.submeshes@ == submeshes_at(s, q + 8, le_u32(s, q + 4) as int)
}

pub fn read_mesh_common(c: &mut Cursor) -> (r: Option<Mesh>)
    ensures
        final(c).data == old(c).data,
        r is Some <==> mesh_end(old(c).data@, old(c).pos as int) is Some,
        r matches Some(m) ==> final(c).pos == mesh_end(old(c).data@, old(c).pos as int)->0
            && mesh_matches(m, old(c).data@, old(c).pos as int),
{
    let ghost s = c.data@;
    let ghost p = c.pos as int;
    let node = read_node_base(c)?;
    let ghost q = c.pos as int;
    let vertex_buffer = c.obj_ref()?;
    let submesh_count = c.u32()?;
    let ghost x = c.pos as int;
    let mut submeshes: Vec<SubMesh> = Vec::new();
    let mut i: u32 = 0;
    while i < submesh_count
        invariant
            c.data == old(c).data,
            s == c.data@,
            s == old(c).data@,
            p == old(c).pos,
            node_end(s, p) == Some(q),
            x == q + 8,
            submesh_count == le_u32(s, q + 4),
            i <= submesh_count,
            i > 0 ==> c.pos <= s.len(),
            c.pos == x + 8 * i,
            submeshes@ =~= submeshes_at(s, x, i as int),
        decreases submesh_count - i,
    {
        let index_buffer = c.obj_ref()?;
        let appearance = c.obj_ref()?;
        submeshes.push(SubMesh { index_buffer, appearance });
        i = i + 1;
    }
    Some(Mesh { node, vertex_buffer, submeshes })
}

/// The bone references stored from `x` on (bone, first vertex, vertex count, weight; 16
/// bytes each).
pub open spec fn bones_at(s: Seq<u8>, x: int, n: int) -> Seq<BoneRef> {
    Seq::new(
        n as nat,
        |i: int|
            BoneRef {
                bone: ObjRef(le_u32(s, x + 16 * i)),
                first_vertex: le_u32(s, x + 16 * i + 4),
                vertex_count: le_u32(s, x + 16 * i + 8),
                weight: le_i32(s, x + 16 * i + 12),
            },
    )
}

/// End of a skinned mesh at `p`: the mesh, a skeleton reference, a bone count and that many
/// bone references.
pub open spec fn skinned_mesh_end(s: Seq<u8>, p: int) -> Option<int> {
    match mesh_end(s, p) {
        None => None,
        Some(q) => {
            let n = le_u32(s, q + 4) as int;
            if q + 8 > s.len() || !can_read(s, q + 8, 16 * n) {
                None
            } else {
                Some(q + 8 + 16 * n)
            }
        },
    }
}

pub open spec fn skinned_mesh_matches(m: SkinnedMesh, s: Seq<u8>, p: int) -> bool {
    let q = mesh_end(s, p)->0;
    &&& mesh_matches(m.mesh, s, p)
    &&& m.skeleton == ObjRef(le_u32(s, q))
    &&& m.bones@ == bones_at(s, q + 8, le_u32(s, q + 4) as int)
}

pub fn read_skinned_mesh(c: &mut Cursor) -> (r: Option<SkinnedMesh>)
    ensures
        final(c).data == old(c).data,
        r is Some <==> skinned_mesh_end(old(c).data@, old(c).pos as int) is Some,
        r matches Some(m) ==> final(c).pos == skinned_mesh_end(old(c).data@, old(c).pos as int)->0
            && skinned_mesh_matches(m, old(c).data@, old(c).pos as int),
{
    let ghost s = c.data@;
    let ghost p = c.pos as int;
    let mesh = read_mesh_common(c)?;
    let ghost q = c.pos as int;
    let skeleton = c.obj_ref()?;
    let bone_ref_count = c.u32()?;
    let ghost x = c.pos as int;
    let mut bones: Vec<BoneRef> = Vec::new();
    let mut i: u32 = 0;
    while i < bone_ref_count
        invariant
            c.data == old(c).data,
            s == c.data@,
            s == old(c).data@,
            p == old(c).pos,
            mesh_end(s, p) == Some(q),
            x == q + 8,
            bone_ref_count == le_u32(s, q + 4),
            i <= bone_ref_count,
            i > 0 ==> c.pos <= s.len(),
            c.pos == x + 16 * i,
            bones@ =~= bones_at(s, x, i as int),
        decreases bone_ref_count - i,
    {
        let bone = c.obj_ref()?;
        let first_vertex = c.u32()?;
        let vertex_count = c.u32()?;
        let weight = c.i32()?;
        bones.push(BoneRef { bone, first_vertex, vertex_count, weight });
        i = i + 1;
    }
    Some(SkinnedMesh { mesh, skeleton, bones })
}


// ---------------------------------------------------------------------------------------
// TriangleStripArray
// ---------------------------------------------------------------------------------------

/// Sum of a sequence of `u32`s.
pub open spec fn seq_sum(v: Seq<u32>) -> int
    decreases v.len(),
{
    if v.len() == 0 {
        0
    } else {
        seq_sum(v.drop_last()) + v.last()
    }
}

/// Byte width of the explicit indices of an index encoding (`0` for implicit indices).
pub open spec fn explicit_width(encoding: u8) -> int {
    if encoding == 0x80 {
        4
    } else if encoding == 0x81 {
        1
    } else if encoding == 0x82 {
        2
    } else {
        0
    }
}

/// End of the index part of a triangle strip array whose encoding byte is at `q`:
/// encodings 0, 1 and 2 store a first index as a `u32`, a `u8` or a little-endian `u16`;
/// 0x80, 0x81 and 0x82 store an index count and that many `u32`, `u8` or `u16` indices (a
/// range of the buffer that is not checked against its length); other encodings store
/// nothing.
pub open spec fn indices_end(s: Seq<u8>, q: int) -> Option<int> {
    let e = s[q];
    let r = q + 1;
    if e == 0 {
        if r + 4 <= s.len() { Some(r + 4) } else { None }
    } else if e == 1 {
        if r + 1 <= s.len() { Some(r + 1) } else { None }
    } else if e == 2 {
        if r + 2 <= s.len() { Some(r + 2) } else { None }
    } else if explicit_width(e) != 0 {
        let bytes = explicit_width(e) * le_u32(s, r);
        if r + 4 > s.len() || bytes > usize::MAX || r + 4 + bytes > usize::MAX {
            None
        } else {
            Some(r + 4 + bytes)
        }
    } else {
        Some(r)
    }
}

/// The implicit first index of encodings 0, 1 and 2 (0 for any other encoding).
pub open spec fn first_index(s: Seq<u8>, q: int) -> u32 {
    if s[q] == 0 {
        le_u32(s, q + 1)
    } else if s[q] == 1 {
        s[q + 1] as u32
    } else if s[q] == 2 {
        le_u16(s, q + 1) as u32
    } else {
        0
    }
}

/// End of a triangle strip array at `p`: the base, an encoding byte, the index part, a
/// strip count and that many strip lengths; with implicit indices the strip lengths must
/// sum to a `u32`.
pub open spec fn triangle_strips_end(s: Seq<u8>, p: int) -> Option<int> {
    match base_end(s, p) {
        None => None,
        Some(q) => if q + 1 > s.len() {
            None
        } else {
            match indices_end(s, q) {
                None => None,
                Some(r) => {
                    let sc = le_u32(s, r) as int;
                    if r + 4 > s.len() || !can_read(s, r + 4, 4 * sc) {
                        None
                    } else if explicit_width(s[q]) == 0 && seq_sum(u32s_at(s, r + 4, sc)) > u32::MAX {
                        None
                    } else {
                        Some(r + 4 + 4 * sc)
                    }
                },
            }
        },
    }
}

/// `d` is `Borrowed`-like index data over a buffer holding `s`, covering `start..end`.
pub open spec fn index_range_is(d: IndexData, s: Seq<u8>, width: int, start: int, end: int) -> bool {
    match d {
        IndexData::BorrowedU32(buf, r) => width == 4 && buf@ == s && r.start == start && r.end == end,
        IndexData::BorrowedU8(buf, r) => width == 1 && buf@ == s && r.start == start && r.end == end,
        IndexData::BorrowedU16(buf, r) => width == 2 && buf@ == s && r.start == start && r.end == end,
        IndexData::Implicit { .. } => false,
    }
}

pub open spec fn triangle_strips_matches(b: IndexBuffer, s: Seq<u8>, p: int) -> bool {
    let q = base_end(s, p)->0;
    let e = s[q];
    let r = indices_end(s, q)->0;
    let lengths = u32s_at(s, r + 4, le_u32(s, r) as int);
    &&& base_matches(b.base, s, p)
    &&& b.data matches IndexBufferData::TriangleStrips { strip_lengths, indices }
    &&& strip_lengths@ == lengths
    &&& if explicit_width(e) != 0 {
        index_range_is(indices, s, explicit_width(e), q + 5, r)
    } else {
        indices == IndexData::Implicit { first: first_index(s, q), count: seq_sum(lengths) as u32 }
    }
}

/// Sum of strip lengths, `None` when it exceeds `u32::MAX`.
fn sum_lengths(v: &Vec<u32>) -> (r: Option<u32>)
    ensures
        r is Some <==> seq_sum(v@) <= u32::MAX,
        r matches Some(t) ==> t == seq_sum(v@),
{
    let mut total: u32 = 0;
    let mut i: usize = 0;
    while i < v.len()
        invariant
            i <= v@.len(),
            total == seq_sum(v@.take(i as int)),
        decreases v@.len() - i,
    {
        assert(v@.take(i as int + 1).drop_last() =~= v@.take(i as int));
        if total > u32::MAX - v[i] {
            proof {
                lemma_seq_sum_prefix(v@, i as int + 1);
            }
            return None;
        }
        total = total + v[i];
        i = i + 1;
    }
    assert(v@.take(i as int) =~= v@);
    Some(total)
}

proof fn lemma_seq_sum_prefix(v: Seq<u32>, k: int)
    requires
        0 <= k <= v.len(),
    ensures
        seq_sum(v.take(k)) <= seq_sum(v),
    decreases v.len(),
{
    if k < v.len() {
        assert(v.drop_last().take(k) =~= v.take(k));
        lemma_seq_sum_prefix(v.drop_last(), k);
    } else {
        assert(v.take(k) =~= v);
    }
}

/// Decodes a `TriangleStripArray` (the only `IndexBuffer` subtype in JSR184): an encoding
/// byte selects an implicit first index (0/1/2: `u32`/`u8`/`u16`) or an explicit index list
/// (0x80/0x81/0x82), and a strip-length list always follows. Implicit strips are
/// `first, first + 1, ...`, as many indices as the strip lengths add up to.
pub fn read_triangle_strip_array(c: &mut Cursor) -> (r: Option<IndexBuffer>)
    ensures
        final(c).data == old(c).data,
        r is Some <==> triangle_strips_end(old(c).data@, old(c).pos as int) is Some,
        r matches Some(b) ==> final(c).pos == triangle_strips_end(old(c).data@, old(c).pos as int)->0
            && triangle_strips_matches(b, old(c).data@, old(c).pos as int),
{
    let ghost s = c.data@;
    let ghost p = c.pos as int;
    let base = read_object3d_base(c)?;
    let encoding = c.u8()?;

    let mut explicit_indices: Option<IndexData> = None;
    let mut first_index: Option<u32> = None;
    if encoding == 0 {
        first_index = Some(c.u32()?);
    } else if encoding == 1 {
        first_index = Some(c.u8()? as u32);
    } else if encoding == 2 {
        first_index = Some(c.u16_le()? as u32);
    } else if encoding == 0x80 {
        let n = c.u32()? as usize;
        let range = c.range(n.checked_mul(4)?)?;
        explicit_indices = Some(IndexData::BorrowedU32(c.data.clone(), range));
    } else if encoding == 0x81 {
        let n = c.u32()? as usize;
        let range = c.range(n)?;
        explicit_indices = Some(IndexData::BorrowedU8(c.data.clone(), range));
    } else if encoding == 0x82 {
        let n = c.u32()? as usize;
        let range = c.range(n.checked_mul(2)?)?;
        explicit_indices = Some(IndexData::BorrowedU16(c.data.clone(), range));
    }

    let strip_length_count = c.u32()? as usize;
    let strip_lengths = c.u32s(strip_length_count)?;

    let indices = if let Some(indices) = explicit_indices {
        indices
    } else {
        let first = match first_index {
            Some(f) => f,
            None => 0,
        };
        let total = sum_lengths(&strip_lengths)?;
        IndexData::Implicit { first, count: total }
    };

    Some(IndexBuffer { base, data: IndexBufferData::TriangleStrips { strip_lengths, indices } })
}

// ---------------------------------------------------------------------------------------
// TexCoordArray, VertexBuffer
// ---------------------------------------------------------------------------------------

/// End of a texture-coordinate binding at `t`: an array reference, then bias (three floats)
/// and scale unless the reference is null.
pub open spec fn tex_coord_end(s: Seq<u8>, t: int) -> Option<int> {
    if t + 4 > s.len() {
        None
    } else if le_u32(s, t) == 0 {
        Some(t + 4)
    } else if t + 20 > s.len() {
        None
    } else {
        Some(t + 20)
    }
}

pub open spec fn tex_coord_matches(a: TexCoordArray, s: Seq<u8>, t: int) -> bool {
    if le_u32(s, t) == 0 {
        a.array == ObjRef(0) && a.bias@ == seq![0u32, 0u32, 0u32] && a.scale == 0
    } else {
        a.array == ObjRef(le_u32(s, t)) && a.bias@ == u32s_at(s, t + 4, 3) && a.scale == le_u32(s, t + 16)
    }
}

pub fn read_tex_coord_array(c: &mut Cursor) -> (r: Option<TexCoordArray>)
    ensures
        final(c).data == old(c).data,
        r is Some <==> tex_coord_end(old(c).data@, old(c).pos as int) is Some,
        r matches Some(a) ==> final(c).pos == tex_coord_end(old(c).data@, old(c).pos as int)->0
            && tex_coord_matches(a, old(c).data@, old(c).pos as int),
{
    let array = c.obj_ref()?;
    if array.is_null() {
        let a = TexCoordArray { array: ObjRef(0), bias: [0u32, 0u32, 0u32], scale: 0 };
        assert(a.bias@ =~= seq![0u32, 0u32, 0u32]);
        return Some(a);
    }
    let b0 = c.f32_bits();
    let b1 = c.f32_bits();
    let b2 = c.f32_bits();
    let scale = c.f32_bits();
    if b0.is_none() || b1.is_none() || b2.is_none() || scale.is_none() {
        return None;
    }
    let a = TexCoordArray { array, bias: [b0.unwrap(), b1.unwrap(), b2.unwrap()], scale: scale.unwrap() };
    assert(a.bias@ =~= u32s_at(old(c).data@, old(c).pos + 4, 3));
    Some(a)
}

/// End of the first `n` texture-coordinate bindings that start at `t`.
pub open spec fn tex_coords_end(s: Seq<u8>, t: int, n: nat) -> Option<int>
    decreases n,
{
    if n == 0 {
        Some(t)
    } else {
        match tex_coords_end(s, t, (n - 1) as nat) {
            Some(u) => tex_coord_end(s, u),
            None => None,
        }
    }
}

pub(crate) proof fn lemma_tex_coords_end_prefix(s: Seq<u8>, t: int, i: nat, n: nat)
    requires
        i <= n,
        tex_coords_end(s, t, n) is Some,
    ensures
        tex_coords_end(s, t, i) is Some,
    decreases n,
{
    if i < n {
        lemma_tex_coords_end_prefix(s, t, i, (n - 1) as nat);
    }
}

/// Where the normals reference of a vertex buffer at `p` is stored: after the base, the
/// default colour, the positions reference and (for non-null positions) bias and scale.
pub open spec fn vertex_buffer_normals_pos(s: Seq<u8>, p: int) -> int {
    let q = base_end(s, p)->0;
    q + 8 + if le_u32(s, q + 4) != 0 { 16int } else { 0int }
}

/// End of a vertex buffer at `p`: the base; default colour; positions reference with bias
/// and scale; normals and colours references; a texture-coordinate count and that many
/// texture-coordinate bindings.
pub open spec fn vertex_buffer_end(s: Seq<u8>, p: int) -> Option<int> {
    match base_end(s, p) {
        None => None,
        Some(q) => if q + 8 > s.len() || (le_u32(s, q + 4) != 0 && q + 24 > s.len()) {
            None
        } else {
            let r = vertex_buffer_normals_pos(s, p);
            if r + 12 > s.len() {
                None
            } else {
                tex_coords_end(s, r + 12, le_u32(s, r + 8) as nat)
            }
        },
    }
}

pub open spec fn vertex_buffer_matches(v: VertexBuffer, s: Seq<u8>, p: int) -> bool {
    let q = base_end(s, p)->0;
    let r = vertex_buffer_normals_pos(s, p);
    let n = le_u32(s, r + 8) as int;
    &&& base_matches(v.base, s, p)
    &&& v.default_color@ == s.subrange(q, q + 4)
    &&& v.positions == ObjRef(le_u32(s, q + 4))
    &&& if le_u32(s, q + 4) == 0 {
        v.position_bias@ == seq![0u32, 0u32, 0u32] && v.position_scale == one_bits()
    } else {
        v.position_bias@ == u32s_at(s, q + 8, 3) && v.position_scale == le_u32(s, q + 20)
    }
    &&& v.normals == ObjRef(le_u32(s, r))
    &&& v.colors == ObjRef(le_u32(s, r + 4))
    &&& v.tex_coords@.len() == n
    &&& forall|i: int| #![trigger v.tex_coords@[i]] 0 <= i < n ==> tex_coord_matches(
        v.tex_coords@[i],
        s,
        tex_coords_end(s, r + 12, i as nat)->0,
    )
}

pub fn read_vertex_buffer(c: &mut Cursor) -> (r: Option<VertexBuffer>)
    ensures
        final(c).data == old(c).data,
        r is Some <==> vertex_buffer_end(old(c).data@, old(c).pos as int) is Some,
        r matches Some(v) ==> final(c).pos == vertex_buffer_end(old(c).data@, old(c).pos as int)->0
            && vertex_buffer_matches(v, old(c).data@, old(c).pos as int),
{
    let ghost s = c.data@;
    let ghost p = c.pos as int;
    let base = read_object3d_base(c)?;
    let ghost q = c.pos as int;
    let default_color = {
        let b = c.bytes(4);
        if b.is_none() {
            return None;
        }
        let b = b.unwrap();
        [b[0], b[1], b[2], b[3]]
    };
    let positions = c.obj_ref()?;
    let (position_bias, position_scale) = if positions.is_null() {
        ([0u32, 0u32, 0u32], 0x3f80_0000u32)
    } else {
        let b0 = c.f32_bits();
        let b1 = c.f32_bits();
        let b2 = c.f32_bits();
        let scale = c.f32_bits();
        if b0.is_none() || b1.is_none() || b2.is_none() || scale.is_none() {
            return None;
        }
        ([b0.unwrap(), b1.unwrap(), b2.unwrap()], scale.unwrap())
    };
    let normals = c.obj_ref()?;
    let colors = c.obj_ref()?;
    let tex_coord_count = c.u32()?;
    let ghost t = c.pos as int;
    let mut tex_coords: Vec<TexCoordArray> = Vec::new();
    let mut i: u32 = 0;
    while i < tex_coord_count
        invariant
            c.data == old(c).data,
            s == c.data@,
            s == old(c).data@,
            p == old(c).pos,
            base_end(s, p) == Some(q),
            q + 8 <= s.len(),
            t == vertex_buffer_normals_pos(s, p) + 12,
            t <= s.len(),
            tex_coord_count == le_u32(s, t - 4),
            i <= tex_coord_count,
            tex_coords_end(s, t, i as nat) == Some(c.pos as int),
            tex_coords@.len() == i,
            forall|j: int| #![trigger tex_coords@[j]] 0 <= j < i ==> tex_coord_matches(
                tex_coords@[j],
                s,
                tex_coords_end(s, t, j as nat)->0,
            ),
        decreases tex_coord_count - i,
    {
        let a = read_tex_coord_array(c);
        if a.is_none() {
            proof {
                if tex_coords_end(s, t, tex_coord_count as nat) is Some {
                    lemma_tex_coords_end_prefix(s, t, (i + 1) as nat, tex_coord_count as nat);
                }
            }
            return None;
        }
        tex_coords.push(a.unwrap());
        i = i + 1;
    }
    let v = VertexBuffer {
        base,
        default_color,
        positions,
        position_bias,
        position_scale,
        normals,
        colors,
        tex_coords,
    };
    proof {
        assert(v.default_color@ =~= s.subrange(q, q + 4));
        if le_u32(s, q + 4) == 0 {
            assert(v.position_bias@ =~= seq![0u32, 0u32, 0u32]);
        } else {
            assert(v.position_bias@ =~= u32s_at(s, q + 8, 3));
        }
    }
    Some(v)
}

}

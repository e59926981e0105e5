//! The file level of M3G: the magic number, sections (possibly zlib-compressed) and the
//! object records inside them.
use std::rc::Rc;
use vstd::prelude::*;
use crate::le::{le_u32, read_u32_le};
use crate::m3g::cursor::Cursor;
use crate::m3g::objects::{
    header_end, header_matches, read_header, controller_end, controller_matches,
    read_animation_controller, track_end, track_matches, read_animation_track, appearance_end,
    appearance_matches, read_appearance, group_end, group_matches, read_group, image2d_end,
    image2d_matches, read_image2d, triangle_strips_end, triangle_strips_matches,
    read_triangle_strip_array, mesh_end, mesh_matches, read_mesh_common, skinned_mesh_end,
    skinned_mesh_matches, read_skinned_mesh, keyframe_sequence_end, keyframe_sequence_matches,
    read_keyframe_sequence, vertex_buffer_end, vertex_buffer_matches, read_vertex_buffer,
};
use crate::m3g::vertex_array::{vertex_array_end, vertex_array_matches, read_vertex_array};
use crate::m3g::{Object, M3GFile, lemma_buffer_len};

verus! {

// ---------------------------------------------------------------------------------------
// Objects
// ---------------------------------------------------------------------------------------

/// The object reader for type `t` succeeds on the object bytes `s` (types without a reader
/// always succeed).
pub open spec fn object_ok(t: u8, s: Seq<u8>) -> bool {
    if t == 0 {
        header_end(s, 0) is Some
    } else if t == 1 {
        controller_end(s, 0) is Some
    } else if t == 2 {
        track_end(s, 0) is Some
    } else if t == 3 {
        appearance_end(s, 0) is Some
    } else if t == 9 {
        group_end(s, 0) is Some
    } else if t == 10 {
        image2d_end(s, 0) is Some
    } else if t == 11 {
        triangle_strips_end(s, 0) is Some
    } else if t == 14 {
        mesh_end(s, 0) is Some
    } else if t == 16 {
        skinned_mesh_end(s, 0) is Some
    } else if t == 19 {
        keyframe_sequence_end(s, 0) is Some
    } else if t == 20 {
        vertex_array_end(s, 0) is Some
    } else if t == 21 {
        vertex_buffer_end(s, 0) is Some
    } else {
        true
    }
}

/// `o` is the object of type `t` stored in the bytes `s`; types without a reader are kept
/// as raw bytes.
pub open spec fn object_matches(o: Object, t: u8, s: Seq<u8>) -> bool {
    if t == 0 {
        o matches Object::Header(h) && header_matches(h, s, 0)
    } else if t == 1 {
        o matches Object::AnimationController(a) && controller_matches(a, s, 0)
    } else if t == 2 {
        o matches Object::AnimationTrack(a) && track_matches(a, s, 0)
    } else if t == 3 {
        o matches Object::Appearance(a) && appearance_matches(a, s, 0)
    } else if t == 9 {
        o matches Object::Group(g) && group_matches(g, s, 0)
    } else if t == 10 {
        o matches Object::Image2D(im) && image2d_matches(im, s, 0)
    } else if t == 11 {
        o matches Object::TriangleStripArray(b) && triangle_strips_matches(b, s, 0)
    } else if t == 14 {
        o matches Object::Mesh(m) && mesh_matches(m, s, 0)
    } else if t == 16 {
        o matches Object::SkinnedMesh(m) && skinned_mesh_matches(m, s, 0)
    } else if t == 19 {
        o matches Object::KeyframeSequence(k) && keyframe_sequence_matches(k, s, 0)
    } else if t == 20 {
        o matches Object::VertexArray(a) && vertex_array_matches(a, s, 0)
    } else if t == 21 {
        o matches Object::VertexBuffer(v) && vertex_buffer_matches(v, s, 0)
    } else {
        o matches Object::Unsupported { object_type, data } && object_type == t && data@ == s
    }
}

/// Reads the object of type `object_type` stored in `data`.
fn read_object(object_type: u8, data: &[u8]) -> (r: Option<Object>)
    ensures
        r is Some <==> object_ok(object_type, data@),
        r matches Some(o) ==> object_matches(o, object_type, data@),
{
    let mut c = Cursor::new(Rc::new(vstd::slice::slice_to_vec(data)));
    if object_type == 0 {
        Some(Object::Header(read_header(&mut c)?))
    } else if object_type == 1 {
        Some(Object::AnimationController(read_animation_controller(&mut c)?))
    } else if object_type == 2 {
        Some(Object::AnimationTrack(read_animation_track(&mut c)?))
    } else if object_type == 3 {
        Some(Object::Appearance(read_appearance(&mut c)?))
    } else if object_type == 9 {
        Some(Object::Group(read_group(&mut c)?))
    } else if object_type == 10 {
        Some(Object::Image2D(read_image2d(&mut c)?))
    } else if object_type == 11 {
        Some(Object::TriangleStripArray(read_triangle_strip_array(&mut c)?))
    } else if object_type == 14 {
        Some(Object::Mesh(read_mesh_common(&mut c)?))
    } else if object_type == 16 {
        Some(Object::SkinnedMesh(read_skinned_mesh(&mut c)?))
    } else if object_type == 19 {
        Some(Object::KeyframeSequence(read_keyframe_sequence(&mut c)?))
    } else if object_type == 20 {
        Some(Object::VertexArray(read_vertex_array(&mut c)?))
    } else if object_type == 21 {
        Some(Object::VertexBuffer(read_vertex_buffer(&mut c)?))
    } else {
        Some(Object::Unsupported { object_type, data: vstd::slice::slice_to_vec(data) })
    }
}


// ---------------------------------------------------------------------------------------
// Records and sections
// ---------------------------------------------------------------------------------------

/// The object records of a section's payload from `q` on: each is a type byte, a length
/// and that many bytes.
pub open spec fn records(sec: Seq<u8>, q: int) -> Option<Seq<(u8, Seq<u8>)>>
    decreases sec.len() - q,
{
    if q < 0 {
        None
    } else if q >= sec.len() {
        Some(Seq::empty())
    } else if q + 5 > sec.len() || q + 5 + le_u32(sec, q + 1) > sec.len() {
        None
    } else {
        let end = q + 5 + le_u32(sec, q + 1);
        match records(sec, end) {
            Some(rest) => Some(seq![(sec[q], sec.subrange(q + 5, end))] + rest),
            None => None,
        }
    }
}

/// What zlib inflation (`zlib_rs::decompress_slice` with the default configuration) of
/// `body` into a zeroed buffer of `out_len` bytes yields: the buffer, or `None` when the
/// decompression does not report success.
pub uninterp spec fn zlib_inflated(body: Seq<u8>, out_len: u32) -> Option<Seq<u8>>;

/// Inflates `body` with `zlib_rs::decompress_slice` (default `InflateConfig`) into a
/// zeroed buffer of `uncompressed_len` bytes. Returns the whole buffer when the call reports
/// `ReturnCode::Ok` and `None` otherwise; the outcome is named by `zlib_inflated`.
#[verifier::external_body]
fn zlib_decompress(body: &[u8], uncompressed_len: u32) -> (r: Option<Vec<u8>>)
    ensures
        r is Some <==> zlib_inflated(body@, uncompressed_len) is Some,
        r matches Some(v) ==> v@ == zlib_inflated(body@, uncompressed_len)->0 && v@.len() == uncompressed_len,
{
    let mut out = vec![0u8; uncompressed_len as usize];
    let (_, rc) = zlib_rs::decompress_slice(&mut out, body, zlib_rs::InflateConfig::default());
    if rc == zlib_rs::ReturnCode::Ok {
        Some(out)
    } else {
        None
    }
}

/// The payload of a section body: stored as is (scheme 0) or zlib-compressed (scheme 1).
pub open spec fn section_payload(scheme: u8, body: Seq<u8>, uncompressed_len: u32) -> Option<Seq<u8>> {
    if scheme == 0 {
        Some(body)
    } else if scheme == 1 {
        zlib_inflated(body, uncompressed_len)
    } else {
        None
    }
}

/// The payload of a section body: the body itself for scheme 0, its zlib inflation into
/// `uncompressed_len` bytes for scheme 1. Returns `None`, rather than stopping the program,
/// for any other scheme and when the inflation does not succeed.
pub fn decompress_section_body(compression_scheme: u8, body: &[u8], uncompressed_len: u32) -> (r: Option<Rc<Vec<u8>>>)
    ensures
        r is Some <==> section_payload(compression_scheme, body@, uncompressed_len) is Some,
        r matches Some(v) ==> v@ == section_payload(compression_scheme, body@, uncompressed_len)->0,
        compression_scheme == 0 ==> (r matches Some(v) && v@ == body@),
        compression_scheme > 1 ==> r is None,
        compression_scheme == 1 && r is Some ==> r->0@.len() == uncompressed_len,
{
    if compression_scheme == 0 {
        Some(Rc::new(vstd::slice::slice_to_vec(body)))
    } else if compression_scheme == 1 {
        let out = zlib_decompress(body, uncompressed_len)?;
        Some(Rc::new(out))
    } else {
        None
    }
}

/// `Some(a + b)` when `o` is `Some(b)`.
pub open spec fn prepend<T>(a: Seq<T>, o: Option<Seq<T>>) -> Option<Seq<T>> {
    match o {
        Some(b) => Some(a + b),
        None => None,
    }
}

/// The object records of the section of `s` at `pos`, and where the next section starts. A
/// section is a compression scheme, a total length (header and trailing checksum included,
/// so at least 13), an uncompressed length, the body and a four-byte checksum (not checked).
pub open spec fn section_at(s: Seq<u8>, pos: int) -> Option<(Seq<(u8, Seq<u8>)>, int)> {
    if pos < 0 || pos + 9 > s.len() {
        None
    } else {
        let total = le_u32(s, pos + 1) as int;
        if total < 13 || pos + total - 4 > s.len() || pos + total > usize::MAX {
            None
        } else {
            match section_payload(s[pos], s.subrange(pos + 9, pos + total - 4), le_u32(s, pos + 5)) {
                None => None,
                Some(sec) => match records(sec, 0) {
                    None => None,
                    Some(rs) => Some((rs, pos + total)),
                },
            }
        }
    }
}

/// The object records of the section at `pos`.
pub open spec fn section_records(s: Seq<u8>, pos: int) -> Seq<(u8, Seq<u8>)> {
    let (rs, _) = section_at(s, pos)->0;
    rs
}

/// Where the section after the one at `pos` starts.
pub open spec fn section_next(s: Seq<u8>, pos: int) -> int {
    let (_, next) = section_at(s, pos)->0;
    next
}

/// The object records of the sections of `s` from `pos` on.
pub open spec fn sections(s: Seq<u8>, pos: int) -> Option<Seq<(u8, Seq<u8>)>>
    decreases s.len() + 4 - pos,
{
    if pos < 0 {
        None
    } else if pos >= s.len() {
        Some(Seq::empty())
    } else {
        match section_at(s, pos) {
            None => None,
            Some((rs, next)) => if next > pos {
                prepend(rs, sections(s, next))
            } else {
                None
            },
        }
    }
}

/// The twelve-byte identifier that starts every M3G file.
pub open spec fn has_magic(s: Seq<u8>) -> bool {
    &&& s.len() >= 12
    &&& s[0] == 0xab && s[1] == 0x4a && s[2] == 0x53 && s[3] == 0x52
    &&& s[4] == 0x31 && s[5] == 0x38 && s[6] == 0x34 && s[7] == 0xbb
    &&& s[8] == 0x0d && s[9] == 0x0a && s[10] == 0x1a && s[11] == 0x0a
}

/// All object records of the file `s`, in order.
pub open spec fn file_records(s: Seq<u8>) -> Option<Seq<(u8, Seq<u8>)>> {
    if has_magic(s) {
        sections(s, 12)
    } else {
        None
    }
}

/// `s` is an M3G file whose sections and objects all read.
pub open spec fn file_ok(s: Seq<u8>) -> bool {
    &&& file_records(s) is Some
    &&& all_objects_ok(file_records(s)->0)
}

/// The object table of `f` holds a placeholder at index 0 and then one object per record of
/// `s`, in order.
pub open spec fn parsed_from(f: M3GFile, s: Seq<u8>) -> bool {
    let rs = file_records(s)->0;
    &&& f.objects@.len() == rs.len() + 1
    &&& f.objects@[0] matches Object::Unsupported { object_type, data } && object_type == 0 && data@.len() == 0
    &&& forall|i: int| 0 <= i < rs.len() ==> #[trigger] object_matches(f.objects@[i + 1], rs[i].0, rs[i].1)
}

fn is_magic(data: &[u8]) -> (r: bool)
    ensures
        r == has_magic(data@),
{
    data.len() >= 12 && data[0] == 0xab && data[1] == 0x4a && data[2] == 0x53 && data[3] == 0x52
        && data[4] == 0x31 && data[5] == 0x38 && data[6] == 0x34 && data[7] == 0xbb && data[8] == 0x0d
        && data[9] == 0x0a && data[10] == 0x1a && data[11] == 0x0a
}

/// Reads the objects of a section payload, appending them to `objects`.
fn read_section_objects(objects_data: Rc<Vec<u8>>, objects: &mut Vec<Object>) -> (r: bool)
    ensures
        r <==> records(objects_data@, 0) is Some && all_objects_ok(records(objects_data@, 0)->0),
        r ==> {
            let rs = records(objects_data@, 0)->0;
            &&& final(objects)@.len() == old(objects)@.len() + rs.len()
            &&& forall|i: int| 0 <= i < old(objects)@.len() ==> #[trigger] final(objects)@[i] == old(objects)@[i]
            &&& forall|i: int| 0 <= i < rs.len() ==> #[trigger] object_matches(
                final(objects)@[old(objects)@.len() + i],
                rs[i].0,
                rs[i].1,
            )
        },
{
    let ghost sec = objects_data@;
    let ghost start = objects@.len();
    let mut c = Cursor::new(objects_data);
    let ghost mut done: Seq<(u8, Seq<u8>)> = Seq::empty();
    while !c.eof()
        invariant
            c.data@ == sec,
            c.pos <= sec.len(),
            sec == objects_data@,
            start == old(objects)@.len(),
            records(sec, 0) == prepend(done, records(sec, c.pos as int)),
            objects@.len() == start + done.len(),
            forall|i: int| 0 <= i < start ==> #[trigger] objects@[i] == old(objects)@[i],
            all_objects_ok(done),
            forall|i: int| 0 <= i < done.len() ==> #[trigger] object_matches(objects@[start + i], done[i].0, done[i].1),
        decreases sec.len() - c.pos,
    {
        let ghost q = c.pos as int;
        proof { lemma_buffer_len(&c.data); }
        let object_type = c.u8();
        let len = c.u32();
        if object_type.is_none() || len.is_none() {
            assert(records(sec, q) is None);
            return false;
        }
        let object_type = object_type.unwrap();
        let len = len.unwrap() as usize;
        let range = c.range(len);
        if range.is_none() {
            assert(records(sec, q) is None);
            return false;
        }
        let range = range.unwrap();
        if range.end > c.data.len() {
            assert(records(sec, q) is None);
            return false;
        }
        let obj_data = vstd::slice::slice_subrange(c.data.as_slice(), range.start, range.end);
        let ghost rest = records(sec, c.pos as int);
        assert(records(sec, q) == prepend(seq![(object_type, obj_data@)], rest));
        let o = read_object(object_type, obj_data);
        if o.is_none() {
            proof {
                if records(sec, 0) is Some {
                    let rs = records(sec, 0)->0;
                    assert(rs == done + seq![(object_type, obj_data@)] + rest->0);
                    assert(rest is Some);
                    assert(rs[done.len() as int] == (object_type, obj_data@));
                    assert(!object_ok(rs[done.len() as int].0, rs[done.len() as int].1));
                }
            }
            return false;
        }
        let ghost before = objects@;
        objects.push(o.unwrap());
        proof {
            assert(done + seq![(object_type, obj_data@)] + rest->0 =~= done + (seq![(object_type, obj_data@)] + rest->0)) ;
            done = done.push((object_type, obj_data@));
            assert(forall|i: int| 0 <= i < before.len() ==> objects@[i] == before[i]);
        }
    }
    assert(records(sec, c.pos as int) == Some(Seq::<(u8, Seq<u8>)>::empty()));
    assert(done + Seq::<(u8, Seq<u8>)>::empty() =~= done);
    true
}

/// All the records `rs` read as objects.
pub open spec fn all_objects_ok(rs: Seq<(u8, Seq<u8>)>) -> bool {
    forall|i: int| 0 <= i < rs.len() ==> #[trigger] object_ok(rs[i].0, rs[i].1)
}

/// Reads the section at `pos`, appending its objects to `objects`; returns where the next
/// section starts.
fn read_section(data: &[u8], pos: usize, objects: &mut Vec<Object>) -> (r: Option<usize>)
    requires
        pos < data@.len(),
    ensures
        r is Some <==> section_at(data@, pos as int) is Some && all_objects_ok(section_records(data@, pos as int)),
        r matches Some(next) ==> {
            let rs = section_records(data@, pos as int);
            &&& next == section_next(data@, pos as int)
            &&& final(objects)@.len() == old(objects)@.len() + rs.len()
            &&& forall|i: int| 0 <= i < old(objects)@.len() ==> #[trigger] final(objects)@[i] == old(objects)@[i]
            &&& forall|i: int| 0 <= i < rs.len() ==> #[trigger] object_matches(
                final(objects)@[old(objects)@.len() + i],
                rs[i].0,
                rs[i].1,
            )
        },
{
    let ghost s = data@;
    if data.len() - pos < 9 {
        return None;
    }
    let compression_scheme = data[pos];
    let total_section_length = read_u32_le(vstd::slice::slice_subrange(data, pos + 1, pos + 5)) as usize;
    let uncompressed_length = read_u32_le(vstd::slice::slice_subrange(data, pos + 5, pos + 9));
    assert(data@.subrange(pos + 1, pos + 5) =~= s.subrange(pos + 1, pos + 5));
    assert(total_section_length == le_u32(s, pos + 1));
    assert(uncompressed_length == le_u32(s, pos + 5));
    let body_start = pos + 9;
    if total_section_length < 13 {
        return None;
    }
    let body_len = total_section_length - 9 - 4;
    if body_len > data.len() - body_start {
        return None;
    }
    if body_start + body_len > usize::MAX - 4 {
        return None;
    }
    let body = vstd::slice::slice_subrange(data, body_start, body_start + body_len);
    let objects_data = decompress_section_body(compression_scheme, body, uncompressed_length);
    if objects_data.is_none() {
        return None;
    }
    let objects_data = objects_data.unwrap();
    if !read_section_objects(objects_data, objects) {
        return None;
    }
    Some(body_start + body_len + 4)
}

/// Parses a whole file, or returns `None` when the file does not start with the M3G
/// identifier, a section or record runs past its data, a section does not decompress, or
/// an object does not read.
fn read_file(data: &[u8]) -> (r: Option<M3GFile>)
    ensures
        r is Some <==> file_ok(data@),
        r matches Some(f) ==> parsed_from(f, data@),
{
    let ghost s = data@;
    if !is_magic(data) {
        return None;
    }
    let mut objects: Vec<Object> = Vec::new();
    objects.push(Object::Unsupported { object_type: 0, data: Vec::new() });
    let ghost mut done: Seq<(u8, Seq<u8>)> = Seq::empty();
    let mut pos: usize = 12;
    while pos < data.len()
        invariant
            s == data@,
            has_magic(s),
            12 <= pos,
            file_records(s) == prepend(done, sections(s, pos as int)),
            objects@.len() == done.len() + 1,
            objects@[0] matches Object::Unsupported { object_type, data } && object_type == 0 && data@.len() == 0,
            all_objects_ok(done),
            forall|i: int| 0 <= i < done.len() ==> #[trigger] object_matches(objects@[i + 1], done[i].0, done[i].1),
        decreases s.len() + 4 - pos,
    {
        let ghost before = objects@;
        let next = read_section(data, pos, &mut objects);
        if next.is_none() {
            proof {
                if file_ok(s) {
                    let (rs, nx) = section_at(s, pos as int)->0;
                    let rest = sections(s, nx)->0;
                    let all = file_records(s)->0;
                    assert(all == done + (rs + rest));
                    assert forall|i: int| 0 <= i < rs.len() implies #[trigger] object_ok(rs[i].0, rs[i].1) by {
                        assert(all[done.len() + i] == rs[i]);
                    }
                }
            }
            return None;
        }
        let next = next.unwrap();
        proof {
            let rs = section_records(s, pos as int);
            let new_done = done + rs;
            assert forall|i: int| 0 <= i < new_done.len() implies #[trigger] object_matches(objects@[i + 1], new_done[i].0, new_done[i].1) by {
                if i < done.len() {
                    assert(objects@[i + 1] == before[i + 1]);
                } else {
                    assert(new_done[i] == rs[i - done.len()]);
                    assert(objects@[before.len() + (i - done.len())] == objects@[i + 1]);
                }
            }
            assert forall|i: int| 0 <= i < new_done.len() implies #[trigger] object_ok(new_done[i].0, new_done[i].1) by {
                if i >= done.len() {
                    assert(new_done[i] == rs[i - done.len()]);
                }
            }
            assert(objects@[0] == before[0]);
            match sections(s, next as int) {
                Some(rest) => {
                    assert(done + (rs + rest) =~= new_done + rest);
                },
                None => {},
            }
            done = new_done;
        }
        pos = next;
    }
    assert(sections(s, pos as int) == Some(Seq::<(u8, Seq<u8>)>::empty()));
    assert(done + Seq::<(u8, Seq<u8>)>::empty() =~= done);
    Some(M3GFile { objects })
}

/// Parses an M3G file into its object table (index 0 is a placeholder for the null
/// reference; real objects follow in file order). The file must read completely:
/// `try_parse` checks that first.
pub fn parse(data: &[u8]) -> (f: M3GFile)
    requires
        file_ok(data@),
    ensures
        parsed_from(f, data@),
{
    match read_file(data) {
        Some(f) => f,
        None => {
            assert(false);
            M3GFile { objects: Vec::new() }
        },
    }
}

/// Parses `data` when it is an M3G file whose sections and objects all read, and returns
/// `None` otherwise. The file is read once to decide and then handed to `parse`, whose
/// precondition the first read establishes.
pub fn try_parse(data: &[u8]) -> (r: Option<M3GFile>)
    ensures
        r is Some <==> file_ok(data@),
        r matches Some(f) ==> parsed_from(f, data@),
{
    if read_file(data).is_some() {
        Some(parse(data))
    } else {
        None
    }
}


/// In a parsed file the null reference names no object and reference `i`, for `i` from 1
/// to the number of object records, names the object of the `i`-th record: the table is
/// indexed from 1 in file order.
pub proof fn lemma_references_resolve(f: M3GFile, s: Seq<u8>, i: int)
    requires
        file_ok(s),
        parsed_from(f, s),
        1 <= i <= file_records(s)->0.len(),
    ensures
        i < f.objects@.len(),
        f.objects@.len() == file_records(s)->0.len() + 1,
        object_matches(f.objects@[i], file_records(s)->0[i - 1].0, file_records(s)->0[i - 1].1),
{
    let rs = file_records(s)->0;
    assert(object_matches(f.objects@[(i - 1) + 1], rs[i - 1].0, rs[i - 1].1));
}

}

use m3g::m3g::{
    decompress_section_body, parse, try_parse, IndexBufferData, IndexData, KeyframeData, M3GFile,
    Object, ObjRef, VertexArrayComponents,
};

const MAGIC: [u8; 12] = [0xab, 0x4a, 0x53, 0x52, 0x31, 0x38, 0x34, 0xbb, 0x0d, 0x0a, 0x1a, 0x0a];
const ONE: u32 = 0x3f80_0000;

/// Little-endian byte writer for building test files.
#[derive(Default)]
struct W(Vec<u8>);

impl W {
    fn u8(mut self, v: u8) -> Self {
        self.0.push(v);
        self
    }
    fn u16(mut self, v: u16) -> Self {
        self.0.extend_from_slice(&v.to_le_bytes());
        self
    }
    fn u32(mut self, v: u32) -> Self {
        self.0.extend_from_slice(&v.to_le_bytes());
        self
    }
    fn i32(mut self, v: i32) -> Self {
        self.0.extend_from_slice(&v.to_le_bytes());
        self
    }
    fn f32(mut self, v: f32) -> Self {
        self.0.extend_from_slice(&v.to_bits().to_le_bytes());
        self
    }
    fn bytes(mut self, b: &[u8]) -> Self {
        self.0.extend_from_slice(b);
        self
    }
    /// An Object3D base with no animation tracks and no user parameters.
    fn plain_base(self, user_id: u32) -> Self {
        self.u32(user_id).u32(0).u32(0)
    }
    /// A node base with no transforms, rendering and picking enabled, no alignment.
    fn plain_node(self, user_id: u32) -> Self {
        self.plain_base(user_id).u8(0).u8(0).u8(1).u8(1).u8(255).u32(u32::MAX).u8(0)
    }
}

fn record(object_type: u8, body: &[u8]) -> Vec<u8> {
    W::default().u8(object_type).u32(body.len() as u32).bytes(body).0
}

fn section(scheme: u8, body: &[u8], uncompressed_len: u32) -> Vec<u8> {
    W::default()
        .u8(scheme)
        .u32(body.len() as u32 + 13)
        .u32(uncompressed_len)
        .bytes(body)
        .u32(0xdead_beef)
        .0
}

fn file(sections: &[Vec<u8>]) -> Vec<u8> {
    let mut v = MAGIC.to_vec();
    for s in sections {
        v.extend_from_slice(s);
    }
    v
}

fn single_object_file(object_type: u8, body: &[u8]) -> Vec<u8> {
    let rec = record(object_type, body);
    file(&[section(0, &rec, rec.len() as u32)])
}

fn zlib(data: &[u8]) -> Vec<u8> {
    let mut out = vec![0u8; data.len() * 2 + 64];
    let (compressed, rc) = zlib_rs::compress_slice(&mut out, data, zlib_rs::DeflateConfig::default());
    assert_eq!(rc, zlib_rs::ReturnCode::Ok);
    compressed.to_vec()
}

fn only_object(f: &M3GFile) -> &Object {
    assert_eq!(f.objects.len(), 2);
    &f.objects[1]
}

fn header_body() -> Vec<u8> {
    W::default().u8(1).u8(0).u8(1).u32(1234).u32(5678).bytes(b"EA Mobile\0").0
}

#[test]
fn parse_empty_file_has_only_the_placeholder() {
    let f = parse(&MAGIC);
    assert_eq!(f.objects.len(), 1);
    match &f.objects[0] {
        Object::Unsupported { object_type, data } => {
            assert_eq!(*object_type, 0);
            assert!(data.is_empty());
        }
        _ => panic!("index 0 must be the placeholder"),
    }
    assert!(f.get(ObjRef(0)).is_none());
}

#[test]
fn parse_header() {
    let f = parse(&single_object_file(0, &header_body()));
    match only_object(&f) {
        Object::Header(h) => {
            assert_eq!(h.version, (1, 0));
            assert!(h.has_external_references);
            assert_eq!(h.total_file_size, 1234);
            assert_eq!(h.approximate_content_size, 5678);
            assert_eq!(h.authoring_field, "EA Mobile");
        }
        _ => panic!("expected a header"),
    }
}

#[test]
fn parse_header_with_invalid_utf8_is_lossy() {
    let body = W::default().u8(1).u8(0).u8(0).u32(0).u32(0).bytes(&[b'a', 0xff, b'b', 0]).0;
    let f = parse(&single_object_file(0, &body));
    match only_object(&f) {
        Object::Header(h) => {
            assert!(!h.has_external_references);
            assert_eq!(h.authoring_field, "a\u{fffd}b");
        }
        _ => panic!("expected a header"),
    }
}

#[test]
fn parse_unsupported_object_keeps_raw_bytes() {
    let f = parse(&single_object_file(5, &[1, 2, 3]));
    match only_object(&f) {
        Object::Unsupported { object_type, data } => {
            assert_eq!(*object_type, 5);
            assert_eq!(data, &vec![1, 2, 3]);
        }
        _ => panic!("expected an unsupported object"),
    }
}

#[test]
fn parse_objects_in_file_order_across_sections() {
    let mut first = record(0, &header_body());
    first.extend_from_slice(&record(7, &[9]));
    let second = record(8, &[]);
    let data = file(&[
        section(0, &first, first.len() as u32),
        section(0, &second, second.len() as u32),
    ]);
    let f = parse(&data);
    assert_eq!(f.objects.len(), 4);
    assert!(matches!(f.get(ObjRef(1)), Some(Object::Header(_))));
    assert!(matches!(f.get(ObjRef(2)), Some(Object::Unsupported { object_type: 7, .. })));
    assert!(matches!(f.get(ObjRef(3)), Some(Object::Unsupported { object_type: 8, .. })));
    assert!(f.get(ObjRef(4)).is_none());
}

#[test]
fn parse_zlib_compressed_section() {
    let mut payload = record(0, &header_body());
    payload.extend_from_slice(&record(6, &[4, 5, 6, 7]));
    let compressed = zlib(&payload);
    let data = file(&[section(1, &compressed, payload.len() as u32)]);
    let f = parse(&data);
    assert_eq!(f.objects.len(), 3);
    assert!(matches!(&f.objects[1], Object::Header(h) if h.total_file_size == 1234));
    match &f.objects[2] {
        Object::Unsupported { object_type, data } => {
            assert_eq!(*object_type, 6);
            assert_eq!(data, &vec![4, 5, 6, 7]);
        }
        _ => panic!("expected an unsupported object"),
    }
}

#[test]
fn try_parse_rejects_bad_files() {
    // Wrong magic.
    let mut bad = single_object_file(5, &[1]);
    bad[0] = 0;
    assert!(try_parse(&bad).is_none());
    // Too short for the magic.
    assert!(try_parse(&MAGIC[..11]).is_none());
    // Truncated section header.
    let mut data = MAGIC.to_vec();
    data.extend_from_slice(&[0, 1, 2]);
    assert!(try_parse(&data).is_none());
    // Section body longer than the file (the checksum itself may be cut off).
    let mut data = single_object_file(5, &[1, 2]);
    data.truncate(data.len() - 4);
    assert!(try_parse(&data).is_some());
    data.pop();
    assert!(try_parse(&data).is_none());
    // Unknown compression scheme.
    let rec = record(5, &[1]);
    assert!(try_parse(&file(&[section(2, &rec, rec.len() as u32)])).is_none());
    // A record longer than its section.
    let mut rec = record(5, &[1, 2, 3]);
    rec.pop();
    assert!(try_parse(&file(&[section(0, &rec, rec.len() as u32)])).is_none());
    // Compressed data that does not inflate.
    assert!(try_parse(&file(&[section(1, &[1, 2, 3, 4], 10)])).is_none());
    // An object that does not read (a header without its string's NUL).
    let body = W::default().u8(1).u8(0).u8(0).u32(0).u32(0).bytes(b"abc").0;
    assert!(try_parse(&single_object_file(0, &body)).is_none());
}

#[test]
fn try_parse_agrees_with_parse() {
    let data = single_object_file(0, &header_body());
    let f = try_parse(&data).unwrap();
    assert_eq!(f.objects.len(), parse(&data).objects.len());
    assert!(matches!(&f.objects[1], Object::Header(h) if h.authoring_field == "EA Mobile"));
}

#[test]
fn decompress_section_body_schemes() {
    let body = [1u8, 2, 3];
    assert_eq!(decompress_section_body(0, &body, 99).unwrap().as_slice(), &body);
    assert!(decompress_section_body(2, &body, 3).is_none());
    let plain: Vec<u8> = (0..100u8).collect();
    let z = zlib(&plain);
    assert_eq!(decompress_section_body(1, &z, 100).unwrap().as_slice(), plain.as_slice());
    // The payload has the announced length, zero-filled past what inflates.
    let padded = decompress_section_body(1, &z, 104).unwrap();
    assert_eq!(padded.len(), 104);
    assert_eq!(&padded[..100], plain.as_slice());
    assert_eq!(&padded[100..], &[0, 0, 0, 0]);
    assert!(decompress_section_body(1, &[0, 1, 2], 100).is_none());
}

#[test]
fn parse_animation_controller() {
    let body = W::default()
        .plain_base(3)
        .f32(1.5)
        .f32(0.25)
        .u32(10)
        .u32(20)
        .f32(2.0)
        .i32(-7)
        .0;
    let f = parse(&single_object_file(1, &body));
    match only_object(&f) {
        Object::AnimationController(a) => {
            assert_eq!(a.base.user_id, 3);
            assert_eq!(a.speed, 1.5f32.to_bits());
            assert_eq!(a.weight, 0.25f32.to_bits());
            assert_eq!(a.active_interval_start, 10);
            assert_eq!(a.active_interval_end, 20);
            assert_eq!(a.reference_sequence_time, 2.0f32.to_bits());
            assert_eq!(a.reference_world_time, -7);
        }
        _ => panic!("expected an animation controller"),
    }
}

#[test]
fn parse_animation_track_with_base_fields() {
    let body = W::default()
        .u32(77)
        .u32(2)
        .u32(4)
        .u32(5)
        .u32(1)
        .u32(0xabc)
        .u32(3)
        .bytes(&[7, 8, 9])
        .u32(11)
        .u32(12)
        .u32(13)
        .0;
    let f = parse(&single_object_file(2, &body));
    match only_object(&f) {
        Object::AnimationTrack(t) => {
            assert_eq!(t.base.user_id, 77);
            assert_eq!(t.base.animation_tracks, vec![ObjRef(4), ObjRef(5)]);
            assert_eq!(t.base.user_parameters.len(), 1);
            assert_eq!(t.base.user_parameters[0].0, 0xabc);
            assert_eq!(t.base.user_parameters[0].1.as_slice(), &[7, 8, 9]);
            assert_eq!(t.keyframe_sequence, ObjRef(11));
            assert_eq!(t.animation_controller, ObjRef(12));
            assert_eq!(t.property_id, 13);
        }
        _ => panic!("expected an animation track"),
    }
}

#[test]
fn parse_appearance() {
    let body = W::default().plain_base(0).u8(0xfe).u32(1).u32(2).u32(3).u32(4).u32(2).u32(5).u32(6).0;
    let f = parse(&single_object_file(3, &body));
    match only_object(&f) {
        Object::Appearance(a) => {
            assert_eq!(a.layer, -2);
            assert_eq!(a.compositing_mode, ObjRef(1));
            assert_eq!(a.fog, ObjRef(2));
            assert_eq!(a.polygon_mode, ObjRef(3));
            assert_eq!(a.material, ObjRef(4));
            assert_eq!(a.textures, vec![ObjRef(5), ObjRef(6)]);
        }
        _ => panic!("expected an appearance"),
    }
}

#[test]
fn parse_group_with_default_transform() {
    let body = W::default().plain_node(9).u32(2).u32(3).u32(4).0;
    let f = parse(&single_object_file(9, &body));
    match only_object(&f) {
        Object::Group(g) => {
            let n = &g.node;
            assert_eq!(n.base.user_id, 9);
            assert_eq!(n.translation, [0, 0, 0]);
            assert_eq!(n.scale, [ONE, ONE, ONE]);
            assert_eq!(n.orientation_angle, 0);
            assert_eq!(n.orientation_axis, [ONE, 0, 0]);
            assert!(n.general_transform.is_none());
            assert!(n.enable_rendering);
            assert!(n.enable_picking);
            assert_eq!(n.alpha_factor, 255);
            assert_eq!(n.scope, u32::MAX);
            assert!(n.alignment.is_none());
            assert_eq!(g.children, vec![ObjRef(3), ObjRef(4)]);
        }
        _ => panic!("expected a group"),
    }
}

#[test]
fn parse_group_with_transforms_and_alignment() {
    // Component transform order: translation, scale, orientation angle, orientation axis.
    let mut w = W::default().plain_base(1).u8(1);
    for v in [1.0f32, 2.0, 3.0, 4.0, 5.0, 6.0, 90.0, 0.0, 1.0, 0.0] {
        w = w.f32(v);
    }
    w = w.u8(1);
    for i in 0..16 {
        w = w.f32(i as f32);
    }
    let body = w.u8(0).u8(1).u8(128).u32(7).u8(1).u8(144).u8(145).u32(8).u32(9).u32(0).0;
    let f = parse(&single_object_file(9, &body));
    match only_object(&f) {
        Object::Group(g) => {
            let n = &g.node;
            assert_eq!(n.translation, [1.0f32.to_bits(), 2.0f32.to_bits(), 3.0f32.to_bits()]);
            assert_eq!(n.scale, [4.0f32.to_bits(), 5.0f32.to_bits(), 6.0f32.to_bits()]);
            assert_eq!(n.orientation_angle, 90.0f32.to_bits());
            assert_eq!(n.orientation_axis, [0, ONE, 0]);
            let m = n.general_transform.unwrap();
            for i in 0..16 {
                assert_eq!(m[i], (i as f32).to_bits());
            }
            assert!(!n.enable_rendering);
            assert!(n.enable_picking);
            assert_eq!(n.alpha_factor, 128);
            assert_eq!(n.scope, 7);
            let a = n.alignment.unwrap();
            assert_eq!((a.z_target, a.y_target), (144, 145));
            assert_eq!((a.z_reference, a.y_reference), (ObjRef(8), ObjRef(9)));
            assert!(g.children.is_empty());
        }
        _ => panic!("expected a group"),
    }
}

#[test]
fn parse_image2d_immutable() {
    let body = W::default()
        .plain_base(0)
        .u8(99)
        .u8(0)
        .u32(2)
        .u32(1)
        .u32(0)
        .u32(6)
        .bytes(&[1, 2, 3, 4, 5, 6])
        .0;
    let f = parse(&single_object_file(10, &body));
    match only_object(&f) {
        Object::Image2D(im) => {
            assert_eq!(im.format, 99);
            assert!(!im.is_mutable);
            assert_eq!((im.width, im.height), (2, 1));
            assert!(!im.palette.is_empty());
            assert!(im.palette.as_slice().is_empty());
            assert_eq!(im.pixels.as_slice(), &[1, 2, 3, 4, 5, 6]);
            assert_eq!(im.to_rgba8().unwrap(), vec![1, 2, 3, 255, 4, 5, 6, 255]);
        }
        _ => panic!("expected an image"),
    }
}

#[test]
fn parse_image2d_mutable_has_no_bytes() {
    let body = W::default().plain_base(0).u8(100).u8(1).u32(16).u32(16).0;
    let f = parse(&single_object_file(10, &body));
    match only_object(&f) {
        Object::Image2D(im) => {
            assert!(im.is_mutable);
            assert!(im.palette.is_empty());
            assert!(im.pixels.is_empty());
        }
        _ => panic!("expected an image"),
    }
}

#[test]
fn parse_triangle_strips_implicit() {
    for (encoding, first) in [(0u8, W::default().u32(70000)), (1, W::default().u8(200)), (2, W::default().u16(513))] {
        let body = W::default().plain_base(0).u8(encoding).bytes(&first.0).u32(2).u32(3).u32(4).0;
        let f = parse(&single_object_file(11, &body));
        match only_object(&f) {
            Object::TriangleStripArray(b) => match &b.data {
                IndexBufferData::TriangleStrips { strip_lengths, indices } => {
                    assert_eq!(strip_lengths, &vec![3, 4]);
                    let expected_first = [70000u32, 200, 513][encoding as usize];
                    assert!(matches!(indices, IndexData::Implicit { first, count: 7 } if *first == expected_first));
                    assert_eq!(indices.len(), 7);
                    assert_eq!(indices.get(6), expected_first + 6);
                }
            },
            _ => panic!("expected a triangle strip array"),
        }
    }
}

#[test]
fn parse_triangle_strips_explicit() {
    let cases: [(u8, Vec<u8>, Vec<u32>); 3] = [
        (0x80, W::default().u32(1).u32(100000).0, vec![1, 100000]),
        (0x81, vec![5, 6], vec![5, 6]),
        (0x82, W::default().u16(300).u16(2).0, vec![300, 2]),
    ];
    for (encoding, raw, values) in cases {
        let body = W::default().plain_base(0).u8(encoding).u32(2).bytes(&raw).u32(1).u32(2).0;
        let f = parse(&single_object_file(11, &body));
        match only_object(&f) {
            Object::TriangleStripArray(b) => match &b.data {
                IndexBufferData::TriangleStrips { strip_lengths, indices } => {
                    assert_eq!(strip_lengths, &vec![2]);
                    assert_eq!(indices.len(), 2);
                    assert_eq!(indices.get(0), values[0]);
                    assert_eq!(indices.get(1), values[1]);
                }
            },
            _ => panic!("expected a triangle strip array"),
        }
    }
}

#[test]
fn parse_triangle_strips_other_encoding_has_first_index_zero() {
    let body = W::default().plain_base(0).u8(0x7f).u32(1).u32(5).0;
    let f = parse(&single_object_file(11, &body));
    match only_object(&f) {
        Object::TriangleStripArray(b) => match &b.data {
            IndexBufferData::TriangleStrips { indices, .. } => {
                assert!(matches!(indices, IndexData::Implicit { first: 0, count: 5 }));
            }
        },
        _ => panic!("expected a triangle strip array"),
    }
}

#[test]
fn parse_mesh_and_skinned_mesh() {
    let mesh = W::default().plain_node(0).u32(21).u32(2).u32(1).u32(2).u32(3).u32(4).0;
    let f = parse(&single_object_file(14, &mesh));
    match only_object(&f) {
        Object::Mesh(m) => {
            assert_eq!(m.vertex_buffer, ObjRef(21));
            assert_eq!(m.submeshes.len(), 2);
            assert_eq!((m.submeshes[1].index_buffer, m.submeshes[1].appearance), (ObjRef(3), ObjRef(4)));
        }
        _ => panic!("expected a mesh"),
    }
    let skinned = W::default().bytes(&mesh).u32(30).u32(1).u32(31).u32(0).u32(12).i32(-5).0;
    let f = parse(&single_object_file(16, &skinned));
    match only_object(&f) {
        Object::SkinnedMesh(s) => {
            assert_eq!(s.mesh.vertex_buffer, ObjRef(21));
            assert_eq!(s.skeleton, ObjRef(30));
            assert_eq!(s.bones.len(), 1);
            let b = s.bones[0];
            assert_eq!((b.bone, b.first_vertex, b.vertex_count, b.weight), (ObjRef(31), 0, 12, -5));
        }
        _ => panic!("expected a skinned mesh"),
    }
}

#[test]
fn parse_keyframe_sequence_float() {
    let body = W::default()
        .plain_base(0)
        .u8(176)
        .u8(193)
        .u8(0)
        .u32(1000)
        .u32(0)
        .u32(1)
        .u32(2)
        .u32(2)
        .u32(0)
        .f32(1.0)
        .f32(2.0)
        .u32(500)
        .f32(3.0)
        .f32(4.0)
        .0;
    let f = parse(&single_object_file(19, &body));
    match only_object(&f) {
        Object::KeyframeSequence(k) => {
            assert_eq!((k.interpolation, k.repeat_mode), (176, 193));
            assert_eq!((k.duration, k.valid_range_first, k.valid_range_last), (1000, 0, 1));
            assert_eq!((k.component_count, k.keyframe_count), (2, 2));
            match &k.data {
                KeyframeData::Float(frames) => {
                    assert_eq!(frames.len(), 2);
                    assert_eq!(frames[0], (0, vec![1.0f32.to_bits(), 2.0f32.to_bits()]));
                    assert_eq!(frames[1], (500, vec![3.0f32.to_bits(), 4.0f32.to_bits()]));
                }
                _ => panic!("expected float keyframes"),
            }
        }
        _ => panic!("expected a keyframe sequence"),
    }
}

#[test]
fn parse_keyframe_sequence_quantized() {
    // Encoding 1: u16 components; encoding 2: i8 components.
    let wide = W::default()
        .plain_base(0)
        .u8(0)
        .u8(0)
        .u8(1)
        .u32(10)
        .u32(0)
        .u32(0)
        .u32(1)
        .u32(1)
        .f32(0.5)
        .f32(2.0)
        .u32(7)
        .u16(65535)
        .0;
    let f = parse(&single_object_file(19, &wide));
    match only_object(&f) {
        Object::KeyframeSequence(k) => match &k.data {
            KeyframeData::Quantized { bias, scale, frames } => {
                assert_eq!(bias, &vec![0.5f32.to_bits()]);
                assert_eq!(scale, &vec![2.0f32.to_bits()]);
                assert_eq!(frames, &vec![(7, vec![65535])]);
            }
            _ => panic!("expected quantized keyframes"),
        },
        _ => panic!("expected a keyframe sequence"),
    }
    let narrow = W::default()
        .plain_base(0)
        .u8(0)
        .u8(0)
        .u8(2)
        .u32(10)
        .u32(0)
        .u32(0)
        .u32(2)
        .u32(1)
        .f32(0.0)
        .f32(0.0)
        .f32(1.0)
        .f32(1.0)
        .u32(3)
        .u8(0xff)
        .u8(0x7f)
        .0;
    let f = parse(&single_object_file(19, &narrow));
    match only_object(&f) {
        Object::KeyframeSequence(k) => match &k.data {
            KeyframeData::Quantized { frames, .. } => {
                assert_eq!(frames, &vec![(3, vec![-1, 127])]);
            }
            _ => panic!("expected quantized keyframes"),
        },
        _ => panic!("expected a keyframe sequence"),
    }
}

#[test]
fn parse_keyframe_sequence_unknown_encoding_is_rejected() {
    let body = W::default().plain_base(0).u8(0).u8(0).u8(3).u32(0).u32(0).u32(0).u32(0).u32(0).0;
    assert!(try_parse(&single_object_file(19, &body)).is_none());
}

#[test]
fn parse_vertex_array_borrowed() {
    let body = W::default().plain_base(0).u8(1).u8(2).u8(0).u16(2).bytes(&[1, 0xff, 3, 0x80]).0;
    let f = parse(&single_object_file(20, &body));
    match only_object(&f) {
        Object::VertexArray(a) => {
            assert_eq!((a.component_size, a.component_count, a.vertex_count), (1, 2, 2));
            assert!(matches!(a.components, VertexArrayComponents::BorrowedI8(..)));
            let got: Vec<i32> = (0..4).map(|i| a.component(i)).collect();
            assert_eq!(got, vec![1, -1, 3, -128]);
        }
        _ => panic!("expected a vertex array"),
    }
    let body = W::default().plain_base(0).u8(2).u8(1).u8(0).u16(2).u16(0x8000).u16(5).0;
    let f = parse(&single_object_file(20, &body));
    match only_object(&f) {
        Object::VertexArray(a) => {
            assert!(matches!(a.components, VertexArrayComponents::BorrowedI16(..)));
            assert_eq!((a.component(0), a.component(1)), (-32768, 5));
        }
        _ => panic!("expected a vertex array"),
    }
}

#[test]
fn parse_vertex_array_delta_encoded() {
    // Encoding 1: each vertex after the first adds its components to the previous vertex.
    let body = W::default().plain_base(0).u8(1).u8(2).u8(1).u16(3).bytes(&[10, 20, 1, 0xff, 2, 0xfe]).0;
    let f = parse(&single_object_file(20, &body));
    match only_object(&f) {
        Object::VertexArray(a) => match &a.components {
            VertexArrayComponents::Owned(v) => assert_eq!(v, &vec![10, 20, 11, 19, 13, 17]),
            _ => panic!("expected decoded components"),
        },
        _ => panic!("expected a vertex array"),
    }
    let body = W::default().plain_base(0).u8(2).u8(1).u8(1).u16(3).u16(1000).u16(0xfc18).u16(500).0;
    let f = parse(&single_object_file(20, &body));
    match only_object(&f) {
        Object::VertexArray(a) => match &a.components {
            VertexArrayComponents::Owned(v) => assert_eq!(v, &vec![1000, 0, 500]),
            _ => panic!("expected decoded components"),
        },
        _ => panic!("expected a vertex array"),
    }
}

#[test]
fn parse_vertex_array_bad_layout_is_rejected() {
    // Component size 3 is not part of the format; encoding 2 neither.
    let body = W::default().plain_base(0).u8(3).u8(1).u8(0).u16(1).bytes(&[0, 0, 0]).0;
    assert!(try_parse(&single_object_file(20, &body)).is_none());
    let body = W::default().plain_base(0).u8(1).u8(1).u8(2).u16(1).bytes(&[0]).0;
    assert!(try_parse(&single_object_file(20, &body)).is_none());
}

#[test]
fn parse_vertex_buffer() {
    let body = W::default()
        .plain_base(0)
        .bytes(&[1, 2, 3, 4])
        .u32(5)
        .f32(0.5)
        .f32(0.25)
        .f32(0.125)
        .f32(2.0)
        .u32(6)
        .u32(0)
        .u32(2)
        .u32(0)
        .u32(8)
        .f32(1.0)
        .f32(2.0)
        .f32(3.0)
        .f32(4.0)
        .0;
    let f = parse(&single_object_file(21, &body));
    match only_object(&f) {
        Object::VertexBuffer(v) => {
            assert_eq!(v.default_color, [1, 2, 3, 4]);
            assert_eq!(v.positions, ObjRef(5));
            assert_eq!(v.position_bias, [0.5f32.to_bits(), 0.25f32.to_bits(), 0.125f32.to_bits()]);
            assert_eq!(v.position_scale, 2.0f32.to_bits());
            assert_eq!(v.normals, ObjRef(6));
            assert_eq!(v.colors, ObjRef(0));
            assert_eq!(v.tex_coords.len(), 2);
            assert_eq!(v.tex_coords[0].array, ObjRef(0));
            assert_eq!(v.tex_coords[0].bias, [0, 0, 0]);
            assert_eq!(v.tex_coords[0].scale, 0);
            assert_eq!(v.tex_coords[1].array, ObjRef(8));
            assert_eq!(v.tex_coords[1].bias, [ONE, 2.0f32.to_bits(), 3.0f32.to_bits()]);
            assert_eq!(v.tex_coords[1].scale, 4.0f32.to_bits());
        }
        _ => panic!("expected a vertex buffer"),
    }
}

#[test]
fn parse_vertex_buffer_without_positions() {
    let body = W::default().plain_base(0).bytes(&[0, 0, 0, 0]).u32(0).u32(0).u32(0).u32(0).0;
    let f = parse(&single_object_file(21, &body));
    match only_object(&f) {
        Object::VertexBuffer(v) => {
            assert_eq!(v.positions, ObjRef(0));
            assert_eq!(v.position_bias, [0, 0, 0]);
            assert_eq!(v.position_scale, ONE);
            assert!(v.tex_coords.is_empty());
        }
        _ => panic!("expected a vertex buffer"),
    }
}

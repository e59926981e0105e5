use std::rc::Rc;

use m3g::m3g::{
    Image2D, ImageBytes, ImageError, IndexData, M3GFile, Object, Object3DBase, ObjRef,
    VertexArray, VertexArrayComponents,
};
use m3g::pvrtc::decode_4bpp;

fn borrowed(bytes: &[u8], start: usize, end: usize) -> ImageBytes {
    ImageBytes::Borrowed(Rc::new(bytes.to_vec()), start..end)
}

fn image(format: u8, width: u32, height: u32, palette: ImageBytes, pixels: ImageBytes) -> Image2D {
    Image2D {
        base: Object3DBase::default(),
        format,
        is_mutable: false,
        width,
        height,
        palette,
        pixels,
    }
}

#[test]
fn obj_ref_null() {
    assert!(ObjRef(0).is_null());
    assert!(!ObjRef(1).is_null());
    assert!(!ObjRef(u32::MAX).is_null());
    assert_eq!(ObjRef::null(), ObjRef(0));
    assert!(ObjRef::null().is_null());
}

#[test]
fn image_bytes_empty_and_borrowed() {
    let empty = ImageBytes::Empty;
    assert!(empty.is_empty());
    assert_eq!(empty.as_slice(), &[] as &[u8]);
    assert!(ImageBytes::default().is_empty());

    let b = borrowed(&[1, 2, 3, 4, 5], 1, 4);
    assert!(!b.is_empty());
    assert_eq!(b.as_slice(), &[2, 3, 4]);

    // An empty range of a buffer is still `Borrowed`.
    let e = borrowed(&[1, 2, 3], 2, 2);
    assert!(!e.is_empty());
    assert_eq!(e.as_slice(), &[] as &[u8]);
}

#[test]
fn to_rgba8_alpha() {
    let im = image(96, 2, 1, ImageBytes::Empty, borrowed(&[10, 20], 0, 2));
    assert_eq!(im.to_rgba8(), Ok(vec![255, 255, 255, 10, 255, 255, 255, 20]));
}

#[test]
fn to_rgba8_luminance() {
    let im = image(97, 1, 2, ImageBytes::Empty, borrowed(&[7, 9], 0, 2));
    assert_eq!(im.to_rgba8(), Ok(vec![7, 7, 7, 255, 9, 9, 9, 255]));
}

#[test]
fn to_rgba8_luminance_alpha() {
    let im = image(98, 1, 1, ImageBytes::Empty, borrowed(&[1, 2], 0, 2));
    assert_eq!(im.to_rgba8(), Ok(vec![1, 1, 1, 2]));
}

#[test]
fn to_rgba8_rgb() {
    let im = image(99, 2, 1, ImageBytes::Empty, borrowed(&[1, 2, 3, 4, 5, 6], 0, 6));
    assert_eq!(im.to_rgba8(), Ok(vec![1, 2, 3, 255, 4, 5, 6, 255]));
}

#[test]
fn to_rgba8_rgba_from_offset_range() {
    // The pixel bytes are a range in the middle of a larger buffer.
    let im = image(100, 1, 1, ImageBytes::Empty, borrowed(&[9, 9, 1, 2, 3, 4, 9], 2, 6));
    assert_eq!(im.to_rgba8(), Ok(vec![1, 2, 3, 4]));
}

#[test]
fn to_rgba8_palettized_rgb() {
    let palette = borrowed(&[10, 11, 12, 20, 21, 22], 0, 6);
    let im = image(99, 3, 1, palette, borrowed(&[1, 0, 1], 0, 3));
    assert_eq!(
        im.to_rgba8(),
        Ok(vec![20, 21, 22, 255, 10, 11, 12, 255, 20, 21, 22, 255])
    );
}

#[test]
fn to_rgba8_palettized_alpha() {
    let palette = borrowed(&[0, 128, 255], 0, 3);
    let im = image(96, 2, 1, palette, borrowed(&[2, 1], 0, 2));
    assert_eq!(im.to_rgba8(), Ok(vec![255, 255, 255, 255, 255, 255, 255, 128]));
}

#[test]
fn to_rgba8_empty_image() {
    let im = image(100, 0, 0, ImageBytes::Empty, ImageBytes::Empty);
    assert_eq!(im.to_rgba8(), Ok(vec![]));
}

#[test]
fn to_rgba8_unknown_format() {
    let im = image(101, 1, 1, ImageBytes::Empty, borrowed(&[1, 2, 3, 4], 0, 4));
    assert_eq!(im.to_rgba8(), Err(ImageError::UnknownFormat(101)));
    let im = image(0, 0, 0, ImageBytes::Empty, ImageBytes::Empty);
    assert_eq!(im.to_rgba8(), Err(ImageError::UnknownFormat(0)));
}

#[test]
fn to_rgba8_pvrtc_decodes_first_mip() {
    // An 8x8 PVRTC image: mip 0 is 32 bytes, followed here by 8 bytes of smaller mips.
    let mut bytes = Vec::new();
    for i in 0..40u8 {
        bytes.push(i.wrapping_mul(37).wrapping_add(11));
    }
    for format in [124u8, 125u8] {
        let im = image(format, 8, 8, ImageBytes::Empty, borrowed(&bytes, 0, 40));
        let out = im.to_rgba8().unwrap();
        assert_eq!(out.len(), 8 * 8 * 4);
        assert_eq!(out, decode_4bpp(8, 8, &bytes[..32]));
    }
}

#[test]
fn to_rgba8_pvrtc_small_image_pads_to_eight() {
    // A 4x4 PVRTC image still stores a padded 8x8 mip 0 (32 bytes); one block is decoded.
    let bytes: Vec<u8> = (0..32u8).collect();
    let im = image(124, 4, 4, ImageBytes::Empty, borrowed(&bytes, 0, 32));
    let out = im.to_rgba8().unwrap();
    assert_eq!(out.len(), 4 * 4 * 4);
    assert_eq!(out, decode_4bpp(4, 4, &bytes));
}

#[test]
fn index_data_implicit() {
    let d = IndexData::Implicit { first: 5, count: 3 };
    assert_eq!(d.len(), 3);
    assert_eq!(d.get(0), 5);
    assert_eq!(d.get(2), 7);
}

#[test]
fn index_data_borrowed_u8() {
    let d = IndexData::BorrowedU8(Rc::new(vec![9, 4, 5, 6, 9]), 1..4);
    assert_eq!(d.len(), 3);
    assert_eq!(d.get(0), 4);
    assert_eq!(d.get(2), 6);
}

#[test]
fn index_data_borrowed_u16() {
    let d = IndexData::BorrowedU16(Rc::new(vec![0xff, 0x01, 0x02, 0x34, 0x12]), 1..5);
    assert_eq!(d.len(), 2);
    assert_eq!(d.get(0), 0x0201);
    assert_eq!(d.get(1), 0x1234);
}

#[test]
fn index_data_borrowed_u32() {
    let d = IndexData::BorrowedU32(Rc::new(vec![0x78, 0x56, 0x34, 0x12, 1, 0, 0, 0, 7]), 0..9);
    // A length that is not a multiple of the index width is rounded down.
    assert_eq!(d.len(), 2);
    assert_eq!(d.get(0), 0x1234_5678);
    assert_eq!(d.get(1), 1);
}

#[test]
fn vertex_array_components() {
    let i8s = VertexArrayComponents::BorrowedI8(Rc::new(vec![0, 0x7f, 0x80, 0xff]), 1..4);
    assert_eq!(i8s.get(0), 127);
    assert_eq!(i8s.get(1), -128);
    assert_eq!(i8s.get(2), -1);

    let i16s = VertexArrayComponents::BorrowedI16(Rc::new(vec![0xfe, 0xff, 0x00, 0x80, 0x34, 0x12]), 0..6);
    assert_eq!(i16s.get(0), -2);
    assert_eq!(i16s.get(1), -32768);
    assert_eq!(i16s.get(2), 0x1234);

    let owned = VertexArrayComponents::Owned(vec![3, -4, 5]);
    assert_eq!(owned.get(1), -4);
}

#[test]
fn vertex_array_component_reads_components() {
    let a = VertexArray {
        base: Object3DBase::default(),
        component_size: 2,
        component_count: 1,
        components: VertexArrayComponents::BorrowedI16(Rc::new(vec![0x10, 0x00, 0xf0, 0xff]), 0..4),
        vertex_count: 2,
    };
    assert_eq!(a.component(0), 16);
    assert_eq!(a.component(1), -16);
}

#[test]
fn file_get_by_reference() {
    let f = M3GFile {
        objects: vec![
            Object::Unsupported { object_type: 0, data: vec![] },
            Object::Unsupported { object_type: 42, data: vec![1, 2] },
        ],
    };
    assert!(f.get(ObjRef(0)).is_none());
    match f.get(ObjRef(1)) {
        Some(Object::Unsupported { object_type, data }) => {
            assert_eq!(*object_type, 42);
            assert_eq!(data, &vec![1, 2]);
        }
        _ => panic!("expected the object at index 1"),
    }
    assert!(f.get(ObjRef(2)).is_none());
    assert!(f.get(ObjRef(u32::MAX)).is_none());
}

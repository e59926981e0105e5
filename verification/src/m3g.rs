//! Parser for the JSR-184 (M3G 1.0) binary file format.
//!
//! Floating-point fields of the format are kept as their IEEE-754 single-precision bit
//! patterns (`u32`); `f32::from_bits` turns them into numbers.
use std::rc::Rc;
use core::ops::Range;
use vstd::prelude::*;
use crate::le::{le_u16, le_u32, le_i16, read_u16_le, read_u32_le, read_i16_le};

mod cursor;
mod objects;
mod vertex_array;
pub mod file;
pub mod layout;

pub use self::file::{parse, try_parse, decompress_section_body};

verus! {

/// Errors of `Image2D::to_rgba8`.
#[derive(Debug, Clone, Copy, PartialEq, Eq)]
pub enum ImageError {
    UnknownFormat(u8),
}

/// A reference to an object of the file by its index (`0` is the null reference).
#[derive(Default, Debug, Clone, Copy, PartialEq, Eq, Structural)]
pub struct ObjRef(pub u32);

impl ObjRef {
    /// The null reference, which names no object.
    pub fn null() -> (r: ObjRef)
        ensures
            r.0 == 0,
    {
        ObjRef(0)
    }

    pub fn is_null(self) -> (r: bool)
        ensures
            r == (self.0 == 0),
    {
        self.0 == 0
    }
}

/// `end - start` for a well-ordered range, `0` otherwise.
pub open spec fn range_len(r: Range<usize>) -> int {
    if r.start <= r.end {
        r.end - r.start
    } else {
        0
    }
}

/// A byte range of a shared buffer (or nothing).
#[derive(Debug, Default)]
pub enum ImageBytes {
    #[default]
    Empty,
    Borrowed(Rc<Vec<u8>>, Range<usize>),
}

impl ImageBytes {
    /// The range lies inside its buffer.
    pub open spec fn wf(&self) -> bool {
        match self {
            ImageBytes::Empty => true,
            ImageBytes::Borrowed(buf, r) => r.start <= r.end <= buf@.len(),
        }
    }

    pub fn is_empty(&self) -> (r: bool)
        ensures
            r == (self is Empty),
    {
        matches!(self, Self::Empty)
    }

    pub fn as_slice(&self) -> (s: &[u8])
        requires
            self.wf(),
        ensures
            s@ == self@,
    {
        match self {
            Self::Empty => {
                let e: &[u8] = &[];
                assert(e@ =~= Seq::<u8>::empty());
                e
            },
            Self::Borrowed(buf, range) => vstd::slice::slice_subrange(buf.as_slice(), range.start, range.end),
        }
    }
}

impl Clone for ImageBytes {
    fn clone(&self) -> (out: Self)
        ensures
            out == *self,
    {
        match self {
            Self::Empty => Self::Empty,
            Self::Borrowed(buf, range) => Self::Borrowed(buf.clone(), Range { start: range.start, end: range.end }),
        }
    }
}

impl View for ImageBytes {
    type V = Seq<u8>;

    /// The bytes the range covers.
    open spec fn view(&self) -> Seq<u8> {
        match self {
            ImageBytes::Empty => Seq::empty(),
            ImageBytes::Borrowed(buf, r) => buf@.subrange(r.start as int, r.end as int),
        }
    }
}

#[derive(Debug, Default, Clone)]
pub struct Object3DBase {
    pub user_id: u32,
    pub animation_tracks: Vec<ObjRef>,
    pub user_parameters: Vec<(u32, ImageBytes)>,
}

#[derive(Debug, Default, Clone)]
pub struct NodeBase {
    pub base: Object3DBase,
    pub enable_rendering: bool,
    pub enable_picking: bool,
    pub alpha_factor: u8,
    pub scope: u32,
    /// Bit patterns of three `f32`.
    pub translation: [u32; 3],
    /// Bit pattern of an `f32`.
    pub orientation_angle: u32,
    /// Bit patterns of three `f32`.
    pub orientation_axis: [u32; 3],
    /// Bit patterns of three `f32`.
    pub scale: [u32; 3],
    /// Bit patterns of sixteen `f32`.
    pub general_transform: Option<[u32; 16]>,
    pub alignment: Option<Alignment>,
}

#[derive(Debug, Clone, Copy)]
pub struct Alignment {
    pub z_target: u8,
    pub y_target: u8,
    pub z_reference: ObjRef,
    pub y_reference: ObjRef,
}

#[derive(Debug)]
pub struct Header {
    pub version: (u8, u8),
    pub has_external_references: bool,
    pub total_file_size: u32,
    pub approximate_content_size: u32,
    pub authoring_field: String,
}

impl Image2D {
    /// Bytes per pixel entry of a stock JSR184 format (0 for any other format).
    pub open spec fn bytes_per_pixel(format: u8) -> int {
        if format == 96 || format == 97 {
            1
        } else if format == 98 {
            2
        } else if format == 99 {
            3
        } else if format == 100 {
            4
        } else {
            0
        }
    }

    /// The format is one of the PVRTC 4bpp variants (124, 125).
    pub open spec fn is_pvrtc(&self) -> bool {
        self.format == 124 || self.format == 125
    }

    /// Bytes of the first mip level of a PVRTC 4bpp image (dimensions padded to 8).
    pub open spec fn mip0_len(&self) -> int {
        let w = if self.width >= 8 { self.width as int } else { 8 };
        let h = if self.height >= 8 { self.height as int } else { 8 };
        w * h / 2
    }

    /// The entry of pixel `i`: its palette entry when there is a palette, else its bytes.
    pub open spec fn pixel_entry(&self, i: int) -> Seq<u8> {
        let bpp = Self::bytes_per_pixel(self.format);
        if self.palette@.len() > 0 {
            self.palette@.subrange(self.pixels@[i] * bpp, self.pixels@[i] * bpp + bpp)
        } else {
            self.pixels@.subrange(i * bpp, i * bpp + bpp)
        }
    }

    /// The RGBA8 expansion of a stock-format image.
    pub open spec fn rgba8_expansion(&self) -> Seq<u8> {
        let n = self.width * self.height;
        Seq::new((4 * n) as nat, |t: int| expand_px_spec(self.format, self.pixel_entry(t / 4))[t % 4])
    }

    /// `to_rgba8` runs to completion: the sizes fit, the byte ranges are valid, every pixel
    /// entry lies inside the palette or the pixel bytes, and PVRTC data is decodable.
    pub open spec fn rgba8_ok(&self) -> bool {
        let n = self.width * self.height;
        let bpp = Self::bytes_per_pixel(self.format);
        if self.is_pvrtc() {
            &&& self.mip0_len() * 2 <= usize::MAX
            &&& self.pixels.wf()
            &&& self.pixels@.len() >= self.mip0_len()
            &&& crate::pvrtc::decodable(self.width as int, self.height as int, self.mip0_len())
        } else if bpp == 0 {
            true
        } else {
            &&& n * 4 <= isize::MAX
            &&& self.palette.wf()
            &&& self.pixels.wf()
            &&& if self.palette@.len() > 0 {
                &&& self.pixels@.len() >= n
                &&& forall|i: int| 0 <= i < n ==> #[trigger] self.pixels@[i] * bpp + bpp <= self.palette@.len()
            } else {
                self.pixels@.len() >= n * bpp
            }
        }
    }

    /// Expands to tightly-packed RGBA8 regardless of source format.
    ///
    /// Formats 96-100 are stock JSR184 (palettized when a palette is present). Formats
    /// 124/125 are PVRTC 4bpp images stored as a headerless mip chain down to 8x8; only mip 0
    /// is decoded.
    pub fn to_rgba8(&self) -> (r: Result<Vec<u8>, ImageError>)
        requires
            self.rgba8_ok(),
        ensures
            r is Err <==> !self.is_pvrtc() && Self::bytes_per_pixel(self.format) == 0,
            r matches Err(ImageError::UnknownFormat(f)) ==> f == self.format,
            r matches Ok(out) ==> out@.len() == self.width * self.height * 4,
            r matches Ok(out) ==> if self.is_pvrtc() {
                crate::pvrtc::decoded_4bpp(out@, self.width as int, self.height as int, self.pixels@.take(self.mip0_len()))
            } else {
                out@ == self.rgba8_expansion()
            },
    {
        let w = self.width as usize;
        let h = self.height as usize;
        let bpp: usize = if self.format == 96 || self.format == 97 {
            1
        } else if self.format == 98 {
            2
        } else if self.format == 99 {
            3
        } else if self.format == 100 {
            4
        } else if self.format == 124 || self.format == 125 {
            let mw = if w >= 8 { w } else { 8 };
            let mh = if h >= 8 { h } else { 8 };
            assert(mw * mh == self.mip0_len() * 2 || mw * mh == self.mip0_len() * 2 + 1);
            let mip0_len = (mw * mh) / 2;
            let pixels = self.pixels.as_slice();
            let mip0 = vstd::slice::slice_subrange(pixels, 0, mip0_len);
            assert(mip0@ =~= self.pixels@.take(self.mip0_len()));
            return Ok(crate::pvrtc::decode_4bpp(w, h, mip0));
        } else {
            return Err(ImageError::UnknownFormat(self.format));
        };
        assert(bpp == Self::bytes_per_pixel(self.format));
        let n = w * h;
        let mut out: Vec<u8> = Vec::with_capacity(n * 4);
        let palette = self.palette.as_slice();
        let pixels = self.pixels.as_slice();
        let ghost expected = self.rgba8_expansion();
        // Palettized when a palette is present: each pixel byte indexes the palette.
        let mut i: usize = 0;
        while i < n
            invariant
                i <= n,
                n == self.width * self.height,
                bpp == Self::bytes_per_pixel(self.format),
                1 <= bpp <= 4,
                self.rgba8_ok(),
                palette@ == self.palette@,
                pixels@ == self.pixels@,
                expected == self.rgba8_expansion(),
                out@ =~= expected.take(4 * i),
            decreases n - i,
        {
            let e = if palette.len() > 0 {
                let idx = pixels[i] as usize * bpp;
                assert(pixels@[i as int] * bpp + bpp <= palette@.len());
                vstd::slice::slice_subrange(palette, idx, idx + bpp)
            } else {
                assert(i * bpp + bpp <= n * bpp) by (nonlinear_arith)
                    requires
                        i < n,
                        1 <= bpp,
                ;
                vstd::slice::slice_subrange(pixels, i * bpp, i * bpp + bpp)
            };
            assert(e@ == self.pixel_entry(i as int));
            let px = expand_px(self.format, e);
            out.push(px[0]);
            out.push(px[1]);
            out.push(px[2]);
            out.push(px[3]);
            proof {
                assert forall|t: int| 4 * i <= t < 4 * i + 4 implies t / 4 == i && #[trigger] expected[t] == px[t % 4] by {}
            }
            i = i + 1;
        }
        assert(expected.take(4 * n) =~= expected);
        Ok(out)
    }
}

/// Stock images expand pixel by pixel in row-major order: pixel `i` takes its entry from
/// the palette at `pixels[i] * bpp` when there is a palette, else from the pixel bytes at
/// `i * bpp`, `bpp` being 1, 1, 2, 3, 4 bytes for formats 96 (alpha), 97 (luminance), 98
/// (luminance and alpha), 99 (RGB) and 100 (RGBA). Alpha images are white with the entry
/// as alpha; luminance repeats into red, green and blue; missing alpha is 255.
pub proof fn lemma_rgba8_pixels(im: Image2D, i: int)
    requires
        96 <= im.format <= 100,
        im.rgba8_ok(),
        0 <= i < im.width * im.height,
    ensures
        ({
            let bpp = if im.format <= 97 { 1int } else { im.format - 96 };
            let e = |j: int| if im.palette@.len() > 0 {
                im.palette@[im.pixels@[i] * bpp + j]
            } else {
                im.pixels@[i * bpp + j]
            };
            let px = im.rgba8_expansion().subrange(4 * i, 4 * i + 4);
            &&& im.rgba8_expansion().len() == 4 * (im.width * im.height)
            &&& im.format == 96 ==> px == seq![255u8, 255, 255, e(0)]
            &&& im.format == 97 ==> px == seq![e(0), e(0), e(0), 255u8]
            &&& im.format == 98 ==> px == seq![e(0), e(0), e(0), e(1)]
            &&& im.format == 99 ==> px == seq![e(0), e(1), e(2), 255u8]
            &&& im.format == 100 ==> px == seq![e(0), e(1), e(2), e(3)]
        }),
{
    let exp = im.rgba8_expansion();
    let bpp = Image2D::bytes_per_pixel(im.format);
    assert forall|c: int| 0 <= c < 4 implies #[trigger] exp[4 * i + c] == expand_px_spec(im.format, im.pixel_entry(i))[c] by {
        assert((4 * i + c) / 4 == i && (4 * i + c) % 4 == c);
    }
    let px = exp.subrange(4 * i, 4 * i + 4);
    let ent = im.pixel_entry(i);
    assert(px =~= expand_px_spec(im.format, ent));
    if im.palette@.len() > 0 {
        assert(im.pixels@[i] * bpp + bpp <= im.palette@.len());
    } else {
        assert(i * bpp + bpp <= im.width * im.height * bpp) by (nonlinear_arith)
            requires
                0 <= i < im.width * im.height,
                1 <= bpp,
        ;
    }
    assert(forall|j: int| 0 <= j < bpp ==> #[trigger] ent[j] == if im.palette@.len() > 0 {
        im.palette@[im.pixels@[i] * bpp + j]
    } else {
        im.pixels@[i * bpp + j]
    });
}

/// The RGBA8 pixel of a stock-format entry.
pub open spec fn expand_px_spec(format: u8, e: Seq<u8>) -> Seq<u8> {
    if format == 96 {
        seq![255u8, 255u8, 255u8, e[0]]
    } else if format == 97 {
        seq![e[0], e[0], e[0], 255u8]
    } else if format == 98 {
        seq![e[0], e[0], e[0], e[1]]
    } else if format == 99 {
        seq![e[0], e[1], e[2], 255u8]
    } else {
        seq![e[0], e[1], e[2], e[3]]
    }
}

fn expand_px(format: u8, e: &[u8]) -> (px: [u8; 4])
    requires
        96 <= format <= 100,
        e@.len() >= Image2D::bytes_per_pixel(format),
    ensures
        px@ == expand_px_spec(format, e@),
{
    let px = if format == 96 {
        [255, 255, 255, e[0]]
    } else if format == 97 {
        [e[0], e[0], e[0], 255]
    } else if format == 98 {
        [e[0], e[0], e[0], e[1]]
    } else if format == 99 {
        [e[0], e[1], e[2], 255]
    } else {
        [e[0], e[1], e[2], e[3]]
    };
    assert(px@ =~= expand_px_spec(format, e@));
    px
}

impl Clone for Header {
    fn clone(&self) -> (out: Self)
        ensures
            out == *self,
    {
        Header {
            version: self.version,
            has_external_references: self.has_external_references,
            total_file_size: self.total_file_size,
            approximate_content_size: self.approximate_content_size,
            authoring_field: self.authoring_field.clone(),
        }
    }
}

#[derive(Debug, Clone)]
pub struct AnimationController {
    pub base: Object3DBase,
    /// Bit pattern of an `f32`.
    pub speed: u32,
    /// Bit pattern of an `f32`.
    pub weight: u32,
    pub active_interval_start: u32,
    pub active_interval_end: u32,
    /// Bit pattern of an `f32`.
    pub reference_sequence_time: u32,
    pub reference_world_time: i32,
}

#[derive(Debug, Clone)]
pub struct AnimationTrack {
    pub base: Object3DBase,
    pub keyframe_sequence: ObjRef,
    pub animation_controller: ObjRef,
    pub property_id: u32,
}

#[derive(Debug, Clone)]
pub enum KeyframeData {
    /// `(time, components)`, components as `f32` bit patterns.
    Float(Vec<(u32, Vec<u32>)>),
    /// `bias` and `scale` as `f32` bit patterns; frames are `(time, quantized components)`.
    Quantized { bias: Vec<u32>, scale: Vec<u32>, frames: Vec<(u32, Vec<i32>)> },
}

#[derive(Debug, Clone)]
pub struct KeyframeSequence {
    pub base: Object3DBase,
    pub interpolation: u8,
    pub repeat_mode: u8,
    pub duration: u32,
    pub valid_range_first: u32,
    pub valid_range_last: u32,
    pub component_count: u32,
    pub keyframe_count: u32,
    pub data: KeyframeData,
}

#[derive(Debug, Clone)]
pub struct Image2D {
    pub base: Object3DBase,
    /// JSR184 pixel format: 96=ALPHA, 97=LUMINANCE, 98=LUMINANCE_ALPHA, 99=RGB, 100=RGBA.
    pub format: u8,
    pub is_mutable: bool,
    pub width: u32,
    pub height: u32,
    pub palette: ImageBytes,
    pub pixels: ImageBytes,
}

#[derive(Debug, Clone)]
pub struct Appearance {
    pub base: Object3DBase,
    pub layer: i8,
    pub compositing_mode: ObjRef,
    pub fog: ObjRef,
    pub polygon_mode: ObjRef,
    pub material: ObjRef,
    pub textures: Vec<ObjRef>,
}

#[derive(Debug, Clone)]
pub struct Group {
    pub node: NodeBase,
    pub children: Vec<ObjRef>,
}

#[derive(Debug)]
pub enum IndexData {
    Implicit { first: u32, count: u32 },
    BorrowedU8(Rc<Vec<u8>>, Range<usize>),
    BorrowedU16(Rc<Vec<u8>>, Range<usize>),
    BorrowedU32(Rc<Vec<u8>>, Range<usize>),
}

impl Clone for IndexData {
    fn clone(&self) -> (out: Self)
        ensures
            out == *self,
    {
        match self {
            Self::Implicit { first, count } => Self::Implicit { first: *first, count: *count },
            Self::BorrowedU8(buf, r) => Self::BorrowedU8(buf.clone(), Range { start: r.start, end: r.end }),
            Self::BorrowedU16(buf, r) => Self::BorrowedU16(buf.clone(), Range { start: r.start, end: r.end }),
            Self::BorrowedU32(buf, r) => Self::BorrowedU32(buf.clone(), Range { start: r.start, end: r.end }),
        }
    }
}

/// A buffer's length fits in `usize`.
pub(crate) proof fn lemma_buffer_len(buf: &Rc<Vec<u8>>)
    ensures
        buf@.len() <= usize::MAX,
{
    assert(buf.len() == buf@.len());
}

impl IndexData {
    /// `get(idx)` reads inside the buffer (or does not overflow, for implicit indices).
    pub open spec fn get_ok(&self, idx: int) -> bool {
        match self {
            IndexData::Implicit { first, .. } => first + (idx as u32) <= u32::MAX,
            IndexData::BorrowedU8(buf, r) => r.start + idx < buf@.len(),
            IndexData::BorrowedU16(buf, r) => r.start + idx * 2 + 2 <= buf@.len(),
            IndexData::BorrowedU32(buf, r) => r.start + idx * 4 + 4 <= buf@.len(),
        }
    }

    /// Index number `idx`.
    pub open spec fn spec_get(&self, idx: int) -> u32 {
        match self {
            IndexData::Implicit { first, .. } => (first + (idx as u32)) as u32,
            IndexData::BorrowedU8(buf, r) => buf@[r.start + idx] as u32,
            IndexData::BorrowedU16(buf, r) => le_u16(buf@, r.start + idx * 2) as u32,
            IndexData::BorrowedU32(buf, r) => le_u32(buf@, r.start + idx * 4),
        }
    }

    /// The number of indices.
    pub open spec fn spec_len(&self) -> int {
        match self {
            IndexData::Implicit { count, .. } => *count as int,
            IndexData::BorrowedU8(_, r) => range_len(*r),
            IndexData::BorrowedU16(_, r) => range_len(*r) / 2,
            IndexData::BorrowedU32(_, r) => range_len(*r) / 4,
        }
    }

    pub fn get(&self, idx: usize) -> (v: u32)
        requires
            self.get_ok(idx as int),
        ensures
            v == self.spec_get(idx as int),
    {
        match self {
            Self::Implicit { first, .. } => first + idx as u32,
            Self::BorrowedU8(buf, range) => {
                proof { lemma_buffer_len(buf); }
                buf[range.start + idx] as u32
            },
            Self::BorrowedU16(buf, range) => {
                proof { lemma_buffer_len(buf); }
                let offset = range.start + idx * 2;
                let bytes = vstd::slice::slice_subrange(buf.as_slice(), offset, offset + 2);
                let val = read_u16_le(bytes);
                val as u32
            },
            Self::BorrowedU32(buf, range) => {
                proof { lemma_buffer_len(buf); }
                let offset = range.start + idx * 4;
                let bytes = vstd::slice::slice_subrange(buf.as_slice(), offset, offset + 4);
                read_u32_le(bytes)
            },
        }
    }

    pub fn len(&self) -> (n: usize)
        ensures
            n == self.spec_len(),
    {
        match self {
            Self::Implicit { count, .. } => *count as usize,
            Self::BorrowedU8(_, range) => if range.start <= range.end { range.end - range.start } else { 0 },
            Self::BorrowedU16(_, range) => (if range.start <= range.end { range.end - range.start } else { 0 }) / 2,
            Self::BorrowedU32(_, range) => (if range.start <= range.end { range.end - range.start } else { 0 }) / 4,
        }
    }
}

/// Every readable index is the unsigned number its bytes spell, least significant byte
/// first: a `u8` index is its byte (below 256), a `u16` index its two bytes (below 65536),
/// a `u32` index its four bytes; an implicit index is the first index plus its position
/// (for positions that fit in a `u32`).
pub proof fn lemma_index_values(d: IndexData, i: int)
    requires
        0 <= i,
        d.get_ok(i),
    ensures
        d matches IndexData::BorrowedU8(buf, r) ==> d.spec_get(i) as int == buf@[r.start + i] as int
            && d.spec_get(i) < 256,
        d matches IndexData::BorrowedU16(buf, r) ==> d.spec_get(i) as int == buf@[r.start + 2 * i] as int + 256
            * buf@[r.start + 2 * i + 1] && d.spec_get(i) < 65536,
        d matches IndexData::BorrowedU32(buf, r) ==> d.spec_get(i) as int == buf@[r.start + 4 * i] as int + 256
            * buf@[r.start + 4 * i + 1] + 65536 * buf@[r.start + 4 * i + 2] + 16777216 * buf@[r.start + 4 * i + 3],
        i <= u32::MAX ==> (d matches IndexData::Implicit { first, .. } ==> d.spec_get(i) as int == first + i),
{
}

/// The number of indices is the number of whole indices the byte range holds.
pub proof fn lemma_index_count(d: IndexData)
    ensures
        d matches IndexData::BorrowedU8(_, r) ==> d.spec_len() == range_len(r),
        d matches IndexData::BorrowedU16(_, r) ==> 2 * d.spec_len() <= range_len(r) < 2 * d.spec_len() + 2,
        d matches IndexData::BorrowedU32(_, r) ==> 4 * d.spec_len() <= range_len(r) < 4 * d.spec_len() + 4,
        d matches IndexData::Implicit { count, .. } ==> d.spec_len() == count,
{
}

/// Every readable component is the signed number its bytes spell in two's complement:
/// an 8-bit component lies in -128..=127 and agrees with its byte modulo 256, a 16-bit one
/// lies in -32768..=32767 and agrees with its two little-endian bytes modulo 65536.
pub proof fn lemma_component_values(c: VertexArrayComponents, i: int)
    requires
        0 <= i,
        c.get_ok(i),
    ensures
        c matches VertexArrayComponents::BorrowedI8(buf, r) ==> -128 <= c.spec_get(i) <= 127 && (c.spec_get(i)
            - buf@[r.start + i]) % 256 == 0,
        c matches VertexArrayComponents::BorrowedI16(buf, r) ==> -32768 <= c.spec_get(i) <= 32767 && (c.spec_get(i)
            - buf@[r.start + 2 * i] - 256 * buf@[r.start + 2 * i + 1]) % 65536 == 0,
        c matches VertexArrayComponents::Owned(v) ==> c.spec_get(i) == v@[i],
{
    if let VertexArrayComponents::BorrowedI8(buf, r) = c {
        let b = buf@[r.start + i];
        assert(((b as i8) as i32) as int == if b < 128 { b as int } else { b - 256 }) by (bit_vector);
    }
}

/// Implicit triangle-strip indices are consecutive: a triangle strip array stored with an
/// implicit first index holds as many indices as its strip lengths add up to, and its index
/// `i` is the first index plus `i`.
pub proof fn lemma_implicit_strip_indices(b: IndexBuffer, s: Seq<u8>, p: int, i: int)
    requires
        self::objects::triangle_strips_end(s, p) is Some,
        self::objects::triangle_strips_matches(b, s, p),
        self::objects::explicit_width(s[self::objects::base_end(s, p)->0]) == 0,
        0 <= i < b.data->indices.spec_len(),
        self::objects::first_index(s, self::objects::base_end(s, p)->0) + i <= u32::MAX,
    ensures
        b.data->indices.spec_len() == self::objects::seq_sum(b.data->strip_lengths@),
        b.data->indices.get_ok(i),
        b.data->indices.spec_get(i) == self::objects::first_index(s, self::objects::base_end(s, p)->0) + i,
{
    let q = self::objects::base_end(s, p)->0;
    let r = self::objects::indices_end(s, q)->0;
    let lengths = self::cursor::u32s_at(s, r + 4, crate::le::le_u32(s, r) as int);
    assert(b.data->strip_lengths@ == lengths);
    assert(self::objects::seq_sum(lengths) <= u32::MAX);
    lemma_seq_sum_nonneg(lengths);
}

pub(crate) proof fn lemma_seq_sum_nonneg(v: Seq<u32>)
    ensures
        self::objects::seq_sum(v) >= 0,
    decreases v.len(),
{
    if v.len() > 0 {
        lemma_seq_sum_nonneg(v.drop_last());
    }
}

#[derive(Debug, Clone)]
pub enum IndexBufferData {
    /// Triangle strips: flattened indices + the length of each strip.
    TriangleStrips { strip_lengths: Vec<u32>, indices: IndexData },
}

#[derive(Debug, Clone)]
pub struct IndexBuffer {
    pub base: Object3DBase,
    pub data: IndexBufferData,
}

#[derive(Debug)]
pub enum VertexArrayComponents {
    BorrowedI8(Rc<Vec<u8>>, Range<usize>),
    BorrowedI16(Rc<Vec<u8>>, Range<usize>),
    Owned(Vec<i32>),
}

impl Clone for VertexArrayComponents {
    /// Borrowed components share the buffer; owned ones are copied.
    fn clone(&self) -> (out: Self)
        ensures
            !(self is Owned) ==> out == *self,
            self is Owned ==> out is Owned && out->Owned_0@ == self->Owned_0@,
    {
        match self {
            Self::BorrowedI8(buf, r) => Self::BorrowedI8(buf.clone(), Range { start: r.start, end: r.end }),
            Self::BorrowedI16(buf, r) => Self::BorrowedI16(buf.clone(), Range { start: r.start, end: r.end }),
            Self::Owned(v) => {
                let c = v.clone();
                assert(c@ =~= v@);
                Self::Owned(c)
            },
        }
    }
}

impl VertexArrayComponents {
    /// `get(idx)` reads inside the buffer.
    pub open spec fn get_ok(&self, idx: int) -> bool {
        match self {
            VertexArrayComponents::BorrowedI8(buf, r) => r.start + idx < buf@.len(),
            VertexArrayComponents::BorrowedI16(buf, r) => r.start + idx * 2 + 2 <= buf@.len(),
            VertexArrayComponents::Owned(v) => idx < v@.len(),
        }
    }

    /// Component number `idx`.
    pub open spec fn spec_get(&self, idx: int) -> i32 {
        match self {
            VertexArrayComponents::BorrowedI8(buf, r) => (buf@[r.start + idx] as i8) as i32,
            VertexArrayComponents::BorrowedI16(buf, r) => le_i16(buf@, r.start + idx * 2) as i32,
            VertexArrayComponents::Owned(v) => v@[idx],
        }
    }

    pub fn get(&self, idx: usize) -> (v: i32)
        requires
            self.get_ok(idx as int),
        ensures
            v == self.spec_get(idx as int),
    {
        match self {
            Self::BorrowedI8(buf, range) => {
                proof { lemma_buffer_len(buf); }
                #[verifier::truncate] (buf[range.start + idx] as i8) as i32
            },
            Self::BorrowedI16(buf, range) => {
                proof { lemma_buffer_len(buf); }
                let offset = range.start + idx * 2;
                let bytes = vstd::slice::slice_subrange(buf.as_slice(), offset, offset + 2);
                let val = read_i16_le(bytes);
                val as i32
            },
            Self::Owned(vec) => vec[idx],
        }
    }
}

#[derive(Debug, Clone)]
pub struct VertexArray {
    pub base: Object3DBase,
    pub component_size: u8,
    pub component_count: u8,
    pub components: VertexArrayComponents,
    pub vertex_count: u16,
}

impl VertexArray {
    pub fn component(&self, idx: usize) -> (v: i32)
        requires
            self.components.get_ok(idx as int),
        ensures
            v == self.components.spec_get(idx as int),
    {
        self.components.get(idx)
    }
}

#[derive(Debug, Clone, Default)]
pub struct TexCoordArray {
    pub array: ObjRef,
    /// Bit patterns of three `f32`.
    pub bias: [u32; 3],
    /// Bit pattern of an `f32`.
    pub scale: u32,
}

#[derive(Debug, Clone)]
pub struct VertexBuffer {
    pub base: Object3DBase,
    pub default_color: [u8; 4],
    pub positions: ObjRef,
    /// Bit patterns of three `f32`.
    pub position_bias: [u32; 3],
    /// Bit pattern of an `f32`.
    pub position_scale: u32,
    pub normals: ObjRef,
    pub colors: ObjRef,
    pub tex_coords: Vec<TexCoordArray>,
}

#[derive(Debug, Clone, Copy)]
pub struct SubMesh {
    pub index_buffer: ObjRef,
    pub appearance: ObjRef,
}

#[derive(Debug, Clone)]
pub struct Mesh {
    pub node: NodeBase,
    pub vertex_buffer: ObjRef,
    pub submeshes: Vec<SubMesh>,
}

#[derive(Debug, Clone, Copy)]
pub struct BoneRef {
    pub bone: ObjRef,
    pub first_vertex: u32,
    pub vertex_count: u32,
    pub weight: i32,
}

#[derive(Debug, Clone)]
pub struct SkinnedMesh {
    pub mesh: Mesh,
    pub skeleton: ObjRef,
    pub bones: Vec<BoneRef>,
}

#[derive(Debug, Clone)]
pub enum Object {
    Header(Header),
    AnimationController(AnimationController),
    AnimationTrack(AnimationTrack),
    Appearance(Appearance),
    Group(Group),
    Image2D(Image2D),
    TriangleStripArray(IndexBuffer),
    KeyframeSequence(KeyframeSequence),
    Mesh(Mesh),
    SkinnedMesh(SkinnedMesh),
    VertexArray(VertexArray),
    VertexBuffer(VertexBuffer),
    /// Object type recognized but not yet decoded, or unknown: raw payload kept for later.
    Unsupported { object_type: u8, data: Vec<u8> },
}

pub struct M3GFile {
    /// Index 0 is unused (reserved for the null reference); real objects start at 1.
    pub objects: Vec<Object>,
}

impl M3GFile {
    pub fn get(&self, r: ObjRef) -> (o: Option<&Object>)
        ensures
            r.0 == 0 ==> o is None,
            r.0 != 0 && r.0 < self.objects@.len() ==> o == Some(&self.objects@[r.0 as int]),
            r.0 != 0 && r.0 >= self.objects@.len() ==> o is None,
    {
        if r.is_null() {
            None
        } else {
            let i = r.0 as usize;
            if i < self.objects.len() {
                Some(&self.objects[i])
            } else {
                None
            }
        }
    }
}

}

//! Software decoder for PVRTC1 4bpp textures.
//!
//! Each 8-byte block covers a 4x4 texel area, but its colours bleed into the surrounding
//! areas too: a texel's final colour bilinearly blends the colour pairs of the four blocks
//! whose centres are nearest to it, then mixes between the blended colour A and colour B
//! using the texel's own modulation weight. Blocks are addressed in Morton (Z) order.
use vstd::prelude::*;
use vstd::arithmetic::power2::{pow2, lemma_pow2_adds, lemma_pow2_strictly_increases, lemma_pow2_pos};

pub mod morton;

verus! {

// ---------------------------------------------------------------------------------------
// Specification
// ---------------------------------------------------------------------------------------

/// Replicates the top bits of a 5-bit channel into the low bits of an 8-bit one.
pub open spec fn spec_expand5(v: int) -> int {
    v * 8 + v / 4
}

/// Replicates a four-bit channel into both nibbles of a byte: `(v << 4) | v`.
pub open spec fn spec_expand4(v: u32) -> int {
    ((v << 4u32) | v) as int
}

/// Little-endian 16-bit word at byte offset `i`.
pub open spec fn word16(s: Seq<u8>, i: int) -> u32 {
    (s[i] + 256 * s[i + 1]) as u32
}

/// Little-endian 32-bit word at byte offset `i`.
pub open spec fn word32(s: Seq<u8>, i: int) -> u32 {
    (s[i] + 256 * s[i + 1] + 65536 * s[i + 2] + 16777216 * s[i + 3]) as u32
}

/// A three-bit channel widened to four bits by replicating its top bit.
pub open spec fn widen3(v: u32) -> u32 {
    (v << 1u32) | (v >> 2u32)
}

/// Channel `k` (0 = red, 1 = green, 2 = blue, 3 = alpha) of colour A, encoded in `w`
/// (opaque RGB554 when the top bit is set, translucent ARGB3443 otherwise; the lowest bit
/// is the block's mode flag). Every channel is expanded to 8 bits.
pub open spec fn color_a_channel(w: u32, k: int) -> int {
    if w & 0x8000 != 0 {
        if k == 0 {
            spec_expand5(((w >> 10) & 0x1f) as int)
        } else if k == 1 {
            spec_expand5(((w >> 5) & 0x1f) as int)
        } else if k == 2 {
            spec_expand5((((w & 0x1e) | ((w >> 4) & 1)) & 0x1f) as int)
        } else {
            255
        }
    } else {
        if k == 0 {
            spec_expand4((w >> 8) & 0xf)
        } else if k == 1 {
            spec_expand4((w >> 4) & 0xf)
        } else if k == 2 {
            spec_expand4(widen3((w >> 1) & 7))
        } else {
            ((w >> 11) & 0xe) as int * 255 / 14
        }
    }
}

/// Channel `k` of colour B, encoded in `w` (opaque RGB555 or translucent ARGB3444),
/// expanded to 8 bits.
pub open spec fn color_b_channel(w: u32, k: int) -> int {
    if w & 0x8000 != 0 {
        if k == 0 {
            spec_expand5(((w >> 10) & 0x1f) as int)
        } else if k == 1 {
            spec_expand5(((w >> 5) & 0x1f) as int)
        } else if k == 2 {
            spec_expand5((w & 0x1f) as int)
        } else {
            255
        }
    } else {
        if k == 0 {
            spec_expand4((w >> 8) & 0xf)
        } else if k == 1 {
            spec_expand4((w >> 4) & 0xf)
        } else if k == 2 {
            spec_expand4(w & 0xf)
        } else {
            ((w >> 11) & 0xe) as int * 255 / 14
        }
    }
}

/// The 2-bit modulation code of texel `t` (raster order) in a modulation word.
pub open spec fn modulation_code(bits: u32, t: int) -> u32 {
    (bits >> ((2 * t) as u32)) & 3
}

/// Blend weight (in eighths) of a modulation code; `hard` selects punch-through mode.
pub open spec fn code_weight(hard: bool, code: u32) -> u8 {
    if code == 0 {
        0
    } else if code == 3 {
        8
    } else if hard {
        4
    } else if code == 1 {
        3
    } else {
        5
    }
}

/// Whether the block whose 8 bytes start at `b` is in punch-through ("hard") mode.
pub open spec fn block_hard(data: Seq<u8>, b: int) -> bool {
    data[b + 4] & 1 != 0
}

/// Blend weight of texel `t` of the block whose bytes start at `b`.
pub open spec fn block_weight(data: Seq<u8>, b: int, t: int) -> u8 {
    code_weight(block_hard(data, b), modulation_code(word32(data, b), t))
}

/// Whether texel `t` of the block whose bytes start at `b` is fully transparent.
pub open spec fn block_transparent(data: Seq<u8>, b: int, t: int) -> bool {
    block_hard(data, b) && modulation_code(word32(data, b), t) == 2
}

/// `(a * (8 - weight) + b * weight) / 8`.
pub open spec fn spec_lerp8(a: int, b: int, weight: int) -> int {
    (a * (8 - weight) + b * weight) / 8
}

/// The value of `morton_index` from an intermediate loop state.
pub open spec fn morton_from(x: usize, y: usize, side: usize, mask: usize, shift: usize, offset: usize) -> usize
    decreases 64 - shift,
{
    if mask < side && shift < 63 {
        morton_from(
            x,
            y,
            side,
            (mask << 1usize) as usize,
            (shift + 1) as usize,
            offset | (((y & mask) | ((x & mask) << 1usize)) << shift),
        )
    } else {
        offset | (((x | y) >> shift) << (shift * 2))
    }
}

/// Z-order (Morton) index of block `(x, y)` in a grid whose shorter side is `side`.
pub open spec fn spec_morton(x: usize, y: usize, side: usize) -> usize {
    morton_from(x, y, side, 1, 0, 0)
}



/// Number of 4-texel blocks needed to cover `n` texels.
pub open spec fn blocks_across(n: int) -> int {
    (n + 3) / 4
}

/// The shorter side of the block grid of a `w` x `h` texture.
pub open spec fn grid_side(w: int, h: int) -> int {
    if blocks_across(w) <= blocks_across(h) {
        blocks_across(w)
    } else {
        blocks_across(h)
    }
}

/// Byte offset in `data` of block `(bx, by)` of a `w` x `h` texture.
pub open spec fn block_start(w: int, h: int, bx: int, by: int) -> int {
    8 * spec_morton(bx as usize, by as usize, grid_side(w, h) as usize)
}

/// The neighbouring block (with wrap-around in a grid of `n` blocks) that texels at local
/// position `l` lean on: the previous block for the first two texels, the next one otherwise.
pub open spec fn near_block(b: int, n: int, l: int) -> int {
    if l < 2 {
        if b == 0 {
            n - 1
        } else {
            b - 1
        }
    } else {
        if b + 1 == n {
            0
        } else {
            b + 1
        }
    }
}

/// Bilinear tap weight, in eighths, of the neighbouring block for local position `l`
/// (0..4) along one axis. Texel centres lie at `l + 0.5` and block centres at 2, so the
/// texel is `|l + 0.5 - 2|` texels from its own block's centre, a quarter block per two
/// eighths: the neighbour weighs 3, 1, 1, 3 eighths.
pub open spec fn near_weight(l: int) -> int {
    if l == 0 || l == 3 {
        3
    } else {
        1
    }
}

/// Bilinear tap weight, in eighths, of the texel's own block for local position `l`: the
/// rest of the eight eighths (5, 7, 7, 5), so the own block always weighs most.
pub open spec fn own_weight(l: int) -> int {
    8 - near_weight(l)
}

/// Channel `k` of colour A (`is_b == false`) or colour B of block `(bx, by)`.
pub open spec fn block_channel(data: Seq<u8>, w: int, h: int, bx: int, by: int, is_b: bool, k: int) -> int {
    let b = block_start(w, h, bx, by);
    if is_b {
        color_b_channel(word16(data, b + 6), k)
    } else {
        color_a_channel(word16(data, b + 4), k)
    }
}

/// Channel `k` of colour A or B at texel `(x, y)`, blended bilinearly from the texel's own
/// block and its three nearest neighbours (the four tap weights sum to 64).
pub open spec fn blended_channel(data: Seq<u8>, w: int, h: int, x: int, y: int, is_b: bool, k: int) -> int {
    let bx = x / 4;
    let by = y / 4;
    let lx = x % 4;
    let ly = y % 4;
    let nx = near_block(bx, blocks_across(w), lx);
    let ny = near_block(by, blocks_across(h), ly);
    (block_channel(data, w, h, bx, by, is_b, k) * (own_weight(lx) * own_weight(ly))
        + block_channel(data, w, h, nx, by, is_b, k) * (near_weight(lx) * own_weight(ly))
        + block_channel(data, w, h, bx, ny, is_b, k) * (own_weight(lx) * near_weight(ly))
        + block_channel(data, w, h, nx, ny, is_b, k) * (near_weight(lx) * near_weight(ly))) / 64
}

/// Byte `k` (R, G, B, A) of the decoded texel `(x, y)` of a `w` x `h` texture: the blended
/// colours A and B mixed by the texel's modulation weight, with alpha forced to zero for
/// punch-through texels.
pub open spec fn texel_channel(data: Seq<u8>, w: int, h: int, x: int, y: int, k: int) -> u8 {
    let b = block_start(w, h, x / 4, y / 4);
    let t = (y % 4) * 4 + x % 4;
    if k == 3 && block_transparent(data, b, t) {
        0
    } else {
        spec_lerp8(
            blended_channel(data, w, h, x, y, false, k),
            blended_channel(data, w, h, x, y, true, k),
            block_weight(data, b, t) as int,
        ) as u8
    }
}

/// The inputs on which `decode_4bpp` runs to completion: the block count and the output
/// size fit in `usize`, `data` holds every block, and every block of the grid has a Morton
/// index inside it.
pub open spec fn decodable(w: int, h: int, len: int) -> bool {
    let bxs = blocks_across(w);
    let bys = blocks_across(h);
    &&& bxs * bys * 8 <= usize::MAX
    &&& w * h * 4 <= isize::MAX
    &&& len >= bxs * bys * 8
    &&& forall|bx: usize, by: usize|
        bx < bxs && by < bys ==> #[trigger] spec_morton(bx, by, grid_side(w, h) as usize) < bxs * bys
}

// ---------------------------------------------------------------------------------------
// Byte-level helpers
// ---------------------------------------------------------------------------------------

proof fn lemma_word16(b0: u8, b1: u8)
    ensures
        ((b0 as u32) | ((b1 as u32) << 8u32)) == b0 + 256 * b1,
{
    assert(((b0 as u32) | ((b1 as u32) << 8u32)) == b0 + 256 * b1) by (bit_vector);
}

proof fn lemma_word32(b0: u8, b1: u8, b2: u8, b3: u8)
    ensures
        ((b0 as u32) | ((b1 as u32) << 8u32) | ((b2 as u32) << 16u32) | ((b3 as u32) << 24u32))
            == b0 + 256 * b1 + 65536 * b2 + 16777216 * b3,
{
    assert(((b0 as u32) | ((b1 as u32) << 8u32) | ((b2 as u32) << 16u32) | ((b3 as u32) << 24u32))
        == b0 + 256 * b1 + 65536 * b2 + 16777216 * b3) by (bit_vector);
}

#[derive(Clone, Copy)]
struct Rgba {
    r: i32,
    g: i32,
    b: i32,
    a: i32,
}

impl Rgba {
    spec fn channel(self, k: int) -> int {
        if k == 0 {
            self.r as int
        } else if k == 1 {
            self.g as int
        } else if k == 2 {
            self.b as int
        } else {
            self.a as int
        }
    }

    /// Every channel is a byte value.
    spec fn in_range(self) -> bool {
        &&& 0 <= self.r <= 255
        &&& 0 <= self.g <= 255
        &&& 0 <= self.b <= 255
        &&& 0 <= self.a <= 255
    }
}

#[derive(Clone, Copy)]
struct Block {
    color_a: Rgba,
    color_b: Rgba,
    /// Per-texel weight in [0, 8] (eighths) used to blend colour A towards colour B.
    weights: [u8; 16],
    /// Bit i set means texel i is fully transparent (punch-through alpha).
    punch_through: u16,
}

impl Block {
    /// This block is the decoding of the 8 bytes of `data` that start at `b`.
    spec fn decodes(self, data: Seq<u8>, b: int) -> bool {
        &&& forall|k: int| 0 <= k < 4 ==> self.color_a.channel(k) == color_a_channel(word16(data, b + 4), k)
        &&& forall|k: int| 0 <= k < 4 ==> self.color_b.channel(k) == color_b_channel(word16(data, b + 6), k)
        &&& self.color_a.in_range()
        &&& self.color_b.in_range()
        &&& forall|t: int| 0 <= t < 16 ==> self.weights[t] == block_weight(data, b, t)
        &&& forall|t: int| 0 <= t < 16 ==>
            (((self.punch_through >> (t as u16)) & 1u16) == 1u16) == block_transparent(data, b, t)
    }
}

/// Expands a 5-bit channel to 8 bits by replicating the top bits into the low bits.
fn expand5(v: u32) -> (r: i32)
    requires
        v < 32,
    ensures
        r == spec_expand5(v as int),
        0 <= r <= 255,
{
    assert(((v << 3u32) | (v >> 2u32)) == v * 8 + v / 4) by (bit_vector)
        requires
            v < 32,
    ;
    ((v << 3) | (v >> 2)) as i32
}

/// Replicates a channel into both nibbles of a byte.
fn expand4(v: u32) -> (r: i32)
    requires
        v < 16,
    ensures
        r == spec_expand4(v),
        0 <= r <= 255,
{
    assert(((v << 4u32) | v) <= 255) by (bit_vector)
        requires
            v < 16,
    ;
    ((v << 4) | v) as i32
}

/// Unpacks the two 16-bit colour words (bytes 4..8 of the block, little-endian) into
/// colour A and colour B.
fn decode_colors(block_bytes: &[u8]) -> (res: (Rgba, Rgba))
    requires
        block_bytes@.len() >= 8,
    ensures
        forall|k: int| 0 <= k < 4 ==> res.0.channel(k) == color_a_channel(word16(block_bytes@, 4), k),
        forall|k: int| 0 <= k < 4 ==> res.1.channel(k) == color_b_channel(word16(block_bytes@, 6), k),
        res.0.in_range(),
        res.1.in_range(),
{
    proof {
        lemma_word16(block_bytes@[4], block_bytes@[5]);
        lemma_word16(block_bytes@[6], block_bytes@[7]);
    }
    let ca = (block_bytes[4] as u32) | ((block_bytes[5] as u32) << 8);
    let cb = (block_bytes[6] as u32) | ((block_bytes[7] as u32) << 8);
    assert(ca == word16(block_bytes@, 4));
    assert(cb == word16(block_bytes@, 6));
    assert(ca < 0x10000 && cb < 0x10000);
    assert(((ca >> 11u32) & 0xe) <= 14 && ((cb >> 11u32) & 0xe) <= 14) by (bit_vector);
    assert(((ca >> 10u32) & 0x1f) < 32 && ((ca >> 5u32) & 0x1f) < 32
        && (((ca & 0x1e) | ((ca >> 4u32) & 1)) & 0x1f) < 32 && ((ca >> 8u32) & 0xf) < 16
        && ((ca >> 4u32) & 0xf) < 16 && widen3((ca >> 1u32) & 7) < 16) by (bit_vector);
    assert(((cb >> 10u32) & 0x1f) < 32 && ((cb >> 5u32) & 0x1f) < 32 && (cb & 0x1f) < 32
        && ((cb >> 8u32) & 0xf) < 16 && ((cb >> 4u32) & 0xf) < 16 && (cb & 0xf) < 16) by (bit_vector);

    let color_a = if ca & 0x8000 != 0 {
        // Opaque RGB554: 1RRRRR GGGGG BBBB M (blue widened to five bits)
        Rgba {
            r: expand5((ca >> 10) & 0x1f),
            g: expand5((ca >> 5) & 0x1f),
            b: expand5(((ca & 0x1e) | ((ca >> 4) & 1)) & 0x1f),
            a: 255,
        }
    } else {
        // Translucent ARGB3443: 0AAA RRRR GGGG BBB M (blue widened to four bits)
        let b3 = (ca >> 1) & 7;
        Rgba {
            r: expand4((ca >> 8) & 0xf),
            g: expand4((ca >> 4) & 0xf),
            b: expand4((b3 << 1) | (b3 >> 2)),
            a: (((ca >> 11) & 0xe) as i32) * 255 / 14,
        }
    };
    let color_b = if cb & 0x8000 != 0 {
        // Opaque RGB555: 1RRRRR GGGGG BBBBB
        Rgba {
            r: expand5((cb >> 10) & 0x1f),
            g: expand5((cb >> 5) & 0x1f),
            b: expand5(cb & 0x1f),
            a: 255,
        }
    } else {
        // Translucent ARGB3444: 0AAA RRRR GGGG BBBB
        Rgba {
            r: expand4((cb >> 8) & 0xf),
            g: expand4((cb >> 4) & 0xf),
            b: expand4(cb & 0xf),
            a: (((cb >> 11) & 0xe) as i32) * 255 / 14,
        }
    };
    (color_a, color_b)
}

fn standard_weight(code: u32) -> (w: u8)
    requires
        code < 4,
    ensures
        w == code_weight(false, code),
{
    if code == 0 {
        0
    } else if code == 1 {
        3
    } else if code == 2 {
        5
    } else {
        8
    }
}

fn punch_through_weight(code: u32) -> (w: u8)
    requires
        code < 4,
    ensures
        w == code_weight(true, code),
{
    if code == 0 {
        0
    } else if code == 3 {
        8
    } else {
        4
    }
}

/// Unpacks the 32-bit modulation word (bytes 0..4) into 16 per-texel blend weights
/// (raster order within the block) plus a punch-through-alpha bitmask.
fn decode_weights(block_bytes: &[u8]) -> (res: ([u8; 16], u16))
    requires
        block_bytes@.len() >= 8,
    ensures
        forall|t: int| 0 <= t < 16 ==> res.0[t] == block_weight(block_bytes@, 0, t),
        forall|t: int| 0 <= t < 16 ==>
            (((res.1 >> (t as u16)) & 1u16) == 1u16) == block_transparent(block_bytes@, 0, t),
{
    let hard_mode = block_bytes[4] & 1 != 0;
    proof {
        lemma_word32(block_bytes@[0], block_bytes@[1], block_bytes@[2], block_bytes@[3]);
    }
    let bits0 = (block_bytes[0] as u32) | ((block_bytes[1] as u32) << 8) | ((block_bytes[2] as u32)
        << 16) | ((block_bytes[3] as u32) << 24);
    assert(bits0 == word32(block_bytes@, 0));
    let mut bits = bits0;
    assert(bits0 >> 0u32 == bits0) by (bit_vector);
    assert(0u16 >> 0u16 == 0u16) by (bit_vector);
    let mut weights = [0u8; 16];
    let mut punch_through = 0u16;
    let mut i: usize = 0;
    while i < 16
        invariant
            i <= 16,
            bits == bits0 >> ((2 * i) as u32),
            hard_mode == block_hard(block_bytes@, 0),
            bits0 == word32(block_bytes@, 0),
            forall|t: int| 0 <= t < i ==> weights[t] == block_weight(block_bytes@, 0, t),
            forall|t: int| 0 <= t < i ==>
                (((punch_through >> (t as u16)) & 1u16) == 1u16) == block_transparent(block_bytes@, 0, t),
            i < 16 ==> punch_through >> (i as u16) == 0,
        decreases 16 - i,
    {
        let code = bits & 3;
        assert(bits & 3 < 4) by (bit_vector);
        assert(code == modulation_code(bits0, i as int)) by {
            assert(((bits0 >> ((2 * i) as u32)) & 3) == modulation_code(bits0, i as int));
        }
        let old_punch = punch_through;
        if hard_mode {
            weights[i] = punch_through_weight(code);
            if code == 2 {
                punch_through = punch_through | (1u16 << (i as u16));
            }
        } else {
            weights[i] = standard_weight(code);
        }
        let ii = i as u16;
        let ghost set = hard_mode && code == 2;
        assert(forall|t: u16| t < ii ==> #[trigger] ((punch_through >> t) & 1u16) == ((old_punch >> t) & 1u16))
            by (bit_vector)
            requires
                ii < 16,
                set ==> punch_through == old_punch | (1u16 << ii),
                !set ==> punch_through == old_punch,
        ;
        assert((((punch_through >> ii) & 1u16) == 1u16) == set) by (bit_vector)
            requires
                ii < 16,
                old_punch >> ii == 0,
                set ==> punch_through == old_punch | (1u16 << ii),
                !set ==> punch_through == old_punch,
        ;
        assert(ii + 1 < 16 ==> punch_through >> ((ii + 1) as u16) == 0) by (bit_vector)
            requires
                ii < 16,
                old_punch >> ii == 0,
                set ==> punch_through == old_punch | (1u16 << ii),
                !set ==> punch_through == old_punch,
        ;
        assert forall|t: int| 0 <= t < i + 1 implies
            (((punch_through >> (t as u16)) & 1u16) == 1u16) == block_transparent(block_bytes@, 0, t) by {
            if t < i {
                let tt = t as u16;
                assert(tt < ii);
                assert(((punch_through >> tt) & 1u16) == ((old_punch >> tt) & 1u16));
            } else {
                assert(t as u16 == ii);
                assert(block_transparent(block_bytes@, 0, t) == set);
            }
        }
        let ghost i2 = (2 * i) as u32;
        assert((bits0 >> i2) >> 2u32 == bits0 >> ((i2 + 2) as u32)) by (bit_vector)
            requires
                i2 < 32,
        ;
        bits = bits >> 2;
        i = i + 1;
    }
    (weights, punch_through)
}

fn lerp8(a: i32, b: i32, weight: u8) -> (r: i32)
    requires
        0 <= a <= 255,
        0 <= b <= 255,
        weight <= 8,
    ensures
        r == spec_lerp8(a as int, b as int, weight as int),
        0 <= r <= 255,
{
    assert(0 <= a * (8 - weight as i32) <= 255 * 8 - 255 * weight) by (nonlinear_arith)
        requires
            0 <= a <= 255,
            weight <= 8,
    ;
    assert(0 <= b * (weight as i32) <= 255 * weight) by (nonlinear_arith)
        requires
            0 <= b <= 255,
            weight <= 8,
    ;
    (a * (8 - weight as i32) + b * weight as i32) / 8
}


/// Z-order (Morton) index used by PVRTC to address blocks; `side` is the shorter of the
/// block grid's two dimensions.
fn morton_index(x: usize, y: usize, side: usize) -> (r: usize)
    requires
        side * side <= usize::MAX / 8,
    ensures
        r == spec_morton(x, y, side),
{
    assert(side <= 0x8000_0000) by (nonlinear_arith)
        requires
            side * side <= usize::MAX / 8,
            usize::MAX as int <= 0xffff_ffff_ffff_ffff,
    ;
    assert(usize::MAX == 0xffff_ffffusize ==> side <= 0x8000) by (nonlinear_arith)
        requires
            side * side <= usize::MAX / 8,
    ;
    let mut offset = 0usize;
    let mut shift = 0usize;
    let mut mask = 1usize;
    assert(1usize << 0usize == 1usize) by (bit_vector);
    while mask < side
        invariant
            mask == 1usize << shift,
            shift <= 31,
            side <= 0x8000_0000,
            usize::MAX == 0xffff_ffffusize ==> side <= 0x8000 && shift <= 15,
            morton_from(x, y, side, mask, shift, offset) == spec_morton(x, y, side),
        decreases 32 - shift,
    {
        assert(shift < 31 && (mask << 1usize) == 1usize << ((shift + 1) as usize) && mask < (mask << 1usize))
            by (bit_vector)
            requires
                mask == 1usize << shift,
                shift <= 31,
                mask < side,
                side <= 0x8000_0000,
        ;
        let ghost small = usize::MAX == 0xffff_ffffusize;
        assert(small ==> shift < 15) by (bit_vector)
            requires
                mask == 1usize << shift,
                shift <= 31,
                mask < side,
                small ==> side <= 0x8000,
        ;
        offset = offset | (((y & mask) | ((x & mask) << 1)) << shift);
        mask = mask << 1;
        shift = shift + 1;
    }
    offset | (((x | y) >> shift) << (shift * 2))
}


/// Decodes the block whose 8 bytes start at `8 * m` in `data`.
fn decode_block(data: &[u8], m: usize) -> (blk: Block)
    requires
        8 * m + 8 <= data.len(),
    ensures
        blk.decodes(data@, 8 * m),
{
    let bytes = vstd::slice::slice_subrange(data, m * 8, m * 8 + 8);
    let (color_a, color_b) = decode_colors(bytes);
    let (weights, punch_through) = decode_weights(bytes);
    assert(word16(bytes@, 4) == word16(data@, 8 * m + 4));
    assert(word16(bytes@, 6) == word16(data@, 8 * m + 6));
    assert(word32(bytes@, 0) == word32(data@, 8 * m));
    assert(block_hard(bytes@, 0) == block_hard(data@, 8 * m));
    assert forall|t: int| 0 <= t < 16 implies block_weight(bytes@, 0, t) == block_weight(data@, 8 * m, t)
        && block_transparent(bytes@, 0, t) == block_transparent(data@, 8 * m, t) by {}
    let blk = Block { color_a, color_b, weights, punch_through };
    let ghost b = 8 * m;
    assert(forall|k: int| 0 <= k < 4 ==> blk.color_a.channel(k) == color_a_channel(word16(data@, b + 4), k));
    assert(forall|k: int| 0 <= k < 4 ==> blk.color_b.channel(k) == color_b_channel(word16(data@, b + 6), k));
    assert(forall|t: int| 0 <= t < 16 ==> blk.weights[t] == block_weight(data@, b, t));
    assert forall|t: int| 0 <= t < 16 implies
            (((blk.punch_through >> (t as u16)) & 1u16) == 1u16) == block_transparent(data@, b, t) by {
        assert(block_transparent(bytes@, 0, t) == block_transparent(data@, 8 * m, t));
    }
    blk
}

proof fn lemma_weighted(c: int, w: int)
    requires
        0 <= c <= 255,
        0 <= w,
    ensures
        0 <= c * w <= 255 * w,
{
    assert(0 <= c * w <= 255 * w) by (nonlinear_arith)
        requires
            0 <= c <= 255,
            0 <= w,
    ;
}

/// Weighted sum of four colours (weights summing to 64), divided by 64.
fn blend(c: [Rgba; 4], w: [i32; 4]) -> (r: Rgba)
    requires
        c[0].in_range() && c[1].in_range() && c[2].in_range() && c[3].in_range(),
        0 <= w[0] <= 64 && 0 <= w[1] <= 64 && 0 <= w[2] <= 64 && 0 <= w[3] <= 64,
        w[0] + w[1] + w[2] + w[3] == 64,
    ensures
        forall|k: int| 0 <= k < 4 ==> r.channel(k) == (c[0].channel(k) * w[0] + c[1].channel(k) * w[1]
            + c[2].channel(k) * w[2] + c[3].channel(k) * w[3]) / 64,
        r.in_range(),
{
    proof {
        lemma_weighted(c[0].r as int, w[0] as int);
        lemma_weighted(c[1].r as int, w[1] as int);
        lemma_weighted(c[2].r as int, w[2] as int);
        lemma_weighted(c[3].r as int, w[3] as int);
        lemma_weighted(c[0].g as int, w[0] as int);
        lemma_weighted(c[1].g as int, w[1] as int);
        lemma_weighted(c[2].g as int, w[2] as int);
        lemma_weighted(c[3].g as int, w[3] as int);
        lemma_weighted(c[0].b as int, w[0] as int);
        lemma_weighted(c[1].b as int, w[1] as int);
        lemma_weighted(c[2].b as int, w[2] as int);
        lemma_weighted(c[3].b as int, w[3] as int);
        lemma_weighted(c[0].a as int, w[0] as int);
        lemma_weighted(c[1].a as int, w[1] as int);
        lemma_weighted(c[2].a as int, w[2] as int);
        lemma_weighted(c[3].a as int, w[3] as int);
    }
    Rgba {
        r: (c[0].r * w[0] + c[1].r * w[1] + c[2].r * w[2] + c[3].r * w[3]) / 64,
        g: (c[0].g * w[0] + c[1].g * w[1] + c[2].g * w[2] + c[3].g * w[3]) / 64,
        b: (c[0].b * w[0] + c[1].b * w[1] + c[2].b * w[2] + c[3].b * w[3]) / 64,
        a: (c[0].a * w[0] + c[1].a * w[1] + c[2].a * w[2] + c[3].a * w[3]) / 64,
    }
}


/// The decoded blocks of a `w` x `h` texture, in Morton order.
spec fn blocks_decoded(blocks: Seq<Block>, data: Seq<u8>, w: int, h: int) -> bool {
    &&& blocks.len() == blocks_across(w) * blocks_across(h)
    &&& forall|m: int| 0 <= m < blocks.len() ==> #[trigger] blocks[m].decodes(data, 8 * m)
    &&& forall|bx: usize, by: usize|
        bx < blocks_across(w) && by < blocks_across(h) ==> #[trigger] spec_morton(bx, by, grid_side(w, h) as usize)
            < blocks_across(w) * blocks_across(h)
}

/// The block at grid position `(bx, by)`.
fn block_at<'a>(blocks: &'a Vec<Block>, bx: usize, by: usize, side: usize, Ghost(data): Ghost<Seq<u8>>, Ghost(w): Ghost<int>, Ghost(h): Ghost<int>) -> (blk: &'a Block)
    requires
        blocks_decoded(blocks@, data, w, h),
        side == grid_side(w, h),
        side * side <= usize::MAX / 8,
        bx < blocks_across(w),
        by < blocks_across(h),
    ensures
        blk.decodes(data, block_start(w, h, bx as int, by as int)),
{
    let m = morton_index(bx, by, side);
    assert(grid_side(w, h) as usize == side);
    assert(spec_morton(bx, by, grid_side(w, h) as usize) < blocks_across(w) * blocks_across(h));
    &blocks[m]
}

/// Decodes texel `(4 * bx + local_x, 4 * by + local_y)`: blends the colour pairs of its own
/// block and its three nearest neighbours, then mixes A towards B by its modulation weight.
fn shade_texel(
    blocks: &Vec<Block>,
    side: usize,
    neighbor_x: [usize; 3],
    neighbor_y: [usize; 3],
    bx: usize,
    by: usize,
    local_x: usize,
    local_y: usize,
    Ghost(data): Ghost<Seq<u8>>,
    Ghost(w): Ghost<int>,
    Ghost(h): Ghost<int>,
) -> (px: [u8; 4])
    requires
        blocks_decoded(blocks@, data, w, h),
        side == grid_side(w, h),
        side * side <= usize::MAX / 8,
        bx < blocks_across(w),
        by < blocks_across(h),
        local_x < 4,
        local_y < 4,
        neighbor_x[0] == near_block(bx as int, blocks_across(w), 0),
        neighbor_x[2] == near_block(bx as int, blocks_across(w), 2),
        neighbor_y[0] == near_block(by as int, blocks_across(h), 0),
        neighbor_y[2] == near_block(by as int, blocks_across(h), 2),
    ensures
        forall|k: int| 0 <= k < 4 ==> px[k] == texel_channel(data, w, h, 4 * bx + local_x, 4 * by + local_y, k),
{
    // Texels in the top half of the block lean on the block above, the bottom half on the
    // block below (and symmetrically for x). The neighbour weighs 3/8 at the block's edge
    // texels and 1/8 at the inner ones; the own block weighs the rest.
    let near_yw: i32 = if local_y == 0 || local_y == 3 { 3 } else { 1 };
    let near_xw: i32 = if local_x == 0 || local_x == 3 { 3 } else { 1 };
    let near_y = if local_y < 2 { neighbor_y[0] } else { neighbor_y[2] };
    let near_x = if local_x < 2 { neighbor_x[0] } else { neighbor_x[2] };
    let y_weights = [near_yw, 8 - near_yw];
    let x_weights = [near_xw, 8 - near_xw];
    assert(near_x == near_block(bx as int, blocks_across(w), local_x as int));
    assert(near_y == near_block(by as int, blocks_across(h), local_y as int));
    assert(x_weights[0] == near_weight(local_x as int) && x_weights[1] == own_weight(local_x as int));
    assert(y_weights[0] == near_weight(local_y as int) && y_weights[1] == own_weight(local_y as int));

    let own = block_at(blocks, bx, by, side, Ghost(data), Ghost(w), Ghost(h));
    let side_x = block_at(blocks, near_x, by, side, Ghost(data), Ghost(w), Ghost(h));
    let side_y = block_at(blocks, bx, near_y, side, Ghost(data), Ghost(w), Ghost(h));
    let diag = block_at(blocks, near_x, near_y, side, Ghost(data), Ghost(w), Ghost(h));

    let xw0 = x_weights[0];
    let xw1 = x_weights[1];
    let yw0 = y_weights[0];
    let yw1 = y_weights[1];
    assert(xw0 * yw0 <= 64 && xw0 * yw1 <= 64 && xw1 * yw0 <= 64 && xw1 * yw1 <= 64
        && 0 <= xw0 * yw0 && 0 <= xw0 * yw1 && 0 <= xw1 * yw0 && 0 <= xw1 * yw1
        && xw1 * yw1 + xw0 * yw1 + xw1 * yw0 + xw0 * yw0 == 64) by (nonlinear_arith)
        requires
            1 <= xw0 <= 7 && 1 <= xw1 <= 7 && xw0 + xw1 == 8,
            1 <= yw0 <= 7 && 1 <= yw1 <= 7 && yw0 + yw1 == 8,
    ;
    let corner_weights = [xw1 * yw1, xw0 * yw1, xw1 * yw0, xw0 * yw0];
    let a = blend([own.color_a, side_x.color_a, side_y.color_a, diag.color_a], corner_weights);
    let b = blend([own.color_b, side_x.color_b, side_y.color_b, diag.color_b], corner_weights);

    let texel_index = local_y * 4 + local_x;
    let weight = own.weights[texel_index];
    assert(weight == block_weight(data, block_start(w, h, bx as int, by as int), texel_index as int));
    let ti = texel_index as u16;
    let transparent = own.punch_through & (1u16 << ti) != 0;
    let p = own.punch_through;
    assert((p & (1u16 << ti) != 0) == (((p >> ti) & 1u16) == 1u16)) by (bit_vector)
        requires
            ti < 16,
    ;
    let px = [
        lerp8(a.r, b.r, weight) as u8,
        lerp8(a.g, b.g, weight) as u8,
        lerp8(a.b, b.b, weight) as u8,
        if transparent {
            0
        } else {
            lerp8(a.a, b.a, weight) as u8
        },
    ];
    proof {
        let x = 4 * bx + local_x;
        let y = 4 * by + local_y;
        assert(x / 4 == bx && x % 4 == local_x && y / 4 == by && y % 4 == local_y);
        assert forall|k: int| 0 <= k < 4 implies px[k] == texel_channel(data, w, h, x, y, k) by {
            assert(a.channel(k) == blended_channel(data, w, h, x, y, false, k));
            assert(b.channel(k) == blended_channel(data, w, h, x, y, true, k));
        }
    }
    px
}


/// Position of byte `k` of texel `(x, y)` in a row-major RGBA8 image `w` texels wide.
pub open spec fn texel_offset(w: int, x: int, y: int, k: int) -> int {
    (y * w + x) * 4 + k
}

/// Texel `(x, y)` comes before the texel at local position `(lx, ly)` of block `(bx, by)`
/// in the decoder's visiting order (block rows, then blocks, then texel rows, then texels).
spec fn visited_before(x: int, y: int, bx: int, by: int, lx: int, ly: int) -> bool {
    ||| y / 4 < by
    ||| y / 4 == by && x / 4 < bx
    ||| y / 4 == by && x / 4 == bx && y % 4 < ly
    ||| y / 4 == by && x / 4 == bx && y % 4 == ly && x % 4 < lx
}

/// Every texel visited before `(bx, by, lx, ly)` holds its decoded value in `out`.
spec fn rendered_up_to(out: Seq<u8>, data: Seq<u8>, w: int, h: int, bx: int, by: int, lx: int, ly: int) -> bool {
    forall|x: int, y: int, k: int|
        0 <= x < w && 0 <= y < h && 0 <= k < 4 && visited_before(x, y, bx, by, lx, ly) ==> out[texel_offset(w, x, y, k)]
            == #[trigger] texel_channel(data, w, h, x, y, k)
}

proof fn lemma_texel_offset_bounds(w: int, h: int, x: int, y: int)
    requires
        0 <= x < w,
        0 <= y < h,
    ensures
        0 <= y * w + x < w * h,
        0 <= y * w,
{
    assert(0 <= y * w + x < w * h && 0 <= y * w) by (nonlinear_arith)
        requires
            0 <= x < w,
            0 <= y < h,
    ;
}

proof fn lemma_texel_offset_distinct(w: int, x1: int, y1: int, x2: int, y2: int)
    requires
        0 <= x1 < w,
        0 <= x2 < w,
        0 <= y1,
        0 <= y2,
        x1 != x2 || y1 != y2,
    ensures
        y1 * w + x1 != y2 * w + x2,
{
    if y1 < y2 {
        assert(y1 * w + x1 < y2 * w + x2) by (nonlinear_arith)
            requires
                0 <= x1 < w,
                0 <= x2,
                y1 < y2,
        ;
    } else if y2 < y1 {
        assert(y2 * w + x2 < y1 * w + x1) by (nonlinear_arith)
            requires
                0 <= x2 < w,
                0 <= x1,
                y2 < y1,
        ;
    }
}

/// Writes the decoded texel `(4 * bx + local_x, 4 * by + local_y)` into `out` when it lies
/// inside the image, extending the set of rendered texels by one.
fn store_texel(
    out: &mut Vec<u8>,
    px: [u8; 4],
    width: usize,
    height: usize,
    bx: usize,
    by: usize,
    local_x: usize,
    local_y: usize,
    Ghost(data): Ghost<Seq<u8>>,
)
    requires
        old(out)@.len() == width * height * 4,
        width * height * 4 <= usize::MAX,
        bx < blocks_across(width as int),
        by < blocks_across(height as int),
        local_x < 4,
        local_y < 4,
        forall|k: int| 0 <= k < 4 ==> px[k] == texel_channel(data, width as int, height as int, 4 * bx + local_x, 4 * by + local_y, k),
        rendered_up_to(old(out)@, data, width as int, height as int, bx as int, by as int, local_x as int, local_y as int),
    ensures
        final(out)@.len() == width * height * 4,
        rendered_up_to(final(out)@, data, width as int, height as int, bx as int, by as int, local_x + 1, local_y as int),
{
    let ghost w = width as int;
    let ghost h = height as int;
    assert(w <= usize::MAX / 4 && h <= usize::MAX / 4) by (nonlinear_arith)
        requires
            w * h * 4 <= usize::MAX,
            w >= 1,
            h >= 1,
    ;
    let x = bx * 4 + local_x;
    let y = by * 4 + local_y;
    let ghost old_out = out@;
    if x < width && y < height {
        proof {
            lemma_texel_offset_bounds(w, h, x as int, y as int);
        }
        let out_offset = (y * width + x) * 4;
        out[out_offset] = px[0];
        out[out_offset + 1] = px[1];
        out[out_offset + 2] = px[2];
        out[out_offset + 3] = px[3];
    }
    proof {
        assert forall|x2: int, y2: int, k: int|
            0 <= x2 < w && 0 <= y2 < h && 0 <= k < 4 && visited_before(x2, y2, bx as int, by as int, local_x + 1, local_y as int)
            implies out@[texel_offset(w, x2, y2, k)] == #[trigger] texel_channel(data, w, h, x2, y2, k) by {
            lemma_texel_offset_bounds(w, h, x2, y2);
            if x2 == x && y2 == y {
                assert(texel_offset(w, x2, y2, k) == (y * width + x) * 4 + k);
                if k == 0 {
                } else if k == 1 {
                } else if k == 2 {
                } else {
                }
            } else {
                assert(visited_before(x2, y2, bx as int, by as int, local_x as int, local_y as int));
                assert(old_out[texel_offset(w, x2, y2, k)] == texel_channel(data, w, h, x2, y2, k));
                if x < width && y < height {
                    lemma_texel_offset_distinct(w, x2, y2, x as int, y as int);
                }
            }
        }
    }
}

/// `out` is the RGBA8 decoding (`w * h * 4` bytes, row-major) of the PVRTC1 4bpp data.
pub open spec fn decoded_4bpp(out: Seq<u8>, w: int, h: int, data: Seq<u8>) -> bool {
    &&& out.len() == w * h * 4
    &&& forall|x: int, y: int, k: int|
        0 <= x < w && 0 <= y < h && 0 <= k < 4 ==> out[texel_offset(w, x, y, k)]
            == #[trigger] texel_channel(data, w, h, x, y, k)
}

/// Decodes a headerless PVRTC1 4bpp mip level into tightly packed RGBA8, `width * height * 4`
/// bytes in row-major order.
pub fn decode_4bpp(width: usize, height: usize, data: &[u8]) -> (out: Vec<u8>)
    requires
        decodable(width as int, height as int, data@.len() as int),
    ensures
        decoded_4bpp(out@, width as int, height as int, data@),
{
    let ghost w = width as int;
    let ghost h = height as int;
    let blocks_x = width / 4 + if width % 4 != 0 { 1 } else { 0 };
    let blocks_y = height / 4 + if height % 4 != 0 { 1 } else { 0 };
    assert(blocks_x == blocks_across(w) && blocks_y == blocks_across(h));
    let side = if blocks_x <= blocks_y { blocks_x } else { blocks_y };
    assert(side * side <= blocks_x * blocks_y) by (nonlinear_arith)
        requires
            side <= blocks_x,
            side <= blocks_y,
    ;
    let num_blocks = blocks_x * blocks_y;

    let mut blocks: Vec<Block> = Vec::new();
    let mut morton: usize = 0;
    while morton < num_blocks
        invariant
            morton <= num_blocks,
            num_blocks == blocks_across(w) * blocks_across(h),
            num_blocks * 8 <= data@.len(),
            blocks@.len() == morton,
            forall|m: int| 0 <= m < morton ==> #[trigger] blocks@[m].decodes(data@, 8 * m),
        decreases num_blocks - morton,
    {
        blocks.push(decode_block(data, morton));
        morton = morton + 1;
    }
    assert(blocks_decoded(blocks@, data@, w, h));

    let total = width * height * 4;
    let mut out = vec![0u8; total];
    let mut by: usize = 0;
    while by < blocks_y
        invariant
            by <= blocks_y,
            blocks_x == blocks_across(w),
            blocks_y == blocks_across(h),
            side == grid_side(w, h),
            side * side <= usize::MAX / 8,
            blocks_decoded(blocks@, data@, w, h),
            w == width && h == height,
            w * h * 4 <= usize::MAX,
            out@.len() == w * h * 4,
            rendered_up_to(out@, data@, w, h, 0, by as int, 0, 0),
        decreases blocks_y - by,
    {
        let neighbor_y = [if by == 0 { blocks_y - 1 } else { by - 1 }, by, if by + 1 == blocks_y { 0 } else { by + 1 }];
        let mut bx: usize = 0;
        while bx < blocks_x
            invariant
                by < blocks_y,
                bx <= blocks_x,
                blocks_x == blocks_across(w),
                blocks_y == blocks_across(h),
                side == grid_side(w, h),
                side * side <= usize::MAX / 8,
                blocks_decoded(blocks@, data@, w, h),
                w == width && h == height,
                w * h * 4 <= usize::MAX,
                out@.len() == w * h * 4,
                neighbor_y[0] == near_block(by as int, blocks_across(h), 0),
                neighbor_y[2] == near_block(by as int, blocks_across(h), 2),
                rendered_up_to(out@, data@, w, h, bx as int, by as int, 0, 0),
            decreases blocks_x - bx,
        {
            let neighbor_x = [if bx == 0 { blocks_x - 1 } else { bx - 1 }, bx, if bx + 1 == blocks_x { 0 } else { bx + 1 }];
            let mut local_y: usize = 0;
            while local_y < 4
                invariant
                    by < blocks_y,
                    bx < blocks_x,
                    local_y <= 4,
                    blocks_x == blocks_across(w),
                    blocks_y == blocks_across(h),
                    side == grid_side(w, h),
                    side * side <= usize::MAX / 8,
                    blocks_decoded(blocks@, data@, w, h),
                    w == width && h == height,
                    w * h * 4 <= usize::MAX,
                    out@.len() == w * h * 4,
                    neighbor_y[0] == near_block(by as int, blocks_across(h), 0),
                    neighbor_y[2] == near_block(by as int, blocks_across(h), 2),
                    neighbor_x[0] == near_block(bx as int, blocks_across(w), 0),
                    neighbor_x[2] == near_block(bx as int, blocks_across(w), 2),
                    rendered_up_to(out@, data@, w, h, bx as int, by as int, 0, local_y as int),
                decreases 4 - local_y,
            {
                let mut local_x: usize = 0;
                while local_x < 4
                    invariant
                        by < blocks_y,
                        bx < blocks_x,
                        local_y < 4,
                        local_x <= 4,
                        blocks_x == blocks_across(w),
                        blocks_y == blocks_across(h),
                        side == grid_side(w, h),
                        side * side <= usize::MAX / 8,
                        blocks_decoded(blocks@, data@, w, h),
                        w == width && h == height,
                        w * h * 4 <= usize::MAX,
                        out@.len() == w * h * 4,
                        neighbor_y[0] == near_block(by as int, blocks_across(h), 0),
                        neighbor_y[2] == near_block(by as int, blocks_across(h), 2),
                        neighbor_x[0] == near_block(bx as int, blocks_across(w), 0),
                        neighbor_x[2] == near_block(bx as int, blocks_across(w), 2),
                        rendered_up_to(out@, data@, w, h, bx as int, by as int, local_x as int, local_y as int),
                    decreases 4 - local_x,
                {
                    let px = shade_texel(
                        &blocks,
                        side,
                        neighbor_x,
                        neighbor_y,
                        bx,
                        by,
                        local_x,
                        local_y,
                        Ghost(data@),
                        Ghost(w),
                        Ghost(h),
                    );
                    store_texel(&mut out, px, width, height, bx, by, local_x, local_y, Ghost(data@));
                    local_x = local_x + 1;
                }
                local_y = local_y + 1;
            }
            bx = bx + 1;
        }
        by = by + 1;
    }
    proof {
        assert forall|x: int, y: int, k: int|
            0 <= x < w && 0 <= y < h && 0 <= k < 4 implies out@[texel_offset(w, x, y, k)] == #[trigger] texel_channel(
            data@,
            w,
            h,
            x,
            y,
            k,
        ) by {
            assert(visited_before(x, y, 0, blocks_y as int, 0, 0));
        }
    }
    out
}


// ---------------------------------------------------------------------------------------
// Power-of-two textures
// ---------------------------------------------------------------------------------------

proof fn lemma_morton_step(x: usize, y: usize, mask: usize, shift: usize, offset: usize)
    requires
        mask == 1usize << shift,
        (1usize << ((2 * shift + 2) as usize)) != 0,
        offset < (1usize << ((2 * shift) as usize)),
    ensures
        offset | (((y & mask) | ((x & mask) << 1usize)) << shift) < (1usize << ((2 * shift + 2) as usize)),
{
    assert(offset | (((y & mask) | ((x & mask) << 1usize)) << shift) < (1usize << ((2 * shift + 2) as usize)))
        by (bit_vector)
        requires
            mask == 1usize << shift,
            (1usize << ((2 * shift + 2) as usize)) != 0,
            offset < (1usize << ((2 * shift) as usize)),
    ;
}

proof fn lemma_morton_final(x: usize, y: usize, na: usize, nb: usize, k: usize, offset: usize)
    requires
        x < (1usize << na),
        y < (1usize << nb),
        k == na || k == nb,
        k <= na,
        k <= nb,
        na <= 64,
        nb <= 64,
        (1usize << ((na + nb) as usize)) != 0,
        offset < (1usize << ((2 * k) as usize)),
    ensures
        offset | (((x | y) >> k) << ((k * 2) as usize)) < (1usize << ((na + nb) as usize)),
{
    assert(offset | (((x | y) >> k) << ((k * 2) as usize)) < (1usize << ((na + nb) as usize))) by (bit_vector)
        requires
            x < (1usize << na),
            y < (1usize << nb),
            k == na || k == nb,
            k <= na,
            k <= nb,
            na <= 64,
            nb <= 64,
            (1usize << ((na + nb) as usize)) != 0,
            offset < (1usize << ((2 * k) as usize)),
    ;
}


proof fn lemma_morton_from_bound(
    x: usize,
    y: usize,
    side: usize,
    mask: usize,
    shift: usize,
    offset: usize,
    na: usize,
    nb: usize,
    k: usize,
)
    requires
        x < (1usize << na),
        y < (1usize << nb),
        k == na || k == nb,
        k <= na,
        k <= nb,
        na <= 64,
        nb <= 64,
        (1usize << ((na + nb) as usize)) != 0,
        side == 1usize << k,
        mask == 1usize << shift,
        shift <= k,
        offset < (1usize << ((2 * shift) as usize)),
    ensures
        morton_from(x, y, side, mask, shift, offset) < (1usize << ((na + nb) as usize)),
    decreases k - shift,
{
    assert((mask < side) == (shift < k) && shift < 63) by (bit_vector)
        requires
            side == 1usize << k,
            mask == 1usize << shift,
            shift <= k,
            k <= na,
            k <= nb,
            na <= 64,
            nb <= 64,
            (1usize << ((na + nb) as usize)) != 0,
    ;
    if shift < k {
        assert((mask << 1usize) == 1usize << ((shift + 1) as usize) && (1usize << ((2 * shift + 2) as usize)) != 0)
            by (bit_vector)
            requires
                mask == 1usize << shift,
                shift < k,
                k <= na,
                k <= nb,
                na <= 64,
                nb <= 64,
                (1usize << ((na + nb) as usize)) != 0,
        ;
        lemma_morton_step(x, y, mask, shift, offset);
        lemma_morton_from_bound(
            x,
            y,
            side,
            (mask << 1usize) as usize,
            (shift + 1) as usize,
            offset | (((y & mask) | ((x & mask) << 1usize)) << shift),
            na,
            nb,
            k,
        );
    } else {
        lemma_morton_final(x, y, na, nb, k, offset);
    }
}

/// Blocks of a grid `2^na` blocks wide and `2^nb` blocks high have Morton indices below the
/// number of blocks.
pub proof fn lemma_morton_in_grid(x: usize, y: usize, na: usize, nb: usize)
    requires
        na + nb < usize::BITS,
        x < (1usize << na),
        y < (1usize << nb),
    ensures
        spec_morton(x, y, if na <= nb { 1usize << na } else { 1usize << nb }) < (1usize << ((na + nb) as usize)),
{
    let k = if na <= nb { na } else { nb };
    assert((1usize << ((na + nb) as usize)) != 0) by {
        vstd::bits::lemma_usize_pow2_no_overflow((na + nb) as nat);
        vstd::bits::lemma_usize_shl_is_mul(1, (na + nb) as usize);
    }
    assert(1usize << 0usize == 1usize && 0usize < (1usize << 0usize)) by (bit_vector);
    lemma_morton_from_bound(x, y, 1usize << k, 1, 0, 0, na, nb, k);
}


/// PVRTC textures whose sides are powers of two (of at least 4 texels, so at least the 8
/// that PVRTC asks for) decode once the data holds their `width * height / 2` bytes and the
/// RGBA8 output fits in memory: the grid of 4x4 blocks then addresses every block inside
/// the block list.
pub proof fn lemma_power_of_two_decodable(a: nat, b: nat, len: int)
    requires
        2 <= a,
        2 <= b,
        pow2(a) * pow2(b) * 4 <= isize::MAX,
        len >= pow2(a) * pow2(b) / 2,
    ensures
        decodable(pow2(a) as int, pow2(b) as int, len),
{
    let w = pow2(a) as int;
    let h = pow2(b) as int;
    let na = (a - 2) as nat;
    let nb = (b - 2) as nat;
    lemma_pow2_adds(2, na);
    lemma_pow2_adds(2, nb);
    vstd::arithmetic::power2::lemma2_to64();
    assert(w == 4 * pow2(na) && h == 4 * pow2(nb));
    assert(blocks_across(w) == pow2(na) && blocks_across(h) == pow2(nb));
    lemma_pow2_adds(na, nb);
    lemma_pow2_adds(a, b);
    lemma_pow2_adds((na + nb) as nat, 4);
    assert(w * h == 16 * (pow2(na) * pow2(nb))) by (nonlinear_arith)
        requires
            w == 4 * pow2(na),
            h == 4 * pow2(nb),
    ;
    let bxs = blocks_across(w);
    let bys = blocks_across(h);
    assert(bxs * bys * 8 == w * h / 2);
    // The grid fits in the address space: na + nb < usize::BITS.
    vstd::layout::unsigned_int_max_values();
    assert(na + nb < usize::BITS) by {
        if na + nb >= usize::BITS {
            lemma_pow2_pos(usize::BITS as nat);
            if na + nb > usize::BITS {
                lemma_pow2_strictly_increases(usize::BITS as nat, (na + nb) as nat);
            }
            assert(pow2((na + nb) as nat) >= pow2(usize::BITS as nat));
            assert(w * h * 4 == 64 * pow2((na + nb) as nat));
        }
    }
    let k = if na <= nb { na } else { nb };
    if na < nb {
        lemma_pow2_strictly_increases(na, nb);
    } else if nb < na {
        lemma_pow2_strictly_increases(nb, na);
    }
    assert(grid_side(w, h) == pow2(k));
    vstd::bits::lemma_usize_pow2_no_overflow(na);
    vstd::bits::lemma_usize_pow2_no_overflow(nb);
    vstd::bits::lemma_usize_pow2_no_overflow((na + nb) as nat);
    vstd::bits::lemma_usize_shl_is_mul(1, na as usize);
    vstd::bits::lemma_usize_shl_is_mul(1, nb as usize);
    vstd::bits::lemma_usize_shl_is_mul(1, (na + nb) as usize);
    assert forall|bx: usize, by: usize| bx < bxs && by < bys implies #[trigger] spec_morton(bx, by, grid_side(w, h) as usize)
        < bxs * bys by {
        lemma_morton_in_grid(bx, by, na as usize, nb as usize);
    }
}


/// Channel expansion replicates the top bits into the low bits: a five-bit value becomes
/// the byte whose top five bits are the value, and a four-bit value the byte whose two
/// nibbles are the value.
pub proof fn lemma_expand_replicates(v: u32)
    ensures
        v < 32 ==> spec_expand5(v as int) < 256 && spec_expand5(v as int) / 8 == v,
        v < 16 ==> spec_expand4(v) < 256 && spec_expand4(v) / 16 == v && spec_expand4(v) % 16 == v,
{
    if v < 16 {
        assert(((v << 4u32) | v) == v * 17) by (bit_vector)
            requires
                v < 16,
        ;
    }
}

/// Every texel's blend weight is a number of eighths between 0 and 8, and only texels of
/// punch-through blocks are transparent, with the half-way weight.
pub proof fn lemma_weights_in_eighths(data: Seq<u8>, b: int, t: int)
    ensures
        block_weight(data, b, t) <= 8,
        block_transparent(data, b, t) ==> block_hard(data, b) && block_weight(data, b, t) == 4,
{
}

/// Weight 0 keeps colour A and weight 8 gives colour B.
pub proof fn lemma_lerp8_ends(a: int, b: int)
    ensures
        spec_lerp8(a, b, 0) == a,
        spec_lerp8(a, b, 8) == b,
{
    assert(a * (8 - 0) + b * 0 == a * 8 && a * (8 - 8) + b * 8 == b * 8) by (nonlinear_arith);
    assert((a * 8) / 8 == a && (b * 8) / 8 == b) by (nonlinear_arith);
}

/// The four bilinear taps of every texel position inside a block sum to 64, so the blended
/// colour is a weighted average of the four block colours, in which the texel's own block
/// weighs most.
pub proof fn lemma_tap_weights_sum(lx: int, ly: int)
    requires
        0 <= lx < 4,
        0 <= ly < 4,
    ensures
        own_weight(lx) * own_weight(ly) + near_weight(lx) * own_weight(ly) + own_weight(lx) * near_weight(ly)
            + near_weight(lx) * near_weight(ly) == 64,
        own_weight(lx) * own_weight(ly) > near_weight(lx) * own_weight(ly),
        own_weight(lx) * own_weight(ly) > own_weight(lx) * near_weight(ly),
        own_weight(lx) * own_weight(ly) > near_weight(lx) * near_weight(ly),
        near_weight(lx) > 0,
{
    assert(own_weight(lx) + near_weight(lx) == 8 && own_weight(lx) > near_weight(lx) > 0);
    assert(own_weight(ly) + near_weight(ly) == 8 && own_weight(ly) > near_weight(ly) > 0);
    assert(own_weight(lx) * own_weight(ly) > near_weight(lx) * own_weight(ly)
        && own_weight(lx) * own_weight(ly) > own_weight(lx) * near_weight(ly)
        && own_weight(lx) * own_weight(ly) > near_weight(lx) * near_weight(ly)) by (nonlinear_arith)
        requires
            own_weight(lx) > near_weight(lx) > 0,
            own_weight(ly) > near_weight(ly) > 0,
    ;
    assert(own_weight(lx) * own_weight(ly) + near_weight(lx) * own_weight(ly) + own_weight(lx) * near_weight(ly)
        + near_weight(lx) * near_weight(ly) == (own_weight(lx) + near_weight(lx)) * (own_weight(ly) + near_weight(ly)))
        by (nonlinear_arith);
}


/// Every channel of both colours of every colour word is a byte value (0..=255).
pub proof fn lemma_channels_are_bytes(w: u32, k: int)
    requires
        w < 0x10000,
        0 <= k < 4,
    ensures
        0 <= color_a_channel(w, k) <= 255,
        0 <= color_b_channel(w, k) <= 255,
{
    assert(((w >> 10u32) & 0x1f) < 32 && ((w >> 5u32) & 0x1f) < 32 && (w & 0x1f) < 32
        && (((w & 0x1e) | ((w >> 4u32) & 1)) & 0x1f) < 32 && ((w >> 11u32) & 0xe) <= 14)
        by (bit_vector);
    assert(((w >> 8u32) & 0xf) < 16 && ((w >> 4u32) & 0xf) < 16 && (w & 0xf) < 16
        && widen3((w >> 1u32) & 7) < 16) by (bit_vector);
    assert(forall|v: u32| v < 16 ==> #[trigger] ((v << 4u32) | v) <= 255) by (bit_vector);
}

/// `data` holds `n` blocks whose eight bytes are all the same.
pub open spec fn uniform_blocks(data: Seq<u8>, n: int) -> bool {
    forall|i: int, j: int| 0 <= i < n && 0 <= j < 8 ==> #[trigger] data[8 * i + j] == data[j]
}

/// The block of every grid position starts inside the block list.
proof fn lemma_block_in_list(w: int, h: int, len: int, bx: int, by: int)
    requires
        decodable(w, h, len),
        0 <= bx < blocks_across(w),
        0 <= by < blocks_across(h),
    ensures
        0 <= block_start(w, h, bx, by),
        block_start(w, h, bx, by) + 8 <= 8 * (blocks_across(w) * blocks_across(h)),
{
    assert(spec_morton(bx as usize, by as usize, grid_side(w, h) as usize) < blocks_across(w) * blocks_across(h));
}

/// In uniform data every block of the grid reads the same bytes as the first one.
proof fn lemma_uniform_block(data: Seq<u8>, w: int, h: int, bx: int, by: int)
    requires
        decodable(w, h, data.len() as int),
        uniform_blocks(data, blocks_across(w) * blocks_across(h)),
        0 <= bx < blocks_across(w),
        0 <= by < blocks_across(h),
    ensures
        word16(data, block_start(w, h, bx, by) + 4) == word16(data, 4),
        word16(data, block_start(w, h, bx, by) + 6) == word16(data, 6),
        word32(data, block_start(w, h, bx, by)) == word32(data, 0),
        block_hard(data, block_start(w, h, bx, by)) == block_hard(data, 0),
{
    let m = spec_morton(bx as usize, by as usize, grid_side(w, h) as usize) as int;
    assert(m < blocks_across(w) * blocks_across(h));
    assert(data[8 * m + 0] == data[0] && data[8 * m + 1] == data[1] && data[8 * m + 2] == data[2]
        && data[8 * m + 3] == data[3] && data[8 * m + 4] == data[4] && data[8 * m + 5] == data[5]
        && data[8 * m + 6] == data[6] && data[8 * m + 7] == data[7]);
}

/// A texel of uniform data depends only on its position inside its block.
proof fn lemma_uniform_texel(data: Seq<u8>, w: int, h: int, x: int, y: int, k: int)
    requires
        decodable(w, h, data.len() as int),
        uniform_blocks(data, blocks_across(w) * blocks_across(h)),
        0 <= x < w,
        0 <= y < h,
        0 <= k < 4,
    ensures
        texel_channel(data, w, h, x, y, k) == texel_channel(data, w, h, x % 4, y % 4, k),
{
    let bxs = blocks_across(w);
    let bys = blocks_across(h);
    assert forall|px: int, py: int, is_b: bool| 0 <= px < w && 0 <= py < h implies #[trigger] blended_channel(
        data,
        w,
        h,
        px,
        py,
        is_b,
        k,
    ) == (if is_b { color_b_channel(word16(data, 6), k) } else { color_a_channel(word16(data, 4), k) }) by {
        let bx = px / 4;
        let by = py / 4;
        let lx = px % 4;
        let ly = py % 4;
        let nx = near_block(bx, bxs, lx);
        let ny = near_block(by, bys, ly);
        lemma_uniform_block(data, w, h, bx, by);
        lemma_uniform_block(data, w, h, nx, by);
        lemma_uniform_block(data, w, h, bx, ny);
        lemma_uniform_block(data, w, h, nx, ny);
        let c = if is_b { color_b_channel(word16(data, 6), k) } else { color_a_channel(word16(data, 4), k) };
        lemma_tap_weights_sum(lx, ly);
        let t0 = own_weight(lx) * own_weight(ly);
        let t1 = near_weight(lx) * own_weight(ly);
        let t2 = own_weight(lx) * near_weight(ly);
        let t3 = near_weight(lx) * near_weight(ly);
        assert(c * t0 + c * t1 + c * t2 + c * t3 == c * 64) by (nonlinear_arith)
            requires
                t0 + t1 + t2 + t3 == 64,
        ;
    }
    lemma_uniform_block(data, w, h, x / 4, y / 4);
    lemma_uniform_block(data, w, h, 0, 0);
}

/// A texture whose blocks are all the same decodes to a pattern that repeats every four
/// texels across and down.
pub proof fn lemma_uniform_blocks_repeat(out: Seq<u8>, w: int, h: int, data: Seq<u8>)
    requires
        decodable(w, h, data.len() as int),
        uniform_blocks(data, blocks_across(w) * blocks_across(h)),
        decoded_4bpp(out, w, h, data),
    ensures
        forall|x: int, y: int, k: int|
            0 <= x < w && 0 <= y < h && 0 <= k < 4 ==> #[trigger] out[texel_offset(w, x, y, k)]
                == out[texel_offset(w, x % 4, y % 4, k)],
{
    assert forall|x: int, y: int, k: int| 0 <= x < w && 0 <= y < h && 0 <= k < 4 implies #[trigger] out[texel_offset(
        w,
        x,
        y,
        k,
    )] == out[texel_offset(w, x % 4, y % 4, k)] by {
        lemma_uniform_texel(data, w, h, x, y, k);
        assert(out[texel_offset(w, x % 4, y % 4, k)] == texel_channel(data, w, h, x % 4, y % 4, k));
    }
}

/// The block of every grid position reads the same bytes in `data` and in its first
/// `8 * blocks` bytes.
proof fn lemma_prefix_block(data: Seq<u8>, w: int, h: int, bx: int, by: int)
    requires
        decodable(w, h, data.len() as int),
        0 <= bx < blocks_across(w),
        0 <= by < blocks_across(h),
    ensures
        ({
            let p = data.subrange(0, 8 * (blocks_across(w) * blocks_across(h)));
            let b = block_start(w, h, bx, by);
            &&& word16(data, b + 4) == word16(p, b + 4)
            &&& word16(data, b + 6) == word16(p, b + 6)
            &&& word32(data, b) == word32(p, b)
            &&& block_hard(data, b) == block_hard(p, b)
        }),
{
    lemma_block_in_list(w, h, data.len() as int, bx, by);
}

/// Bytes after the blocks of the texture do not change its decoding.
pub proof fn lemma_trailing_bytes_ignored(out: Seq<u8>, out2: Seq<u8>, w: int, h: int, data: Seq<u8>)
    requires
        0 <= w,
        0 <= h,
        decodable(w, h, data.len() as int),
        decoded_4bpp(out, w, h, data),
        decoded_4bpp(out2, w, h, data.subrange(0, 8 * (blocks_across(w) * blocks_across(h)))),
    ensures
        out == out2,
{
    let p = data.subrange(0, 8 * (blocks_across(w) * blocks_across(h)));
    let bxs = blocks_across(w);
    let bys = blocks_across(h);
    assert forall|i: int| 0 <= i < out.len() implies out[i] == out2[i] by {
        let k = i % 4;
        let j = i / 4;
        let x = j % w;
        let y = j / w;
        assert(w > 0) by (nonlinear_arith)
            requires
                out.len() == w * h * 4,
                0 <= i < out.len(),
                h >= 0,
        ;
        assert(0 <= y < h && 0 <= x < w && texel_offset(w, x, y, k) == i) by (nonlinear_arith)
            requires
                w > 0,
                0 <= i < w * h * 4,
                k == i % 4,
                j == i / 4,
                x == j % w,
                y == j / w,
        ;
        assert forall|is_b: bool| #[trigger] blended_channel(data, w, h, x, y, is_b, k) == blended_channel(
            p,
            w,
            h,
            x,
            y,
            is_b,
            k,
        ) by {
            let bx = x / 4;
            let by = y / 4;
            lemma_prefix_block(data, w, h, bx, by);
            lemma_prefix_block(data, w, h, near_block(bx, bxs, x % 4), by);
            lemma_prefix_block(data, w, h, bx, near_block(by, bys, y % 4));
            lemma_prefix_block(data, w, h, near_block(bx, bxs, x % 4), near_block(by, bys, y % 4));
        }
        lemma_prefix_block(data, w, h, x / 4, y / 4);
        assert(texel_channel(data, w, h, x, y, k) == texel_channel(p, w, h, x, y, k));
    }
    assert(out =~= out2);
}


/// `data2` holds the blocks of `data` transposed on a square grid of `n` blocks a side: the
/// colour words of block `(bx, by)` of `data2` are those of block `(by, bx)` of `data`.
pub open spec fn transposed_colours(data: Seq<u8>, data2: Seq<u8>, w: int) -> bool {
    forall|bx: int, by: int|
        0 <= bx < blocks_across(w) && 0 <= by < blocks_across(w) ==> {
            &&& #[trigger] word16(data2, block_start(w, w, bx, by) + 4) == word16(data, block_start(w, w, by, bx) + 4)
            &&& word16(data2, block_start(w, w, bx, by) + 6) == word16(data, block_start(w, w, by, bx) + 6)
        }
}

/// Every block of a square grid has a zero modulation word: every texel takes colour A.
pub open spec fn modulation_zero(data: Seq<u8>, w: int) -> bool {
    forall|bx: int, by: int|
        0 <= bx < blocks_across(w) && 0 <= by < blocks_across(w) ==> #[trigger] word32(data, block_start(w, w, bx, by)) == 0
}

proof fn lemma_near_in_grid(b: int, n: int, l: int)
    requires
        0 <= b < n,
    ensures
        0 <= near_block(b, n, l) < n,
{
}

/// Blending is symmetric in the two axes: the blended colour at `(y, x)` of the transposed
/// blocks is the blended colour at `(x, y)` of the original ones.
proof fn lemma_blend_transposes(data: Seq<u8>, data2: Seq<u8>, w: int, x: int, y: int, is_b: bool, k: int)
    requires
        transposed_colours(data, data2, w),
        0 <= x < w,
        0 <= y < w,
    ensures
        blended_channel(data2, w, w, y, x, is_b, k) == blended_channel(data, w, w, x, y, is_b, k),
{
    let n = blocks_across(w);
    let bx = x / 4;
    let by = y / 4;
    let lx = x % 4;
    let ly = y % 4;
    let nx = near_block(bx, n, lx);
    let ny = near_block(by, n, ly);
    lemma_near_in_grid(bx, n, lx);
    lemma_near_in_grid(by, n, ly);
    assert(word16(data2, block_start(w, w, by, bx) + 4) == word16(data, block_start(w, w, bx, by) + 4));
    assert(word16(data2, block_start(w, w, ny, bx) + 4) == word16(data, block_start(w, w, bx, ny) + 4));
    assert(word16(data2, block_start(w, w, by, nx) + 4) == word16(data, block_start(w, w, nx, by) + 4));
    assert(word16(data2, block_start(w, w, ny, nx) + 4) == word16(data, block_start(w, w, nx, ny) + 4));
    let c0 = block_channel(data, w, w, bx, by, is_b, k);
    let c1 = block_channel(data, w, w, nx, by, is_b, k);
    let c2 = block_channel(data, w, w, bx, ny, is_b, k);
    let c3 = block_channel(data, w, w, nx, ny, is_b, k);
    assert(block_channel(data2, w, w, by, bx, is_b, k) == c0);
    assert(block_channel(data2, w, w, by, nx, is_b, k) == c1);
    assert(block_channel(data2, w, w, ny, bx, is_b, k) == c2);
    assert(block_channel(data2, w, w, ny, nx, is_b, k) == c3);
    let ox = own_weight(lx);
    let oy = own_weight(ly);
    let mx = near_weight(lx);
    let my = near_weight(ly);
    assert(c0 * (oy * ox) + c2 * (my * ox) + c1 * (oy * mx) + c3 * (my * mx) == c0 * (ox * oy) + c1 * (mx * oy)
        + c2 * (ox * my) + c3 * (mx * my)) by (nonlinear_arith);
}

/// Decoding commutes with transposition: for a square texture whose texels all take
/// colour A, transposing the blocks' colours transposes the decoded image. In particular a
/// texel's vertical neighbour block depends on its row in the block (above for rows 0 and
/// 1, below for rows 2 and 3) just as its horizontal neighbour depends on its column.
pub proof fn lemma_decode_transposes(out: Seq<u8>, out2: Seq<u8>, w: int, data: Seq<u8>, data2: Seq<u8>)
    requires
        0 <= w,
        transposed_colours(data, data2, w),
        modulation_zero(data, w),
        modulation_zero(data2, w),
        decoded_4bpp(out, w, w, data),
        decoded_4bpp(out2, w, w, data2),
    ensures
        forall|x: int, y: int, k: int|
            0 <= x < w && 0 <= y < w && 0 <= k < 4 ==> #[trigger] out2[texel_offset(w, y, x, k)] == out[texel_offset(
                w,
                x,
                y,
                k,
            )],
{
    assert forall|x: int, y: int, k: int| 0 <= x < w && 0 <= y < w && 0 <= k < 4 implies #[trigger] out2[texel_offset(
        w,
        y,
        x,
        k,
    )] == out[texel_offset(w, x, y, k)] by {
        lemma_blend_transposes(data, data2, w, x, y, false, k);
        lemma_blend_transposes(data, data2, w, x, y, true, k);
        let b = block_start(w, w, x / 4, y / 4);
        let b2 = block_start(w, w, y / 4, x / 4);
        assert(word32(data, b) == 0);
        assert(word32(data2, b2) == 0);
        let t = (y % 4) * 4 + x % 4;
        let t2 = (x % 4) * 4 + y % 4;
        assert(forall|sh: u32| #[trigger] ((0u32 >> sh) & 3) == 0) by (bit_vector);
        assert(modulation_code(0, t) == 0 && modulation_code(0, t2) == 0);
        lemma_lerp8_ends(blended_channel(data, w, w, x, y, false, k), blended_channel(data, w, w, x, y, true, k));
        assert(out[texel_offset(w, x, y, k)] == texel_channel(data, w, w, x, y, k));
        assert(out2[texel_offset(w, y, x, k)] == texel_channel(data2, w, w, y, x, k));
    }
}


/// A five-bit field expanded to a byte by replicating its top bits.
pub open spec fn five_bit_byte(f: int) -> int {
    f * 8 + f / 4
}

/// A four-bit field expanded to a byte by replicating it into both nibbles.
pub open spec fn four_bit_byte(f: int) -> int {
    f * 17
}

/// The colour words decode field by field (bit 15 selects the layout): an opaque colour A
/// is `1 RRRRR GGGGG BBBB m`, its four-bit blue widened to five bits; an opaque colour B is
/// `1 RRRRR GGGGG BBBBB`; a translucent colour A is `0 AAA RRRR GGGG BBB m`, its three-bit
/// blue widened to four bits; a translucent colour B is `0 AAA RRRR GGGG BBBB`. Five-bit
/// and four-bit fields become bytes by replicating their top bits; the three-bit alpha is
/// scaled to 0..=255 and opaque colours have alpha 255.
pub proof fn lemma_colour_fields(w: u32)
    requires
        w < 0x10000,
    ensures
        w >= 0x8000 ==> {
            &&& color_a_channel(w, 0) == five_bit_byte((w as int / 1024) % 32)
            &&& color_a_channel(w, 1) == five_bit_byte((w as int / 32) % 32)
            &&& color_a_channel(w, 2) == five_bit_byte(((w as int / 2) % 16) * 2 + ((w as int / 2) % 16) / 8)
            &&& color_a_channel(w, 3) == 255
            &&& color_b_channel(w, 0) == five_bit_byte((w as int / 1024) % 32)
            &&& color_b_channel(w, 1) == five_bit_byte((w as int / 32) % 32)
            &&& color_b_channel(w, 2) == five_bit_byte(w as int % 32)
            &&& color_b_channel(w, 3) == 255
        },
        w < 0x8000 ==> {
            &&& color_a_channel(w, 0) == four_bit_byte((w as int / 256) % 16)
            &&& color_a_channel(w, 1) == four_bit_byte((w as int / 16) % 16)
            &&& color_a_channel(w, 2) == four_bit_byte(((w as int / 2) % 8) * 2 + ((w as int / 2) % 8) / 4)
            &&& color_a_channel(w, 3) == ((w as int / 4096) % 8) * 255 / 7
            &&& color_b_channel(w, 0) == four_bit_byte((w as int / 256) % 16)
            &&& color_b_channel(w, 1) == four_bit_byte((w as int / 16) % 16)
            &&& color_b_channel(w, 2) == four_bit_byte(w as int % 16)
            &&& color_b_channel(w, 3) == ((w as int / 4096) % 8) * 255 / 7
        },
{
    assert((w & 0x8000 != 0) == (w >= 0x8000)) by (bit_vector)
        requires
            w < 0x10000,
    ;
    assert(((w >> 10u32) & 0x1f) == (w / 1024) % 32 && ((w >> 5u32) & 0x1f) == (w / 32) % 32 && (w & 0x1f) == w
        % 32 && (((w & 0x1e) | ((w >> 4u32) & 1)) & 0x1f) == ((w / 2) % 16) * 2 + ((w / 2) % 16) / 8)
        by (bit_vector);
    assert(((w >> 8u32) & 0xf) == (w / 256) % 16 && ((w >> 4u32) & 0xf) == (w / 16) % 16 && (w & 0xf) == w % 16
        && widen3((w >> 1u32) & 7) == ((w / 2) % 8) * 2 + ((w / 2) % 8) / 4 && ((w >> 11u32) & 0xe) == 2 * ((w
        / 4096) % 8)) by (bit_vector);
    assert(forall|v: u32| v < 16 ==> #[trigger] ((v << 4u32) | v) == v * 17) by (bit_vector);
    let a = (w / 4096) % 8;
    assert((2 * a) * 255 / 14 == a * 255 / 7) by (nonlinear_arith)
        requires
            0 <= a < 8,
    ;
}


/// Texel `t` of a block takes the 2-bit code at bits `2t..2t+2` of the little-endian
/// modulation word (bytes 0..4). The lowest bit of byte 4 selects punch-through mode. In
/// standard mode the codes 0, 1, 2, 3 weigh colour B 0, 3, 5, 8 eighths; in punch-through
/// mode 0, 4, 4, 8 eighths, and code 2 makes the texel transparent.
pub proof fn lemma_modulation_fields(data: Seq<u8>, b: int, t: int)
    requires
        0 <= t < 16,
    ensures
        ({
            let code = (word32(data, b) as int / pow2((2 * t) as nat) as int) % 4;
            let hard = data[b + 4] % 2 == 1;
            &&& block_weight(data, b, t) == (if code == 0 {
                0
            } else if code == 3 {
                8
            } else if hard {
                4
            } else if code == 1 {
                3
            } else {
                5int
            })
            &&& block_transparent(data, b, t) == (hard && code == 2)
        }),
{
    let bits = word32(data, b);
    let sh = (2 * t) as u32;
    vstd::bits::lemma_u32_shr_is_div(bits, sh);
    let v = bits >> sh;
    assert((v & 3) == v % 4) by (bit_vector);
    let d = data[b + 4];
    assert((d & 1 != 0) == (d % 2 == 1)) by (bit_vector);
}


/// The eight bytes of the block at `b1` of `d1` are those of the block at `b2` of `d2`.
pub open spec fn same_block_bytes(d1: Seq<u8>, b1: int, d2: Seq<u8>, b2: int) -> bool {
    forall|j: int| 0 <= j < 8 ==> #[trigger] d1[b1 + j] == d2[b2 + j]
}

proof fn lemma_same_block_decodes(d1: Seq<u8>, b1: int, d2: Seq<u8>, b2: int)
    requires
        same_block_bytes(d1, b1, d2, b2),
    ensures
        word16(d1, b1 + 4) == word16(d2, b2 + 4),
        word16(d1, b1 + 6) == word16(d2, b2 + 6),
        word32(d1, b1) == word32(d2, b2),
        block_hard(d1, b1) == block_hard(d2, b2),
        forall|t: int| #[trigger] block_weight(d1, b1, t) == block_weight(d2, b2, t),
        forall|t: int| #[trigger] block_transparent(d1, b1, t) == block_transparent(d2, b2, t),
{
    assert(d1[b1 + 0] == d2[b2 + 0] && d1[b1 + 1] == d2[b2 + 1] && d1[b1 + 2] == d2[b2 + 2] && d1[b1 + 3] == d2[b2 + 3]
        && d1[b1 + 4] == d2[b2 + 4] && d1[b1 + 5] == d2[b2 + 5] && d1[b1 + 6] == d2[b2 + 6] && d1[b1 + 7] == d2[b2 + 7]);
}

/// The neighbour of the next block (cyclically) is the next block of the neighbour.
proof fn lemma_near_shifts(b: int, n: int, l: int)
    requires
        0 <= b < n,
    ensures
        near_block((b + 1) % n, n, l) == (near_block(b, n, l) + 1) % n,
        0 <= (b + 1) % n < n,
{
    if b + 1 < n {
        vstd::arithmetic::div_mod::lemma_fundamental_div_mod_converse(b + 1, n, 0, b + 1);
    } else {
        vstd::arithmetic::div_mod::lemma_fundamental_div_mod_converse(b + 1, n, 1, 0);
    }
    let nb = near_block(b, n, l);
    if nb + 1 < n {
        vstd::arithmetic::div_mod::lemma_fundamental_div_mod_converse(nb + 1, n, 0, nb + 1);
    } else {
        vstd::arithmetic::div_mod::lemma_fundamental_div_mod_converse(nb + 1, n, 1, 0);
    }
}

/// `data2` holds the blocks of `data` moved one block column to the left, cyclically: its
/// block `(bx, by)` has the bytes of block `(bx + 1 mod columns, by)` of `data`.
pub open spec fn shifted_left(data: Seq<u8>, data2: Seq<u8>, w: int, h: int) -> bool {
    forall|bx: int, by: int|
        0 <= bx < blocks_across(w) && 0 <= by < blocks_across(h) ==> #[trigger] same_block_bytes(
            data2,
            block_start(w, h, bx, by),
            data,
            block_start(w, h, (bx + 1) % blocks_across(w), by),
        )
}

/// Moving the blocks of a texture one block column to the left, cyclically, moves the
/// decoded image four texels to the left, cyclically: a texel's neighbour blocks wrap
/// around the edges of the grid and depend only on where the texel sits in its block.
pub proof fn lemma_decode_shifts_with_blocks(out: Seq<u8>, out2: Seq<u8>, w: int, h: int, data: Seq<u8>, data2: Seq<u8>)
    requires
        0 < w,
        w % 4 == 0,
        0 <= h,
        shifted_left(data, data2, w, h),
        decoded_4bpp(out, w, h, data),
        decoded_4bpp(out2, w, h, data2),
    ensures
        forall|x: int, y: int, k: int|
            0 <= x < w && 0 <= y < h && 0 <= k < 4 ==> #[trigger] out2[texel_offset(w, x, y, k)] == out[texel_offset(
                w,
                (x + 4) % w,
                y,
                k,
            )],
{
    let n = blocks_across(w);
    let m = blocks_across(h);
    assert(n * 4 == w);
    assert forall|x: int, y: int, k: int| 0 <= x < w && 0 <= y < h && 0 <= k < 4 implies #[trigger] out2[texel_offset(
        w,
        x,
        y,
        k,
    )] == out[texel_offset(w, (x + 4) % w, y, k)] by {
        let x2 = (x + 4) % w;
        let bx = x / 4;
        let by = y / 4;
        let lx = x % 4;
        let ly = y % 4;
        assert(0 <= bx < n && 0 <= by < m);
        if x + 4 < w {
            vstd::arithmetic::div_mod::lemma_fundamental_div_mod_converse(x + 4, w, 0, x + 4);
            assert(x2 / 4 == bx + 1 && x2 % 4 == lx);
            vstd::arithmetic::div_mod::lemma_fundamental_div_mod_converse(bx + 1, n, 0, bx + 1);
        } else {
            vstd::arithmetic::div_mod::lemma_fundamental_div_mod_converse(x + 4, w, 1, x + 4 - w);
            assert(x2 / 4 == 0 && x2 % 4 == lx);
            vstd::arithmetic::div_mod::lemma_fundamental_div_mod_converse(bx + 1, n, 1, 0);
        }
        assert(0 <= x2 < w);
        let nx = near_block(bx, n, lx);
        let ny = near_block(by, m, ly);
        lemma_near_in_grid(bx, n, lx);
        lemma_near_in_grid(by, m, ly);
        lemma_near_shifts(bx, n, lx);
        lemma_near_shifts(nx, n, 0);
        assert(same_block_bytes(data2, block_start(w, h, bx, by), data, block_start(w, h, (bx + 1) % n, by)));
        assert(same_block_bytes(data2, block_start(w, h, nx, by), data, block_start(w, h, (nx + 1) % n, by)));
        assert(same_block_bytes(data2, block_start(w, h, bx, ny), data, block_start(w, h, (bx + 1) % n, ny)));
        assert(same_block_bytes(data2, block_start(w, h, nx, ny), data, block_start(w, h, (nx + 1) % n, ny)));
        lemma_same_block_decodes(data2, block_start(w, h, bx, by), data, block_start(w, h, (bx + 1) % n, by));
        lemma_same_block_decodes(data2, block_start(w, h, nx, by), data, block_start(w, h, (nx + 1) % n, by));
        lemma_same_block_decodes(data2, block_start(w, h, bx, ny), data, block_start(w, h, (bx + 1) % n, ny));
        lemma_same_block_decodes(data2, block_start(w, h, nx, ny), data, block_start(w, h, (nx + 1) % n, ny));
        assert(blended_channel(data2, w, h, x, y, false, k) == blended_channel(data, w, h, x2, y, false, k));
        assert(blended_channel(data2, w, h, x, y, true, k) == blended_channel(data, w, h, x2, y, true, k));
        assert(out2[texel_offset(w, x, y, k)] == texel_channel(data2, w, h, x, y, k));
        assert(out[texel_offset(w, x2, y, k)] == texel_channel(data, w, h, x2, y, k));
    }
}

/// `data2` holds the blocks of `data` moved one block row up, cyclically: its block
/// `(bx, by)` has the bytes of block `(bx, by + 1 mod rows)` of `data`.
pub open spec fn shifted_up(data: Seq<u8>, data2: Seq<u8>, w: int, h: int) -> bool {
    forall|bx: int, by: int|
        0 <= bx < blocks_across(w) && 0 <= by < blocks_across(h) ==> #[trigger] same_block_bytes(
            data2,
            block_start(w, h, bx, by),
            data,
            block_start(w, h, bx, (by + 1) % blocks_across(h)),
        )
}

/// Moving the blocks of a texture one block row up, cyclically, moves the decoded image
/// four texels up, cyclically.
pub proof fn lemma_decode_shifts_up_with_blocks(out: Seq<u8>, out2: Seq<u8>, w: int, h: int, data: Seq<u8>, data2: Seq<u8>)
    requires
        0 <= w,
        0 < h,
        h % 4 == 0,
        shifted_up(data, data2, w, h),
        decoded_4bpp(out, w, h, data),
        decoded_4bpp(out2, w, h, data2),
    ensures
        forall|x: int, y: int, k: int|
            0 <= x < w && 0 <= y < h && 0 <= k < 4 ==> #[trigger] out2[texel_offset(w, x, y, k)] == out[texel_offset(
                w,
                x,
                (y + 4) % h,
                k,
            )],
{
    let n = blocks_across(w);
    let m = blocks_across(h);
    assert(m * 4 == h);
    assert forall|x: int, y: int, k: int| 0 <= x < w && 0 <= y < h && 0 <= k < 4 implies #[trigger] out2[texel_offset(
        w,
        x,
        y,
        k,
    )] == out[texel_offset(w, x, (y + 4) % h, k)] by {
        let y2 = (y + 4) % h;
        let bx = x / 4;
        let by = y / 4;
        let lx = x % 4;
        let ly = y % 4;
        assert(0 <= bx < n && 0 <= by < m);
        if y + 4 < h {
            vstd::arithmetic::div_mod::lemma_fundamental_div_mod_converse(y + 4, h, 0, y + 4);
            assert(y2 / 4 == by + 1 && y2 % 4 == ly);
            vstd::arithmetic::div_mod::lemma_fundamental_div_mod_converse(by + 1, m, 0, by + 1);
        } else {
            vstd::arithmetic::div_mod::lemma_fundamental_div_mod_converse(y + 4, h, 1, y + 4 - h);
            assert(y2 / 4 == 0 && y2 % 4 == ly);
            vstd::arithmetic::div_mod::lemma_fundamental_div_mod_converse(by + 1, m, 1, 0);
        }
        assert(0 <= y2 < h);
        let nx = near_block(bx, n, lx);
        let ny = near_block(by, m, ly);
        lemma_near_in_grid(bx, n, lx);
        lemma_near_in_grid(by, m, ly);
        lemma_near_shifts(by, m, ly);
        lemma_near_shifts(ny, m, 0);
        assert(same_block_bytes(data2, block_start(w, h, bx, by), data, block_start(w, h, bx, (by + 1) % m)));
        assert(same_block_bytes(data2, block_start(w, h, nx, by), data, block_start(w, h, nx, (by + 1) % m)));
        assert(same_block_bytes(data2, block_start(w, h, bx, ny), data, block_start(w, h, bx, (ny + 1) % m)));
        assert(same_block_bytes(data2, block_start(w, h, nx, ny), data, block_start(w, h, nx, (ny + 1) % m)));
        lemma_same_block_decodes(data2, block_start(w, h, bx, by), data, block_start(w, h, bx, (by + 1) % m));
        lemma_same_block_decodes(data2, block_start(w, h, nx, by), data, block_start(w, h, nx, (by + 1) % m));
        lemma_same_block_decodes(data2, block_start(w, h, bx, ny), data, block_start(w, h, bx, (ny + 1) % m));
        lemma_same_block_decodes(data2, block_start(w, h, nx, ny), data, block_start(w, h, nx, (ny + 1) % m));
        assert(blended_channel(data2, w, h, x, y, false, k) == blended_channel(data, w, h, x, y2, false, k));
        assert(blended_channel(data2, w, h, x, y, true, k) == blended_channel(data, w, h, x, y2, true, k));
        assert(out2[texel_offset(w, x, y, k)] == texel_channel(data2, w, h, x, y, k));
        assert(out[texel_offset(w, x, y2, k)] == texel_channel(data, w, h, x, y2, k));
    }
}

}

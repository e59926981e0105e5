use m3g::pvrtc::decode_4bpp;

/// A block whose two colours are opaque red (A) and opaque blue (B), every texel using
/// modulation code `code` in every position; `hard` sets the punch-through mode bit.
fn uniform_block(code: u8, hard: bool) -> [u8; 8] {
    let m = code | (code << 2) | (code << 4) | (code << 6);
    [m, m, m, m, if hard { 0x01 } else { 0x00 }, 0xfc, 0x1f, 0x80]
}

fn repeat_block(block: [u8; 8], n: usize) -> Vec<u8> {
    let mut v = Vec::new();
    for _ in 0..n {
        v.extend_from_slice(&block);
    }
    v
}

#[test]
fn decode_all_white_blocks() {
    let data = vec![0xffu8; 32];
    let out = decode_4bpp(8, 8, &data);
    assert_eq!(out.len(), 8 * 8 * 4);
    assert!(out.iter().all(|&b| b == 255));
}

#[test]
fn decode_standard_weights() {
    // Codes 0..3 select weights 0, 3, 5 and 8 eighths of colour B.
    let expected: [[u8; 4]; 4] = [[255, 0, 0, 255], [159, 0, 95, 255], [95, 0, 159, 255], [0, 0, 255, 255]];
    for code in 0..4u8 {
        let data = repeat_block(uniform_block(code, false), 4);
        let out = decode_4bpp(8, 8, &data);
        for px in out.chunks(4) {
            assert_eq!(px, &expected[code as usize][..]);
        }
    }
}

#[test]
fn decode_punch_through_weights() {
    // In punch-through mode codes 1 and 2 both select 4 eighths; code 2 also clears alpha.
    let expected: [[u8; 4]; 4] = [[255, 0, 0, 255], [127, 0, 127, 255], [127, 0, 127, 0], [0, 0, 255, 255]];
    for code in 0..4u8 {
        let data = repeat_block(uniform_block(code, true), 4);
        let out = decode_4bpp(8, 8, &data);
        for px in out.chunks(4) {
            assert_eq!(px, &expected[code as usize][..]);
        }
    }
}

#[test]
fn decode_translucent_colours() {
    // Colour words with the top bit clear are translucent: word A = 0x7fff is ARGB 3443
    // with alpha 0b111 (7 * 255 / 7), red and green 0xf (0xff) and blue 0b111 widened to
    // 0xf (0xff). Word B = 0x0000 is all zero; code 0 keeps colour A.
    let block = [0u8, 0, 0, 0, 0xff, 0x7f, 0x00, 0x00];
    let data = repeat_block(block, 4);
    let out = decode_4bpp(8, 8, &data);
    for px in out.chunks(4) {
        assert_eq!(px, &[255, 255, 255, 255][..]);
    }
}

#[test]
fn decode_mixed_blocks_8x8() {
    let data: Vec<u8> = vec![
        165, 77, 202, 24, 37, 48, 187, 29, 109, 19, 44, 222, 214, 35, 123, 46,
        217, 30, 63, 114, 31, 203, 25, 113, 23, 68, 148, 214, 73, 60, 157, 92,
    ];
    let expected: Vec<u8> = vec![
        124, 123, 157, 125, 123, 129, 141, 89, 123, 129, 141, 0, 124, 123, 157, 0,
        125, 117, 173, 160, 127, 111, 189, 0, 127, 111, 189, 196, 139, 103, 181, 160,
        108, 114, 156, 135, 200, 160, 183, 66, 24, 72, 93, 120, 108, 114, 156, 135,
        103, 111, 174, 0, 63, 52, 164, 220, 99, 109, 192, 220, 99, 135, 178, 187,
        108, 114, 156, 0, 112, 116, 138, 0, 24, 72, 93, 120, 154, 124, 177, 117,
        108, 88, 171, 168, 63, 52, 164, 220, 63, 52, 164, 220, 99, 135, 178, 187,
        75, 121, 131, 134, 123, 129, 141, 0, 123, 129, 141, 89, 75, 121, 131, 134,
        125, 117, 173, 0, 150, 143, 199, 187, 104, 79, 179, 205, 125, 117, 173, 160,
        127, 134, 150, 115, 219, 139, 188, 77, 155, 141, 155, 83, 127, 134, 150, 115,
        170, 117, 192, 152, 155, 114, 186, 172, 155, 114, 186, 172, 126, 129, 153, 134,
        215, 130, 196, 113, 63, 183, 106, 82, 124, 162, 137, 82, 101, 155, 123, 95,
        139, 126, 140, 108, 182, 116, 183, 147, 177, 98, 157, 120, 170, 129, 171, 126,
        101, 155, 123, 95, 228, 128, 190, 82, 166, 148, 158, 82, 101, 155, 123, 95,
        139, 126, 140, 108, 182, 116, 183, 147, 182, 116, 183, 147, 170, 129, 171, 0,
        154, 131, 166, 115, 219, 139, 188, 77, 113, 143, 134, 88, 194, 128, 190, 115,
        148, 123, 172, 0, 155, 114, 186, 172, 155, 114, 186, 172, 170, 117, 192, 152,
    ];
    assert_eq!(decode_4bpp(8, 8, &data), expected);
}

#[test]
fn decode_non_square_16x8() {
    // A 4 x 2 block grid: Morton order interleaves over the shorter side (2 blocks) and
    // then lays the remaining columns out linearly.
    let data: Vec<u8> = vec![
        231, 238, 231, 97, 94, 243, 95, 48, 228, 155, 72, 46, 21, 202, 231, 80,
        7, 32, 30, 18, 97, 123, 15, 237, 167, 225, 100, 119, 150, 255, 2, 43,
        234, 142, 208, 42, 130, 161, 117, 147, 15, 35, 55, 205, 55, 148, 197, 34,
        8, 0, 109, 107, 26, 240, 192, 203, 214, 37, 101, 138, 172, 44, 159, 170,
    ];
    let expected: Vec<u8> = vec![
        46, 170, 163, 180, 131, 161, 210, 210, 91, 147, 195, 184, 78, 104, 161, 155,
        130, 79, 132, 167, 196, 103, 96, 217, 193, 139, 72, 255, 154, 118, 74, 255,
        105, 129, 104, 211, 62, 148, 112, 211, 56, 158, 120, 213, 67, 215, 123, 212,
        159, 64, 168, 212, 145, 158, 139, 226, 218, 78, 221, 194, 213, 108, 222, 212,
        116, 146, 188, 197, 17, 120, 212, 135, 98, 133, 220, 178, 81, 86, 190, 160,
        204, 150, 106, 255, 198, 128, 51, 255, 186, 96, 71, 0, 145, 106, 28, 255,
        105, 136, 101, 240, 56, 199, 155, 232, 83, 79, 60, 252, 92, 164, 110, 242,
        165, 46, 152, 240, 207, 29, 198, 234, 226, 44, 224, 234, 225, 89, 230, 240,
        52, 153, 160, 169, 144, 157, 230, 208, 98, 133, 220, 178, 81, 86, 190, 160,
        170, 112, 132, 0, 190, 63, 127, 217, 186, 96, 71, 243, 145, 106, 28, 255,
        112, 99, 32, 255, 79, 91, 35, 255, 69, 132, 91, 245, 73, 226, 113, 240,
        140, 115, 125, 242, 126, 234, 48, 252, 161, 154, 119, 235, 173, 125, 184, 226,
        146, 150, 200, 210, 202, 168, 223, 246, 91, 147, 195, 184, 156, 145, 164, 217,
        168, 120, 130, 0, 210, 154, 90, 255, 189, 101, 83, 220, 154, 118, 74, 255,
        105, 129, 104, 211, 62, 148, 112, 211, 56, 158, 120, 213, 118, 64, 133, 229,
        89, 215, 112, 229, 145, 158, 139, 226, 148, 158, 151, 222, 162, 138, 189, 211,
        192, 141, 210, 212, 98, 168, 186, 203, 105, 163, 175, 0, 75, 122, 131, 149,
        125, 83, 105, 145, 205, 129, 110, 212, 189, 91, 89, 183, 146, 107, 98, 183,
        96, 141, 99, 140, 54, 187, 111, 140, 70, 50, 136, 240, 111, 66, 160, 212,
        106, 156, 158, 201, 157, 135, 188, 186, 165, 143, 196, 187, 66, 190, 163, 217,
        33, 202, 168, 203, 87, 178, 166, 0, 96, 171, 152, 209, 131, 154, 138, 0,
        177, 149, 137, 205, 235, 205, 167, 255, 189, 91, 93, 154, 132, 82, 64, 94,
        92, 132, 76, 94, 69, 43, 167, 255, 52, 118, 142, 0, 105, 67, 187, 194,
        117, 132, 190, 169, 147, 149, 211, 159, 124, 167, 213, 195, 189, 146, 206, 154,
        176, 144, 197, 194, 87, 178, 166, 0, 169, 151, 181, 255, 131, 154, 138, 199,
        213, 187, 172, 255, 209, 140, 125, 198, 189, 91, 93, 154, 155, 118, 127, 194,
        92, 132, 76, 94, 61, 112, 128, 174, 40, 202, 111, 114, 105, 67, 187, 194,
        117, 132, 190, 169, 147, 149, 211, 159, 124, 167, 213, 195, 139, 162, 200, 180,
        116, 163, 188, 0, 13, 182, 168, 167, 105, 163, 175, 0, 198, 170, 171, 255,
        125, 83, 105, 145, 205, 129, 110, 212, 179, 48, 73, 140, 152, 115, 107, 211,
        106, 117, 110, 197, 54, 187, 111, 140, 70, 50, 136, 240, 61, 205, 133, 183,
        106, 156, 158, 201, 133, 159, 174, 207, 209, 113, 219, 154, 116, 166, 182, 204,
    ];
    assert_eq!(decode_4bpp(16, 8, &data), expected);
}

#[test]
fn decode_single_block_4x4() {
    // One block: every neighbour of the block is the block itself.
    let data: Vec<u8> = vec![
        165, 77, 202, 24, 37, 48, 187, 29, 109, 19, 44, 222, 214, 35, 123, 46,
        217, 30, 63, 114, 31, 203, 25, 113, 23, 68, 148, 214, 73, 60, 157, 92,
    ];
    let expected: Vec<u8> = vec![
        110, 110, 127, 72, 110, 110, 127, 72, 110, 110, 127, 0, 110, 110, 127, 0,
        110, 110, 127, 72, 221, 187, 187, 36, 0, 34, 68, 109, 110, 110, 127, 72,
        110, 110, 127, 0, 110, 110, 127, 0, 0, 34, 68, 109, 221, 187, 187, 36,
        0, 34, 68, 109, 110, 110, 127, 0, 110, 110, 127, 72, 0, 34, 68, 109,
    ];
    assert_eq!(decode_4bpp(4, 4, &data), expected);
}

#[test]
fn decode_ignores_trailing_bytes() {
    let mut data = repeat_block(uniform_block(1, false), 4);
    let first = decode_4bpp(8, 8, &data);
    data.extend_from_slice(&[0x12, 0x34, 0x56, 0x78]);
    assert_eq!(decode_4bpp(8, 8, &data), first);
}

#[test]
fn decode_expands_opaque_channels() {
    // Colour A = 0x8615: opaque, red 1, green 16, blue 21 (five bits each), expanded by
    // replicating the top bits: 8, 132, 173. Modulation code 0 keeps colour A.
    let block = [0u8, 0, 0, 0, 0x15, 0x86, 0x00, 0x80];
    let out = decode_4bpp(8, 8, &repeat_block(block, 4));
    for px in out.chunks(4) {
        assert_eq!(px, &[8, 132, 173, 255][..]);
    }
}

#[test]
fn decode_translucent_colour_b() {
    // Colour B = 0x65a3: translucent ARGB 3444, alpha 0b110 (6 * 255 / 7 = 218), red 5
    // (0x55), green 10 (0xaa), blue 3 (0x33). Code 3 gives colour B.
    let block = [0xffu8, 0xff, 0xff, 0xff, 0x00, 0x80, 0xa3, 0x65];
    let out = decode_4bpp(8, 8, &repeat_block(block, 4));
    for px in out.chunks(4) {
        assert_eq!(px, &[85, 170, 51, 218][..]);
    }
}

#[test]
fn decode_own_block_weighs_most() {
    // Only block 0 has a white colour A; the other three are black. Texel (1, 1) lies
    // nearest the centre of block 0, which weighs 7/8 * 7/8 = 49/64 there: 255 * 49 / 64.
    let mut data = vec![0u8, 0, 0, 0, 0xff, 0xff, 0x00, 0x80];
    for _ in 0..3 {
        data.extend_from_slice(&[0, 0, 0, 0, 0x00, 0x80, 0x00, 0x80]);
    }
    let out = decode_4bpp(8, 8, &data);
    assert_eq!(&out[36..40], &[195, 195, 195, 255]);
    // Texel (0, 0) is half a block from block 0's centre: block 0 weighs 5/8 * 5/8.
    assert_eq!(&out[0..4], &[99, 99, 99, 255]);
}

#[test]
fn decode_uniform_blocks_repeat_every_four_texels() {
    let block = [0x1bu8, 0xe4, 0x72, 0x8d, 0x34, 0x56, 0x9a, 0x7b];
    let out = decode_4bpp(16, 8, &repeat_block(block, 8));
    for y in 0..8 {
        for x in 0..16 {
            let at = (y * 16 + x) * 4;
            let base = ((y % 4) * 16 + x % 4) * 4;
            assert_eq!(&out[at..at + 4], &out[base..base + 4]);
        }
    }
}

#[test]
fn decode_addresses_every_block_once() {
    // Block m of the data marks texel m of whatever grid position reads it as transparent
    // (punch-through mode, code 2 there, code 0 elsewhere). On the 4 x 2 grid of a 16x8
    // texture the Morton order gives block (bx, by) the index (bx & 1) * 2 + by + (bx >> 1) * 4,
    // so each grid position reads a different block and every block is read.
    let mut data = Vec::new();
    for m in 0..8u32 {
        let word = 2u32 << (2 * m);
        data.extend_from_slice(&word.to_le_bytes());
        data.extend_from_slice(&[0x01, 0x80, 0x00, 0x80]);
    }
    let out = decode_4bpp(16, 8, &data);
    let mut seen = [false; 8];
    for by in 0..2usize {
        for bx in 0..4usize {
            let expected = (bx & 1) * 2 + by + (bx >> 1) * 4;
            let mut transparent = Vec::new();
            for t in 0..16usize {
                let (x, y) = (bx * 4 + t % 4, by * 4 + t / 4);
                if out[(y * 16 + x) * 4 + 3] == 0 {
                    transparent.push(t);
                }
            }
            assert_eq!(transparent, vec![expected]);
            seen[expected] = true;
        }
    }
    assert!(seen.iter().all(|&s| s));
}


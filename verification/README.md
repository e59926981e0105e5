# m3g

A reader for JSR-184 (M3G 1.0) binary files and a software decoder for PVRTC1 4bpp
textures, written in Verus: every function of the library carries a contract that Verus
proves.

- `src/le.rs`: little-endian integers of byte sequences, and the reads that go through
  `zerocopy`.
- `src/m3g.rs`: the object types, image expansion to RGBA8 (`Image2D::to_rgba8`) and
  lookups by reference.
- `src/m3g/cursor.rs`, `objects.rs`, `vertex_array.rs`: a read position in a shared buffer
  and the readers of each object type, each specified by where the object ends and what it
  holds.
- `src/m3g/file.rs`: the magic number, sections (stored or zlib-compressed through
  `zlib-rs`), object records, `parse` and `try_parse`.
- `src/pvrtc.rs`: the decoder, specified texel by texel (bilinear blending by distance
  to the block centres, channels expanded to 8 bits), with its laws: power-of-two
  textures decode, uniform blocks repeat every four texels, bytes after the blocks are
  ignored, blending weights behave.
- `src/pvrtc/morton.rs`: Morton order as bit interleaving, and that it numbers the
  blocks of a power-of-two grid one to one.
- `app/lib.rs`: a panicking `parse_file` and the `f32` values behind the bit patterns that
  the library stores for floating-point fields.

use ase_reader::blend::Pixel;
use ase_reader::document::{CelHeader, Frame};
use ase_reader::error::{AsepriteError, Corruption, Unsupported};
use ase_reader::image::Image;
use ase_reader::AsepriteFile;

const LAYER: u16 = 0x2004;
const CEL: u16 = 0x2005;
const TAGS: u16 = 0x2018;
const USER_DATA: u16 = 0x2020;
const SLICE: u16 = 0x2022;

fn adler32(data: &[u8]) -> u32 {
    let mut a: u32 = 1;
    let mut b: u32 = 0;
    for &x in data {
        a = (a + x as u32) % 65521;
        b = (b + a) % 65521;
    }
    (b << 16) | a
}

/// A zlib stream that holds `data` in stored blocks.
fn zlib_stored(data: &[u8]) -> Vec<u8> {
    let mut out = vec![0x78, 0x01];
    let blocks: Vec<&[u8]> = if data.is_empty() { vec![data] } else { data.chunks(65535).collect() };
    for (i, block) in blocks.iter().enumerate() {
        out.push(if i + 1 == blocks.len() { 1 } else { 0 });
        let len = block.len() as u16;
        out.extend_from_slice(&len.to_le_bytes());
        out.extend_from_slice(&(!len).to_le_bytes());
        out.extend_from_slice(block);
    }
    out.extend_from_slice(&adler32(data).to_be_bytes());
    out
}

fn file_header(frames: u16, width: u16, height: u16) -> Vec<u8> {
    let mut h: Vec<u8> = Vec::new();
    h.extend_from_slice(&0u32.to_le_bytes());
    h.extend_from_slice(&0xA5E0u16.to_le_bytes());
    h.extend_from_slice(&frames.to_le_bytes());
    h.extend_from_slice(&width.to_le_bytes());
    h.extend_from_slice(&height.to_le_bytes());
    h.extend_from_slice(&32u16.to_le_bytes());
    h.resize(128, 0);
    h
}

fn chunk_sized(kind: u16, body: &[u8], size: u32) -> Vec<u8> {
    let mut c: Vec<u8> = Vec::new();
    c.extend_from_slice(&size.to_le_bytes());
    c.extend_from_slice(&kind.to_le_bytes());
    c.extend_from_slice(body);
    c
}

fn chunk(kind: u16, body: &[u8]) -> Vec<u8> {
    chunk_sized(kind, body, body.len() as u32 + 6)
}

fn frame_with_magic(chunks: &[Vec<u8>], duration: u16, magic: u16) -> Vec<u8> {
    let mut f: Vec<u8> = Vec::new();
    f.extend_from_slice(&0u32.to_le_bytes());
    f.extend_from_slice(&magic.to_le_bytes());
    f.extend_from_slice(&(chunks.len() as u16).to_le_bytes());
    f.extend_from_slice(&duration.to_le_bytes());
    f.extend_from_slice(&[0; 6]);
    for c in chunks {
        f.extend_from_slice(c);
    }
    f
}

fn frame(chunks: &[Vec<u8>], duration: u16) -> Vec<u8> {
    frame_with_magic(chunks, duration, 0xF1FA)
}

fn string(s: &str) -> Vec<u8> {
    let mut out = (s.len() as u16).to_le_bytes().to_vec();
    out.extend_from_slice(s.as_bytes());
    out
}

fn layer_body(flags: u16, opacity: u8, name: &str) -> Vec<u8> {
    let mut b: Vec<u8> = Vec::new();
    b.extend_from_slice(&flags.to_le_bytes());
    b.extend_from_slice(&0u16.to_le_bytes());
    b.extend_from_slice(&0u16.to_le_bytes());
    b.extend_from_slice(&0u16.to_le_bytes());
    b.extend_from_slice(&0u16.to_le_bytes());
    b.extend_from_slice(&0u16.to_le_bytes());
    b.push(opacity);
    b.extend_from_slice(&[0; 3]);
    b.extend_from_slice(&string(name));
    b
}

fn layer(flags: u16, opacity: u8, name: &str) -> Vec<u8> {
    chunk(LAYER, &layer_body(flags, opacity, name))
}

fn cel_head(layer: u16, x: i16, y: i16, opacity: u8, kind: u16) -> Vec<u8> {
    let mut b: Vec<u8> = Vec::new();
    b.extend_from_slice(&layer.to_le_bytes());
    b.extend_from_slice(&x.to_le_bytes());
    b.extend_from_slice(&y.to_le_bytes());
    b.push(opacity);
    b.extend_from_slice(&kind.to_le_bytes());
    b.extend_from_slice(&[0; 7]);
    b
}

fn cel_with_stream(layer: u16, x: i16, y: i16, opacity: u8, w: u16, h: u16, stream: &[u8]) -> Vec<u8> {
    let mut b = cel_head(layer, x, y, opacity, 2);
    b.extend_from_slice(&w.to_le_bytes());
    b.extend_from_slice(&h.to_le_bytes());
    b.extend_from_slice(stream);
    chunk(CEL, &b)
}

fn cel(layer: u16, x: i16, y: i16, opacity: u8, w: u16, h: u16, pixels: &[u8]) -> Vec<u8> {
    cel_with_stream(layer, x, y, opacity, w, h, &zlib_stored(pixels))
}

fn linked_cel(layer: u16, x: i16, y: i16, opacity: u8, linked: u16) -> Vec<u8> {
    let mut b = cel_head(layer, x, y, opacity, 1);
    b.extend_from_slice(&linked.to_le_bytes());
    chunk(CEL, &b)
}

fn solid(n: usize, px: [u8; 4]) -> Vec<u8> {
    let mut out = Vec::new();
    for _ in 0..n {
        out.extend_from_slice(&px);
    }
    out
}

fn build(frames: u16, width: u16, height: u16, body: &[Vec<u8>]) -> Vec<u8> {
    let mut f = file_header(frames, width, height);
    for part in body {
        f.extend_from_slice(part);
    }
    f
}

fn error_of(data: Vec<u8>) -> AsepriteError {
    AsepriteFile::parse(data).err().expect("the load fails")
}

#[test]
fn single_cel_covering_the_canvas_is_the_image() {
    let pixels: Vec<u8> = (0..2 * 3 * 4).map(|i| (i * 7 + 1) as u8 | 0x01).collect();
    // alpha bytes must not be zero with colour under them, and must be what they are
    let mut pixels = pixels;
    for p in pixels.chunks_mut(4) {
        p[3] = 255;
    }
    let data = build(1, 2, 3, &[frame(&[layer(1, 255, "L"), cel(0, 0, 0, 255, 2, 3, &pixels)], 100)]);
    let ase = AsepriteFile::parse(data).unwrap();
    assert_eq!(ase.frames.len(), 1);
    assert_eq!(ase.frames[0].duration, 100);
    assert_eq!(ase.frames[0].image.width, 2);
    assert_eq!(ase.frames[0].image.height, 3);
    assert_eq!(ase.frames[0].image.data, pixels);
    assert_eq!(ase.frames[0].layers.len(), 1);
    assert_eq!(ase.frames[0].layers[0].data, pixels);
    assert_eq!(ase.layers.len(), 1);
    assert_eq!(ase.layers[0].name, "L");
    assert_eq!(ase.header.width, 2);
    assert_eq!(ase.header.frames, 1);
}

#[test]
fn deflated_pixels_are_inflated() {
    // "Hello, zlib!" deflated with a fixed Huffman block: twelve bytes, three pixels
    let stream = [
        120u8, 156, 243, 72, 205, 201, 201, 215, 81, 168, 202, 201, 76, 82, 4, 0, 27, 101, 4, 19,
    ];
    let data = build(
        1,
        3,
        1,
        &[frame(&[layer(1, 255, "text"), cel_with_stream(0, 0, 0, 255, 3, 1, &stream)], 1)],
    );
    let ase = AsepriteFile::parse(data).unwrap();
    assert_eq!(ase.frames[0].layers[0].data, b"Hello, zlib!".to_vec());
}

#[test]
fn white_at_half_opacity_over_red() {
    let red = solid(4, [255, 0, 0, 255]);
    let white = solid(4, [255, 255, 255, 255]);
    let data = build(
        1,
        2,
        2,
        &[frame(
            &[
                layer(1, 255, "bottom"),
                layer(1, 128, "top"),
                cel(0, 0, 0, 255, 2, 2, &red),
                cel(1, 0, 0, 255, 2, 2, &white),
            ],
            50,
        )],
    );
    let ase = AsepriteFile::parse(data).unwrap();
    assert_eq!(ase.frames[0].image.data, solid(4, [255, 128, 128, 255]));

    let half_white = solid(4, [255, 255, 255, 128]);
    let data = build(
        1,
        2,
        2,
        &[frame(
            &[
                layer(1, 255, "bottom"),
                layer(1, 255, "top"),
                cel(0, 0, 0, 255, 2, 2, &red),
                cel(1, 0, 0, 255, 2, 2, &half_white),
            ],
            50,
        )],
    );
    let ase = AsepriteFile::parse(data).unwrap();
    assert_eq!(ase.frames[0].image.data, solid(4, [255, 128, 128, 255]));
}

#[test]
fn layers_composite_in_declaration_order() {
    let red = solid(1, [255, 0, 0, 255]);
    let blue = solid(1, [0, 0, 255, 255]);
    // the cels come in the other order than the layers; the later layer wins
    let data = build(
        1,
        1,
        1,
        &[frame(
            &[
                layer(1, 255, "red"),
                layer(1, 255, "blue"),
                cel(1, 0, 0, 255, 1, 1, &blue),
                cel(0, 0, 0, 255, 1, 1, &red),
            ],
            1,
        )],
    );
    let ase = AsepriteFile::parse(data).unwrap();
    assert_eq!(ase.frames[0].image.data, vec![0, 0, 255, 255]);
}

#[test]
fn hidden_layer_is_kept_but_not_shown() {
    let red = solid(4, [255, 0, 0, 255]);
    let green = solid(4, [0, 255, 0, 255]);
    let data = build(
        2,
        2,
        2,
        &[
            frame(
                &[
                    layer(1, 255, "shown"),
                    layer(0, 255, "hidden"),
                    cel(0, 0, 0, 255, 2, 2, &red),
                    cel(1, 0, 0, 255, 2, 2, &green),
                ],
                10,
            ),
            frame(&[linked_cel(1, 0, 0, 255, 0)], 10),
        ],
    );
    let ase = AsepriteFile::parse(data).unwrap();
    assert_eq!(ase.frames.len(), 2);
    assert!(ase.layers[0].visible());
    assert!(!ase.layers[1].visible());
    assert_eq!(ase.frames[0].image.data, red);
    assert_eq!(ase.frames[0].layers[1].data, green);
    // the second frame links to the hidden canvas: it is there, and still not shown
    assert_eq!(ase.frames[1].layers[1].data, green);
    assert_eq!(ase.frames[1].layers[0].data, vec![0u8; 16]);
    assert_eq!(ase.frames[1].image.data, vec![0u8; 16]);
}

#[test]
fn linked_cel_reuses_the_rendered_canvas() {
    let a = solid(1, [10, 20, 30, 255]);
    let b = solid(1, [40, 50, 60, 255]);
    let data = build(
        2,
        2,
        1,
        &[
            frame(
                &[layer(1, 255, "L"), cel(0, 0, 0, 255, 1, 1, &a), cel(0, 1, 0, 255, 1, 1, &b)],
                10,
            ),
            frame(&[linked_cel(0, 0, 0, 255, 0)], 20),
        ],
    );
    let ase = AsepriteFile::parse(data).unwrap();
    let both: Vec<u8> = vec![10, 20, 30, 255, 40, 50, 60, 255];
    assert_eq!(ase.frames[0].image.data, both);
    assert_eq!(ase.frames[1].image.data, both);
    assert_eq!(ase.frames[1].duration, 20);

    // the link draws the whole earlier canvas at the cel's offset
    let data = build(
        2,
        2,
        1,
        &[
            frame(&[layer(1, 255, "L"), cel(0, 0, 0, 255, 1, 1, &a)], 10),
            frame(&[linked_cel(0, 1, 0, 255, 0)], 20),
        ],
    );
    let ase = AsepriteFile::parse(data).unwrap();
    assert_eq!(ase.frames[1].image.data, vec![0, 0, 0, 0, 10, 20, 30, 255]);
}

#[test]
fn link_to_own_or_later_frame_is_corrupt() {
    let a = solid(1, [10, 20, 30, 255]);
    let expected = AsepriteError::CorruptFile(Corruption::LinkedFrameNotEarlier);
    // frame 0 links to frame 0
    let data = build(1, 1, 1, &[frame(&[layer(1, 255, "L"), linked_cel(0, 0, 0, 255, 0)], 1)]);
    assert_eq!(error_of(data), expected);
    // frame 1 links to frame 1, and to frame 2
    for target in [1u16, 2, 500] {
        let data = build(
            3,
            1,
            1,
            &[
                frame(&[layer(1, 255, "L"), cel(0, 0, 0, 255, 1, 1, &a)], 1),
                frame(&[linked_cel(0, 0, 0, 255, target)], 1),
                frame(&[cel(0, 0, 0, 255, 1, 1, &a)], 1),
            ],
        );
        assert_eq!(error_of(data), expected);
    }
}

#[test]
fn frame_count_follows_the_header_not_the_stream() {
    let a = solid(1, [1, 2, 3, 255]);
    let one = frame(&[layer(1, 255, "L"), cel(0, 0, 0, 255, 1, 1, &a)], 1);
    let two = frame(&[cel(0, 0, 0, 255, 1, 1, &a)], 2);
    let mut data = build(2, 1, 1, &[one.clone(), two.clone()]);
    let plain = AsepriteFile::parse(data.clone()).unwrap();
    assert_eq!(plain.frames.len(), 2);
    data.extend_from_slice(&[0xDE, 0xAD, 0xBE, 0xEF, 1, 2, 3]);
    let trailing = AsepriteFile::parse(data).unwrap();
    assert_eq!(trailing.frames.len(), 2);
    assert_eq!(trailing.frames[1].image.data, plain.frames[1].image.data);

    // a third frame in the stream that the header does not declare is not read
    let extra = build(2, 1, 1, &[one.clone(), two.clone(), two.clone()]);
    assert_eq!(AsepriteFile::parse(extra).unwrap().frames.len(), 2);

    // no frame declared: nothing behind the header is needed
    let mut none = file_header(0, 4, 4);
    none.truncate(47);
    let empty = AsepriteFile::parse(none).unwrap();
    assert_eq!(empty.frames.len(), 0);

    // a frame declared and missing
    assert_eq!(error_of(build(3, 1, 1, &[one, two])), AsepriteError::Io);
}

#[test]
fn frame_without_cels_is_transparent() {
    let data = build(1, 2, 2, &[frame(&[layer(1, 255, "L")], 1)]);
    let ase = AsepriteFile::parse(data).unwrap();
    assert_eq!(ase.frames[0].layers.len(), 1);
    assert_eq!(ase.frames[0].layers[0].data, vec![0u8; 16]);
    assert_eq!(ase.frames[0].image.data, vec![0u8; 16]);
    let bare = AsepriteFile::parse(build(1, 2, 2, &[frame(&[], 1)])).unwrap();
    assert_eq!(bare.frames[0].layers.len(), 0);
    assert_eq!(bare.frames[0].image.data, vec![0u8; 16]);
}

#[test]
fn cel_offset_and_clipping() {
    let patch: Vec<u8> = vec![1, 1, 1, 255, 2, 2, 2, 255, 3, 3, 3, 255, 4, 4, 4, 255];
    let data = build(1, 2, 2, &[frame(&[layer(1, 255, "L"), cel(0, 1, -1, 255, 2, 2, &patch)], 1)]);
    let ase = AsepriteFile::parse(data).unwrap();
    assert_eq!(
        ase.frames[0].image.data,
        vec![0, 0, 0, 0, 3, 3, 3, 255, 0, 0, 0, 0, 0, 0, 0, 0]
    );
}

#[test]
fn cel_opacity_and_layer_opacity_both_apply() {
    let white = solid(1, [255, 255, 255, 255]);
    let data = build(1, 1, 1, &[frame(&[layer(1, 128, "L"), cel(0, 0, 0, 128, 1, 1, &white)], 1)]);
    let ase = AsepriteFile::parse(data).unwrap();
    // the cel lands on its canvas with alpha 128; the layer halves it again
    assert_eq!(ase.frames[0].layers[0].data, vec![255, 255, 255, 128]);
    assert_eq!(ase.frames[0].image.data, vec![255, 255, 255, 64]);
}

#[test]
fn decorative_chunks_are_skipped() {
    let a = solid(1, [1, 2, 3, 255]);
    let data = build(
        1,
        1,
        1,
        &[frame(
            &[
                chunk(0x2007, &[1, 2, 3, 4, 5]),
                chunk(0x2019, &[9; 40]),
                chunk(0x0004, &[]),
                layer(1, 255, "L"),
                cel(0, 0, 0, 255, 1, 1, &a),
            ],
            1,
        )],
    );
    let ase = AsepriteFile::parse(data).unwrap();
    assert_eq!(ase.frames[0].image.data, a);
}

#[test]
fn trailing_bytes_of_a_chunk_are_skipped() {
    let a = solid(1, [1, 2, 3, 255]);
    let mut body = layer_body(1, 255, "L");
    body.extend_from_slice(&[0xEE; 9]);
    let mut link = cel_head(0, 0, 0, 255, 1);
    link.extend_from_slice(&0u16.to_le_bytes());
    link.extend_from_slice(&[0xEE; 5]);
    let data = build(
        2,
        1,
        1,
        &[
            frame(&[chunk(LAYER, &body), cel(0, 0, 0, 255, 1, 1, &a)], 1),
            frame(&[chunk(CEL, &link)], 1),
        ],
    );
    let ase = AsepriteFile::parse(data).unwrap();
    assert_eq!(ase.layers[0].name, "L");
    assert_eq!(ase.frames[1].image.data, a);
}

#[test]
fn handler_reading_past_the_chunk_end_is_corrupt() {
    let body = layer_body(1, 255, "long name");
    let data = build(1, 1, 1, &[frame(&[chunk_sized(LAYER, &body, 6 + 10)], 1)]);
    assert_eq!(error_of(data), AsepriteError::CorruptFile(Corruption::ChunkOverrun));
    // a compressed cel whose chunk ends before its pixel data begins
    let mut cel_body = cel_head(0, 0, 0, 255, 2);
    cel_body.extend_from_slice(&[1, 0, 1, 0]);
    let data = build(
        1,
        1,
        1,
        &[frame(&[layer(1, 255, "L"), chunk_sized(CEL, &cel_body, 6 + 18)], 1)],
    );
    assert_eq!(error_of(data), AsepriteError::CorruptFile(Corruption::ChunkOverrun));
}

#[test]
fn unsupported_chunks_and_cels_fail_loudly() {
    for kind in [0x2006u16, 0x2016, 0x2017, 0x2023, 0x2021, 0x000B, 0x1234] {
        let data = build(1, 1, 1, &[frame(&[chunk(kind, &[0; 8])], 1)]);
        assert_eq!(
            error_of(data),
            AsepriteError::Unimplemented(Unsupported::ChunkType(kind))
        );
    }
    for kind in [0u16, 3, 77] {
        let mut body = cel_head(0, 0, 0, 255, kind);
        body.extend_from_slice(&[0; 8]);
        let data = build(1, 1, 1, &[frame(&[layer(1, 255, "L"), chunk(CEL, &body)], 1)]);
        assert_eq!(error_of(data), AsepriteError::Unimplemented(Unsupported::CelType(kind)));
    }
}

#[test]
fn bad_magic_is_corrupt() {
    let mut data = build(1, 1, 1, &[frame(&[], 1)]);
    data[4] = 0;
    assert_eq!(error_of(data), AsepriteError::CorruptFile(Corruption::BadMagic));
    let data = build(1, 1, 1, &[frame_with_magic(&[], 1, 0xF1FB)]);
    assert_eq!(error_of(data), AsepriteError::CorruptFile(Corruption::BadMagic));
}

#[test]
fn truncated_input_is_an_io_error() {
    assert_eq!(error_of(vec![]), AsepriteError::Io);
    assert_eq!(error_of(vec![0; 46]), AsepriteError::Io);
    let a = solid(1, [1, 2, 3, 255]);
    let full = build(1, 1, 1, &[frame(&[layer(1, 255, "L"), cel(0, 0, 0, 255, 1, 1, &a)], 1)]);
    for cut in [127usize, 128, 140, 144, 149, 160, full.len() - 1] {
        let mut data = full.clone();
        data.truncate(cut);
        assert_eq!(error_of(data), AsepriteError::Io, "cut at {}", cut);
    }
    assert!(AsepriteFile::parse(full).is_ok());
}

#[test]
fn bad_pixel_data_is_corrupt() {
    let garbage = [0xFFu8, 0xFF, 0xFF, 0xFF, 0xFF];
    let data = build(
        1,
        1,
        1,
        &[frame(&[layer(1, 255, "L"), cel_with_stream(0, 0, 0, 255, 1, 1, &garbage)], 1)],
    );
    assert_eq!(error_of(data), AsepriteError::CorruptFile(Corruption::BadCompressedData));

    // a sound stream with a broken checksum
    let mut stream = zlib_stored(&[1, 2, 3, 255]);
    let last = stream.len() - 1;
    stream[last] ^= 0x55;
    let data = build(
        1,
        1,
        1,
        &[frame(&[layer(1, 255, "L"), cel_with_stream(0, 0, 0, 255, 1, 1, &stream)], 1)],
    );
    assert_eq!(error_of(data), AsepriteError::CorruptFile(Corruption::BadCompressedData));
}

#[test]
fn pixel_count_must_match_the_cel_size() {
    let three = solid(3, [1, 2, 3, 255]);
    for (w, h) in [(2u16, 2u16), (1, 1), (3, 2), (0, 0)] {
        let data = build(1, 4, 4, &[frame(&[layer(1, 255, "L"), cel(0, 0, 0, 255, w, h, &three)], 1)]);
        assert_eq!(error_of(data), AsepriteError::CorruptFile(Corruption::PixelSizeMismatch));
    }
    let data = build(1, 4, 4, &[frame(&[layer(1, 255, "L"), cel(0, 0, 0, 255, 3, 1, &three)], 1)]);
    assert!(AsepriteFile::parse(data).is_ok());
    let data = build(1, 4, 4, &[frame(&[layer(1, 255, "L"), cel(0, 0, 0, 255, 0, 9, &[])], 1)]);
    assert!(AsepriteFile::parse(data).is_ok());
}

#[test]
fn cel_must_name_a_known_layer() {
    let a = solid(1, [1, 2, 3, 255]);
    let expected = AsepriteError::CorruptFile(Corruption::LayerIndexOutOfRange);
    let data = build(1, 1, 1, &[frame(&[cel(0, 0, 0, 255, 1, 1, &a)], 1)]);
    assert_eq!(error_of(data), expected);
    let data = build(1, 1, 1, &[frame(&[layer(1, 255, "L"), cel(1, 0, 0, 255, 1, 1, &a)], 1)]);
    assert_eq!(error_of(data), expected);
    // the cel comes before the layer chunk that would declare its layer
    let data = build(1, 1, 1, &[frame(&[cel(0, 0, 0, 255, 1, 1, &a), layer(1, 255, "L")], 1)]);
    assert_eq!(error_of(data), expected);
    // a link to a frame in which the layer did not exist yet
    let data = build(
        2,
        1,
        1,
        &[
            frame(&[layer(1, 255, "first"), cel(0, 0, 0, 255, 1, 1, &a)], 1),
            frame(&[layer(1, 255, "second"), linked_cel(1, 0, 0, 255, 0)], 1),
        ],
    );
    assert_eq!(error_of(data), expected);
}

#[test]
fn layer_declared_last_in_a_frame_still_gets_a_canvas() {
    let a = solid(1, [1, 2, 3, 255]);
    let data = build(
        2,
        1,
        1,
        &[
            frame(&[layer(1, 255, "one"), cel(0, 0, 0, 255, 1, 1, &a), layer(1, 255, "two")], 1),
            frame(&[linked_cel(1, 0, 0, 255, 0), linked_cel(0, 0, 0, 255, 0)], 1),
        ],
    );
    let ase = AsepriteFile::parse(data).unwrap();
    assert_eq!(ase.frames[0].layers.len(), 2);
    assert_eq!(ase.frames[0].layers[1].data, vec![0u8; 4]);
    assert_eq!(ase.frames[1].image.data, a);
}

#[test]
fn tags_are_kept_in_declaration_order() {
    let mut body: Vec<u8> = Vec::new();
    body.extend_from_slice(&2u16.to_le_bytes());
    body.extend_from_slice(&[0; 8]);
    for (from, to, dir, rgb, name) in [(0u16, 1u16, 0u8, [1u8, 2, 3], "idle"), (2, 5, 2, [4, 5, 6], "run")] {
        body.extend_from_slice(&from.to_le_bytes());
        body.extend_from_slice(&to.to_le_bytes());
        body.push(dir);
        body.extend_from_slice(&[0; 8]);
        body.extend_from_slice(&rgb);
        body.push(0);
        body.extend_from_slice(&string(name));
    }
    let data = build(1, 1, 1, &[frame(&[chunk(TAGS, &body)], 1)]);
    let ase = AsepriteFile::parse(data).unwrap();
    assert_eq!(ase.tags.len(), 2);
    assert_eq!(ase.tags[0].name, "idle");
    assert_eq!((ase.tags[0].from, ase.tags[0].to, ase.tags[0].anidir), (0, 1, 0));
    assert_eq!((ase.tags[0].r, ase.tags[0].g, ase.tags[0].b), (1, 2, 3));
    assert_eq!(ase.tags[1].name, "run");
    assert_eq!((ase.tags[1].from, ase.tags[1].to, ase.tags[1].anidir), (2, 5, 2));
    assert_eq!((ase.tags[1].r, ase.tags[1].g, ase.tags[1].b), (4, 5, 6));

    // a tag count that the chunk cannot hold
    let mut short = body.clone();
    short[0] = 3;
    let data = build(1, 1, 1, &[frame(&[chunk(TAGS, &short)], 1)]);
    assert_eq!(error_of(data), AsepriteError::Io);
}

fn slice_body(flags: u32, name: &str, keys: &[Vec<u32>]) -> Vec<u8> {
    let mut b: Vec<u8> = Vec::new();
    b.extend_from_slice(&(keys.len() as u32).to_le_bytes());
    b.extend_from_slice(&flags.to_le_bytes());
    b.extend_from_slice(&[0; 4]);
    b.extend_from_slice(&string(name));
    for key in keys {
        for v in key {
            b.extend_from_slice(&v.to_le_bytes());
        }
    }
    b
}

fn user_data_body(text: Option<&str>, color: Option<[u8; 4]>) -> Vec<u8> {
    let flags: u32 = (text.is_some() as u32) | ((color.is_some() as u32) << 1);
    let mut b = flags.to_le_bytes().to_vec();
    if let Some(t) = text {
        b.extend_from_slice(&string(t));
    }
    if let Some(c) = color {
        b.extend_from_slice(&c);
    }
    b
}

#[test]
fn slice_keys_with_center_and_pivot() {
    let keys = vec![
        vec![0u32, 1, 2, 3, 4, 5, 6, 7, 8, 9, 10],
        vec![3u32, 11, 12, 13, 14, 15, 16, 17, 18, 19, 20],
    ];
    let data = build(1, 1, 1, &[frame(&[chunk(SLICE, &slice_body(3, "hit", &keys))], 1)]);
    let ase = AsepriteFile::parse(data).unwrap();
    assert_eq!(ase.slices.len(), 1);
    let s = &ase.slices[0];
    assert_eq!(s.name, "hit");
    assert_eq!(s.keys.len(), 2);
    assert_eq!(s.keys[0].frame, 0);
    assert_eq!(s.keys[1].frame, 3);
    let b = s.keys[1].bounds;
    assert_eq!((b.x, b.y, b.w, b.h), (11, 12, 13, 14));
    let c = s.keys[1].center.unwrap();
    assert_eq!((c.x, c.y, c.w, c.h), (15, 16, 17, 18));
    let p = s.keys[1].pivot.unwrap();
    assert_eq!((p.x, p.y), (19, 20));
    assert_eq!(s.user_data.string, "");
    assert_eq!((s.user_data.r, s.user_data.g, s.user_data.b, s.user_data.a), (0, 0, 0, 0));

    let plain = vec![vec![7u32, 1, 2, 3, 4]];
    let data = build(1, 1, 1, &[frame(&[chunk(SLICE, &slice_body(0, "box", &plain))], 1)]);
    let ase = AsepriteFile::parse(data).unwrap();
    assert!(ase.slices[0].keys[0].center.is_none());
    assert!(ase.slices[0].keys[0].pivot.is_none());
    assert_eq!(ase.slices[0].keys[0].frame, 7);
}

#[test]
fn user_data_attaches_to_the_latest_slice() {
    let key = vec![vec![0u32, 0, 0, 1, 1]];
    let data = build(
        1,
        1,
        1,
        &[frame(
            &[
                chunk(SLICE, &slice_body(0, "first", &key)),
                chunk(SLICE, &slice_body(0, "second", &key)),
                chunk(USER_DATA, &user_data_body(Some("note"), Some([1, 2, 3, 4]))),
            ],
            1,
        )],
    );
    let ase = AsepriteFile::parse(data).unwrap();
    assert_eq!(ase.slices.len(), 2);
    assert_eq!(ase.slices[1].user_data.string, "note");
    let u = &ase.slices[1].user_data;
    assert_eq!((u.r, u.g, u.b, u.a), (1, 2, 3, 4));
    assert_eq!(ase.slices[0].user_data.string, "");
    assert_eq!(ase.slices[0].user_data.a, 0);
}

#[test]
fn user_data_without_bits_leaves_the_default() {
    let key = vec![vec![0u32, 0, 0, 1, 1]];
    let data = build(
        1,
        1,
        1,
        &[frame(
            &[chunk(SLICE, &slice_body(0, "s", &key)), chunk(USER_DATA, &user_data_body(None, None))],
            1,
        )],
    );
    let ase = AsepriteFile::parse(data).unwrap();
    let u = &ase.slices[0].user_data;
    assert_eq!(u.string, "");
    assert_eq!((u.r, u.g, u.b, u.a), (0, 0, 0, 0));
}

#[test]
fn user_data_with_one_bit_sets_one_part() {
    let key = vec![vec![0u32, 0, 0, 1, 1]];
    let data = build(
        1,
        1,
        1,
        &[frame(
            &[
                chunk(SLICE, &slice_body(0, "s", &key)),
                chunk(USER_DATA, &user_data_body(Some("only text"), None)),
            ],
            1,
        )],
    );
    let ase = AsepriteFile::parse(data).unwrap();
    let u = &ase.slices[0].user_data;
    assert_eq!(u.string, "only text");
    assert_eq!((u.r, u.g, u.b, u.a), (0, 0, 0, 0));

    let data = build(
        1,
        1,
        1,
        &[frame(
            &[
                chunk(SLICE, &slice_body(0, "s", &key)),
                chunk(USER_DATA, &user_data_body(None, Some([9, 8, 7, 6]))),
            ],
            1,
        )],
    );
    let ase = AsepriteFile::parse(data).unwrap();
    let u = &ase.slices[0].user_data;
    assert_eq!(u.string, "");
    assert_eq!((u.r, u.g, u.b, u.a), (9, 8, 7, 6));
}

#[test]
fn user_data_before_any_slice_is_passed_over() {
    let a = solid(1, [1, 2, 3, 255]);
    let data = build(
        1,
        1,
        1,
        &[frame(
            &[
                layer(1, 255, "L"),
                chunk(USER_DATA, &user_data_body(Some("on the layer"), None)),
                cel(0, 0, 0, 255, 1, 1, &a),
            ],
            1,
        )],
    );
    let ase = AsepriteFile::parse(data).unwrap();
    assert!(ase.slices.is_empty());
    assert_eq!(ase.frames[0].image.data, a);
}

#[test]
fn invalid_utf8_in_a_layer_name_is_corrupt() {
    let mut body = layer_body(1, 255, "ab");
    let n = body.len();
    body[n - 2] = 0xC3;
    body[n - 1] = 0x28;
    let data = build(1, 1, 1, &[frame(&[chunk(LAYER, &body)], 1)]);
    assert_eq!(error_of(data), AsepriteError::CorruptFile(Corruption::InvalidUtf8));
}

#[test]
fn next_frame_reads_one_frame_at_a_time() {
    let a = solid(1, [1, 2, 3, 255]);
    let data = build(
        2,
        1,
        1,
        &[
            frame(&[layer(1, 255, "L"), cel(0, 0, 0, 255, 1, 1, &a)], 5),
            frame(&[], 6),
        ],
    );
    let mut ase = AsepriteFile::parse(data).unwrap();
    assert_eq!(ase.frames.len(), 2);
    assert_eq!(ase.frames[1].duration, 6);
    assert_eq!(ase.frames[1].layers.len(), 1);
    assert_eq!(ase.frames[1].image.data, vec![0u8; 4]);
    // every declared frame is held: there is none left to read
    assert!(matches!(ase.next_frame(), Ok(None)));
}

#[test]
fn cel_placement_given_the_inflated_pixels() {
    let mut f = Frame { duration: 1, layers: vec![Image::new(2, 1)], image: Image::new(2, 1) };
    let cel = CelHeader { layer_index: 0, x: 1, y: 0, opacity: 255, cel_type: 2 };
    assert_eq!(f.place_compressed_cel(&cel, 1, 1, Some(vec![5, 6, 7, 255])), Ok(()));
    assert_eq!(f.layers[0].data, vec![0, 0, 0, 0, 5, 6, 7, 255]);
    assert_eq!(f.layers[0].pixel(1, 0), Pixel { r: 5, g: 6, b: 7, a: 255 });
    assert_eq!(
        f.place_compressed_cel(&cel, 1, 1, None),
        Err(AsepriteError::CorruptFile(Corruption::BadCompressedData))
    );
    assert_eq!(
        f.place_compressed_cel(&cel, 1, 1, Some(vec![5, 6, 7])),
        Err(AsepriteError::CorruptFile(Corruption::PixelSizeMismatch))
    );
    let far = CelHeader { layer_index: 1, ..cel };
    assert_eq!(
        f.place_compressed_cel(&far, 1, 1, Some(vec![5, 6, 7, 255])),
        Err(AsepriteError::CorruptFile(Corruption::LayerIndexOutOfRange))
    );
    assert_eq!(f.layers[0].data, vec![0, 0, 0, 0, 5, 6, 7, 255]);

    let mut g = Frame { duration: 1, layers: vec![Image::new(2, 1)], image: Image::new(2, 1) };
    let earlier = vec![f];
    let link = CelHeader { layer_index: 0, x: -1, y: 0, opacity: 255, cel_type: 1 };
    assert_eq!(
        g.place_linked_cel(&earlier, &link, 1),
        Err(AsepriteError::CorruptFile(Corruption::LinkedFrameNotEarlier))
    );
    assert_eq!(g.place_linked_cel(&earlier, &link, 0), Ok(()));
    assert_eq!(g.layers[0].data, vec![5, 6, 7, 255, 0, 0, 0, 0]);
    g.grow(3);
    assert_eq!(g.layers.len(), 3);
    assert_eq!(g.layers[2].data, vec![0u8; 8]);
    g.grow(1);
    assert_eq!(g.layers.len(), 3);
}

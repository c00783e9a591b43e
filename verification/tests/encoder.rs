
use pict::decoder::parse_pict;
use pict::encoder::{
    build_direct_bits_rect_op, encode_pict, encode_pict_bits_rect, encode_pict_pack_bits_rect,
    encode_pict_v1, encode_pict_v1_with, encode_pict_v2, encode_pict_v2_with_clip,
    pixel_data_sizes, PackType,
};
use pict::encoder::{encode_pict_indexed_bits_rect, IndexedPixelSize};
use pict::error::PictError;

// ---- basic rejection tests ----

#[test]
fn rejects_size_mismatch() {
    let err = encode_pict(2, 2, &[0u8; 8]).unwrap_err();
    assert!(matches!(err, PictError::InvalidData(_)));
}

#[test]
fn rejects_zero_dim() {
    assert!(matches!(
        encode_pict(0, 1, &[]).unwrap_err(),
        PictError::InvalidData(_)
    ));
}

// ---- round-trip: packType 1 (raw) ----

#[test]
fn roundtrip_3x2_rgba_packtype1() {
    let width = 3u32;
    let height = 2u32;
    let rgba: Vec<u8> = (0..(width * height * 4)).map(|i| (i * 37) as u8).collect();
    let encoded = encode_pict(width, height, &rgba).expect("encode failed");
    let img = parse_pict(&encoded).expect("decode failed");
    assert_eq!(img.width, width);
    assert_eq!(img.height, height);
    for y in 0..height as usize {
        for x in 0..width as usize {
            let src = (y * width as usize + x) * 4;
            let dst = src;
            assert_eq!(img.data[dst], rgba[src], "R ({x},{y})");
            assert_eq!(img.data[dst + 1], rgba[src + 1], "G ({x},{y})");
            assert_eq!(img.data[dst + 2], rgba[src + 2], "B ({x},{y})");
            assert_eq!(img.data[dst + 3], 0xFF, "A ({x},{y})");
        }
    }
}

// ---- round-trip: packType 2 (24-bpp) ----

#[test]
fn roundtrip_4x4_packtype2() {
    let width = 4u32;
    let height = 4u32;
    let rgba: Vec<u8> = (0..(width * height * 4)).map(|i| i as u8).collect();
    let enc = encode_pict_v2(width, height, &rgba, PackType::Packed24).unwrap();
    let img = parse_pict(&enc).unwrap();
    assert_eq!(img.width, width);
    assert_eq!(img.height, height);
    for y in 0..height as usize {
        for x in 0..width as usize {
            let s = (y * width as usize + x) * 4;
            assert_eq!(img.data[s], rgba[s], "R ({x},{y})");
            assert_eq!(img.data[s + 1], rgba[s + 1], "G ({x},{y})");
            assert_eq!(img.data[s + 2], rgba[s + 2], "B ({x},{y})");
            assert_eq!(img.data[s + 3], 0xFF, "A ({x},{y})");
        }
    }
}

// ---- round-trip: packType 4 (component-separated PackBits) ----

#[test]
fn roundtrip_8x8_packtype4_runs() {
    // Solid-colour image: all channels run-compress perfectly.
    let width = 8u32;
    let height = 8u32;
    let mut rgba = vec![0u8; (width * height * 4) as usize];
    for y in 0..height as usize {
        for x in 0..width as usize {
            let off = (y * width as usize + x) * 4;
            rgba[off] = 0xAA;
            rgba[off + 1] = 0xBB;
            rgba[off + 2] = 0xCC;
            rgba[off + 3] = 0xFF;
        }
    }
    let enc = encode_pict_v2(width, height, &rgba, PackType::ComponentPackBits).unwrap();
    let img = parse_pict(&enc).unwrap();
    assert_eq!(img.width, width);
    assert_eq!(img.height, height);
    for y in 0..height as usize {
        for x in 0..width as usize {
            let off = (y * width as usize + x) * 4;
            assert_eq!(img.data[off], 0xAA, "R ({x},{y})");
            assert_eq!(img.data[off + 1], 0xBB, "G ({x},{y})");
            assert_eq!(img.data[off + 2], 0xCC, "B ({x},{y})");
            assert_eq!(img.data[off + 3], 0xFF, "A ({x},{y})");
        }
    }
}

#[test]
fn roundtrip_8x8_packtype4_gradient() {
    // Gradient image: moderate compression.
    let width = 8u32;
    let height = 8u32;
    let mut rgba = vec![0u8; (width * height * 4) as usize];
    for y in 0..height as usize {
        for x in 0..width as usize {
            let off = (y * width as usize + x) * 4;
            rgba[off] = (x * 32) as u8;
            rgba[off + 1] = (y * 32) as u8;
            rgba[off + 2] = ((x + y) * 16) as u8;
            rgba[off + 3] = 0xFF;
        }
    }
    let enc = encode_pict_v2(width, height, &rgba, PackType::ComponentPackBits).unwrap();
    let img = parse_pict(&enc).unwrap();
    assert_eq!(img.width, width);
    assert_eq!(img.height, height);
    for y in 0..height as usize {
        for x in 0..width as usize {
            let off = (y * width as usize + x) * 4;
            assert_eq!(img.data[off], rgba[off], "R ({x},{y})");
            assert_eq!(img.data[off + 1], rgba[off + 1], "G ({x},{y})");
            assert_eq!(img.data[off + 2], rgba[off + 2], "B ({x},{y})");
            assert_eq!(img.data[off + 3], 0xFF, "A ({x},{y})");
        }
    }
}

// ---- byte-savings measurements ----

#[test]
fn packtype4_saves_bytes_vs_raw_for_solid() {
    // A solid-colour image should compress very well with packType 4.
    let width = 64u32;
    let height = 64u32;
    let rgba = vec![0xABu8; (width * height * 4) as usize];
    let (raw, packed) = pixel_data_sizes(width, height, &rgba, PackType::ComponentPackBits);
    // Each row: 3 planes × (1 flag + 1 byte) = 6 bytes packed vs
    // 64×4 = 256 raw. Expect at least 90 % saving.
    assert!(
        packed < raw / 10,
        "expected packed={packed} < raw/10={}, got no compression",
        raw / 10
    );
}

#[test]
fn packtype2_saves_25pct_vs_raw() {
    let width = 64u32;
    let height = 64u32;
    let rgba = vec![0u8; (width * height * 4) as usize];
    let (raw, packed) = pixel_data_sizes(width, height, &rgba, PackType::Packed24);
    assert_eq!(
        packed * 4,
        raw * 3,
        "packType2 should be exactly 3/4 of raw"
    );
}

// ---- v1 encoder round-trip ----

#[test]
fn roundtrip_v1_4x4() {
    let width = 4u32;
    let height = 4u32;
    let rgba: Vec<u8> = (0..(width * height * 4)).map(|i| (i * 17) as u8).collect();
    let enc = encode_pict_v1(width, height, &rgba).unwrap();
    let img = parse_pict(&enc).unwrap();
    assert_eq!(img.width, width);
    assert_eq!(img.height, height);
    for y in 0..height as usize {
        for x in 0..width as usize {
            let off = (y * width as usize + x) * 4;
            assert_eq!(img.data[off], rgba[off], "R ({x},{y})");
            assert_eq!(img.data[off + 1], rgba[off + 1], "G ({x},{y})");
            assert_eq!(img.data[off + 2], rgba[off + 2], "B ({x},{y})");
            assert_eq!(img.data[off + 3], 0xFF, "A ({x},{y})");
        }
    }
}

#[test]
fn v1_no_512_stub() {
    // v1 output must NOT begin with a 512-byte zero block.
    let rgba = vec![0u8; 4 * 4 * 4];
    let enc = encode_pict_v1(4, 4, &rgba).unwrap();
    // The first 2 bytes are picSize (0x0000), bytes 2..10 are
    // picFrame, byte 10..12 are 0x11 0x01 (v1 sentinel).
    assert_eq!(enc[10], 0x11);
    assert_eq!(enc[11], 0x01);
    // Total size must be much less than 512.
    assert!(
        enc.len() < 512,
        "v1 output should not include 512-byte stub"
    );
}

// ---- ClipRgn injection ----

#[test]
fn clip_rgn_decode_roundtrip() {
    // Encode with a clip region, verify the decode still produces
    // the correct image (the decoder currently ignores the clip mask
    // but must not return an error on the ClipRgn opcode).
    let width = 4u32;
    let height = 4u32;
    let rgba: Vec<u8> = (0..(width * height * 4)).map(|i| i as u8).collect();
    let enc =
        encode_pict_v2_with_clip(width, height, &rgba, PackType::Raw, [0, 0, 4, 4]).unwrap();
    let img = parse_pict(&enc).unwrap();
    assert_eq!(img.width, width);
    assert_eq!(img.height, height);
}

#[test]
fn clip_rgn_bytes_correct() {
    // The ClipRgn opcode bytes (0x0001, rgnSize=10, bbox) must be
    // at the correct position inside the stream.
    let rgba = vec![0u8; 2 * 2 * 4];
    let enc = encode_pict_v2_with_clip(2, 2, &rgba, PackType::Raw, [0, 0, 2, 2]).unwrap();
    // ClipRgn starts at offset 552 (after stub+header+headerOp).
    let pos = 552usize;
    // opcode 0x0001.
    assert_eq!(enc[pos], 0x00);
    assert_eq!(enc[pos + 1], 0x01);
    // rgnSize = 10.
    assert_eq!(enc[pos + 2], 0x00);
    assert_eq!(enc[pos + 3], 0x0A);
}

// ---- round 5: build_direct_bits_rect_op layout ----

#[test]
fn build_direct_bits_rect_op_opcode_byte() {
    // Just verify the opening opcode bytes: 0x009A.
    let rgba = vec![0u8; 2 * 2 * 4];
    let bytes = build_direct_bits_rect_op(0, 0, 2, 2, &rgba, PackType::Raw).unwrap();
    assert_eq!(&bytes[0..2], &[0x00, 0x9A]);
}

#[test]
fn build_direct_bits_rect_op_rejects_degenerate() {
    let rgba = vec![0u8; 0];
    assert!(matches!(
        build_direct_bits_rect_op(0, 0, 0, 0, &rgba, PackType::Raw).unwrap_err(),
        PictError::InvalidData(_)
    ));
}

#[test]
fn build_direct_bits_rect_op_rejects_size_mismatch() {
    let rgba = vec![0u8; 5];
    assert!(matches!(
        build_direct_bits_rect_op(0, 0, 2, 2, &rgba, PackType::Raw).unwrap_err(),
        PictError::InvalidData(_)
    ));
}

// ---- round 5: 1-bpp BitMap encoders ----

#[test]
fn bits_rect_emits_bits_rect_opcode() {
    // The opcode at the start of the picture record body should be
    // 0x0090 (BitsRect), not 0x0098 / 0x009A.
    let rgba = vec![0xFFu8; 8 * 8 * 4];
    let enc = encode_pict_bits_rect(8, 8, &rgba).unwrap();
    // After stub(512) + picSize(2) + picFrame(8) + sentinel(2+2) +
    // headerOp(2) + 24-byte payload = 552, the next two bytes are
    // the first opcode word.
    let pos = 552usize;
    assert_eq!(enc[pos], 0x00, "high byte of BitsRect opcode");
    assert_eq!(enc[pos + 1], 0x90, "low byte of BitsRect opcode");
}

#[test]
fn pack_bits_rect_emits_pack_bits_rect_opcode() {
    let rgba = vec![0xFFu8; 64 * 8 * 4]; // wide enough for RLE path
    let enc = encode_pict_pack_bits_rect(64, 8, &rgba).unwrap();
    let pos = 552usize;
    assert_eq!(enc[pos], 0x00, "high byte of PackBitsRect opcode");
    assert_eq!(enc[pos + 1], 0x98, "low byte of PackBitsRect opcode");
}

#[test]
fn bits_rect_rejects_size_mismatch() {
    let err = encode_pict_bits_rect(2, 2, &[0u8; 7]).unwrap_err();
    assert!(matches!(err, PictError::InvalidData(_)));
}

// ---- round 5: v1 with PackType selector ----

#[test]
fn v1_with_packtype_emits_correct_pack_type_word() {
    // v1 PixMap header sits at: picSize(2) + picFrame(8) +
    // sentinel(2) + opcode(1) + baseAddr(4) + rowBytes(2) +
    // bounds(8) + pmVersion(2) = offset 29; packType is the next 2.
    let rgba = vec![0u8; 4 * 4 * 4];
    for &(pack, expected_word) in &[
        (PackType::Raw, 1u16),
        (PackType::Packed24, 2u16),
        (PackType::Rle16, 3u16),
        (PackType::ComponentPackBits, 4u16),
    ] {
        let enc = encode_pict_v1_with(4, 4, &rgba, pack).unwrap();
        let pack_word = u16::from_be_bytes([enc[29], enc[30]]);
        assert_eq!(pack_word, expected_word, "{pack:?}");
    }
}

#[test]
fn indexed_bits_rect_reads_back_through_its_palette() {
    let palette = [[0xFFu8, 0, 0, 0xFF], [0, 0xFF, 0, 0xFF]];
    for ps in [
        IndexedPixelSize::OneBpp,
        IndexedPixelSize::TwoBpp,
        IndexedPixelSize::FourBpp,
        IndexedPixelSize::EightBpp,
    ] {
        let (w, h) = (5u32, 2u32);
        let mask: u8 = match ps {
            IndexedPixelSize::OneBpp => 1,
            IndexedPixelSize::TwoBpp => 3,
            IndexedPixelSize::FourBpp => 15,
            IndexedPixelSize::EightBpp => 255,
        };
        let indices: Vec<u8> = (0..w * h).map(|i| (i % 4) as u8).collect();
        let bytes = encode_pict_indexed_bits_rect(w, h, &indices, &palette, ps).unwrap();
        let img = parse_pict(&bytes).unwrap();
        assert_eq!((img.width, img.height), (w, h));
        for (i, &ix) in indices.iter().enumerate() {
            let j = (ix & mask) as usize;
            let want: [u8; 3] = if j < palette.len() {
                [palette[j][0], palette[j][1], palette[j][2]]
            } else {
                [0, 0, 0]
            };
            assert_eq!(&img.data[4 * i..4 * i + 3], &want, "{ps:?} pixel {i}");
            assert_eq!(img.data[4 * i + 3], 0xFF);
        }
    }
}

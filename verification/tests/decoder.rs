use pict::encoder::{encode_pict_v1_with, encode_pict_v2, PackType};
use pict::error::PictError;
use pict::parse_pict;

fn pattern(width: u32, height: u32) -> Vec<u8> {
    (0..width * height * 4).map(|i| (i * 37 + 11) as u8).collect()
}

fn opaque(data: &[u8]) -> Vec<u8> {
    data.iter()
        .enumerate()
        .map(|(k, &b)| if k % 4 == 3 { 0xFF } else { b })
        .collect()
}

#[test]
fn v2_round_trip_restores_every_lossless_packing() {
    let (w, h) = (7u32, 5u32);
    let data = pattern(w, h);
    for pack in [PackType::Raw, PackType::Packed24, PackType::ComponentPackBits] {
        let bytes = encode_pict_v2(w, h, &data, pack).unwrap();
        let img = parse_pict(&bytes).unwrap();
        assert_eq!((img.width, img.height), (w, h));
        assert_eq!(img.data, opaque(&data), "{pack:?}");
    }
}

#[test]
fn v1_round_trip_restores_every_lossless_packing() {
    let (w, h) = (3u32, 6u32);
    let data = pattern(w, h);
    for pack in [PackType::Raw, PackType::Packed24, PackType::ComponentPackBits] {
        let bytes = encode_pict_v1_with(w, h, &data, pack).unwrap();
        let img = parse_pict(&bytes).unwrap();
        assert_eq!((img.width, img.height), (w, h));
        assert_eq!(img.data, opaque(&data), "{pack:?}");
    }
}

#[test]
fn component_packbits_round_trip_of_flat_runs() {
    let (w, h) = (40u32, 3u32);
    let data: Vec<u8> = (0..w * h).flat_map(|i| [(i / 16) as u8, 0x80, 0x80, 0x10]).collect();
    let bytes = encode_pict_v2(w, h, &data, PackType::ComponentPackBits).unwrap();
    let img = parse_pict(&bytes).unwrap();
    assert_eq!(img.data, opaque(&data));
}

#[test]
fn sixteen_bit_packing_keeps_only_five_bits_per_channel() {
    let data = [1u8, 2, 3, 9, 0xF8, 0x80, 0x08, 0];
    let bytes = encode_pict_v2(2, 1, &data, PackType::Rle16).unwrap();
    let img = parse_pict(&bytes).unwrap();
    assert_eq!(&img.data[0..4], &[0, 0, 0, 0xFF]);
    assert_ne!(img.data, opaque(&data));
}

#[test]
fn stream_without_a_picture_record_is_invalid_data() {
    assert!(matches!(parse_pict(&[]), Err(PictError::InvalidData(_))));
    assert!(matches!(parse_pict(&[0u8; 600]), Err(PictError::InvalidData(_))));
}

#[test]
fn zero_sided_frame_is_rejected() {
    // picSize, picFrame (0,0,0,4), v1 stanza, OpEndPic.
    let bytes = [0, 0, 0, 0, 0, 0, 0, 0, 0, 4, 0x11, 0x01, 0xFF];
    assert!(matches!(parse_pict(&bytes), Err(PictError::InvalidData(_))));
}

#[test]
fn stream_that_draws_nothing_is_no_raster() {
    // picSize, picFrame (0,0,2,2), v1 stanza, OpEndPic.
    let bytes = [0, 0, 0, 0, 0, 0, 0, 2, 0, 2, 0x11, 0x01, 0xFF];
    assert!(matches!(parse_pict(&bytes), Err(PictError::NoRaster)));
}

#[test]
fn unknown_version_stanza_is_invalid_data() {
    let bytes = [0, 0, 0, 0, 0, 0, 0, 2, 0, 2, 0x11, 0x01, 0xFF, 0, 0];
    let mut v = bytes.to_vec();
    v[10] = 0x12;
    assert!(matches!(parse_pict(&v), Err(PictError::InvalidData(_))));
}

#[test]
fn error_messages_name_their_kind() {
    assert_eq!(
        PictError::InvalidData("x".to_string()).message(),
        "invalid data: x"
    );
    assert_eq!(
        PictError::Unsupported("y".to_string()).message(),
        "unsupported: y"
    );
    assert_eq!(
        PictError::NoRaster.message(),
        "no raster opcode (PackBitsRect / DirectBitsRect) in PICT stream"
    );
}

#[test]
fn builder_stream_that_draws_nothing_is_no_raster() {
    let bytes = pict::ops::PictBuilder::new(0, 0, 4, 4).finish();
    assert!(matches!(parse_pict(&bytes), Err(PictError::NoRaster)));
}

#[test]
fn comments_are_captured_in_stream_order() {
    let mut b = pict::ops::PictBuilder::new(0, 0, 8, 8);
    b.short_comment(7);
    b.long_comment(9, &[1, 2, 3]).unwrap();
    b.rect(pict::ops::Verb::Paint, 0, 0, 4, 4);
    let img = parse_pict(&b.finish()).unwrap();
    assert_eq!(
        img.comments,
        vec![
            pict::image::PictComment::short(7),
            pict::image::PictComment::long(9, vec![1, 2, 3])
        ]
    );
}

#[test]
fn origin_moves_later_shapes_up_and_left() {
    let mut b = pict::ops::PictBuilder::new(0, 0, 16, 16);
    b.origin(4, 0);
    b.rect(pict::ops::Verb::Paint, 0, 8, 4, 12);
    let img = parse_pict(&b.finish()).unwrap();
    let px = |x: usize, y: usize| img.data[(y * 16 + x) * 4..(y * 16 + x) * 4 + 3].to_vec();
    assert_eq!(px(5, 1), vec![0, 0, 0]);
    assert_eq!(px(9, 1), vec![0xFF, 0xFF, 0xFF]);
}

#[test]
fn quicktime_record_is_stepped_past_by_its_size() {
    let mut b = pict::ops::PictBuilder::new(0, 0, 4, 4);
    b.compressed_quicktime(&[0xAA; 8]).unwrap();
    b.rect(pict::ops::Verb::Paint, 0, 0, 2, 2);
    let img = parse_pict(&b.finish()).unwrap();
    assert_eq!(&img.data[0..3], &[0, 0, 0]);
    assert_eq!(&img.data[(3 * 4 + 3) * 4..(3 * 4 + 3) * 4 + 3], &[0xFF, 0xFF, 0xFF]);
}

#[test]
fn dh_text_moves_the_text_pen_from_the_origin() {
    let mut b = pict::ops::PictBuilder::new(0, 0, 4, 4);
    b.push(&[0x00, 0x29, 0xC8, 0x00]);
    b.rect(pict::ops::Verb::Paint, 0, 0, 1, 1);
    let img = parse_pict(&b.finish()).unwrap();
    assert_eq!(img.text_state.text_pen, Some((200, 0)));
    assert_eq!(img.text_state.text_op_count, 1);
}

#[test]
fn built_colour_pattern_fills_with_its_tile() {
    for (w, h) in [(2u16, 2u16), (8, 2)] {
        let n = (w as usize) * (h as usize);
        let px: Vec<[u8; 4]> = (0..n).map(|i| [(i * 30) as u8, (255 - i * 20) as u8, (i * 7 + 3) as u8, 255]).collect();
        let op = pict::encoder::build_pix_pat_op_sized(pict::encoder::PixPatSlot::Fill, [0; 8], w, h, &px).unwrap();
        let mut b = pict::ops::PictBuilder::new(0, 0, 8, 8);
        b.push(&op);
        b.rect(pict::ops::Verb::Fill, 0, 0, 8, 8);
        let img = parse_pict(&b.finish()).unwrap();
        for y in 0..8usize {
            for x in 0..8usize {
                let c = px[(y % h as usize) * w as usize + x % w as usize];
                let o = (y * 8 + x) * 4;
                assert_eq!(&img.data[o..o + 3], &c[0..3]);
            }
        }
    }
}

#[test]
fn direct_bits_rgn_draws_only_inside_its_region() {
    let data: Vec<u8> = [0xC0u8, 0x10, 0x20, 0xFF].repeat(16);
    let rect_op = pict::encoder::build_direct_bits_rect_op(0, 0, 4, 4, &data, PackType::Raw).unwrap();
    let mut op: Vec<u8> = vec![0x00, 0x9B];
    op.extend_from_slice(&rect_op[2..70]);
    op.extend_from_slice(&[0x00, 0x0A, 0, 0, 0, 0, 0, 2, 0, 2]);
    op.extend_from_slice(&rect_op[70..]);
    let mut b = pict::ops::PictBuilder::new(0, 0, 8, 8);
    b.push(&op);
    let img = parse_pict(&b.finish()).unwrap();
    let px = |x: usize, y: usize| img.data[(y * 8 + x) * 4..(y * 8 + x) * 4 + 3].to_vec();
    assert_eq!(px(0, 0), vec![0xC0, 0x10, 0x20]);
    assert_eq!(px(1, 1), vec![0xC0, 0x10, 0x20]);
    assert_eq!(px(3, 3), vec![0xFF, 0xFF, 0xFF]);
    assert_eq!(px(2, 0), vec![0xFF, 0xFF, 0xFF]);
}

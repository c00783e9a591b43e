use pict::encoder::{encode_pict_v1, encode_pict_v2, PackType};
use pict::error::PictError;
use pict::ops::{build_rect_op, build_short_comment, PictBuilder, Verb};
use pict::probe::{probe_pict, ProbeRect, ProbeTermination, ProbeVersion};

#[test]
fn probe_of_a_v2_raster_counts_one_raster() {
    let data = vec![9u8; 3 * 2 * 4];
    let bytes = encode_pict_v2(3, 2, &data, PackType::Raw).unwrap();
    let p = probe_pict(&bytes).unwrap();
    assert_eq!(p.version, ProbeVersion::V2);
    assert!(p.has_launch_stub);
    assert_eq!(
        p.frame,
        ProbeRect { top: 0, left: 0, bottom: 2, right: 3 }
    );
    assert_eq!((p.width, p.height), (3, 2));
    assert_eq!(p.raster_count, 1);
    assert_eq!(p.indexed_raster_count, 0);
    assert_eq!(p.drawing_count, 0);
    assert!(p.end_pic_seen);
    assert_eq!(p.termination, ProbeTermination::EndPic);
    assert!(p.has_visible_content());
    assert!(!p.has_quicktime());
    assert!(p.header.is_some());
}

#[test]
fn probe_of_a_v1_raster_has_no_stub() {
    let data = vec![1u8; 2 * 2 * 4];
    let bytes = encode_pict_v1(2, 2, &data).unwrap();
    let p = probe_pict(&bytes).unwrap();
    assert_eq!(p.version, ProbeVersion::V1);
    assert!(!p.has_launch_stub);
    assert_eq!(p.raster_count, 1);
    assert_eq!(p.termination, ProbeTermination::EndPic);
    assert_eq!(p.terminated_at, bytes.len());
    assert!(p.header.is_none());
}

#[test]
fn probe_counts_comments_and_drawing_verbs() {
    let mut b = PictBuilder::new(0, 0, 8, 8);
    b.push(&build_short_comment(130));
    b.push(&build_rect_op(Verb::Paint, 1, 1, 4, 4));
    b.push(&build_short_comment(131));
    let bytes = b.finish();
    let p = probe_pict(&bytes).unwrap();
    assert_eq!(p.comment_count, 2);
    assert_eq!(p.comments.len(), 2);
    assert_eq!(p.comments[0].kind, 130);
    assert_eq!(p.comments[1].kind, 131);
    assert_eq!(p.drawing_count, 1);
    assert_eq!(p.raster_count, 0);
    assert!(p.has_visible_content());
    assert!(p.end_pic_seen);
}

#[test]
fn probe_of_a_truncated_walk_reports_eof() {
    let data = vec![0u8; 2 * 2 * 4];
    let mut bytes = encode_pict_v1(2, 2, &data).unwrap();
    bytes.pop();
    let p = probe_pict(&bytes).unwrap();
    assert_eq!(p.termination, ProbeTermination::Eof);
    assert!(!p.end_pic_seen);
    assert_eq!(p.raster_count, 1);
}

#[test]
fn probe_without_a_record_is_invalid_data() {
    assert!(matches!(probe_pict(&[1, 2, 3]), Err(PictError::InvalidData(_))));
}

#[test]
fn probe_of_a_v2_stanza_without_header_op_is_invalid_data() {
    let mut bytes = vec![0u8, 0, 0, 0, 0, 0, 0, 4, 0, 4, 0x00, 0x11, 0x02, 0xFF, 0x0C, 0x01];
    bytes.extend_from_slice(&[0u8; 30]);
    assert!(matches!(probe_pict(&bytes), Err(PictError::InvalidData(_))));
}

#[test]
fn long_comment_reads_back_the_same_in_both_framings() {
    let data = [1u8, 2, 3, 4, 5];
    let mut b = PictBuilder::new(0, 0, 8, 8);
    b.push(&pict::ops::build_long_comment(200, &data).unwrap());
    let v2 = probe_pict(&b.finish()).unwrap();

    let mut v1 = vec![0u8, 0, 0, 0, 0, 0, 0, 8, 0, 8, 0x11, 0x01];
    v1.extend_from_slice(&pict::ops::build_long_comment_v1(200, &data).unwrap());
    v1.push(0xFF);
    let v1 = probe_pict(&v1).unwrap();

    assert_eq!(v2.comments.len(), 1);
    assert_eq!(v1.comments.len(), 1);
    assert_eq!(v2.comments[0].kind, 200);
    assert_eq!(v2.comments[0].data, data.to_vec());
    assert!(v2.comments[0].is_long);
    assert_eq!(v1.comments[0], v2.comments[0]);
}

#[test]
fn hilite_colour_reads_back_exactly() {
    for (r, g, b) in [(0u8, 0u8, 0u8), (1, 128, 255), (0x12, 0x34, 0x56)] {
        let mut pb = PictBuilder::new(0, 0, 8, 8);
        pb.push(&pict::ops::build_hilite_color(r, g, b));
        let p = probe_pict(&pb.finish()).unwrap();
        assert_eq!(
            p.text_state.hilite_color,
            Some(pict::state::Rgba { r, g, b, a: 255 })
        );
    }
}

#[test]
fn probe_steps_past_a_zero_payload_reserved_opcode() {
    let mut b = PictBuilder::new(0, 0, 4, 4);
    b.push(&[0x00, 0xB0]);
    let bytes = b.finish();
    let p = probe_pict(&bytes).unwrap();
    assert_eq!(p.reserved_op_count, 1);
    assert_eq!(p.termination, ProbeTermination::EndPic);
    assert_eq!(p.terminated_at, bytes.len());
}

#[test]
fn probe_counts_every_opcode_of_a_fixed_size_walk() {
    let mut b = PictBuilder::new(0, 0, 8, 8);
    b.fg_color(1, 2, 3);
    b.pen_size(2, 2);
    b.rect(Verb::Paint, 1, 1, 4, 4);
    b.same_rect(Verb::Frame);
    b.short_comment(5);
    let bytes = b.finish();
    let p = probe_pict(&bytes).unwrap();
    assert_eq!(p.drawing_count, 1);
    assert_eq!(p.same_shape_count, 1);
    assert_eq!(p.comment_count, 1);
    assert_eq!(p.raster_count, 0);
    assert_eq!(p.reserved_op_count, 0);
    assert_eq!(p.termination, ProbeTermination::EndPic);
    assert_eq!(p.terminated_at, bytes.len());
}

#[test]
fn probe_steps_past_each_writer_raster_to_the_end_of_the_input() {
    let (w, h) = (9u32, 4u32);
    let data: Vec<u8> = (0..w * h * 4).map(|i| (i * 13 % 7) as u8).collect();
    for pack in [PackType::Raw, PackType::Packed24, PackType::ComponentPackBits] {
        let bytes = encode_pict_v2(w, h, &data, pack).unwrap();
        let p = probe_pict(&bytes).unwrap();
        assert_eq!(p.termination, ProbeTermination::EndPic, "{pack:?}");
        assert_eq!(p.terminated_at, bytes.len(), "{pack:?}");
        assert_eq!(p.raster_count, 1);
        assert_eq!(p.indexed_raster_count, 0);
        assert_eq!(p.drawing_count + p.same_shape_count + p.comment_count + p.reserved_op_count, 0);
    }
}

#[test]
fn built_direct_bits_op_is_stepped_past_whole() {
    for pack in [PackType::Raw, PackType::Packed24, PackType::ComponentPackBits] {
        let data: Vec<u8> = (0..(5 * 3 * 4)).map(|i| (i * 13 % 256) as u8).collect();
        let op = pict::encoder::build_direct_bits_rect_op(1, 2, 4, 7, &data, pack).unwrap();
        let mut b = PictBuilder::new(0, 0, 8, 8);
        b.push(&op);
        let bytes = b.finish();
        let p = probe_pict(&bytes).unwrap();
        assert_eq!(p.raster_count, 1);
        assert_eq!(p.indexed_raster_count, 0);
        assert_eq!(p.termination, ProbeTermination::EndPic);
        assert_eq!(p.terminated_at, bytes.len());
    }
}

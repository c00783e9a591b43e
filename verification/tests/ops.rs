
use pict::decoder::parse_pict;
use pict::ops::{
    build_arc_op, build_line, build_oval_op, build_poly_op, build_rect_op, build_rgb_fg_col,
    build_rgn_inverted_op, build_rgn_rect_op, PictBuilder, Verb,
};

#[test]
fn build_line_layout() {
    let b = build_line(10, 20, 30, 40);
    // Opcode 0x0020.
    assert_eq!(&b[0..2], &[0x00, 0x20]);
    // (v0, h0, v1, h1) = (20, 10, 40, 30).
    assert_eq!(i16::from_be_bytes([b[2], b[3]]), 20);
    assert_eq!(i16::from_be_bytes([b[4], b[5]]), 10);
    assert_eq!(i16::from_be_bytes([b[6], b[7]]), 40);
    assert_eq!(i16::from_be_bytes([b[8], b[9]]), 30);
}

#[test]
fn build_rect_op_layout() {
    let b = build_rect_op(Verb::Frame, 1, 2, 3, 4);
    // opcode 0x0030 + verb=0 (Frame) → 0x0030.
    assert_eq!(&b[0..2], &[0x00, 0x30]);
    // top=1, left=2, bottom=3, right=4.
    assert_eq!(i16::from_be_bytes([b[2], b[3]]), 1);
    assert_eq!(i16::from_be_bytes([b[4], b[5]]), 2);
    assert_eq!(i16::from_be_bytes([b[6], b[7]]), 3);
    assert_eq!(i16::from_be_bytes([b[8], b[9]]), 4);
}

#[test]
fn build_oval_paint_opcode_byte() {
    let b = build_oval_op(Verb::Paint, 0, 0, 10, 10);
    // 0x0050 | 1 = 0x0051 (paint oval).
    assert_eq!(&b[0..2], &[0x00, 0x51]);
}

#[test]
fn build_arc_carries_angles() {
    let b = build_arc_op(Verb::Frame, 0, 0, 10, 10, 90, 45);
    assert_eq!(&b[0..2], &[0x00, 0x60]);
    assert_eq!(i16::from_be_bytes([b[10], b[11]]), 90);
    assert_eq!(i16::from_be_bytes([b[12], b[13]]), 45);
}

#[test]
fn build_poly_layout() {
    let verts = [(1i16, 2i16), (3, 4), (5, 6)];
    let b = build_poly_op(Verb::Frame, &verts).unwrap();
    // opcode 0x0070.
    assert_eq!(&b[0..2], &[0x00, 0x70]);
    // polySize = 10 + 4*3 = 22.
    assert_eq!(u16::from_be_bytes([b[2], b[3]]), 22);
    // bbox: top=2, left=1, bottom=7 (=6+1), right=6 (=5+1).
    assert_eq!(i16::from_be_bytes([b[4], b[5]]), 2);
    assert_eq!(i16::from_be_bytes([b[6], b[7]]), 1);
    assert_eq!(i16::from_be_bytes([b[8], b[9]]), 7);
    assert_eq!(i16::from_be_bytes([b[10], b[11]]), 6);
    // First vertex on disk is (v=2, h=1).
    assert_eq!(i16::from_be_bytes([b[12], b[13]]), 2);
    assert_eq!(i16::from_be_bytes([b[14], b[15]]), 1);
}

#[test]
fn build_poly_rejects_too_few_verts() {
    assert!(build_poly_op(Verb::Frame, &[]).is_err());
    assert!(build_poly_op(Verb::Frame, &[(0, 0)]).is_err());
}

#[test]
fn build_rgn_rect_layout() {
    let b = build_rgn_rect_op(Verb::Paint, 0, 0, 10, 10);
    // 0x0080 | 1 = 0x0081.
    assert_eq!(&b[0..2], &[0x00, 0x81]);
    // rgnSize = 10.
    assert_eq!(u16::from_be_bytes([b[2], b[3]]), 10);
    // Total payload = opcode word (2) + rgnSize word (2) + bbox (8)
    // = 12 bytes.
    assert_eq!(b.len(), 12);
}

#[test]
fn build_rgn_inverted_layout() {
    // Region: 4×4 bbox; one inversion record at y=1 with x_pairs
    // [1, 3] (toggle membership at columns 1 and 3 starting at
    // row 1).
    let scanlines = [(1i16, [1i16, 3i16].as_slice())];
    let b = build_rgn_inverted_op(Verb::Paint, 0, 0, 4, 4, &scanlines).unwrap();
    // 0x0080 | 1 = 0x0081.
    assert_eq!(&b[0..2], &[0x00, 0x81]);
    // rgnSize: 10 (header) + 2 (y) + 4 (x_pairs) + 2 (line term) +
    // 2 (region term) = 20.
    assert_eq!(u16::from_be_bytes([b[2], b[3]]), 20);
    // bbox.
    assert_eq!(i16::from_be_bytes([b[4], b[5]]), 0); // top
    assert_eq!(i16::from_be_bytes([b[6], b[7]]), 0); // left
    assert_eq!(i16::from_be_bytes([b[8], b[9]]), 4); // bottom
    assert_eq!(i16::from_be_bytes([b[10], b[11]]), 4); // right
                                                       // First inv-record y = 1.
    assert_eq!(i16::from_be_bytes([b[12], b[13]]), 1);
    // x_pairs[0] = 1.
    assert_eq!(i16::from_be_bytes([b[14], b[15]]), 1);
    // x_pairs[1] = 3.
    assert_eq!(i16::from_be_bytes([b[16], b[17]]), 3);
    // 0x7FFF line terminator.
    assert_eq!(i16::from_be_bytes([b[18], b[19]]), 0x7FFF);
    // 0x7FFF region terminator.
    assert_eq!(i16::from_be_bytes([b[20], b[21]]), 0x7FFF);
    assert_eq!(b.len(), 22);
}

#[test]
fn build_rgn_rejects_descending_y() {
    let scanlines = [
        (3i16, [0i16].as_slice()),
        (1i16, [0i16].as_slice()), // out of order!
    ];
    assert!(build_rgn_inverted_op(Verb::Paint, 0, 0, 4, 4, &scanlines).is_err());
}

#[test]
fn rgb_fg_col_expansion() {
    let b = build_rgb_fg_col(0xAB, 0xCD, 0xEF);
    // opcode 0x001A.
    assert_eq!(&b[0..2], &[0x00, 0x1A]);
    // R = 0xABAB, G = 0xCDCD, B = 0xEFEF.
    assert_eq!(u16::from_be_bytes([b[2], b[3]]), 0xABAB);
    assert_eq!(u16::from_be_bytes([b[4], b[5]]), 0xCDCD);
    assert_eq!(u16::from_be_bytes([b[6], b[7]]), 0xEFEF);
}

// ---- end-to-end PictBuilder tests ----

#[test]
fn builder_just_a_filled_rect_decodes() {
    let mut b = PictBuilder::new(0, 0, 16, 16);
    b.fg_color(0xFF, 0x00, 0x00);
    b.rect(Verb::Paint, 4, 4, 12, 12);
    let bytes = b.finish();
    let img = parse_pict(&bytes).expect("decode failed");
    assert_eq!(img.width, 16);
    assert_eq!(img.height, 16);
    // Centre pixel should be red (paint at fg).
    let off = (8 * 16 + 8) * 4;
    assert_eq!(img.data[off], 0xFF, "R");
    assert_eq!(img.data[off + 1], 0x00, "G");
    assert_eq!(img.data[off + 2], 0x00, "B");
    // Outside the rect should be background paper (white).
    let off = (16 + 1) * 4;
    assert_eq!(img.data[off], 0xFF, "paper R");
    assert_eq!(img.data[off + 1], 0xFF, "paper G");
    assert_eq!(img.data[off + 2], 0xFF, "paper B");
}

#[test]
fn builder_oval_fill_decodes() {
    let mut b = PictBuilder::new(0, 0, 32, 32);
    b.fg_color(0, 0xFF, 0);
    b.oval(Verb::Fill, 0, 0, 32, 32);
    let bytes = b.finish();
    let img = parse_pict(&bytes).expect("decode failed");
    // Centre pixel inside the oval — should be green.
    let cx = 16usize;
    let cy = 16usize;
    let off = (cy * 32 + cx) * 4;
    assert_eq!(img.data[off + 1], 0xFF, "G at centre");
    // Corner outside the oval — should still be paper.
    let off = 0; // (0,0)
    assert_eq!(img.data[off + 1], 0xFF, "G corner = paper");
}

#[test]
fn builder_round_rect_decodes() {
    let mut b = PictBuilder::new(0, 0, 32, 32);
    b.oval_size(8, 8);
    b.fg_color(0, 0, 0xFF);
    b.round_rect(Verb::Paint, 4, 4, 28, 28);
    let bytes = b.finish();
    let img = parse_pict(&bytes).expect("decode failed");
    // Mid-edge of round-rect — should be blue.
    let off = (16 * 32 + 16) * 4;
    assert_eq!(img.data[off + 2], 0xFF, "B at centre");
}

#[test]
fn builder_polygon_decodes() {
    // Triangle filling the lower-right corner.
    let mut b = PictBuilder::new(0, 0, 16, 16);
    b.fg_color(0xFF, 0xFF, 0x00);
    b.poly(Verb::Fill, &[(2, 2), (14, 2), (8, 14)]).unwrap();
    let bytes = b.finish();
    let img = parse_pict(&bytes).expect("decode failed");
    // The triangle's centroid should be yellow.
    let off = (6 * 16 + 8) * 4;
    assert_eq!(img.data[off], 0xFF, "R");
    assert_eq!(img.data[off + 1], 0xFF, "G");
    assert_eq!(img.data[off + 2], 0x00, "B");
}

#[test]
fn builder_arc_decodes() {
    // Quarter-arc — round-trip parse should succeed; the rasteriser
    // produces SOME ink along the arc, so the canvas is dirty.
    let mut b = PictBuilder::new(0, 0, 32, 32);
    b.fg_color(0xFF, 0x00, 0xFF);
    b.arc(Verb::Frame, 0, 0, 32, 32, 0, 90);
    let bytes = b.finish();
    let img = parse_pict(&bytes).expect("decode failed");
    // Pick some pixel ON the arc rim (top-right quadrant); we
    // can't predict the exact rasterisation — just check that at
    // least one pixel along the right edge isn't paper.
    let mut rim_inked = false;
    for y in 0..16 {
        let off = (y * 32 + 30) * 4;
        if img.data[off] != 0xFF || img.data[off + 1] != 0xFF || img.data[off + 2] != 0xFF {
            rim_inked = true;
            break;
        }
    }
    assert!(rim_inked, "arc should ink some pixel along the rim");
}

#[test]
fn builder_region_rect_decodes() {
    let mut b = PictBuilder::new(0, 0, 16, 16);
    b.fg_color(0x00, 0xFF, 0xFF);
    b.region_rect(Verb::Paint, 2, 2, 14, 14);
    let bytes = b.finish();
    let img = parse_pict(&bytes).expect("decode failed");
    let off = (8 * 16 + 8) * 4;
    // Cyan (00 FF FF) inside the region.
    assert_eq!(img.data[off], 0x00, "R");
    assert_eq!(img.data[off + 1], 0xFF, "G");
    assert_eq!(img.data[off + 2], 0xFF, "B");
}

#[test]
fn builder_region_inverted_decodes() {
    let mut b = PictBuilder::new(0, 0, 8, 8);
    b.fg_color(0xFF, 0xAA, 0x00);
    // 4×4 inversion region inside an 8×8 bbox: starting at y=2,
    // toggle membership at columns 2 and 6 (so cols [2,6) are
    // inside for rows 2..8).
    let scanlines = [(2i16, [2i16, 6i16].as_slice())];
    b.region(Verb::Paint, 0, 0, 8, 8, &scanlines).unwrap();
    let bytes = b.finish();
    let img = parse_pict(&bytes).expect("decode failed");
    // Inside the region (row 4, col 3) → orange.
    let off = (4 * 8 + 3) * 4;
    assert_eq!(img.data[off], 0xFF, "R inside");
    assert_eq!(img.data[off + 1], 0xAA, "G inside");
    assert_eq!(img.data[off + 2], 0x00, "B inside");
    // Outside the region (row 0, col 0) → paper.
    let off = 0;
    assert_eq!(img.data[off], 0xFF, "paper R");
    assert_eq!(img.data[off + 1], 0xFF, "paper G");
    assert_eq!(img.data[off + 2], 0xFF, "paper B");
}

#[test]
fn builder_line_decodes() {
    let mut b = PictBuilder::new(0, 0, 16, 16);
    b.fg_color(0x00, 0x00, 0x00);
    b.line(0, 0, 15, 15);
    let bytes = b.finish();
    let img = parse_pict(&bytes).expect("decode failed");
    // Diagonal pixel (5, 5) should be black.
    let off = (5 * 16 + 5) * 4;
    assert_eq!(img.data[off], 0x00, "R on diagonal");
    assert_eq!(img.data[off + 1], 0x00, "G on diagonal");
    assert_eq!(img.data[off + 2], 0x00, "B on diagonal");
}

#[test]
fn builder_word_alignment() {
    // Push a `LongComment` opcode (0x00A1) with a 1-byte data
    // payload — total opcode size = 2 (opcode) + 2 (kind) + 2
    // (size) + 1 (data) = 7 bytes (odd). The next push must
    // word-align to a 2-byte boundary so the parser doesn't
    // mis-read the rectangle opcode.
    let mut b = PictBuilder::new(0, 0, 4, 4);
    b.fg_color(0, 0, 0);
    // LongComment: opcode 0x00A1 + kind=0 + size=1 + 1 data byte.
    let long_comment = [0x00, 0xA1, 0x00, 0x00, 0x00, 0x01, 0x42];
    b.push(&long_comment);
    b.rect(Verb::Frame, 0, 0, 4, 4); // must be word-aligned
    let bytes = b.finish();
    let img = parse_pict(&bytes).expect("decode after alignment failed");
    assert_eq!(img.width, 4);
    assert_eq!(img.height, 4);
}


use pict::header::Fixed;
use pict::quicktime::{
    parse_compressed_quicktime, parse_uncompressed_quicktime, ImageDescription, QuickTimeMatrix,
};
use pict::reader::Reader;
use pict::state::RectI32;

/// Minimal conforming ImageDescription (idSize = 86, no
/// extension) with a recognisable FourCC.
fn sample_desc(data_size: u32) -> ImageDescription {
    let mut name_raw = [0u8; 32];
    name_raw[0] = 5;
    name_raw[1..6].copy_from_slice(b"Photo");
    ImageDescription {
        id_size: 86,
        codec: *b"jpeg",
        version: 1,
        revision_level: 1,
        vendor: *b"appl",
        temporal_quality: 0,
        spatial_quality: 0x0200,
        width: 64,
        height: 48,
        h_res: Fixed::seventy_two_dpi(),
        v_res: Fixed::seventy_two_dpi(),
        data_size,
        frame_count: 1,
        name_raw,
        depth: 24,
        clut_id: -1,
        extension: Vec::new(),
    }
}

fn compressed_payload(desc: &ImageDescription, image_data: &[u8]) -> Vec<u8> {
    let mut p = Vec::new();
    p.extend_from_slice(&1u16.to_be_bytes()); // version
    p.extend_from_slice(&QuickTimeMatrix::identity().to_wire());
    p.extend_from_slice(&0u32.to_be_bytes()); // matteSize
    p.extend_from_slice(&[0u8; 8]); // matteRect
    p.extend_from_slice(&0u16.to_be_bytes()); // mode = srcCopy
    for v in [0i16, 0, 48, 64] {
        p.extend_from_slice(&v.to_be_bytes()); // srcRect
    }
    p.extend_from_slice(&0u32.to_be_bytes()); // accuracy
    p.extend_from_slice(&0u32.to_be_bytes()); // maskSize
    p.extend_from_slice(&desc.to_bytes());
    p.extend_from_slice(image_data);
    p
}

#[test]
fn image_description_round_trips() {
    let desc = sample_desc(1234);
    let bytes = desc.to_bytes();
    assert_eq!(bytes.len(), 86);
    let mut r = Reader::new(&bytes);
    let back = ImageDescription::parse(&mut r).unwrap();
    assert_eq!(back, desc);
    assert_eq!(back.codec_str(), "jpeg");
    assert_eq!(back.name(), "Photo");
    assert!(!back.is_grayscale());
}

#[test]
fn image_description_extension_bytes_round_trip() {
    let mut desc = sample_desc(0);
    desc.extension = vec![0xAA; 10];
    let bytes = desc.to_bytes();
    assert_eq!(bytes.len(), 96);
    assert_eq!(&bytes[0..4], &96u32.to_be_bytes());
    let mut r = Reader::new(&bytes);
    let back = ImageDescription::parse(&mut r).unwrap();
    assert_eq!(back.id_size, 96);
    assert_eq!(back.extension, vec![0xAA; 10]);
}

#[test]
fn image_description_rejects_undersized_id_size() {
    let desc = sample_desc(0);
    let mut bytes = desc.to_bytes();
    bytes[0..4].copy_from_slice(&85u32.to_be_bytes());
    let mut r = Reader::new(&bytes);
    assert!(ImageDescription::parse(&mut r).is_err());
}

#[test]
fn grayscale_depths_recognised() {
    for (depth, gray) in [
        (1u16, false),
        (8, false),
        (34, true),
        (36, true),
        (40, true),
    ] {
        let mut d = sample_desc(0);
        d.depth = depth;
        assert_eq!(d.is_grayscale(), gray, "depth {depth}");
    }
}

#[test]
fn parse_compressed_minimal() {
    let data = vec![0x11u8, 0x22, 0x33];
    let desc = sample_desc(data.len() as u32);
    let payload = compressed_payload(&desc, &data);
    let qt = parse_compressed_quicktime(&payload).unwrap();
    assert_eq!(qt.version, 1);
    assert!(qt.matrix.is_identity());
    assert!(qt.matte.is_none());
    assert!(qt.mask_region.is_none());
    assert_eq!(qt.mode, 0);
    assert_eq!(qt.src_rect, RectI32::from_be(0, 0, 48, 64));
    assert_eq!(qt.image_description.codec, *b"jpeg");
    assert_eq!(qt.image_data, data);
}

#[test]
fn parse_compressed_zero_data_size_takes_remainder() {
    // dataSize = 0 ("if the size is unknown", p. 3-51): the image
    // data is everything left inside the Size window.
    let data = vec![0xDEu8; 40];
    let desc = sample_desc(0);
    let payload = compressed_payload(&desc, &data);
    let qt = parse_compressed_quicktime(&payload).unwrap();
    assert_eq!(qt.image_description.data_size, 0);
    assert_eq!(qt.image_data, data);
}

#[test]
fn parse_compressed_data_size_overrun_errors() {
    let data = vec![0x11u8; 4];
    let desc = sample_desc(400); // claims more than present
    let payload = compressed_payload(&desc, &data);
    assert!(parse_compressed_quicktime(&payload).is_err());
}

#[test]
fn parse_compressed_truncated_fixed_part_errors() {
    let desc = sample_desc(0);
    let payload = compressed_payload(&desc, &[]);
    for cut in [0, 1, 10, 37, 67] {
        assert!(
            parse_compressed_quicktime(&payload[..cut]).is_err(),
            "cut at {cut} should error"
        );
    }
}

#[test]
fn parse_compressed_with_matte_and_mask() {
    let matte_desc = sample_desc(6);
    let matte_data = [0x0Fu8; 6];
    // A raw 10-byte rectangular Region: rgnSize 10, bbox.
    let mut mask = Vec::new();
    mask.extend_from_slice(&10u16.to_be_bytes());
    for v in [0i16, 0, 8, 8] {
        mask.extend_from_slice(&v.to_be_bytes());
    }
    let img_data = [0x77u8; 12];
    let img_desc = sample_desc(img_data.len() as u32);

    let mut p = Vec::new();
    p.extend_from_slice(&1u16.to_be_bytes());
    p.extend_from_slice(&QuickTimeMatrix::identity().to_wire());
    p.extend_from_slice(&(matte_data.len() as u32).to_be_bytes()); // matteSize
    for v in [0i16, 0, 8, 8] {
        p.extend_from_slice(&v.to_be_bytes()); // matteRect
    }
    p.extend_from_slice(&0u16.to_be_bytes()); // mode
    for v in [0i16, 0, 48, 64] {
        p.extend_from_slice(&v.to_be_bytes()); // srcRect
    }
    p.extend_from_slice(&0u32.to_be_bytes()); // accuracy
    p.extend_from_slice(&(mask.len() as u32).to_be_bytes()); // maskSize
    p.extend_from_slice(&matte_desc.to_bytes());
    p.extend_from_slice(&matte_data);
    p.extend_from_slice(&mask);
    p.extend_from_slice(&img_desc.to_bytes());
    p.extend_from_slice(&img_data);

    let qt = parse_compressed_quicktime(&p).unwrap();
    let matte = qt.matte.expect("matte present");
    assert_eq!(matte.description, matte_desc);
    assert_eq!(matte.data, matte_data);
    assert_eq!(qt.mask_region.as_deref(), Some(mask.as_slice()));
    assert_eq!(qt.matte_rect, RectI32::from_be(0, 0, 8, 8));
    assert_eq!(qt.image_data, img_data);
}

#[test]
fn parse_compressed_undersized_mask_region_errors() {
    // maskSize = 4 < the 10-byte Region header minimum.
    let desc = sample_desc(0);
    let mut p = Vec::new();
    p.extend_from_slice(&1u16.to_be_bytes());
    p.extend_from_slice(&QuickTimeMatrix::identity().to_wire());
    p.extend_from_slice(&0u32.to_be_bytes());
    p.extend_from_slice(&[0u8; 8]);
    p.extend_from_slice(&0u16.to_be_bytes());
    p.extend_from_slice(&[0u8; 8]);
    p.extend_from_slice(&0u32.to_be_bytes());
    p.extend_from_slice(&4u32.to_be_bytes()); // maskSize = 4
    p.extend_from_slice(&[0u8; 4]);
    p.extend_from_slice(&desc.to_bytes());
    assert!(parse_compressed_quicktime(&p).is_err());
}

#[test]
fn parse_uncompressed_minimal() {
    let sub_data = [0xABu8; 20];
    let mut p = Vec::new();
    p.extend_from_slice(&1u16.to_be_bytes());
    p.extend_from_slice(&QuickTimeMatrix::identity().to_wire());
    p.extend_from_slice(&0u32.to_be_bytes()); // matteSize
    p.extend_from_slice(&[0u8; 8]); // matteRect
    p.extend_from_slice(&0x009Au16.to_be_bytes()); // DirectBitsRect
    p.extend_from_slice(&sub_data);
    let qt = parse_uncompressed_quicktime(&p).unwrap();
    assert_eq!(qt.version, 1);
    assert!(qt.matte.is_none());
    assert_eq!(qt.subopcode, 0x009A);
    assert!(qt.subopcode_in_range());
    assert_eq!(qt.sub_data, sub_data);
}

#[test]
fn parse_uncompressed_rejects_out_of_range_subopcode() {
    let mut p = Vec::new();
    p.extend_from_slice(&1u16.to_be_bytes());
    p.extend_from_slice(&QuickTimeMatrix::identity().to_wire());
    p.extend_from_slice(&0u32.to_be_bytes());
    p.extend_from_slice(&[0u8; 8]);
    p.extend_from_slice(&0x0090u16.to_be_bytes()); // BitsRect: not in $98–$9B
    assert!(parse_uncompressed_quicktime(&p).is_err());
}

#[test]
fn matrix_identity_accepts_fract_third_column() {
    let mut m = QuickTimeMatrix::identity();
    assert!(m.is_identity());
    m.0[8] = Fixed(0x4000_0000); // Fract 1.0
    assert!(m.is_identity());
    m.0[8] = Fixed(0x0002_0000); // 2.0 — not identity
    assert!(!m.is_identity());
    m.0[8] = Fixed(0x0001_0000);
    m.0[1] = Fixed(1);
    assert!(!m.is_identity());
}

#[test]
fn matrix_round_trips_and_indexes() {
    let mut m = QuickTimeMatrix::identity();
    m.0[2] = Fixed(0x0005_8000); // 5.5 translation-ish slot
    let wire = m.to_wire();
    let mut r = Reader::new(&wire);
    let back = QuickTimeMatrix::parse(&mut r).unwrap();
    assert_eq!(back, m);
    assert_eq!(back.at(0, 2), Fixed(0x0005_8000));
    assert_eq!(back.at(1, 1), Fixed(0x0001_0000));
}

#[test]
fn image_description_bytes_parse_then_emit_identically() {
    let mut bytes: Vec<u8> = Vec::new();
    bytes.extend_from_slice(&90u32.to_be_bytes());
    bytes.extend_from_slice(b"rle ");
    bytes.extend_from_slice(&[0u8; 8]);
    for k in 16..86u32 {
        bytes.push((k * 7 % 251) as u8);
    }
    bytes.extend_from_slice(&[1, 2, 3, 4]);
    let mut r = Reader::new(&bytes);
    let d = ImageDescription::parse(&mut r).unwrap();
    assert_eq!(d.id_size, 90);
    assert_eq!(d.extension, vec![1, 2, 3, 4]);
    assert_eq!(d.to_bytes(), bytes);
}

use pict::header::{Fixed, PictHeader};
use pict::reader::Reader;
use pict::state::RectI32;

#[test]
fn parse_extended_v2_listing_a5() {
    let payload: [u8; 24] = [
        0xFF, 0xFE, 0x00, 0x00, 0x00, 0x48, 0x00, 0x00, 0x00, 0x48, 0x00, 0x00, 0x00, 0x02, 0x00,
        0x02, 0x00, 0x6E, 0x00, 0xAA, 0x00, 0x00, 0x00, 0x00,
    ];
    let mut r = Reader::new(&payload);
    let h = PictHeader::parse(&mut r).unwrap();
    match h {
        PictHeader::ExtendedV2 { hres, vres, optimal_source_rect } => {
            assert_eq!(hres, Fixed::seventy_two_dpi());
            assert_eq!(vres, Fixed::seventy_two_dpi());
            assert_eq!(optimal_source_rect.top, 2);
            assert_eq!(optimal_source_rect.left, 2);
            assert_eq!(optimal_source_rect.bottom, 0x6E);
            assert_eq!(optimal_source_rect.right, 0xAA);
        }
        other => panic!("expected ExtendedV2, got {other:?}"),
    }
    assert_eq!(r.pos, 24);
}

#[test]
fn parse_v2_listing_a6() {
    let payload: [u8; 24] = [
        0xFF, 0xFF, 0xFF, 0xFF, 0x00, 0x02, 0x00, 0x00, 0x00, 0x02, 0x00, 0x00, 0x00, 0xAA, 0x00,
        0x00, 0x00, 0x6E, 0x00, 0x00, 0x00, 0x00, 0x00, 0x00,
    ];
    let mut r = Reader::new(&payload);
    let h = PictHeader::parse(&mut r).unwrap();
    match h {
        PictHeader::V2 { fixed_bounds } => {
            assert_eq!(fixed_bounds[0].integer_part(), 2);
            assert_eq!(fixed_bounds[1].integer_part(), 2);
            assert_eq!(fixed_bounds[2].integer_part(), 0xAA);
            assert_eq!(fixed_bounds[3].integer_part(), 0x6E);
        }
        other => panic!("expected V2, got {other:?}"),
    }
    assert_eq!(r.pos, 24);
}

#[test]
fn unknown_version_is_invalid() {
    let payload: [u8; 24] = [
        0x12, 0x34, 0, 0, 0, 0, 0, 0, 0, 0, 0, 0, 0, 0, 0, 0, 0, 0, 0, 0, 0, 0, 0, 0,
    ];
    let mut r = Reader::new(&payload);
    let err = PictHeader::parse(&mut r).unwrap_err();
    let msg = format!("{err:?}");
    assert!(msg.contains("0x1234"), "got: {msg}");
}

#[test]
fn truncated_payload_is_error() {
    let payload = [
        0xFF, 0xFE, 0, 0, 0, 0x48, 0, 0, 0, 0x48, 0, 0, 0, 2, 0, 2, 0, 0x6E, 0, 0xAA, 0, 0, 0,
    ];
    let mut r = Reader::new(&payload);
    assert!(PictHeader::parse(&mut r).is_err());
}

#[test]
fn roundtrip_extended_v2_default() {
    let pic_frame = RectI32::from_be(0, 0, 0x6C, 0xA8);
    let h = PictHeader::extended_v2_72dpi(pic_frame);
    let wire = h.to_wire();
    let mut r = Reader::new(&wire);
    let parsed = PictHeader::parse(&mut r).unwrap();
    assert_eq!(parsed, h);
    assert_eq!(r.pos, 24);
    assert_eq!(&wire[0..2], &[0xFF, 0xFE]);
}

#[test]
fn roundtrip_v2_from_pic_frame() {
    let pic_frame = RectI32::from_be(2, 2, 0x6E, 0xAA);
    let h = PictHeader::v2_from_pic_frame(pic_frame);
    let wire = h.to_wire();
    let mut r = Reader::new(&wire);
    let parsed = PictHeader::parse(&mut r).unwrap();
    assert_eq!(parsed, h);
    assert_eq!(&wire[0..4], &[0xFF, 0xFF, 0xFF, 0xFF]);
}

#[test]
fn is_extended_flag() {
    let pf = RectI32::from_be(0, 0, 100, 100);
    assert!(PictHeader::extended_v2_72dpi(pf).is_extended());
    assert!(!PictHeader::v2_from_pic_frame(pf).is_extended());
}

#[test]
fn fixed_72_dpi_words() {
    let f = Fixed::seventy_two_dpi();
    assert_eq!(f.as_u32(), 0x0048_0000);
    assert_eq!(f.integer_part(), 72);
    assert_eq!(Fixed::from_integer(72), Fixed::seventy_two_dpi());
}

#[test]
fn fixed_negative_integer_part() {
    let f = Fixed::from_integer(-1);
    assert_eq!(f.0, -(1 << 16));
    assert_eq!(f.integer_part(), -1);
}

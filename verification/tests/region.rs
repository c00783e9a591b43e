use pict::reader::Reader;
use pict::region::{parse_region, Region};

fn rgn_from_bytes(bytes: &[u8]) -> Region {
    let mut r = Reader::new(bytes);
    parse_region(&mut r).expect("region parse failed")
}

#[test]
fn rectangular_region() {
    let bytes = [0x00, 0x0A, 0x00, 0x00, 0x00, 0x00, 0x00, 0x04, 0x00, 0x04];
    let r = rgn_from_bytes(&bytes);
    assert_eq!(r.bbox.right - r.bbox.left, 4);
    assert!(r.mask.is_none());
    for x in 0..4 {
        for y in 0..4 {
            assert!(r.contains(x, y));
        }
    }
    assert!(!r.contains(-1, 0));
    assert!(!r.contains(4, 0));
}

#[test]
fn non_rectangular_region_simple() {
    let bytes = [
        0x00, 0x1A, 0x00, 0x00, 0x00, 0x00, 0x00, 0x04, 0x00, 0x04, 0x00, 0x01, 0x00, 0x01, 0x00,
        0x03, 0x7F, 0xFF, 0x00, 0x04, 0x00, 0x01, 0x00, 0x03, 0x7F, 0xFF, 0x7F, 0xFF,
    ];
    let r = rgn_from_bytes(&bytes);
    assert!(r.mask.is_some());
    for x in 0..4 {
        assert!(!r.contains(x, 0), "row 0 col {x} should be outside");
    }
    for y in 1..4 {
        assert!(!r.contains(0, y));
        assert!(r.contains(1, y), "row {y} col 1");
        assert!(r.contains(2, y), "row {y} col 2");
        assert!(!r.contains(3, y));
    }
}

#[test]
fn run_reaching_right_border_does_not_panic() {
    let bytes = [
        0x00, 0x1A, 0x00, 0x00, 0x00, 0x00, 0x00, 0x04, 0x00, 0x04, 0x00, 0x00, 0x00, 0x02, 0x00,
        0x04, 0x7F, 0xFF, 0x00, 0x04, 0x00, 0x02, 0x00, 0x04, 0x7F, 0xFF, 0x7F, 0xFF,
    ];
    let r = rgn_from_bytes(&bytes);
    for y in 0..4 {
        assert!(!r.contains(0, y));
        assert!(!r.contains(1, y));
        assert!(r.contains(2, y), "row {y} col 2 inside");
        assert!(r.contains(3, y), "row {y} col 3 inside");
    }
}

#[test]
fn l_shaped_region_two_segments() {
    let bytes = [
        0x00, 0x22, 0x00, 0x00, 0x00, 0x00, 0x00, 0x04, 0x00, 0x04, 0x00, 0x00, 0x00, 0x00, 0x00,
        0x04, 0x7F, 0xFF, 0x00, 0x02, 0x00, 0x02, 0x00, 0x04, 0x7F, 0xFF, 0x00, 0x04, 0x00, 0x00,
        0x00, 0x02, 0x7F, 0xFF, 0x7F, 0xFF,
    ];
    let r = rgn_from_bytes(&bytes);
    for y in 0..2 {
        for x in 0..4 {
            assert!(r.contains(x, y), "row {y} col {x} should be inside");
        }
    }
    for y in 2..4 {
        assert!(r.contains(0, y), "row {y} col 0");
        assert!(r.contains(1, y), "row {y} col 1");
        assert!(!r.contains(2, y), "row {y} col 2 should be outside");
        assert!(!r.contains(3, y), "row {y} col 3 should be outside");
    }
}

#[test]
fn truncated_x_list_is_error() {
    let bytes = [
        0x00, 0x10, 0x00, 0x00, 0x00, 0x00, 0x00, 0x04, 0x00, 0x04, 0x00, 0x01, 0x00, 0x01,
    ];
    let mut r = Reader::new(&bytes);
    assert!(parse_region(&mut r).is_err());
}

#[test]
fn region_smaller_than_header_rejected() {
    let bytes = [0x00, 0x08, 0x00, 0x00, 0x00, 0x00, 0x00, 0x04];
    let mut r = Reader::new(&bytes);
    assert!(parse_region(&mut r).is_err());
}

#[test]
fn empty_bbox_region_has_empty_mask() {
    let bytes = [
        0x00, 0x0E, 0x00, 0x00, 0x00, 0x00, 0x00, 0x04, 0x00, 0x00, 0x7F, 0xFF, 0x7F, 0xFF,
    ];
    let r = rgn_from_bytes(&bytes);
    assert!(r.mask.is_some());
    assert!(!r.contains(0, 0));
}

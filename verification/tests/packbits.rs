use pict::packbits::{decode_into, encode};
use pict::reader::Reader;

#[test]
fn raw_only() {
    let src = [0x02, 0xAA, 0xBB, 0xCC, 0x00, 0xDD];
    let mut r = Reader::new(&src);
    let mut out = [0u8; 4];
    decode_into(&mut r, &mut out).unwrap();
    assert_eq!(out, [0xAA, 0xBB, 0xCC, 0xDD]);
    assert_eq!(r.pos, src.len());
}

#[test]
fn run_only() {
    let src = [0xFD, 0x55];
    let mut r = Reader::new(&src);
    let mut out = [0u8; 4];
    decode_into(&mut r, &mut out).unwrap();
    assert_eq!(out, [0x55, 0x55, 0x55, 0x55]);
}

#[test]
fn nop_skipped() {
    let src = [0x80, 0x01, 0xAA, 0xBB];
    let mut r = Reader::new(&src);
    let mut out = [0u8; 2];
    decode_into(&mut r, &mut out).unwrap();
    assert_eq!(out, [0xAA, 0xBB]);
}

#[test]
fn mixed() {
    let src = [
        0xFE, 0xAA, 0x02, 0x80, 0x00, 0x2A, 0xFD, 0xAA, 0x03, 0x80, 0x00, 0x2A, 0x22, 0xF7, 0xAA,
    ];
    let mut r = Reader::new(&src);
    let mut out = [0u8; 24];
    decode_into(&mut r, &mut out).unwrap();
    let want: [u8; 24] = [
        0xAA, 0xAA, 0xAA, 0x80, 0x00, 0x2A, 0xAA, 0xAA, 0xAA, 0xAA, 0x80, 0x00, 0x2A, 0x22, 0xAA,
        0xAA, 0xAA, 0xAA, 0xAA, 0xAA, 0xAA, 0xAA, 0xAA, 0xAA,
    ];
    assert_eq!(out, want);
}

#[test]
fn overrun_detected() {
    let src = [0x02, 0xAA, 0xBB, 0xCC];
    let mut r = Reader::new(&src);
    let mut out = [0u8; 2];
    assert!(decode_into(&mut r, &mut out).is_err());
}

#[test]
fn roundtrip_random() {
    let src: Vec<u8> = (0..200u32)
        .map(|i| if i % 7 == 0 { 0x42 } else { i as u8 })
        .collect();
    let encoded = encode(&src);
    let mut r = Reader::new(&encoded);
    let mut out = vec![0u8; src.len()];
    decode_into(&mut r, &mut out).unwrap();
    assert_eq!(out, src);
}

#[test]
fn roundtrip_all_zeros() {
    let src = vec![0u8; 500];
    let encoded = encode(&src);
    let mut r = Reader::new(&encoded);
    let mut out = vec![0u8; src.len()];
    decode_into(&mut r, &mut out).unwrap();
    assert_eq!(out, src);
}

#[test]
fn roundtrip_no_runs() {
    let src: Vec<u8> = (0..200u32).map(|i| ((i * 31) ^ (i >> 1)) as u8).collect();
    let encoded = encode(&src);
    let mut r = Reader::new(&encoded);
    let mut out = vec![0u8; src.len()];
    decode_into(&mut r, &mut out).unwrap();
    assert_eq!(out, src);
}

#[test]
fn encode_packs_a_long_run_into_two_bytes() {
    // Eight equal bytes are one run packet: flag 1 - 8 = -7 (0xF9), then the byte.
    assert_eq!(encode(&[0x11; 8]), vec![0xF9, 0x11]);
}

#[test]
fn encode_keeps_short_literals_raw() {
    assert_eq!(encode(&[1, 2, 3]), vec![0x02, 1, 2, 3]);
}

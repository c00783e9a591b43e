
use pict::error::PictError;
use pict::header::Fixed;
use pict::qtimage::{
    raw_codec, video_frame_to_rgba, DecodedFrame, FramePlane, ycbcr_to_rgb, DecodedQuickTimeImage, DefaultQuickTimeDecoder,
    PackedQuad, QuickTimeImageDecoder, RawQuickTimeDecoder,
};
use pict::quicktime::ImageDescription;

fn desc(codec: [u8; 4], width: u16, height: u16, depth: u16) -> ImageDescription {
    ImageDescription {
        id_size: 86,
        codec,
        version: 1,
        revision_level: 1,
        vendor: *b"appl",
        temporal_quality: 0,
        spatial_quality: 0x0300,
        width,
        height,
        h_res: Fixed::seventy_two_dpi(),
        v_res: Fixed::seventy_two_dpi(),
        data_size: 0,
        frame_count: 1,
        name_raw: [0u8; 32],
        depth,
        clut_id: -1,
        extension: Vec::new(),
    }
}

#[test]
fn raw_32_bit_takes_rgb_after_the_pad_byte() {
    let d = desc(raw_codec(), 2, 1, 32);
    let data = [0xFF, 0x08, 0x05, 0x01, 0x00, 0x10, 0x20, 0x30];
    let img = RawQuickTimeDecoder.decode_image(&d, &data).unwrap();
    assert_eq!(img.rgba, [8, 5, 1, 255, 0x10, 0x20, 0x30, 255]);
}

#[test]
fn raw_24_and_16_bit_layouts() {
    let d = desc(raw_codec(), 1, 2, 24);
    let img = RawQuickTimeDecoder
        .decode_image(&d, &[1, 2, 3, 4, 5, 6])
        .unwrap();
    assert_eq!(img.rgba, [1, 2, 3, 255, 4, 5, 6, 255]);
    let d = desc(raw_codec(), 1, 1, 16);
    // 0 11111 00000 00000 = pure red at 5 bits.
    let img = RawQuickTimeDecoder.decode_image(&d, &[0x7C, 0x00]).unwrap();
    assert_eq!(img.rgba, [255, 0, 0, 255]);
}

#[test]
fn raw_short_payload_and_indexed_depth_are_typed_errors() {
    let d = desc(raw_codec(), 4, 4, 32);
    assert!(matches!(
        RawQuickTimeDecoder.decode_image(&d, &[0u8; 10]),
        Err(PictError::InvalidData(_))
    ));
    let d = desc(raw_codec(), 4, 4, 8);
    assert!(matches!(
        RawQuickTimeDecoder.decode_image(&d, &[0u8; 16]),
        Err(PictError::Unsupported(_))
    ));
    let d = desc(*b"rpza", 4, 4, 16);
    assert!(matches!(
        DefaultQuickTimeDecoder::default().decode_image(&d, &[0u8; 64]),
        Err(PictError::Unsupported(_))
    ));
}

#[test]
fn decoded_image_length_is_checked() {
    assert!(DecodedQuickTimeImage::new(2, 2, vec![0; 15]).is_err());
    assert!(DecodedQuickTimeImage::new(2, 2, vec![0; 16]).is_ok());
    assert!(DecodedQuickTimeImage::new(u32::MAX, u32::MAX, Vec::new()).is_err());
}

#[test]
fn ycbcr_matrix_hits_the_primaries() {
    assert_eq!(ycbcr_to_rgb(128, 128, 128), (128, 128, 128));
    assert_eq!(ycbcr_to_rgb(255, 128, 128), (255, 255, 255));
    assert_eq!(ycbcr_to_rgb(0, 128, 128), (0, 0, 0));
    // JFIF encode of pure red (255,0,0): Y=76, Cb=85, Cr=255.
    let (r, g, b) = ycbcr_to_rgb(76, 85, 255);
    assert!(r >= 253 && g <= 2 && b <= 2, "{r},{g},{b}");
}

#[test]
fn frame_geometry_inference_covers_gray_rgb_and_planar() {
    let gray = DecodedFrame {
        palette: None,
        planes: vec![FramePlane {
            stride: 2,
            data: vec![10, 20, 30, 40],
        }],
    };
    let img = video_frame_to_rgba(&gray, 2, 2, PackedQuad::Rgba).unwrap();
    assert_eq!(&img.rgba[..8], &[10, 10, 10, 255, 20, 20, 20, 255]);

    let rgb = DecodedFrame {
        palette: None,
        planes: vec![FramePlane {
            stride: 6,
            data: vec![1, 2, 3, 4, 5, 6],
        }],
    };
    let img = video_frame_to_rgba(&rgb, 2, 1, PackedQuad::Rgba).unwrap();
    assert_eq!(img.rgba, [1, 2, 3, 255, 4, 5, 6, 255]);

    // 4:2:0 planar, 2×2 luma, one chroma sample.
    let yuv = DecodedFrame {
        palette: None,
        planes: vec![
            FramePlane {
                stride: 2,
                data: vec![128; 4],
            },
            FramePlane {
                stride: 1,
                data: vec![128],
            },
            FramePlane {
                stride: 1,
                data: vec![128],
            },
        ],
    };
    let img = video_frame_to_rgba(&yuv, 2, 2, PackedQuad::Rgba).unwrap();
    assert!(img.rgba.chunks_exact(4).all(|p| p == [128, 128, 128, 255]));
}

#[test]
fn jpeg_payload_decodes_through_the_jpeg_decoder() {
    let samples = vec![128u8; 16 * 8];
    let jpeg = oxideav_mjpeg::encoder::encode_jpeg_grayscale(16, 8, &samples, 16, 90).unwrap();
    let d = desc(*b"jpeg", 16, 8, 8);
    let img = pict::qtimage::decode_jpeg_image(&d, &jpeg).unwrap();
    assert_eq!((img.width, img.height), (16, 8));
    for px in img.rgba.chunks_exact(4) {
        assert_eq!(px[0], px[1]);
        assert_eq!(px[1], px[2]);
        assert!((px[0] as i32 - 128).abs() <= 2, "{px:?}");
        assert_eq!(px[3], 255);
    }
    let img2 = DefaultQuickTimeDecoder::default().decode_image(&d, &jpeg).unwrap();
    assert_eq!(img2.rgba, img.rgba);
}

#[test]
fn non_jpeg_payload_is_invalid_data() {
    let d = desc(*b"jpeg", 4, 4, 24);
    assert!(matches!(
        pict::qtimage::decode_jpeg_image(&d, &[0x00, 0x01, 0x02]),
        Err(PictError::InvalidData(_))
    ));
}

#[test]
fn palettised_frame_reads_its_palette() {
    let f = DecodedFrame {
        palette: Some(vec![0, 0, 0, 10, 20, 30]),
        planes: vec![FramePlane { stride: 2, data: vec![1, 0, 7, 1] }],
    };
    let img = video_frame_to_rgba(&f, 2, 2, PackedQuad::Rgba).unwrap();
    assert_eq!(
        img.rgba,
        [10, 20, 30, 255, 0, 0, 0, 255, 7, 7, 7, 255, 10, 20, 30, 255]
    );
}

//! PICT (Apple QuickDraw picture) reader and writer, verified with Verus.
//!
//! The reader walks the v1 and v2 opcode streams, folds every drawing
//! command onto a software canvas and returns one RGBA image; the
//! probe walks the same streams and only counts. The writer assembles
//! v1 and v2 streams from opcode chunks.
#![allow(unused_imports)]

pub mod decoder;
pub mod encoder;
pub mod error;
pub mod font;
pub mod header;
pub mod image;
pub mod opcodes;
pub mod ops;
pub mod packbits;
pub mod probe;
pub mod qtimage;
pub mod quicktime;
pub mod raster;
pub mod reader;
pub mod region;
pub mod roundtrip;
pub mod rows;
pub mod state;
pub mod wire;

pub use decoder::parse_pict;
pub use encoder::{
    build_clip_rgn_rect, build_direct_bits_rect_op, build_direct_bits_rect_op_with_mode,
    build_pix_pat_dither_op, build_pix_pat_op, build_pix_pat_op_sized, encode_pict,
    encode_pict_bits_rect, encode_pict_bits_rgn, encode_pict_indexed_bits_rect,
    encode_pict_indexed_bits_rgn, encode_pict_indexed_pack_bits_rect,
    encode_pict_indexed_pack_bits_rgn, encode_pict_pack_bits_rect, encode_pict_pack_bits_rgn,
    encode_pict_v1, encode_pict_v1_bits_rect, encode_pict_v1_pack_bits_rect, encode_pict_v1_with,
    encode_pict_v2, encode_pict_v2_with_clip, pixel_data_sizes, IndexedPixelSize, PackType,
    PixPatSlot,
};
pub use error::{PictError, Result};
pub use header::{Fixed, PictHeader};
pub use image::{PictComment, PictImage, PictPixelFormat};
pub use ops::{
    build_arc_op, build_bk_color_code, build_bk_pat, build_ch_extra, build_compressed_quicktime,
    build_def_hilite, build_dh_text, build_dhdv_text, build_dv_text, build_fg_color_code,
    build_fill_pat, build_font_name, build_glyph_state, build_hilite_color, build_hilite_mode,
    build_line, build_line_from, build_line_justify, build_long_comment, build_long_comment_v1,
    build_long_text, build_op_color, build_origin, build_oval_op, build_oval_size,
    build_pn_loc_h_frac, build_pn_mode, build_pn_pat, build_pn_size, build_poly_op, build_rect_op,
    build_rgb_bk_col, build_rgb_fg_col, build_rgn_inverted_op, build_rgn_rect_op,
    build_round_rect_op, build_same_arc_op, build_same_oval_op, build_same_rect_op,
    build_same_round_rect_op, build_short_comment, build_short_comment_v1, build_short_line,
    build_short_line_from, build_sp_extra, build_tx_face, build_tx_font, build_tx_mode,
    build_tx_ratio, build_tx_size, build_uncompressed_quicktime, PictBuilder, PictV1Builder, Verb,
};
pub use probe::{probe_pict, PictProbe, ProbeRect, ProbeTermination, ProbeVersion};
pub use qtimage::{
    DecodedFrame, DecodedQuickTimeImage, DefaultQuickTimeDecoder, PackedQuad, QuickTimeImageDecoder,
    QuickTimeRender, RawQuickTimeDecoder,
};
pub use quicktime::{
    parse_compressed_quicktime, parse_uncompressed_quicktime, ImageDescription,
    QuickTimeCompressed, QuickTimeMatrix, QuickTimeMatte, QuickTimePayload, QuickTimeUncompressed,
};
pub use raster::{
    blend_arith, blend_source, ArithMode, PatternMode, SourceMode, GRAYISH_TEXT_OR_MODE,
    HILITE_MODE,
};
pub use rows::MAX_RASTER_BYTES;
pub use state::{
    Pattern, PictFontName, PictGlyphState, PictLineJustify, PictTextFace, PictTextState,
    PixPattern, RectI32, Rgba, TextRatio,
};

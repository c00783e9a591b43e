
use pict::font::{
    draw_text, glyph, measure_text, StyleParams, TextScale, ADVANCE,
};
use pict::raster::{Canvas, SourceMode};
use pict::state::{PictTextFace, Rgba};

#[test]
fn ascii_table_is_complete() {
    // Every printable ASCII byte resolves to a non-trivial glyph
    // (space is intentionally blank; everything else has ink).
    for b in 0x21u8..=0x7E {
        let g = glyph(b);
        assert!(g.iter().any(|&r| r != 0), "glyph {b:#x} is blank");
    }
    assert!(glyph(b' ').iter().all(|&r| r == 0));
}

#[test]
fn missing_symbol_for_out_of_range() {
    // High bytes / control bytes get the missing-symbol box.
    let g = glyph(0xC9);
    assert_eq!(g[0], 0b11111);
    assert_eq!(g[6], 0b11111);
}

#[test]
fn measure_scales_with_size() {
    let m8 = measure_text(b"AB", TextScale::isotropic(8), 0, 0, 0, PictTextFace::plain());
    let m16 = measure_text(
        b"AB",
        TextScale::isotropic(16),
        0,
        0,
        0,
        PictTextFace::plain(),
    );
    assert_eq!(m8, 2 * ADVANCE);
    assert_eq!(m16, 2 * ADVANCE * 2);
}

#[test]
fn measure_includes_extras() {
    let base = measure_text(
        b"a a",
        TextScale::isotropic(8),
        0,
        0,
        0,
        PictTextFace::plain(),
    );
    let with_ch = measure_text(
        b"a a",
        TextScale::isotropic(8),
        2,
        0,
        0,
        PictTextFace::plain(),
    );
    let with_sp = measure_text(
        b"a a",
        TextScale::isotropic(8),
        0,
        3,
        0,
        PictTextFace::plain(),
    );
    let with_ic = measure_text(
        b"a a",
        TextScale::isotropic(8),
        0,
        0,
        4,
        PictTextFace::plain(),
    );
    assert_eq!(with_ch, base + 3 * 2); // 3 chars × chExtra 2
    assert_eq!(with_sp, base + 3); // one space × spExtra 3
    assert_eq!(with_ic, base + 3 * 4); // 3 chars × interChar 4
}

#[test]
fn measure_tx_ratio_stretches_horizontally() {
    // A 2/1 horizontal TxRatio doubles the advance; vertical ratio
    // leaves the horizontal advance untouched.
    let base = measure_text(b"AB", TextScale::isotropic(8), 0, 0, 0, PictTextFace::plain());
    let wide = measure_text(
        b"AB",
        TextScale {
            tx_size: 8,
            numer_h: 2,
            denom_h: 1,
            numer_v: 1,
            denom_v: 1,
        },
        0,
        0,
        0,
        PictTextFace::plain(),
    );
    assert_eq!(wide, 2 * base);
}

#[test]
fn draw_paints_ink_and_advances() {
    let mut c = Canvas::new(40, 20, Rgba::white());
    let adv = draw_text(
        &mut c,
        b"A",
        2,
        10,
        TextScale::isotropic(8),
        0,
        0,
        0,
        PictTextFace::plain(),
        Rgba::black(),
        Rgba::white(),
        SourceMode::SrcOr,
    );
    assert_eq!(adv, ADVANCE);
    // Some pixel in the glyph cell must be black ink now.
    let mut inked = false;
    for y in 0..20 {
        for x in 0..40 {
            let p = c.pixel_at(x, y).unwrap();
            if p == Rgba::black() {
                inked = true;
            }
        }
    }
    assert!(inked, "draw_text painted no ink");
}

/// Collect the set of inked (black) pixels after drawing one glyph.
fn ink_set(text: &[u8], face: PictTextFace) -> std::collections::BTreeSet<(i32, i32)> {
    let mut c = Canvas::new(48, 24, Rgba::white());
    draw_text(
        &mut c,
        text,
        8,
        12,
        TextScale::isotropic(8),
        0,
        0,
        0,
        face,
        Rgba::black(),
        Rgba::white(),
        SourceMode::SrcOr,
    );
    let mut s = std::collections::BTreeSet::new();
    for y in 0..24 {
        for x in 0..48 {
            if c.pixel_at(x, y).unwrap() == Rgba::black() {
                s.insert((x, y));
            }
        }
    }
    s
}

#[test]
fn characterization_table_amounts() {
    // Volume I page I-226 Figure 4 (screen column), including the
    // worked bold+shadow extra example on page I-227 (extra = 3).
    let p = StyleParams::from_face(PictTextFace::from(PictTextFace::BOLD));
    assert_eq!((p.bold, p.extra), (1, 1));
    let p = StyleParams::from_face(PictTextFace::from(PictTextFace::ITALIC));
    assert_eq!((p.italic, p.extra), (8, 0));
    let p = StyleParams::from_face(PictTextFace::from(PictTextFace::OUTLINE));
    assert_eq!((p.shadow, p.extra), (1, 1));
    let p = StyleParams::from_face(PictTextFace::from(PictTextFace::SHADOW));
    assert_eq!((p.shadow, p.extra), (2, 2));
    let p = StyleParams::from_face(PictTextFace::from(PictTextFace::CONDENSE));
    assert_eq!(p.extra, -1);
    let p = StyleParams::from_face(PictTextFace::from(PictTextFace::EXTEND));
    assert_eq!(p.extra, 1);
    let p = StyleParams::from_face(PictTextFace::from(PictTextFace::UNDERLINE));
    assert_eq!((p.ul_offset, p.ul_shadow, p.ul_thick), (1, 1, 1));
    let p = StyleParams::from_face(PictTextFace::from(
        PictTextFace::BOLD | PictTextFace::SHADOW,
    ));
    assert_eq!(p.extra, 3);
    assert!(StyleParams::from_face(PictTextFace::plain()).is_plain());
}

#[test]
fn measure_widens_per_style_extra() {
    let scale = TextScale::isotropic(8);
    let plain = measure_text(b"AB", scale, 0, 0, 0, PictTextFace::plain());
    let bold = measure_text(
        b"AB",
        scale,
        0,
        0,
        0,
        PictTextFace::from(PictTextFace::BOLD),
    );
    let cond = measure_text(
        b"AB",
        scale,
        0,
        0,
        0,
        PictTextFace::from(PictTextFace::CONDENSE),
    );
    let shad = measure_text(
        b"AB",
        scale,
        0,
        0,
        0,
        PictTextFace::from(PictTextFace::SHADOW),
    );
    assert_eq!(bold, plain + 2); // +1 design px per char
    assert_eq!(cond, plain - 2); // -1 per char
    assert_eq!(shad, plain + 4); // +2 per char
}

#[test]
fn bold_smears_one_pixel_right() {
    // Page I-152: bold = the plain image ORed one pixel right. The
    // '|' glyph (single column) makes the smear directly countable.
    let plain = ink_set(b"|", PictTextFace::plain());
    let bold = ink_set(b"|", PictTextFace::from(PictTextFace::BOLD));
    // Every plain pixel survives …
    assert!(plain.is_subset(&bold));
    // … and the extra ink is exactly the plain set shifted +1 in x.
    let smear: std::collections::BTreeSet<_> = plain.iter().map(|&(x, y)| (x + 1, y)).collect();
    let expect: std::collections::BTreeSet<_> = plain.union(&smear).copied().collect();
    assert_eq!(bold, expect);
}

#[test]
fn italic_shears_top_right_baseline_fixed() {
    // Page I-152: bits above the baseline skew right. '|' is a
    // single column, so each row's shear is directly visible.
    let plain = ink_set(b"|", PictTextFace::plain());
    let italic = ink_set(b"|", PictTextFace::from(PictTextFace::ITALIC));
    assert_eq!(plain.len(), italic.len());
    // The baseline row (y = 12, pen v) is unmoved.
    let base_plain: Vec<_> = plain.iter().filter(|&&(_, y)| y == 12).collect();
    let base_italic: Vec<_> = italic.iter().filter(|&&(_, y)| y == 12).collect();
    assert_eq!(base_plain, base_italic);
    // The top authored row (y = 12 - 6) moved right by (6*8)>>4 = 3.
    let top_plain: Vec<_> = plain.iter().filter(|&&(_, y)| y == 6).copied().collect();
    let top_italic: Vec<_> = italic.iter().filter(|&&(_, y)| y == 6).copied().collect();
    assert_eq!(
        top_italic,
        top_plain
            .iter()
            .map(|&(x, y)| (x + 3, y))
            .collect::<Vec<_>>()
    );
}

#[test]
fn underline_draws_one_row_below_baseline() {
    // Page I-152 + the I-226 table: offset 1, thickness 1. Pen at
    // (8, 12) → the underline row is y = 13, spanning the advance.
    let plain = ink_set(b"A", PictTextFace::plain());
    let under = ink_set(b"A", PictTextFace::from(PictTextFace::UNDERLINE));
    assert!(plain.iter().all(|&(_, y)| y != 13));
    let row: Vec<_> = under
        .iter()
        .filter(|&&(_, y)| y == 13)
        .map(|&(x, _)| x)
        .collect();
    // Advance is 6 design px starting at pen_x = 8, so the line
    // spans x = 8..=13 — right up to (but not into) the next
    // character cell, keeping run underlines continuous.
    assert_eq!(row, (8..=13).collect::<Vec<_>>());
    // Above the underline the glyph is unchanged.
    let under_glyph: std::collections::BTreeSet<_> =
        under.iter().copied().filter(|&(_, y)| y != 13).collect();
    assert_eq!(under_glyph, plain);
}

#[test]
fn underline_gaps_around_descender_ink() {
    // Outline pushes a ring one pixel below the baseline; the
    // underline (same row) must gap one pixel either side of that
    // ink (page I-152's descender rule) instead of butting into it.
    let outlined = ink_set(b"o", PictTextFace::from(PictTextFace::OUTLINE));
    let both = ink_set(
        b"o",
        PictTextFace::from(PictTextFace::OUTLINE | PictTextFace::UNDERLINE),
    );
    let ring_row: std::collections::BTreeSet<_> = outlined
        .iter()
        .filter(|&&(_, y)| y == 13)
        .map(|&(x, _)| x)
        .collect();
    assert!(!ring_row.is_empty(), "outline ring should reach y = 13");
    let both_row: std::collections::BTreeSet<_> = both
        .iter()
        .filter(|&&(_, y)| y == 13)
        .map(|&(x, _)| x)
        .collect();
    // No underline pixel directly adjacent to ring ink: every added
    // pixel is ≥ 2 away from all ring pixels.
    for &x in both_row.difference(&ring_row) {
        assert!(
            ring_row.iter().all(|&rx| (rx - x).abs() >= 2),
            "underline pixel at x={x} touches the descender ring"
        );
    }
}

#[test]
fn outline_is_hollow() {
    // Page I-152: a hollow, outlined character — the plain strokes
    // are unpainted, and the ink that is painted borders them.
    let plain = ink_set(b"I", PictTextFace::plain());
    let outline = ink_set(b"I", PictTextFace::from(PictTextFace::OUTLINE));
    assert!(plain.is_disjoint(&outline), "outline must be hollow");
    // Every outline pixel is 8-adjacent to a plain stroke pixel.
    for &(x, y) in &outline {
        let touches = plain
            .iter()
            .any(|&(px, py)| (px - x).abs() <= 1 && (py - y).abs() <= 1 && (px, py) != (x, y));
        assert!(touches, "ring pixel ({x},{y}) not adjacent to the stroke");
    }
}

#[test]
fn shadow_thickens_below_and_right() {
    // Page I-152: shadow = the outline ring thickened below and to
    // the right. The shadow set strictly contains the outline set,
    // stays hollow, and every added pixel lies below/right of ring
    // ink.
    let plain = ink_set(b"I", PictTextFace::plain());
    let outline = ink_set(b"I", PictTextFace::from(PictTextFace::OUTLINE));
    let shadow = ink_set(b"I", PictTextFace::from(PictTextFace::SHADOW));
    assert!(outline.is_subset(&shadow));
    assert!(shadow.len() > outline.len());
    assert!(plain.is_disjoint(&shadow), "shadow stays hollow");
    for &(x, y) in shadow.difference(&outline) {
        assert!(
            outline.contains(&(x - 1, y))
                || outline.contains(&(x, y - 1))
                || outline.contains(&(x - 1, y - 1)),
            "thickening pixel ({x},{y}) is not below/right of the ring"
        );
    }
}

#[test]
fn bold_widens_the_hollow() {
    // Page I-152: "If you specify bold along with outline or
    // shadow, the hollow part of the character is widened." The
    // hollow (unpainted stroke body) of bold+outline '|' covers the
    // bolded 2-px stroke, not just the plain 1-px one.
    let bold = ink_set(b"|", PictTextFace::from(PictTextFace::BOLD));
    let bold_outline = ink_set(
        b"|",
        PictTextFace::from(PictTextFace::BOLD | PictTextFace::OUTLINE),
    );
    assert!(
        bold.is_disjoint(&bold_outline),
        "the widened (bolded) stroke body stays hollow"
    );
    assert!(!bold_outline.is_empty());
}

#[test]
fn space_paints_no_ink_in_or_mode() {
    let mut c = Canvas::new(40, 20, Rgba::white());
    draw_text(
        &mut c,
        b" ",
        2,
        10,
        TextScale::isotropic(8),
        0,
        0,
        0,
        PictTextFace::plain(),
        Rgba::black(),
        Rgba::white(),
        SourceMode::SrcOr,
    );
    // No black pixels — a space in srcOr leaves the canvas untouched.
    for y in 0..20 {
        for x in 0..40 {
            assert_ne!(c.pixel_at(x, y).unwrap(), Rgba::black());
        }
    }
}

#[test]
fn drawn_advance_matches_the_measure_from_any_pen_column() {
    let scale = TextScale::isotropic(12);
    let face = PictTextFace::plain();
    let want = measure_text(b"Hi there", scale, 1, 2, 0, face);
    for pen_x in [-30i32, 0, 7, 100] {
        let mut c = Canvas::new(64, 32, Rgba::white());
        let adv = draw_text(
            &mut c,
            b"Hi there",
            pen_x,
            20,
            scale,
            1,
            2,
            0,
            face,
            Rgba::black(),
            Rgba::white(),
            SourceMode::SrcOr,
        );
        assert_eq!(adv, want, "pen at {pen_x}");
    }
}

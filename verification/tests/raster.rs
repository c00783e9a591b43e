use pict::raster::{fill_oval, fill_polygon, fill_rect, frame_oval, frame_rect, Canvas};
use pict::state::Rgba;

fn white() -> Rgba {
    Rgba { r: 255, g: 255, b: 255, a: 255 }
}
fn black() -> Rgba {
    Rgba { r: 0, g: 0, b: 0, a: 255 }
}
fn red() -> Rgba {
    Rgba { r: 255, g: 0, b: 0, a: 255 }
}

fn at(c: &Canvas, x: u32, y: u32) -> [u8; 4] {
    let off = ((y * c.width + x) * 4) as usize;
    [c.data[off], c.data[off + 1], c.data[off + 2], c.data[off + 3]]
}

#[test]
fn canvas_init_paper() {
    let c = Canvas::new(2, 2, white());
    assert_eq!(at(&c, 0, 0), [255, 255, 255, 255]);
    assert!(!c.dirty);
}

#[test]
fn fill_rect_dirties() {
    let mut c = Canvas::new(4, 4, white());
    fill_rect(&mut c, 1, 1, 3, 3, black());
    assert!(c.dirty);
    assert_eq!(at(&c, 0, 0), [255, 255, 255, 255]);
    assert_eq!(at(&c, 1, 1), [0, 0, 0, 255]);
    assert_eq!(at(&c, 2, 2), [0, 0, 0, 255]);
    assert_eq!(at(&c, 3, 3), [255, 255, 255, 255]);
}

#[test]
fn frame_rect_outlines_only() {
    let mut c = Canvas::new(5, 5, white());
    frame_rect(&mut c, 1, 1, 4, 4, black());
    assert_eq!(at(&c, 1, 1), [0, 0, 0, 255]);
    assert_eq!(at(&c, 3, 3), [0, 0, 0, 255]);
    assert_eq!(at(&c, 2, 2), [255, 255, 255, 255]);
}

#[test]
fn line_horizontal() {
    let mut c = Canvas::new(10, 3, white());
    pict::raster::line(&mut c, 1, 1, 8, 1, red());
    for x in 1..=8 {
        assert_eq!(at(&c, x as u32, 1), [255, 0, 0, 255]);
    }
    assert_eq!(at(&c, 0, 1), [255, 255, 255, 255]);
}

#[test]
fn line_diagonal() {
    let mut c = Canvas::new(5, 5, white());
    pict::raster::line(&mut c, 0, 0, 4, 4, black());
    for i in 0..5 {
        assert_eq!(at(&c, i, i), [0, 0, 0, 255]);
    }
}

#[test]
fn fill_polygon_triangle() {
    let mut c = Canvas::new(10, 10, white());
    fill_polygon(&mut c, &[(2, 2), (8, 2), (5, 8)], red());
    assert_eq!(at(&c, 5, 3), [255, 0, 0, 255]);
    assert_eq!(at(&c, 5, 7), [255, 0, 0, 255]);
    assert_eq!(at(&c, 0, 0), [255, 255, 255, 255]);
    assert_eq!(at(&c, 9, 9), [255, 255, 255, 255]);
}

#[test]
fn fill_oval_fills_centre() {
    let mut c = Canvas::new(20, 20, white());
    fill_oval(&mut c, 2, 2, 18, 18, black());
    assert_eq!(at(&c, 10, 10), [0, 0, 0, 255]);
    assert_eq!(at(&c, 2, 2), [255, 255, 255, 255]);
}

#[test]
fn frame_oval_outlines_only() {
    let mut c = Canvas::new(20, 20, white());
    frame_oval(&mut c, 2, 2, 18, 18, black());
    assert_eq!(at(&c, 10, 10), [255, 255, 255, 255]);
    assert_eq!(at(&c, 10, 2), [0, 0, 0, 255]);
}

#[test]
fn blit_full_size() {
    let mut c = Canvas::new(4, 2, white());
    let src = vec![
        10, 20, 30, 255, 40, 50, 60, 255, 70, 80, 90, 255, 100, 110, 120, 255, 5, 6, 7, 255, 8, 9,
        10, 255, 11, 12, 13, 255, 14, 15, 16, 255,
    ];
    c.blit(&src, 4, 2, 0, 0, 2, 4);
    assert_eq!(at(&c, 0, 0), [10, 20, 30, 255]);
    assert_eq!(at(&c, 3, 1), [14, 15, 16, 255]);
}

#[test]
fn empty_rect_leaves_canvas_clean() {
    let mut c = Canvas::new(4, 4, white());
    fill_rect(&mut c, 3, 3, 1, 1, black());
    assert!(!c.dirty);
    assert_eq!(at(&c, 2, 2), [255, 255, 255, 255]);
}

#[test]
fn inverting_twice_restores_the_canvas() {
    let mut c = Canvas::new(6, 6, white());
    fill_rect(&mut c, 0, 0, 3, 6, red());
    let before = c.data.clone();
    pict::raster::invert_oval(&mut c, 0, 0, 6, 6);
    assert_ne!(c.data, before);
    pict::raster::invert_oval(&mut c, 0, 0, 6, 6);
    assert_eq!(c.data, before);
}

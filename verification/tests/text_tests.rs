use image::DynamicImage;
use niels1020_graphics_engine::atlas::{AtlasError, AtlasTexture};
use niels1020_graphics_engine::colour::{colour_alpha, pack_colour, unpack_colour};
use niels1020_graphics_engine::glyph::GlyphCanvas;
use niels1020_graphics_engine::text::{RedrawStep, TextContent};

#[test]
fn colour_packing_layout() {
    assert_eq!(pack_colour((1, 2, 3, 4)), 0x0401_0203);
    assert_eq!(unpack_colour(0x0401_0203), (1, 2, 3, 4));
    assert_eq!(colour_alpha(0x8000_0000), 0x80);
    assert_eq!(unpack_colour(pack_colour((255, 0, 128, 7))), (255, 0, 128, 7));
}

#[test]
fn text_content_setters_getters() {
    let mut t1 = TextContent::new("Arial".to_string(), "hello".to_string(), (255, 255, 255, 255));
    t1.set_text("world".to_string());
    assert_eq!(t1.get_text(), "world");

    let mut t2 = TextContent::new("Arial".to_string(), "".to_string(), (255, 255, 255, 255));
    t2.set_colour((1, 2, 3, 4));
    assert_eq!(t2.get_colour(), (1, 2, 3, 4));

    let t3 = TextContent::new("Arial".to_string(), "x".to_string(), (9, 8, 7, 6));
    assert_eq!(t3.font_name(), "Arial");
    assert_eq!(t3.colour(), 0x0609_0807);
    assert!(t3.have_vertices_changed());
}

#[test]
fn text_redraw_steps() {
    let mut atlas = AtlasTexture::new();
    let mut t = TextContent::new("Arial".to_string(), "hi".to_string(), (1, 1, 1, 1));
    assert_eq!(t.begin_redraw(&mut atlas), Ok(RedrawStep::Draw));
    assert!(!t.have_vertices_changed());
    assert_eq!(t.begin_redraw(&mut atlas), Ok(RedrawStep::Keep));

    t.record_image(&mut atlas, DynamicImage::new_rgba8(1, 1), "img".to_string());
    assert!(atlas.has_image("img".to_string()));
    t.set_text("".to_string());
    assert_eq!(t.begin_redraw(&mut atlas), Ok(RedrawStep::Empty));
    assert!(!atlas.has_image("img".to_string()));
    assert_eq!(atlas.len(), 0);

    t.set_text("again".to_string());
    assert_eq!(t.begin_redraw(&mut atlas), Ok(RedrawStep::Draw));
}

#[test]
fn text_redraw_fails_when_old_image_is_missing() {
    let mut first = AtlasTexture::new();
    let mut other = AtlasTexture::new();
    let mut t = TextContent::new("Arial".to_string(), "hi".to_string(), (1, 1, 1, 1));
    t.record_image(&mut first, DynamicImage::new_rgba8(1, 1), "gone".to_string());
    assert_eq!(t.begin_redraw(&mut other), Err(AtlasError::UnknownName));
    assert!(t.have_vertices_changed());
    assert_eq!(t.begin_redraw(&mut first), Ok(RedrawStep::Draw));
    assert!(!first.has_image("gone".to_string()));
}

#[test]
fn text_redraw_forgets_removed_image() {
    let mut atlas = AtlasTexture::new();
    let mut t = TextContent::new("Arial".to_string(), "hi".to_string(), (1, 1, 1, 1));
    t.record_image(&mut atlas, DynamicImage::new_rgba8(2, 2), "old".to_string());
    assert_eq!(t.begin_redraw(&mut atlas), Ok(RedrawStep::Draw));
    assert_eq!(atlas.len(), 0);
    t.mark_changed();
    assert_eq!(t.begin_redraw(&mut atlas), Ok(RedrawStep::Draw));
    t.set_text("".to_string());
    assert_eq!(t.begin_redraw(&mut atlas), Ok(RedrawStep::Empty));
}

#[test]
fn glyph_rect_and_bounds() {
    let mut c = GlyphCanvas::new();
    assert!(c.is_empty());
    assert!(c.rasterize().is_none());
    c.add_rect(1, 2, 2, 1, pack_colour((10, 20, 30, 255)));
    assert!(!c.is_empty());
    assert_eq!(c.bounds(), (1, 2, 2, 2));
    c.add_rect(-1, 3, 1, 1, pack_colour((1, 1, 1, 0)));
    assert_eq!(c.bounds(), (1, 2, 2, 2));
    let (bytes, w, h) = c.rasterize().unwrap();
    assert_eq!((w, h), (2, 1));
    assert_eq!(bytes, vec![10, 20, 30, 255, 10, 20, 30, 255]);
}

#[test]
fn glyph_later_pixels_overwrite_and_gaps_stay_clear() {
    let mut c = GlyphCanvas::new();
    c.add_rect(0, 0, 1, 1, pack_colour((1, 2, 3, 4)));
    c.add_rect(0, 0, 1, 1, pack_colour((5, 6, 7, 8)));
    c.add_rect(2, 1, 1, 1, pack_colour((9, 9, 9, 9)));
    assert_eq!(c.bounds(), (0, 0, 2, 1));
    let (bytes, w, h) = c.rasterize().unwrap();
    assert_eq!((w, h), (3, 2));
    let mut expected = vec![0u8; 24];
    expected[0..4].copy_from_slice(&[5, 6, 7, 8]);
    expected[20..24].copy_from_slice(&[9, 9, 9, 9]);
    assert_eq!(bytes, expected);
    let (img, iw, ih) = c.to_image().unwrap();
    assert_eq!((iw, ih), (3, 2));
    assert_eq!((img.width(), img.height()), (3, 2));
    assert_eq!(img.to_rgba8().get_pixel(2, 1).0, [9, 9, 9, 9]);
}

#[test]
fn glyph_empty_canvas_has_no_image() {
    let c = GlyphCanvas::new();
    assert!(c.to_image().is_none());
}

#[test]
fn glyph_transparent_or_empty_rects_draw_nothing() {
    let mut c = GlyphCanvas::new();
    c.add_rect(i32::MIN, i32::MIN, u32::MAX, u32::MAX, pack_colour((1, 2, 3, 0)));
    c.add_rect(i32::MAX, 0, 0, 7, pack_colour((1, 2, 3, 4)));
    c.add_rect(5, i32::MAX, 3, 0, pack_colour((1, 2, 3, 4)));
    assert!(c.is_empty());
    assert_eq!(c.bounds(), (i32::MAX, i32::MAX, i32::MIN, i32::MIN));
}

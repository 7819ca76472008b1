use image::DynamicImage;
use niels1020_graphics_engine::atlas::{decode_image, AtlasError, AtlasTexture, PixelRect};

#[test]
fn atlas_add_get_remove() {
    let mut atlas = AtlasTexture::new();
    atlas.add_image(DynamicImage::new_rgba8(2, 2), "a".to_string());
    assert!(atlas.get_relative_texture_rect("a".to_string()).is_ok());
    assert!(atlas.remove_image("a".to_string()).is_ok());
    assert!(atlas.get_relative_texture_rect("a".to_string()).is_err());
}

#[test]
fn atlas_strip_layout_values() {
    let mut atlas = AtlasTexture::new();
    atlas.add_image(DynamicImage::new_rgba8(2, 3), "a".to_string());
    atlas.add_image(DynamicImage::new_rgba8(4, 1), "b".to_string());
    assert_eq!(atlas.len(), 2);
    assert_eq!(atlas.image_size(0), (2, 3));
    assert_eq!(atlas.image_size(1), (4, 1));
    let a = atlas.get_relative_texture_rect("a".to_string()).unwrap();
    assert_eq!(a.rect, PixelRect { left: 0, top: 0, right: 2, bottom: 3 });
    assert_eq!((a.atlas_width, a.atlas_height), (6, 3));
    let b = atlas.get_relative_texture_rect("b".to_string()).unwrap();
    assert_eq!(b.rect, PixelRect { left: 2, top: 0, right: 6, bottom: 1 });
    assert_eq!(atlas.get_size(), (6, 3));
}

#[test]
fn atlas_new_is_empty_and_clean() {
    let atlas = AtlasTexture::new();
    assert_eq!(atlas.len(), 0);
    assert_eq!(atlas.get_size(), (0, 0));
    assert!(!atlas.need_update());
    assert!(!atlas.has_image("a".to_string()));
}

#[test]
fn atlas_add_marks_update_and_registers_name() {
    let mut atlas = AtlasTexture::new();
    atlas.add_image(DynamicImage::new_rgba8(1, 1), "x".to_string());
    assert!(atlas.need_update());
    assert!(atlas.has_image("x".to_string()));
    assert!(!atlas.has_image("y".to_string()));
}

#[test]
fn atlas_remove_unknown_name() {
    let mut atlas = AtlasTexture::new();
    atlas.add_image(DynamicImage::new_rgba8(1, 1), "x".to_string());
    assert_eq!(atlas.remove_image("nope".to_string()), Err(AtlasError::UnknownName));
    assert_eq!(atlas.len(), 1);
    assert_eq!(
        atlas.get_relative_texture_rect("nope".to_string()),
        Err(AtlasError::UnknownName)
    );
}

#[test]
fn atlas_removal_renumbers_later_names() {
    let mut atlas = AtlasTexture::new();
    atlas.add_image(DynamicImage::new_rgba8(2, 2), "a".to_string());
    atlas.add_image(DynamicImage::new_rgba8(3, 4), "b".to_string());
    assert_eq!(atlas.remove_image("a".to_string()), Ok(()));
    assert_eq!(atlas.len(), 1);
    assert_eq!(atlas.image_size(0), (3, 4));
    let r = atlas.get_relative_texture_rect("b".to_string()).unwrap();
    assert_eq!(r.rect, PixelRect { left: 0, top: 0, right: 3, bottom: 4 });
    assert_eq!((r.atlas_width, r.atlas_height), (3, 4));
    assert_eq!(atlas.get_size(), (3, 4));
    assert_eq!(atlas.remove_image("b".to_string()), Ok(()));
    assert!(!atlas.has_image("b".to_string()));
    assert_eq!(atlas.len(), 0);
}

#[test]
fn atlas_removal_in_the_middle_keeps_other_images() {
    let mut atlas = AtlasTexture::new();
    atlas.add_image(DynamicImage::new_rgba8(1, 5), "a".to_string());
    atlas.add_image(DynamicImage::new_rgba8(2, 6), "b".to_string());
    atlas.add_image(DynamicImage::new_rgba8(4, 7), "c".to_string());
    assert_eq!(atlas.remove_image("b".to_string()), Ok(()));
    let ra = atlas.get_relative_texture_rect("a".to_string()).unwrap();
    assert_eq!(ra.rect, PixelRect { left: 0, top: 0, right: 1, bottom: 5 });
    let rc = atlas.get_relative_texture_rect("c".to_string()).unwrap();
    assert_eq!(rc.rect, PixelRect { left: 1, top: 0, right: 5, bottom: 7 });
    assert_eq!((rc.atlas_width, rc.atlas_height), (5, 7));
}

#[test]
fn atlas_same_name_refers_to_newest_image() {
    let mut atlas = AtlasTexture::new();
    atlas.add_image(DynamicImage::new_rgba8(2, 2), "a".to_string());
    atlas.add_image(DynamicImage::new_rgba8(3, 5), "a".to_string());
    assert_eq!(atlas.len(), 2);
    let r = atlas.get_relative_texture_rect("a".to_string()).unwrap();
    assert_eq!(r.rect, PixelRect { left: 2, top: 0, right: 5, bottom: 5 });
    assert_eq!((r.atlas_width, r.atlas_height), (5, 5));
}

#[test]
fn atlas_build_image_of_empty_atlas_is_one_pixel() {
    let mut atlas = AtlasTexture::new();
    atlas.add_image(DynamicImage::new_rgba8(1, 1), "x".to_string());
    atlas.remove_image("x".to_string()).unwrap();
    let img = atlas.build_image();
    assert_eq!((img.width(), img.height()), (1, 1));
    assert_eq!(atlas.get_size(), (1, 1));
    assert!(!atlas.need_update());
}

#[test]
fn atlas_build_image_merges_strip() {
    let mut atlas = AtlasTexture::new();
    let mut red = image::RgbaImage::new(2, 1);
    red.put_pixel(1, 0, image::Rgba([255, 0, 0, 255]));
    atlas.add_image(DynamicImage::ImageRgba8(red), "red".to_string());
    atlas.add_image(DynamicImage::new_rgba8(3, 2), "blank".to_string());
    let img = atlas.build_image().to_rgba8();
    assert_eq!(img.dimensions(), (5, 2));
    assert_eq!(img.get_pixel(1, 0).0, [255, 0, 0, 255]);
    assert_eq!(img.get_pixel(2, 0).0, [0, 0, 0, 0]);
    assert_eq!(atlas.get_size(), (5, 2));
    assert!(!atlas.need_update());
}

#[test]
fn atlas_build_positions_sets_size() {
    let mut atlas = AtlasTexture::new();
    atlas.add_image(DynamicImage::new_rgba8(7, 2), "a".to_string());
    atlas.add_image(DynamicImage::new_rgba8(1, 9), "b".to_string());
    atlas.build_positions();
    assert_eq!(atlas.get_size(), (8, 9));
    assert!(atlas.need_update());
}

#[test]
fn atlas_strip_size_sums_widths() {
    let mut atlas = AtlasTexture::new();
    assert_eq!(atlas.strip_size(), Some((0, 0)));
    atlas.add_image(DynamicImage::new_rgba8(3, 1), "a".to_string());
    atlas.add_image(DynamicImage::new_rgba8(5, 4), "b".to_string());
    assert_eq!(atlas.strip_size(), Some((8, 4)));
}

#[test]
fn atlas_add_then_remove_restores_sizes() {
    let mut atlas = AtlasTexture::new();
    atlas.add_image(DynamicImage::new_rgba8(3, 4), "keep".to_string());
    atlas.add_image(DynamicImage::new_rgba8(6, 2), "tmp".to_string());
    assert_eq!(atlas.remove_image("tmp".to_string()), Ok(()));
    assert_eq!(atlas.len(), 1);
    assert_eq!(atlas.image_size(0), (3, 4));
    assert!(atlas.has_image("keep".to_string()));
    assert!(!atlas.has_image("tmp".to_string()));
    let r = atlas.get_relative_texture_rect("keep".to_string()).unwrap();
    assert_eq!(r.rect, PixelRect { left: 0, top: 0, right: 3, bottom: 4 });
    assert!(r.rect.right <= r.atlas_width && r.rect.bottom <= r.atlas_height);
}

#[test]
fn atlas_build_image_places_second_image_at_its_offset() {
    let mut atlas = AtlasTexture::new();
    atlas.add_image(DynamicImage::new_rgba8(2, 1), "left".to_string());
    let mut blue = image::RgbaImage::new(1, 3);
    blue.put_pixel(0, 2, image::Rgba([0, 0, 255, 255]));
    atlas.add_image(DynamicImage::ImageRgba8(blue), "right".to_string());
    let img = atlas.build_image().to_rgba8();
    assert_eq!(img.dimensions(), (3, 3));
    assert_eq!(img.get_pixel(2, 2).0, [0, 0, 255, 255]);
    assert_eq!(img.get_pixel(0, 2).0, [0, 0, 0, 0]);
}

#[test]
fn decode_image_reads_png_and_refuses_garbage() {
    let mut src = image::RgbaImage::new(2, 3);
    src.put_pixel(1, 2, image::Rgba([9, 8, 7, 255]));
    let mut png: Vec<u8> = Vec::new();
    DynamicImage::ImageRgba8(src)
        .write_to(&mut std::io::Cursor::new(&mut png), image::ImageFormat::Png)
        .unwrap();
    let img = decode_image(&png).unwrap().to_rgba8();
    assert_eq!(img.dimensions(), (2, 3));
    assert_eq!(img.get_pixel(1, 2).0, [9, 8, 7, 255]);
    assert!(decode_image(&[1, 2, 3, 4]).is_none());
}

#[test]
fn atlas_build_if_needed_builds_once() {
    let mut atlas = AtlasTexture::new();
    assert!(atlas.build_if_needed().is_none());
    atlas.add_image(DynamicImage::new_rgba8(2, 3), "a".to_string());
    let img = atlas.build_if_needed().unwrap();
    assert_eq!((img.width(), img.height()), (2, 3));
    assert!(!atlas.need_update());
    assert!(atlas.build_if_needed().is_none());
    assert_eq!(atlas.remove_image("a".to_string()), Ok(()));
    let img = atlas.build_if_needed().unwrap();
    assert_eq!((img.width(), img.height()), (1, 1));
    assert!(atlas.build_if_needed().is_none());
}

use gallsh::image::image_color_size;
use gallsh::picture_io::thumbnail_bytes;
use image::{DynamicImage, GenericImageView, ImageOutputFormat, Rgba, RgbaImage};
use std::io::Cursor;

fn picture(width: u32, height: u32) -> DynamicImage {
    let mut pixels = RgbaImage::new(width, height);
    for (x, y, p) in pixels.enumerate_pixels_mut() {
        *p = if x < width / 2 {
            Rgba([255, 0, 0, 255])
        } else if y < height / 2 {
            Rgba([0, 255, 0, 255])
        } else {
            Rgba([0, 0, 255, 255])
        };
    }
    DynamicImage::ImageRgba8(pixels)
}

fn encoded(image: &DynamicImage, format: ImageOutputFormat) -> Vec<u8> {
    let mut out = Cursor::new(Vec::new());
    image.write_to(&mut out, format).unwrap();
    out.into_inner()
}

#[test]
fn the_colours_of_a_picture_are_counted_from_its_bytes() {
    let png = encoded(&picture(8, 8), ImageOutputFormat::Png);
    assert_eq!(Some(3), image_color_size("png", &png));
    assert_eq!(Some(3), image_color_size("PNG", &png));
    assert_eq!(None, image_color_size("jpg", &png));
    assert_eq!(None, image_color_size("png", &[1, 2, 3]));
}

#[test]
fn a_png_thumbnail_is_a_small_png() {
    let png = encoded(&picture(400, 200), ImageOutputFormat::Png);
    let made = thumbnail_bytes("png", &png).unwrap();
    assert_ne!(png, made);
    assert_eq!(&[0x89, b'P', b'N', b'G'], &made[0..4]);
    let thumbnail = image::load_from_memory(&made).unwrap();
    assert_eq!((128, 64), thumbnail.dimensions());
    assert_eq!(None, thumbnail_bytes("png", &[0, 1, 2]));
}

#[test]
fn a_jpeg_thumbnail_is_a_small_jpeg() {
    let jpeg = encoded(&DynamicImage::ImageRgb8(picture(300, 300).to_rgb8()), ImageOutputFormat::Jpeg(90));
    let made = thumbnail_bytes("jpeg", &jpeg).unwrap();
    assert_eq!(&[0xFF, 0xD8], &made[0..2]);
    let thumbnail = image::load_from_memory(&made).unwrap();
    assert_eq!((128, 128), thumbnail.dimensions());
    assert_eq!(None, thumbnail_bytes("JPG", &[0, 1, 2]));
}

use yatsr::geometry::Vec3;
use yatsr::image::{blend, ImageOriginPos, PixImage, Rgb, Rgba};
use yatsr::image_encoder::{encode_ppm, Encoder, PPM};
use yatsr::util::{floor_div, linear_interpolation};

#[test]
fn new_image_is_zeroed_bottom_left() {
    let img = PixImage::new(3, 2);
    assert_eq!(img.data.len(), 24);
    assert!(img.data.iter().all(|b| *b == 0));
    assert_eq!(img.origin, ImageOriginPos::LeftBottom);
    assert_eq!(img.index(0, 0), 3);
    assert_eq!(img.index(2, 1), 2);
}

#[test]
fn set_and_get_respect_origin() {
    let mut img = PixImage::from_data(vec![0; 16], 2, 2, ImageOriginPos::LeftTop);
    img.set_rgba32(1, 0, Rgba { r: 1, g: 2, b: 3, a: 4 });
    assert_eq!(&img.data[4..8], &[1, 2, 3, 4]);
    assert_eq!(img.get_rgba(1, 0), Rgba { r: 1, g: 2, b: 3, a: 4 });
    img.set_rgba32(5, 5, Rgba { r: 9, g: 9, b: 9, a: 9 });
    assert_eq!(img.data.iter().filter(|b| **b == 9).count(), 0);
}

#[test]
fn flip_y_reverses_rows() {
    let mut img = PixImage::new(1, 2);
    img.set_rgb24(0, 0, Rgb { r: 10, g: 0, b: 0 });
    img.set_rgb24(0, 1, Rgb { r: 20, g: 0, b: 0 });
    let f = img.flip_y();
    assert_eq!(f.get(0, 0), Rgb { r: 20, g: 0, b: 0 });
    assert_eq!(f.get(0, 1), Rgb { r: 10, g: 0, b: 0 });
}

#[test]
fn blending_over_compositing() {
    // half-transparent red over opaque blue
    let out = blend(Rgba { r: 255, g: 0, b: 0, a: 128 }, Rgba { r: 0, g: 0, b: 255, a: 255 });
    assert_eq!(out.a, 255);
    assert_eq!(out.r, 128);
    assert_eq!(out.b, 127);
    // anything over fully transparent keeps its own color
    let out = blend(Rgba { r: 10, g: 20, b: 30, a: 100 }, Rgba { r: 200, g: 200, b: 200, a: 0 });
    assert_eq!(out, Rgba { r: 10, g: 20, b: 30, a: 100 });
    // both transparent
    let out = blend(Rgba { r: 10, g: 20, b: 30, a: 0 }, Rgba { r: 1, g: 2, b: 3, a: 0 });
    assert_eq!(out, Rgba { r: 0, g: 0, b: 0, a: 0 });
}

#[test]
fn blending_writes_one_pixel() {
    let mut img = PixImage::new(2, 1);
    img.set_rgba32(0, 0, Rgba { r: 0, g: 0, b: 255, a: 255 });
    img.blending(0, 0, Rgba { r: 255, g: 0, b: 0, a: 128 });
    assert_eq!(img.get_rgba(0, 0), Rgba { r: 128, g: 0, b: 127, a: 255 });
    assert_eq!(img.get_rgba(1, 0), Rgba { r: 0, g: 0, b: 0, a: 0 });
}

#[test]
fn ppm_encoding() {
    let mut img = PixImage::new(2, 2);
    img.set_rgb24(0, 1, Rgb { r: 255, g: 0, b: 7 });
    img.set_rgb24(1, 0, Rgb { r: 1, g: 20, b: 100 });
    let text = String::from_utf8(PPM.encode(&img)).unwrap();
    assert_eq!(text, "P3\n2 2\n255\n255 0 7 0 0 0 \n0 0 0 1 20 100 \n");
    assert_eq!(encode_ppm(&PixImage::new(0, 0)), b"P3\n0 0\n255\n".to_vec());
}

#[test]
fn vector_products() {
    let a = Vec3::new(1, 2, 3);
    let b = Vec3::new(4, 5, 6);
    assert_eq!(a.cross_product(b), Vec3::new(-3, 6, -3));
    assert_eq!(a.product(b), Vec3::new(4, 10, 18));
}

#[test]
fn interpolation() {
    assert_eq!(linear_interpolation(0, 10, 20), 10);
    assert_eq!(linear_interpolation(65536, 10, 20), 20);
    assert_eq!(linear_interpolation(32768, 10, 20), 15);
    assert_eq!(linear_interpolation(16384, 20, 10), 17);
    assert_eq!(floor_div(-7, 2), -4);
    assert_eq!(floor_div(7, 2), 3);
}

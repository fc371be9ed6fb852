use yatsr::image::ImageOriginPos;
use yatsr::image_decoder::{decode_tga, to_image_type, DecodeError, Decoder, TAGImageType, TGA};

#[test]
fn image_type() {
    assert!(to_image_type(0) as u8 == 0);
    assert!(to_image_type(1) as u8 == 1);
}

#[test]
fn image_type_names_each_known_byte() {
    assert_eq!(to_image_type(2), TAGImageType::UncompressedTrueColor);
    assert_eq!(to_image_type(10), TAGImageType::RunLenEncodedTrueColor);
    assert_eq!(to_image_type(11), TAGImageType::RunLenEncodedBlackWhite);
}

fn header(image_type: u8, w: u16, h: u16, depth: u8, descriptor: u8) -> Vec<u8> {
    let mut d = vec![0u8; 18];
    d[2] = image_type;
    d[12] = (w & 0xff) as u8;
    d[13] = (w >> 8) as u8;
    d[14] = (h & 0xff) as u8;
    d[15] = (h >> 8) as u8;
    d[16] = depth;
    d[17] = descriptor;
    d
}

#[test]
fn decodes_uncompressed_true_color() {
    let mut d = header(2, 2, 1, 24, 0x20);
    d.extend_from_slice(&[1, 2, 3, 4, 5, 6]);
    let img = TGA.decode(d).unwrap();
    assert_eq!(img.width, 2);
    assert_eq!(img.height, 1);
    assert_eq!(img.origin, ImageOriginPos::LeftTop);
    assert_eq!(img.data, vec![3, 2, 1, 255, 6, 5, 4, 255]);
}

#[test]
fn decodes_run_length_true_color_with_alpha() {
    let mut d = header(10, 3, 1, 32, 0);
    // a run of two pixels, then one raw pixel
    d.extend_from_slice(&[0x81, 10, 20, 30, 40, 0x00, 1, 2, 3, 4]);
    let img = decode_tga(&d).unwrap();
    assert_eq!(img.origin, ImageOriginPos::LeftBottom);
    assert_eq!(img.data, vec![30, 20, 10, 40, 30, 20, 10, 40, 3, 2, 1, 4]);
}

#[test]
fn decodes_run_length_black_white_and_cuts_long_runs() {
    let mut d = header(11, 2, 1, 8, 0);
    d.extend_from_slice(&[0x84, 7]);
    let img = decode_tga(&d).unwrap();
    assert_eq!(img.data, vec![7, 7, 7, 255, 7, 7, 7, 255]);
}

#[test]
fn skips_the_image_id() {
    let mut d = header(11, 1, 1, 8, 0);
    d[0] = 2;
    d.extend_from_slice(&[99, 99, 0x00, 9]);
    let img = decode_tga(&d).unwrap();
    assert_eq!(img.data, vec![9, 9, 9, 255]);
}

#[test]
fn decode_errors() {
    assert_eq!(decode_tga(&vec![0u8; 5]).unwrap_err(), DecodeError::Truncated);
    let mut cm = header(2, 1, 1, 24, 0);
    cm[1] = 1;
    assert_eq!(decode_tga(&cm).unwrap_err(), DecodeError::ColorMapUnsupported);
    assert_eq!(decode_tga(&header(1, 1, 1, 8, 0)).unwrap_err(), DecodeError::UnsupportedImageType);
    assert_eq!(decode_tga(&header(2, 1, 1, 16, 0)).unwrap_err(), DecodeError::UnsupportedDepth);
    assert_eq!(decode_tga(&header(11, 1, 1, 24, 0)).unwrap_err(), DecodeError::UnsupportedDepth);
    assert_eq!(decode_tga(&header(2, 1, 1, 24, 0x10)).unwrap_err(), DecodeError::UnsupportedOrigin);
    assert_eq!(decode_tga(&header(2, 0xffff, 0xffff, 24, 0)).unwrap_err(), DecodeError::TooLarge);
    assert_eq!(decode_tga(&header(2, 2, 2, 24, 0)).unwrap_err(), DecodeError::Truncated);
    let mut rle = header(10, 2, 1, 24, 0);
    rle.extend_from_slice(&[0x81, 1, 2]);
    assert_eq!(decode_tga(&rle).unwrap_err(), DecodeError::Truncated);
}

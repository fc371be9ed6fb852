use yatsr::font::{parse, FontError};
use yatsr::image::{PixImage, Rgb};

const FONT: &str = "STARTFONT 2.1\nFONTBOUNDINGBOX 10 12 -1 -3\nSTARTCHAR A\nENCODING 65\nDWIDTH 8 0\nBBX 8 2 0 -1\nBITMAP\n18\nFF\nENDCHAR\nSTARTCHAR B\nENCODING 66\nBBX 16 1 1 2\nBITMAP\na0C3\nENDCHAR\nENDFONT\n";

#[test]
fn parses_bounding_box_and_glyphs() {
    let f = parse(FONT).unwrap();
    assert_eq!(f.font_bounding_box, (10, 12, -1, -3));
    assert_eq!(f.glyphs.len(), 2);
    let a = f.glyph(65).unwrap();
    assert_eq!(a.dwidth, (8, 0));
    assert_eq!(a.bbx, (8, 2, 0, -1));
    assert_eq!(a.bitmap, vec![0x18, 0xff]);
    assert_eq!(a.cols, 1);
    let b = f.glyph(66).unwrap();
    assert_eq!(b.bbx, (16, 1, 1, 2));
    assert_eq!(b.bitmap, vec![0xa0, 0xc3]);
    assert_eq!(b.cols, 2);
    assert!(f.glyph(67).is_none());
}

#[test]
fn later_glyph_with_same_encoding_wins() {
    let f = parse("STARTCHAR x\nENCODING 7\nENDCHAR\nSTARTCHAR y\nENCODING 7\nDWIDTH 3 4\nENDCHAR").unwrap();
    assert_eq!(f.glyphs.len(), 1);
    assert_eq!(f.glyph(7).unwrap().dwidth, (3, 4));
}

#[test]
fn unterminated_glyph_is_kept_and_bad_encoding_is_zero() {
    let f = parse("STARTCHAR q\nENCODING many").unwrap();
    assert_eq!(f.glyphs.len(), 1);
    assert_eq!(f.glyph(0).unwrap().encoding, 0);
    let f = parse("STARTCHAR q\n").unwrap();
    assert_eq!(f.glyph(32).unwrap().encoding, 32);
}

#[test]
fn font_errors() {
    assert_eq!(parse("FONTBOUNDINGBOX 1 2 x 4").unwrap_err(), FontError::BadNumber);
    assert_eq!(parse("FONTBOUNDINGBOX 1 2 3").unwrap_err(), FontError::BadNumber);
    assert_eq!(parse("STARTCHAR a\nDWIDTH 300 0").unwrap_err(), FontError::BadNumber);
    assert_eq!(parse("STARTCHAR a\nBBX 8 1 0 0\nBITMAP\nF").unwrap_err(), FontError::BadBitmap);
    assert_eq!(parse("STARTCHAR a\nBBX 8 1 0 0\nBITMAP\nzz").unwrap_err(), FontError::BadBitmap);
    assert_eq!(parse("STARTCHAR a\nBBX 8 2 0 0\nBITMAP\nFF").unwrap_err(), FontError::MissingBitmapRows);
}

#[test]
fn draws_glyph_bits() {
    let f = parse("FONTBOUNDINGBOX 9 3 0 0\nSTARTCHAR A\nENCODING 65\nBBX 8 2 0 0\nBITMAP\n80\n01\nENDCHAR").unwrap();
    let mut img = PixImage::new(20, 6);
    let red = Rgb { r: 255, g: 0, b: 0 };
    f.draw_text(&mut img, 0, 0, 1, red, &['A', 'x', 'A']);
    let lit: Vec<(u32, u32)> = (0..6)
        .flat_map(|y| (0..20).map(move |x| (x, y)))
        .filter(|(x, y)| img.get(*x, *y) == red)
        .collect();
    // the first A at pen 0; the unknown x advances by the font width; the
    // second A at 8 + 1 + 9, its right column off the image
    assert_eq!(lit, vec![(7, 1), (0, 2), (18, 2)]);
}

#[test]
fn glyph_getters() {
    let f = parse("STARTCHAR a\nBBX 3 4 -1 2\nENDCHAR").unwrap();
    let g = f.glyph(32).unwrap();
    assert_eq!((g.height(), g.x_offset(), g.y_offset()), (4, -1, 2));
}

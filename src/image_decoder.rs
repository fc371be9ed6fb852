use vstd::prelude::*;
use crate::image::{ImageOriginPos, PixImage};

verus! {

/// The image types a TGA header names.
#[derive(Clone, Copy, Debug, PartialEq, Eq, Structural)]
pub enum TAGImageType {
    NoImageData,
    UncompressedColorMapped,
    UncompressedTrueColor,
    UncompressedBlackWhite,
    RunLenEncodedColorMapped,
    RunLenEncodedTrueColor,
    RunLenEncodedBlackWhite,
}

/// Why an image file could not be decoded.
#[derive(Clone, Copy, Debug, PartialEq, Eq, Structural)]
pub enum DecodeError {
    /// The data ends before the header or the pixels do.
    Truncated,
    /// The file holds a color map.
    ColorMapUnsupported,
    /// The image type is unknown or not one of true color, run-length encoded true
    /// color and run-length encoded black and white.
    UnsupportedImageType,
    /// The pixel depth does not fit the image type.
    UnsupportedDepth,
    /// The rows do not start at the left.
    UnsupportedOrigin,
    /// The image has more pixels than a `PixImage` holds.
    TooLarge,
}

/// The decoder of TGA files.
#[derive(Debug)]
pub struct TGA;

pub open spec fn known_image_type(t: u8) -> bool {
    t == 0 || t == 1 || t == 2 || t == 3 || t == 9 || t == 10 || t == 11
}

pub open spec fn image_type_spec(t: u8) -> TAGImageType {
    if t == 0 {
        TAGImageType::NoImageData
    } else if t == 1 {
        TAGImageType::UncompressedColorMapped
    } else if t == 2 {
        TAGImageType::UncompressedTrueColor
    } else if t == 3 {
        TAGImageType::UncompressedBlackWhite
    } else if t == 9 {
        TAGImageType::RunLenEncodedColorMapped
    } else if t == 10 {
        TAGImageType::RunLenEncodedTrueColor
    } else {
        TAGImageType::RunLenEncodedBlackWhite
    }
}

/// The image type that the header byte `t` names.
pub fn to_image_type(t: u8) -> (r: TAGImageType)
    requires
        known_image_type(t),
    ensures
        r == image_type_spec(t),
{
    match t {
        0 => TAGImageType::NoImageData,
        1 => TAGImageType::UncompressedColorMapped,
        2 => TAGImageType::UncompressedTrueColor,
        3 => TAGImageType::UncompressedBlackWhite,
        9 => TAGImageType::RunLenEncodedColorMapped,
        10 => TAGImageType::RunLenEncodedTrueColor,
        _ => TAGImageType::RunLenEncodedBlackWhite,
    }
}

/// The row order that bits 5 and 4 of the image descriptor give, where it is
/// one this decoder supports: bottom-left or top-left.
pub open spec fn origin_spec(descriptor: u8) -> Option<ImageOriginPos> {
    let b5 = (descriptor / 32) % 2;
    let b4 = (descriptor / 16) % 2;
    if b4 != 0 {
        None
    } else if b5 == 0 {
        Some(ImageOriginPos::LeftBottom)
    } else {
        Some(ImageOriginPos::LeftTop)
    }
}

fn to_origin(descriptor: u8) -> (r: Option<ImageOriginPos>)
    ensures
        r == origin_spec(descriptor),
{
    let b5 = (descriptor / 32) % 2;
    let b4 = (descriptor / 16) % 2;
    if b4 != 0 {
        None
    } else if b5 == 0 {
        Some(ImageOriginPos::LeftBottom)
    } else {
        Some(ImageOriginPos::LeftTop)
    }
}

pub open spec fn u16_le(data: Seq<u8>, i: int) -> int {
    data[i] + 256 * data[i + 1]
}

/// The RGBA bytes of the pixel stored at `i`: blue, green, red and, at 4 bytes per
/// pixel, alpha; at 1 byte per pixel a gray level.
pub open spec fn pixel_bytes(data: Seq<u8>, i: int, bpp: int) -> Seq<u8> {
    if bpp == 1 {
        seq![data[i], data[i], data[i], 255u8]
    } else if bpp == 3 {
        seq![data[i + 2], data[i + 1], data[i], 255u8]
    } else {
        seq![data[i + 2], data[i + 1], data[i], data[i + 3]]
    }
}

/// `n` copies of the pixel stored at `i`.
pub open spec fn run_bytes(data: Seq<u8>, i: int, bpp: int, n: nat) -> Seq<u8>
    decreases n,
{
    if n == 0 { seq![] } else { run_bytes(data, i, bpp, (n - 1) as nat) + pixel_bytes(data, i, bpp) }
}

/// The `n` pixels stored one after the other from `i`.
pub open spec fn raw_bytes(data: Seq<u8>, i: int, bpp: int, n: nat) -> Seq<u8>
    decreases n,
{
    if n == 0 {
        seq![]
    } else {
        raw_bytes(data, i, bpp, (n - 1) as nat) + pixel_bytes(data, i + (n - 1) * bpp, bpp)
    }
}

pub open spec fn prepend(s: Seq<u8>, o: Option<Seq<u8>>) -> Option<Seq<u8>> {
    match o {
        Some(r) => Some(s + r),
        None => None,
    }
}

/// The next `left` pixels of run-length encoded data from `pos`: each packet is a
/// header byte whose low 7 bits give a count less one, followed, where its high bit
/// is set, by one pixel repeated that many times, else by that many pixels. A
/// packet that runs past the last pixel is cut there. `None` where the data ends
/// first.
pub open spec fn rle_bytes(data: Seq<u8>, pos: int, left: nat, bpp: int) -> Option<Seq<u8>>
    decreases left,
{
    if left == 0 {
        Some(seq![])
    } else if pos < 0 || pos >= data.len() {
        None
    } else {
        let h = data[pos];
        let count = (h % 128) + 1;
        let n = if count < left { count as nat } else { left };
        if h >= 128 {
            if pos + 1 + bpp > data.len() {
                None
            } else {
                prepend(run_bytes(data, pos + 1, bpp, n), rle_bytes(data, pos + 1 + bpp, (left - n) as nat, bpp))
            }
        } else {
            if pos + 1 + count * bpp > data.len() {
                None
            } else {
                prepend(raw_bytes(data, pos + 1, bpp, n), rle_bytes(data, pos + 1 + count * bpp, (left - n) as nat, bpp))
            }
        }
    }
}

/// The view of a decoded image: width, height, row order and RGBA bytes.
pub type ImageView = (u32, u32, ImageOriginPos, Seq<u8>);

/// The image a TGA file holds, or why it cannot be decoded.
pub open spec fn tga_spec(data: Seq<u8>) -> Result<ImageView, DecodeError> {
    if data.len() < 18 {
        Err(DecodeError::Truncated)
    } else if data[1] == 1 {
        Err(DecodeError::ColorMapUnsupported)
    } else if !(data[2] == 2 || data[2] == 10 || data[2] == 11) {
        Err(DecodeError::UnsupportedImageType)
    } else {
        let t = data[2];
        let w = u16_le(data, 12);
        let h = u16_le(data, 14);
        let depth = data[16];
        let bpp = depth / 8;
        if t == 11 && depth != 8 || t != 11 && depth != 24 && depth != 32 {
            Err(DecodeError::UnsupportedDepth)
        } else if origin_spec(data[17]) is None {
            Err(DecodeError::UnsupportedOrigin)
        } else if 4 * w * h > u32::MAX {
            Err(DecodeError::TooLarge)
        } else {
            let start = 18 + data[0];
            let pixels = if t == 2 {
                if start + w * h * bpp <= data.len() {
                    Some(raw_bytes(data, start, bpp as int, (w * h) as nat))
                } else {
                    None
                }
            } else {
                rle_bytes(data, start, (w * h) as nat, bpp as int)
            };
            match pixels {
                Some(p) => Ok((w as u32, h as u32, origin_spec(data[17])->0, p)),
                None => Err(DecodeError::Truncated),
            }
        }
    }
}

/// Something that turns the bytes of an image file into an image.
pub trait Decoder {
    /// The image that `data` holds, or why it cannot be decoded.
    spec fn decoded(&self, data: Seq<u8>) -> Result<ImageView, DecodeError>;

    fn decode(&self, data: Vec<u8>) -> (r: Result<PixImage, DecodeError>)
        ensures
            match (r, self.decoded(data@)) {
                (Ok(img), Ok(v)) => img.wf() && img.width == v.0 && img.height == v.1
                    && img.origin == v.2 && img.data@ == v.3,
                (Err(e), Err(e2)) => e == e2,
                _ => false,
            },
    ;
}

proof fn lemma_prepend_assoc(a: Seq<u8>, b: Seq<u8>, x: Option<Seq<u8>>)
    ensures
        prepend(a, prepend(b, x)) == prepend(a + b, x),
{
    if let Some(r) = x {
        assert(a + (b + r) =~= (a + b) + r);
    }
}

fn push_pixel(out: &mut Vec<u8>, data: &Vec<u8>, i: usize, bpp: usize)
    requires
        bpp == 1 || bpp == 3 || bpp == 4,
        i + bpp <= data@.len(),
    ensures
        final(out)@ == old(out)@ + pixel_bytes(data@, i as int, bpp as int),
{
    let ghost start = out@;
    let len = data.len();
    if bpp == 1 {
        let g = data[i];
        out.push(g);
        out.push(g);
        out.push(g);
        out.push(255);
    } else {
        out.push(data[i + 2]);
        out.push(data[i + 1]);
        out.push(data[i]);
        if bpp == 4 {
            out.push(data[i + 3]);
        } else {
            out.push(255);
        }
    }
    proof {
        assert(out@ =~= start + pixel_bytes(data@, i as int, bpp as int));
    }
}

fn push_run(out: &mut Vec<u8>, data: &Vec<u8>, i: usize, bpp: usize, n: usize)
    requires
        bpp == 1 || bpp == 3 || bpp == 4,
        i + bpp <= data@.len(),
    ensures
        final(out)@ == old(out)@ + run_bytes(data@, i as int, bpp as int, n as nat),
{
    let ghost start = out@;
    let mut k: usize = 0;
    while k < n
        invariant
            bpp == 1 || bpp == 3 || bpp == 4,
            i + bpp <= data@.len(),
            k <= n,
            out@ == start + run_bytes(data@, i as int, bpp as int, k as nat),
        decreases n - k,
    {
        push_pixel(out, data, i, bpp);
        proof {
            assert(start + run_bytes(data@, i as int, bpp as int, (k + 1) as nat)
                =~= start + run_bytes(data@, i as int, bpp as int, k as nat) + pixel_bytes(data@, i as int, bpp as int));
        }
        k = k + 1;
    }
}

fn push_raw(out: &mut Vec<u8>, data: &Vec<u8>, i: usize, bpp: usize, n: usize)
    requires
        bpp == 1 || bpp == 3 || bpp == 4,
        i + n * bpp <= data@.len(),
    ensures
        final(out)@ == old(out)@ + raw_bytes(data@, i as int, bpp as int, n as nat),
{
    let ghost start = out@;
    let mut k: usize = 0;
    while k < n
        invariant
            bpp == 1 || bpp == 3 || bpp == 4,
            i + n * bpp <= data@.len(),
            k <= n,
            out@ == start + raw_bytes(data@, i as int, bpp as int, k as nat),
        decreases n - k,
    {
        let len = data.len();
        proof {
            assert(k * bpp + bpp <= n * bpp) by (nonlinear_arith) requires k < n, bpp >= 1;
            assert(i + k * bpp + bpp <= len);
        }
        push_pixel(out, data, i + k * bpp, bpp);
        proof {
            assert(start + raw_bytes(data@, i as int, bpp as int, (k + 1) as nat)
                =~= start + raw_bytes(data@, i as int, bpp as int, k as nat)
                    + pixel_bytes(data@, i + k * bpp, bpp as int));
        }
        k = k + 1;
    }
}

/// Decodes `total` run-length encoded pixels from `start`.
fn decode_rle(data: &Vec<u8>, start: usize, total: usize, bpp: usize) -> (r: Option<Vec<u8>>)
    requires
        bpp == 1 || bpp == 3 || bpp == 4,
    ensures
        match r {
            Some(v) => rle_bytes(data@, start as int, total as nat, bpp as int) == Some(v@)
                && v@.len() == 4 * total,
            None => rle_bytes(data@, start as int, total as nat, bpp as int) is None,
        },
{
    let mut out: Vec<u8> = Vec::new();
    let mut pos = start;
    let mut left = total;
    let len = data.len();
    proof {
        assert(out@ + rle_bytes(data@, start as int, total as nat, bpp as int)->0
            =~= rle_bytes(data@, start as int, total as nat, bpp as int)->0);
        lemma_prepend_assoc(seq![], seq![], rle_bytes(data@, start as int, total as nat, bpp as int));
        assert(prepend(out@, rle_bytes(data@, start as int, total as nat, bpp as int))
            == rle_bytes(data@, start as int, total as nat, bpp as int)) by {
            match rle_bytes(data@, start as int, total as nat, bpp as int) {
                Some(x) => { assert(out@ + x =~= x); },
                None => {},
            }
        }
    }
    while left > 0
        invariant
            bpp == 1 || bpp == 3 || bpp == 4,
            len == data@.len(),
            left <= total,
            out@.len() == 4 * (total - left),
            rle_bytes(data@, start as int, total as nat, bpp as int)
                == prepend(out@, rle_bytes(data@, pos as int, left as nat, bpp as int)),
        decreases left,
    {
        if pos >= len {
            return None;
        }
        let h = data[pos];
        let count: usize = (h % 128) as usize + 1;
        let n: usize = if count < left { count } else { left };
        let ghost before = out@;
        if h >= 128 {
            if bpp + 1 > len - pos {
                return None;
            }
            push_run(&mut out, data, pos + 1, bpp, n);
            proof {
                lemma_prepend_assoc(before, run_bytes(data@, pos + 1, bpp as int, n as nat),
                    rle_bytes(data@, pos + 1 + bpp, (left - n) as nat, bpp as int));
                lemma_run_len(data@, pos + 1, bpp as int, n as nat);
            }
            pos = pos + 1 + bpp;
        } else {
            proof {
                assert(count * bpp <= 128 * 4) by (nonlinear_arith) requires count <= 128, bpp <= 4;
            }
            if count * bpp + 1 > len - pos {
                return None;
            }
            proof {
                assert(n * bpp <= count * bpp) by (nonlinear_arith) requires n <= count;
            }
            push_raw(&mut out, data, pos + 1, bpp, n);
            proof {
                lemma_prepend_assoc(before, raw_bytes(data@, pos + 1, bpp as int, n as nat),
                    rle_bytes(data@, pos + 1 + count * bpp, (left - n) as nat, bpp as int));
                lemma_raw_len(data@, pos + 1, bpp as int, n as nat);
            }
            pos = pos + 1 + count * bpp;
        }
        left = left - n;
    }
    proof {
        assert(out@ + seq![] =~= out@);
    }
    Some(out)
}

proof fn lemma_run_len(data: Seq<u8>, i: int, bpp: int, n: nat)
    ensures
        run_bytes(data, i, bpp, n).len() == 4 * n,
    decreases n,
{
    if n > 0 {
        lemma_run_len(data, i, bpp, (n - 1) as nat);
    }
}

proof fn lemma_raw_len(data: Seq<u8>, i: int, bpp: int, n: nat)
    ensures
        raw_bytes(data, i, bpp, n).len() == 4 * n,
    decreases n,
{
    if n > 0 {
        lemma_raw_len(data, i, bpp, (n - 1) as nat);
    }
}

/// The image a TGA file holds.
pub fn decode_tga(data: &Vec<u8>) -> (r: Result<PixImage, DecodeError>)
    ensures
        match (r, tga_spec(data@)) {
            (Ok(img), Ok(v)) => img.wf() && img.width == v.0 && img.height == v.1
                && img.origin == v.2 && img.data@ == v.3,
            (Err(e), Err(e2)) => e == e2,
            _ => false,
        },
{
    let len = data.len();
    if len < 18 {
        return Err(DecodeError::Truncated);
    }
    if data[1] == 1 {
        return Err(DecodeError::ColorMapUnsupported);
    }
    let t = data[2];
    if !(t == 2 || t == 10 || t == 11) {
        return Err(DecodeError::UnsupportedImageType);
    }
    let w = data[12] as u64 + 256 * data[13] as u64;
    let h = data[14] as u64 + 256 * data[15] as u64;
    let depth = data[16];
    let bpp = (depth / 8) as usize;
    if t == 11 && depth != 8 || t != 11 && depth != 24 && depth != 32 {
        return Err(DecodeError::UnsupportedDepth);
    }
    let origin = match to_origin(data[17]) {
        Some(o) => o,
        None => {
            return Err(DecodeError::UnsupportedOrigin);
        },
    };
    proof {
        assert(w * h <= 0x1_0000_0000) by (nonlinear_arith) requires w <= 0xffff, h <= 0xffff;
    }
    let wh = w * h;
    proof {
        assert(4 * wh == 4 * w * h) by (nonlinear_arith) requires wh == w * h;
        assert(wh * bpp == w * h * bpp) by (nonlinear_arith) requires wh == w * h;
    }
    if 4 * wh > u32::MAX as u64 {
        return Err(DecodeError::TooLarge);
    }
    let start = 18 + data[0] as usize;
    let total = wh as usize;
    let pixels = if t == 2 {
        proof {
            assert(wh * bpp <= 0x1_0000_0000 * 4) by (nonlinear_arith) requires wh <= 0x1_0000_0000, bpp <= 4;
        }
        let need: u64 = wh * bpp as u64;
        if need > len as u64 || start as u64 > len as u64 - need {
            None
        } else {
            let mut out: Vec<u8> = Vec::new();
            push_raw(&mut out, data, start, bpp, total);
            proof {
                assert(out@ =~= seq![] + raw_bytes(data@, start as int, bpp as int, total as nat));
                lemma_raw_len(data@, start as int, bpp as int, total as nat);
            }
            Some(out)
        }
    } else {
        decode_rle(data, start, total, bpp)
    };
    match pixels {
        Some(p) => {
            proof {
                assert(w as u32 == w && h as u32 == h);
            }
            Ok(PixImage::from_data(p, w as u32, h as u32, origin))
        },
        None => Err(DecodeError::Truncated),
    }
}

impl Decoder for TGA {
    open spec fn decoded(&self, data: Seq<u8>) -> Result<ImageView, DecodeError> {
        tga_spec(data)
    }

    fn decode(&self, data: Vec<u8>) -> (r: Result<PixImage, DecodeError>) {
        decode_tga(&data)
    }
}

} // verus!

use vstd::prelude::*;
use crate::image::PixImage;

verus! {

/// The ASCII decimal digits of `n`.
pub open spec fn dec(n: nat) -> Seq<u8>
    decreases n,
{
    if n < 10 {
        seq![(48 + n) as u8]
    } else {
        dec(n / 10) + seq![(48 + n % 10) as u8]
    }
}

/// The first `c` pixels of `row`, each as `"r g b "`.
pub open spec fn ppm_row(img: PixImage, row: int, c: nat) -> Seq<u8>
    decreases c,
{
    if c == 0 {
        seq![]
    } else {
        let p = img.pixel(c - 1, row);
        ppm_row(img, row, (c - 1) as nat) + dec(p.r as nat) + seq![32u8] + dec(p.g as nat) + seq![32u8]
            + dec(p.b as nat) + seq![32u8]
    }
}

/// The first `k` lines of pixels, top row first.
pub open spec fn ppm_rows(img: PixImage, k: nat) -> Seq<u8>
    decreases k,
{
    if k == 0 {
        seq![]
    } else {
        ppm_rows(img, (k - 1) as nat) + ppm_row(img, img.height - k, img.width as nat) + seq![10u8]
    }
}

/// A plain-text PPM file of the image: its magic number, the size, the maximum 255, then the
/// rows from the top, each pixel as `"r g b "`, each row ending in a newline.
pub open spec fn ppm_spec(img: PixImage) -> Seq<u8> {
    seq![80u8, 51u8, 10u8] + dec(img.width as nat) + seq![32u8] + dec(img.height as nat)
        + seq![10u8, 50u8, 53u8, 53u8, 10u8] + ppm_rows(img, img.height as nat)
}

/// Something that turns an image into the bytes of an image file.
pub trait Encoder {
    spec fn encoded(&self, img: PixImage) -> Seq<u8>;

    fn encode(&self, img: &PixImage) -> (r: Vec<u8>)
        requires
            img.wf(),
        ensures
            r@ == self.encoded(*img),
    ;
}

/// The plain-text PPM encoder.
#[derive(Debug)]
pub struct PPM;

fn push_dec(out: &mut Vec<u8>, n: u32)
    ensures
        final(out)@ == old(out)@ + dec(n as nat),
    decreases n,
{
    let ghost start = out@;
    if n >= 10 {
        push_dec(out, n / 10);
    }
    out.push(48 + (n % 10) as u8);
    proof {
        if n >= 10 {
            assert(out@ =~= start + dec(n as nat));
        } else {
            assert(out@ =~= start + dec(n as nat));
        }
    }
}

/// The PPM text of an image.
pub fn encode_ppm(img: &PixImage) -> (r: Vec<u8>)
    requires
        img.wf(),
    ensures
        r@ == ppm_spec(*img),
{
    let mut out: Vec<u8> = Vec::new();
    out.push(80);
    out.push(51);
    out.push(10);
    push_dec(&mut out, img.width);
    out.push(32);
    push_dec(&mut out, img.height);
    out.push(10);
    out.push(50);
    out.push(53);
    out.push(53);
    out.push(10);
    let ghost header = out@;
    let h = img.height;
    let w = img.width;
    let mut k: u32 = 0;
    while k < h
        invariant
            img.wf(),
            h == img.height,
            w == img.width,
            k <= h,
            out@ == header + ppm_rows(*img, k as nat),
        decreases h - k,
    {
        let row = h - 1 - k;
        let ghost line_start = out@;
        let mut c: u32 = 0;
        while c < w
            invariant
                img.wf(),
                h == img.height,
                w == img.width,
                k < h,
                row == h - 1 - k,
                c <= w,
                out@ == line_start + ppm_row(*img, row as int, c as nat),
            decreases w - c,
        {
            let p = img.get(c, row);
            let ghost before = out@;
            push_dec(&mut out, p.r as u32);
            out.push(32);
            push_dec(&mut out, p.g as u32);
            out.push(32);
            push_dec(&mut out, p.b as u32);
            out.push(32);
            proof {
                assert(out@ =~= line_start + ppm_row(*img, row as int, (c + 1) as nat));
            }
            c = c + 1;
        }
        out.push(10);
        proof {
            assert(out@ =~= header + ppm_rows(*img, (k + 1) as nat));
        }
        k = k + 1;
    }
    proof {
        assert(out@ =~= ppm_spec(*img));
    }
    out
}

impl Encoder for PPM {
    open spec fn encoded(&self, img: PixImage) -> Seq<u8> {
        ppm_spec(img)
    }

    fn encode(&self, img: &PixImage) -> (r: Vec<u8>) {
        encode_ppm(img)
    }
}

} // verus!

use yatsr::image::{PixImage, Rgb};
use yatsr::mipmap::{quarter, Mipmap};
use yatsr::sat::SummedAreaTable;
use yatsr::geometry::{Vec3, Vec4};
use yatsr::shape::Plane;
use yatsr::texture::{bilinear, nearest, Cubemap, Filter, Texture};
use yatsr::util::{isqrt, log2_fixed, sub_img};

fn gray(w: u32, h: u32, f: impl Fn(u32, u32) -> u8) -> PixImage {
    let mut img = PixImage::new(w, h);
    for y in 0..h {
        for x in 0..w {
            let v = f(x, y);
            img.set_rgb24(x, y, Rgb { r: v, g: v, b: v });
        }
    }
    img
}

#[test]
fn nearest_and_bilinear_sampling() {
    let img = gray(2, 1, |x, _| if x == 0 { 0 } else { 200 });
    assert_eq!(nearest(&img, 0, 0).r, 0);
    assert_eq!(nearest(&img, 40000, 0).r, 200);
    assert_eq!(bilinear(&img, 32768, 0).r, 100);
    assert_eq!(bilinear(&img, 16384, 0).r, 50);
    // coordinates are clamped to [0, 1]
    assert_eq!(bilinear(&img, -5, 0).r, 0);
    assert_eq!(bilinear(&img, 1 << 20, 0).r, 200);
    let t = Texture::new(gray(2, 1, |x, _| if x == 0 { 0 } else { 200 }));
    assert_eq!(t.filter, Filter::Bilinear);
    assert_eq!(t.get(32768, 0).r, 100);
    let n = Texture::neareat(gray(2, 1, |x, _| if x == 0 { 0 } else { 200 }));
    assert_eq!(n.filter, Filter::Nearest);
    assert_eq!(n.get(32768, 0).r, 200);
}

#[test]
fn quarter_averages_blocks() {
    let img = gray(3, 2, |x, y| (x * 10 + y * 100) as u8);
    let q = quarter(&img);
    assert_eq!((q.width, q.height), (2, 1));
    // (0,0): 0, 10, 100, 110 -> 55
    assert_eq!(q.get(0, 0).r, 55);
    // (1,0): 20, 20, 120, 120 -> 70 (the odd last column repeats)
    assert_eq!(q.get(1, 0).r, 70);
}

#[test]
fn mipmap_pyramid() {
    let m = Mipmap::new(gray(5, 3, |x, y| (x + y) as u8));
    let dims: Vec<(u32, u32)> = m.images.iter().map(|t| (t.image.width, t.image.height)).collect();
    assert_eq!(dims, vec![(5, 3), (3, 2), (2, 1), (1, 1)]);
    // ceil(log2(5)) + 1 levels
    assert_eq!(m.images.len(), 4);
    let square = Mipmap::new(gray(8, 8, |_, _| 0));
    assert_eq!(square.images.len(), 4);
    let single = Mipmap::new(gray(1, 1, |_, _| 0));
    assert_eq!(single.images.len(), 1);
}

#[test]
fn mipmap_levels_blend() {
    let m = Mipmap::new(gray(2, 2, |x, y| if (x + y) % 2 == 0 { 0 } else { 200 }));
    assert_eq!(m.images[1].image.get(0, 0).r, 100);
    // level 0 at the texel center (0, 0) is 0, level 1 is 100: halfway is 50
    assert_eq!(m.get_by_level(32768, 0, 0).r, 50);
    // levels past the last are the last
    assert_eq!(m.get_by_level(10 * 65536, 0, 0).r, 100);
}

fn checkerboard() -> PixImage {
    gray(8, 8, |x, y| if (x + y) % 2 == 0 { 255 } else { 0 })
}

#[test]
fn sat_box_sums_match_brute_force() {
    let img = checkerboard();
    let sat = SummedAreaTable::new(gray(8, 8, |x, y| if (x + y) % 2 == 0 { 255 } else { 0 }));
    let rects = [(0, 0, 8, 8), (1, 2, 4, 7), (3, 3, 3, 6), (0, 5, 1, 6), (2, 0, 7, 1), (5, 4, 8, 8)];
    for (c0, r0, c1, r1) in rects {
        let mut brute = 0u64;
        for y in r0..r1 {
            for x in c0..c1 {
                brute += img.get(x, y).r as u64;
            }
        }
        let s = sat.box_sum(c0, r0, c1, r1);
        assert_eq!(s[0], brute);
        assert_eq!(s[1], brute);
        assert_eq!(s[2], brute);
    }
}

#[test]
fn sat_filtered_lookup() {
    let sat = SummedAreaTable::new(checkerboard());
    // a 7 by 7 texel footprint averages to about half
    let c = sat.get(0, 0, 65536, 65536);
    assert_eq!(c.r, (255 * 25 / 49) as u8);
    // a footprint of at most one texel is the nearest texel to its center
    let c = sat.get(0, 0, 0, 0);
    assert_eq!(c.r, 255);
}

#[test]
fn integer_square_root_and_log2() {
    assert_eq!(isqrt(0), 0);
    assert_eq!(isqrt(15), 3);
    assert_eq!(isqrt(16), 4);
    assert_eq!(isqrt(u128::MAX), u64::MAX);
    assert_eq!(log2_fixed(65536), 0);
    assert_eq!(log2_fixed(2 * 65536), 65536);
    assert_eq!(log2_fixed(8 * 65536), 3 * 65536);
    assert_eq!(log2_fixed(3 * 65536), 65536 + 32768);
    assert_eq!(log2_fixed(100), 0);
}

#[test]
fn mip_level_from_footprint() {
    let m = Mipmap::new(gray(64, 64, |_, _| 0));
    // one texel step: level 0
    assert_eq!(m.mip_level((0, 0), (1024, 0), (0, 1024)), 0);
    // four texels along one neighbour: level 2
    assert_eq!(m.mip_level((0, 0), (0, 4096), (1024, 0)), 2 * 65536);
    // a 3-4-5 step of five texels
    assert_eq!(m.mip_level((0, 0), (3072, 4096), (0, 0)), 2 * 65536 + 16384);
}

#[test]
fn anisotropic_sampling() {
    // a texture that is 0 on its left half and 200 on its right half
    let m = Mipmap::new(gray(8, 8, |x, _| if x < 4 { 0 } else { 200 }));
    // a tiny square footprint: one sample at the first corner, level 0
    let c = m.get_anisotropic((0, 0), (100, 0), (100, 100), (0, 100));
    assert_eq!(c.r, 0);
    // a footprint as long as the texture along x and thin along y: samples
    // spread along x and average the two halves
    let c = m.get_anisotropic((0, 30000), (0, 31000), (65536, 31000), (65536, 30000));
    assert!(c.r > 50 && c.r < 150);
}

#[test]
fn cubemap_faces() {
    let c = Cubemap::colored();
    // inside the cube, looking along +z: the front face, red
    assert_eq!(c.get(Vec3::new(0, 0, 30000)), Rgb { r: 255, g: 0, b: 0 });
    assert_eq!(c.get_uv(Vec3::new(0, 0, 30000)), (32768, 32768));
    assert_eq!(c.get(Vec3::new(0, 0, -30000)), Rgb { r: 0, g: 255, b: 0 });
    assert_eq!(c.get(Vec3::new(-30000, 100, 0)), Rgb { r: 0, g: 0, b: 255 });
    assert_eq!(c.get(Vec3::new(30000, 100, 0)), Rgb { r: 255, g: 0, b: 255 });
    assert_eq!(c.get(Vec3::new(0, 30000, 5)), Rgb { r: 255, g: 255, b: 0 });
    assert_eq!(c.get(Vec3::new(0, -30000, 5)), Rgb { r: 0, g: 255, b: 255 });
    // the centre and points on or outside a face look up nothing
    assert_eq!(c.get(Vec3::new(0, 0, 0)), Rgb { r: 255, g: 255, b: 0 });
    assert_eq!(c.get_uv(Vec3::new(0, 0, 65536)), (65536, 65536));
    // x = z/2 on the front face is three quarters across
    assert_eq!(c.get_uv(Vec3::new(100, -100, 200)), (49152, 16384));
}

#[test]
fn cubemap_from_regions() {
    let img = gray(4, 2, |x, _| (x * 50) as u8);
    let q = 16384;
    let faces = [(0, 0, q, 32768), (q, 0, q, 32768), (2 * q, 0, q, 32768), (3 * q, 0, q, 32768), (0, 32768, q, 32768), (q, 32768, q, 32768)];
    let c = Cubemap::new(&img, faces);
    assert_eq!(c.texture.len(), 6);
    assert_eq!(c.texture[2].image.get(0, 0).r, 100);
    assert_eq!(c.texture[3].image.get(0, 0).r, 150);
}

#[test]
fn sub_image_copies_region() {
    let img = gray(4, 4, |x, y| (x * 10 + y) as u8);
    let s = sub_img(&img, 32768, 16384, 32768, 32768);
    assert_eq!((s.width, s.height), (2, 2));
    assert_eq!(s.get(0, 0).r, 21);
    assert_eq!(s.get(1, 1).r, 32);
}

#[test]
fn plane_mesh() {
    let p = Plane::new();
    assert_eq!(p.face_count(), 2);
    assert_eq!(p.vert(1, 2), Vec3::new(65536, -65536, 0));
    assert_eq!(p.texture_coord(0, 0), Vec3::new(0, 65536, 0));
    assert_eq!(p.normal(1, 1), Vec3::new(0, 0, 65536));
}

#[test]
fn vector_norm_and_set() {
    assert_eq!(Vec3::new(3, 4, 12).norm(), 13);
    let mut v = Vec4::new(1, 2, 3, 4);
    v.set(3, 9);
    assert_eq!(v, Vec4::new(1, 2, 3, 9));
}

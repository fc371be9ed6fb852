use yatsr::geometry::{Vec3, Vec4};
use yatsr::image::{PixImage, Rgb};
use yatsr::mat::{transform_point, Mat4};
use yatsr::model::Object;
use yatsr::pipeline::{rasterize_triangle, render, super_sampling_offsets, to_screen, FragmentInfo, Shader};
use yatsr::raster::{barycentric, perspective, Bary, ScreenVertex, Triangle};
use yatsr::shaders::{FlatShader, TextureShader};
use yatsr::texture::Texture;

fn sv(x: i64, y: i64, z: i64, w: i64) -> ScreenVertex {
    ScreenVertex { x, y, z, w }
}

fn one_face_model() -> Object {
    let v = vec![Vec3::new(0, 0, 0), Vec3::new(0, 0, 0), Vec3::new(0, 0, 0)];
    Object::new(v.clone(), v.clone(), v, vec![[0, 1, 2]], vec![[0, 1, 2]], vec![[0, 1, 2]]).unwrap()
}

fn buffers(w: u32, h: u32) -> (PixImage, Vec<i64>) {
    (PixImage::new(w, h), vec![i64::MIN; (w * h) as usize])
}

#[test]
fn test_supper_sample_offsets() {
    let offsets = super_sampling_offsets(2);
    println!("{:?}", offsets);
    // in units of 1/4 pixel: the centers of the four quarters of the pixel
    assert_eq!(offsets, vec![(-1, -1), (1, -1), (-1, 1), (1, 1)]);
}

#[test]
fn single_triangle_scenario() {
    let (mut img, mut depth) = buffers(500, 500);
    let model = one_face_model();
    let shader = FlatShader::new(Rgb { r: 255, g: 128, b: 0 });
    let t = Triangle { a: sv(100, 100, 0, 1), b: sv(400, 200, 0, 1), c: sv(120, 400, 0, 1) };
    rasterize_triangle(&mut img, &mut depth, &shader, &model, 0, &t, &Vec::new(), 0);
    assert_eq!(img.get(200, 200), Rgb { r: 255, g: 128, b: 0 });
    assert_eq!(img.get(10, 10), Rgb { r: 0, g: 0, b: 0 });
}

#[test]
fn barycentric_weights_sum_to_one_inside() {
    let t = Triangle { a: sv(0, 0, 0, 1), b: sv(10, 0, 0, 1), c: sv(0, 10, 0, 1) };
    let w = barycentric(&t, 2, 3, 1);
    assert_eq!(w.a + w.b + w.c, w.den);
    assert!(w.a > 0 && w.a < w.den && w.b > 0 && w.b < w.den && w.c > 0 && w.c < w.den);
    assert_eq!(w, Bary { a: 50, b: 20, c: 30, den: 100 });
    // the same weights with the vertices in the other orientation
    let t2 = Triangle { a: sv(0, 0, 0, 1), b: sv(0, 10, 0, 1), c: sv(10, 0, 0, 1) };
    let w2 = barycentric(&t2, 2, 3, 1);
    assert_eq!(w2, Bary { a: 50, b: 30, c: 20, den: 100 });
    // outside
    let w3 = barycentric(&t, 11, 3, 1);
    assert!(w3.a < 0);
}

#[test]
fn perspective_correct_midpoint() {
    // the world-space midpoint of the edge from a (w = 1) to b (w = 2) projects
    // to two thirds of the way along it on screen
    let t = Triangle { a: sv(0, 0, 0, 1), b: sv(300, 0, 0, 2), c: sv(0, 300, 0, 4) };
    let w = barycentric(&t, 200, 0, 1);
    assert_eq!(w.a * 3, w.den);
    assert_eq!(w.b * 3, w.den * 2);
    let p = perspective(&t, w);
    assert_eq!(p.a, p.b);
    assert_eq!(p.c, 0);
    assert_eq!(p.a * 2, p.den);
    // an attribute from 0 at a to 65536 at b is halfway there, not two thirds
    assert_eq!(p.interpolate([0, 65536, 0]), Some(32768));
    assert_eq!(w.interpolate([0, 65536, 0]), Some(43690));
}

fn two_triangles() -> (Triangle, Triangle) {
    let near = Triangle { a: sv(0, 0, 100, 1), b: sv(20, 0, 100, 1), c: sv(0, 20, 100, 1) };
    let far = Triangle { a: sv(0, 0, -100, 1), b: sv(20, 0, -100, 1), c: sv(0, 20, -100, 1) };
    (near, far)
}

#[test]
fn depth_test_is_order_independent() {
    let model = one_face_model();
    let red = FlatShader::new(Rgb { r: 255, g: 0, b: 0 });
    let blue = FlatShader::new(Rgb { r: 0, g: 0, b: 255 });
    let (near, far) = two_triangles();
    let (mut a, mut da) = buffers(32, 32);
    rasterize_triangle(&mut a, &mut da, &blue, &model, 0, &far, &Vec::new(), 0);
    rasterize_triangle(&mut a, &mut da, &red, &model, 0, &near, &Vec::new(), 0);
    let (mut b, mut db) = buffers(32, 32);
    rasterize_triangle(&mut b, &mut db, &red, &model, 0, &near, &Vec::new(), 0);
    rasterize_triangle(&mut b, &mut db, &blue, &model, 0, &far, &Vec::new(), 0);
    assert_eq!(a.data, b.data);
    assert_eq!(da, db);
    assert_eq!(a.get(5, 5), Rgb { r: 255, g: 0, b: 0 });
    assert_eq!(da[5 * 32 + 5], 100);
}

#[test]
fn degenerate_triangle_draws_nothing() {
    let model = one_face_model();
    let shader = FlatShader::new(Rgb { r: 1, g: 1, b: 1 });
    let t = Triangle { a: sv(0, 0, 0, 1), b: sv(5, 5, 0, 1), c: sv(10, 10, 0, 1) };
    let (mut img, mut depth) = buffers(16, 16);
    rasterize_triangle(&mut img, &mut depth, &shader, &model, 0, &t, &Vec::new(), 0);
    assert!(img.data.iter().all(|b| *b == 0));
    assert!(depth.iter().all(|d| *d == i64::MIN));
}

#[test]
fn supersampling_averages_edge_pixels() {
    let model = one_face_model();
    let shader = FlatShader::new(Rgb { r: 200, g: 200, b: 200 });
    let t = Triangle { a: sv(0, 0, 0, 1), b: sv(8, 0, 0, 1), c: sv(0, 8, 0, 1) };
    let (mut img, mut depth) = buffers(16, 16);
    let offsets = super_sampling_offsets(2);
    rasterize_triangle(&mut img, &mut depth, &shader, &model, 0, &t, &offsets, 2);
    // inside: every sample colored, opaque
    assert_eq!(img.get_rgba(2, 2).r, 200);
    assert_eq!(img.get_rgba(2, 2).a, 255);
    // well outside: untouched
    assert_eq!(img.get_rgba(12, 12).a, 0);
}

fn square_model() -> Object {
    let s = 65536 / 2;
    let verts = vec![Vec3::new(-s, -s, 0), Vec3::new(s, -s, 0), Vec3::new(s, s, 0), Vec3::new(-s, s, 0)];
    let uvs = vec![Vec3::new(0, 0, 0), Vec3::new(65536, 0, 0), Vec3::new(65536, 65536, 0), Vec3::new(0, 65536, 0)];
    let n = vec![Vec3::new(0, 0, 1); 4];
    let faces = vec![[0, 1, 2], [0, 2, 3]];
    Object::new(verts, uvs, n, faces.clone(), faces.clone(), faces).unwrap()
}

#[test]
fn render_twice_is_identical() {
    let model = square_model();
    let shader = FlatShader::new(Rgb { r: 9, g: 8, b: 7 });
    let (mut a, mut da) = buffers(20, 20);
    render(&mut a, &mut da, &shader, &model, 1);
    let (mut b, mut db) = buffers(20, 20);
    render(&mut b, &mut db, &shader, &model, 1);
    assert_eq!(a.data, b.data);
    assert_eq!(da, db);
    // the square covers the middle of the screen
    assert_eq!(a.get(10, 10), Rgb { r: 9, g: 8, b: 7 });
    assert_eq!(a.get(1, 1), Rgb { r: 0, g: 0, b: 0 });
}

#[test]
fn viewport_transform() {
    let v = to_screen(Vec4::new(0, 0, 32768, 65536), 100, 50).unwrap();
    assert_eq!(v, ScreenVertex { x: 50, y: 25, z: 32768, w: 65536 });
    let v = to_screen(Vec4::new(-2, 2, 0, 2), 100, 50).unwrap();
    assert_eq!((v.x, v.y), (0, 50));
    assert!(to_screen(Vec4::new(1, 1, 1, 0), 100, 50).is_none());
    assert!(to_screen(Vec4::new(1, 1, 1, -5), 100, 50).is_none());
}

#[test]
fn textured_square() {
    let mut tex = PixImage::new(2, 2);
    tex.set_rgb24(0, 0, Rgb { r: 255, g: 0, b: 0 });
    tex.set_rgb24(1, 0, Rgb { r: 0, g: 255, b: 0 });
    tex.set_rgb24(0, 1, Rgb { r: 0, g: 0, b: 255 });
    tex.set_rgb24(1, 1, Rgb { r: 255, g: 255, b: 255 });
    let shader = TextureShader::new(Texture::neareat(tex), Mat4::identity());
    let model = square_model();
    let (mut img, mut depth) = buffers(40, 40);
    render(&mut img, &mut depth, &shader, &model, 0);
    assert_eq!(img.get(13, 13), Rgb { r: 255, g: 0, b: 0 });
    assert_eq!(img.get(26, 13), Rgb { r: 0, g: 255, b: 0 });
    assert_eq!(img.get(13, 26), Rgb { r: 0, g: 0, b: 255 });
    assert_eq!(img.get(26, 26), Rgb { r: 255, g: 255, b: 255 });
}

#[test]
fn fragment_info_neighbours() {
    let t = Triangle { a: sv(0, 0, 0, 1), b: sv(10, 0, 0, 1), c: sv(0, 10, 0, 1) };
    let w = barycentric(&t, 2, 3, 1);
    let info = FragmentInfo { width: 16, height: 16, face: 0, vertices: t, x: 2, y: 3, q: 1, z: 0, bar: perspective(&t, w) };
    let right = info.right_barycentry();
    assert_eq!(right.b * 10, right.den * 3);
    let top = info.top_barycentric();
    assert_eq!(top.c * 10, top.den * 2);
    assert_eq!(info.barycentric_interpolate([0, 100, 200]), Some(80));
    let _ = FlatShader::new(Rgb { r: 0, g: 0, b: 0 }).fragment(&one_face_model(), &info);
}

#[test]
fn matrix_transform() {
    let mut m = Mat4::identity();
    // scale x by 2, move y by 1, and set w = z + 1
    m.set(0, 0, 2 * 65536);
    m.set(1, 3, 65536);
    m.set(3, 2, 65536);
    let p = transform_point(&m, Vec3::new(3, 4, 5));
    assert_eq!(p, Vec4::new(6, 65540, 5, 65541));
    let t = m.transpose();
    assert_eq!(t.get(3, 1), 65536);
    assert_eq!(t.get(2, 3), 65536);
    let s = FlatShader::with_mvp(Rgb { r: 1, g: 2, b: 3 }, m);
    assert_eq!(s.mvp.get(0, 0), 2 * 65536);
}

#[test]
fn depth_outside_range_is_not_drawn() {
    let model = one_face_model();
    let shader = FlatShader::new(Rgb { r: 5, g: 5, b: 5 });
    let t = Triangle { a: sv(0, 0, 80000, 1), b: sv(10, 0, 80000, 1), c: sv(0, 10, 80000, 1) };
    let (mut img, mut depth) = buffers(16, 16);
    rasterize_triangle(&mut img, &mut depth, &shader, &model, 0, &t, &Vec::new(), 0);
    assert_eq!(img.get(2, 2), Rgb { r: 0, g: 0, b: 0 });
    let t = Triangle { a: sv(0, 0, 72089, 1), b: sv(10, 0, 72089, 1), c: sv(0, 10, 72089, 1) };
    rasterize_triangle(&mut img, &mut depth, &shader, &model, 0, &t, &Vec::new(), 0);
    assert_eq!(img.get(2, 2), Rgb { r: 5, g: 5, b: 5 });
}

#[test]
fn perspective_correct_skewed_quad() {
    // a quad leaning away: its top edge has twice the w of its bottom edge, so on
    // screen it is a trapezoid whose far half is squeezed
    let one = 65536;
    let verts = vec![Vec3::new(-one, -one, 0), Vec3::new(one, -one, 0), Vec3::new(one, one, one), Vec3::new(-one, one, one)];
    let uvs = vec![Vec3::new(0, 0, 0), Vec3::new(one, 0, 0), Vec3::new(one, one, 0), Vec3::new(0, one, 0)];
    let faces = vec![[0, 1, 2], [0, 2, 3]];
    let model = Object::new(verts, uvs, vec![Vec3::new(0, 0, one)], faces.clone(), faces, vec![[0, 0, 0]; 2]).unwrap();
    // black on the lower half of the texture, white on the upper
    let mut tex = PixImage::new(1, 2);
    tex.set_rgb24(0, 1, Rgb { r: 255, g: 255, b: 255 });
    let mut m = Mat4::identity();
    m.set(3, 2, one);
    let shader = TextureShader::new(Texture::neareat(tex), m);
    let (mut img, mut depth) = buffers(100, 100);
    render(&mut img, &mut depth, &shader, &model, 0);
    // the world-space middle of the quad projects to screen row 50; affine
    // interpolation on screen would put it at row 37
    assert_eq!(img.get(50, 44), Rgb { r: 0, g: 0, b: 0 });
    assert_eq!(img.get(50, 56), Rgb { r: 255, g: 255, b: 255 });
    assert_eq!(img.get(50, 10).r, 0);
    assert_eq!(img.get(50, 70), Rgb { r: 255, g: 255, b: 255 });
}

#[test]
fn supersampling_offsets_form_a_grid() {
    // in units of 1/8 pixel: columns at -3/8, -1/8, 1/8, 3/8
    let o = super_sampling_offsets(4);
    assert_eq!(o.len(), 16);
    assert_eq!(o[0], (-3, -3));
    assert_eq!(o[5], (-1, -1));
    assert_eq!(o[15], (3, 3));
    assert_eq!(o[7], (3, -1));
    let big = super_sampling_offsets(300);
    assert_eq!(big.len(), 90000);
    assert_eq!(big[0], (-299, -299));
    assert_eq!(big[89999], (299, 299));
    assert_eq!(super_sampling_offsets(1), vec![(0, 0)]);
}

#[test]
fn large_supersampling_factor() {
    let model = one_face_model();
    let shader = FlatShader::new(Rgb { r: 100, g: 100, b: 100 });
    let t = Triangle { a: sv(0, 0, 0, 1), b: sv(8, 0, 0, 1), c: sv(0, 8, 0, 1) };
    let (mut img, mut depth) = buffers(16, 16);
    let offsets = super_sampling_offsets(256);
    rasterize_triangle(&mut img, &mut depth, &shader, &model, 0, &t, &offsets, 256);
    assert_eq!(img.get_rgba(2, 2).r, 100);
    assert_eq!(img.get_rgba(2, 2).a, 255);
    assert_eq!(img.get_rgba(12, 12).a, 0);
}

fn two_face_model(near_first: bool) -> Object {
    let one = 65536;
    let q = one / 4;
    // the near face samples texel (0, 0), the far face texel (1, 1)
    let near = [Vec3::new(-one / 2, -one / 2, q), Vec3::new(one / 2, -one / 2, q), Vec3::new(0, one / 2, q)];
    let far = [Vec3::new(-one / 2, one / 2, -q), Vec3::new(0, -one / 2, -q), Vec3::new(one / 2, one / 2, -q)];
    let (first, second) = if near_first { (near, far) } else { (far, near) };
    let verts: Vec<Vec3> = first.iter().chain(second.iter()).cloned().collect();
    let uv_near = Vec3::new(0, 0, 0);
    let uv_far = Vec3::new(one, one, 0);
    let uvs = if near_first { vec![uv_near, uv_far] } else { vec![uv_far, uv_near] };
    let faces = vec![[0, 1, 2], [3, 4, 5]];
    Object::new(verts, uvs, vec![Vec3::new(0, 0, one)], faces, vec![[0, 0, 0], [1, 1, 1]], vec![[0, 0, 0]; 2]).unwrap()
}

#[test]
fn render_depth_order_is_irrelevant() {
    let mut tex = PixImage::new(2, 2);
    tex.set_rgb24(0, 0, Rgb { r: 255, g: 0, b: 0 });
    tex.set_rgb24(1, 1, Rgb { r: 0, g: 0, b: 255 });
    let shader = TextureShader::new(Texture::neareat(tex), Mat4::identity());
    let (mut a, mut da) = buffers(64, 64);
    render(&mut a, &mut da, &shader, &two_face_model(true), 0);
    let (mut b, mut db) = buffers(64, 64);
    render(&mut b, &mut db, &shader, &two_face_model(false), 0);
    assert_eq!(a.data, b.data);
    assert_eq!(da, db);
    // where both cover the pixel, the near (red) face wins
    assert_eq!(a.get(32, 30), Rgb { r: 255, g: 0, b: 0 });
    assert_eq!(da[30 * 64 + 32], 16384);
    // where only the far face covers it, blue
    assert_eq!(a.get(18, 46), Rgb { r: 0, g: 0, b: 255 });
}

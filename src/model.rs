use vstd::prelude::*;
use crate::geometry::{cross_fits, cross_spec, Vec3};
use vstd::string::StringSliceAdditionalSpecFns;
use crate::font::{find, find_from, lemma_find_bound, parse_signed, signed};

verus! {

/// What the pipeline reads of a mesh: faces of three corners, each corner with a
/// position, a texture coordinate and a normal.
pub trait Model {
    spec fn wf(&self) -> bool;

    /// Number of faces.
    spec fn faces(&self) -> int;

    spec fn vert_spec(&self, face: int, nth_vert: int) -> Vec3;

    spec fn texture_coord_spec(&self, face: int, nth_vert: int) -> Vec3;

    spec fn normal_spec(&self, face: int, nth_vert: int) -> Vec3;

    fn face_count(&self) -> (r: usize)
        requires
            self.wf(),
        ensures
            r == self.faces(),
    ;

    /// Position of corner `nth_vert` of face `face`.
    fn vert(&self, face: usize, nth_vert: usize) -> (r: Vec3)
        requires
            self.wf(),
            face < self.faces(),
            nth_vert < 3,
        ensures
            r == self.vert_spec(face as int, nth_vert as int),
    ;

    /// Texture coordinate of corner `nth_vert` of face `face`.
    fn texture_coord(&self, face: usize, nth_vert: usize) -> (r: Vec3)
        requires
            self.wf(),
            face < self.faces(),
            nth_vert < 3,
        ensures
            r == self.texture_coord_spec(face as int, nth_vert as int),
    ;

    /// Normal of corner `nth_vert` of face `face`.
    fn normal(&self, face: usize, nth_vert: usize) -> (r: Vec3)
        requires
            self.wf(),
            face < self.faces(),
            nth_vert < 3,
        ensures
            r == self.normal_spec(face as int, nth_vert as int),
    ;
}

/// A triangle mesh: vertex positions, texture coordinates and normals, and for
/// each face the indices of its three corners into each of them.
#[derive(Debug)]
pub struct Object {
    pub verts: Vec<Vec3>,
    pub texture_coords: Vec<Vec3>,
    pub vert_normals: Vec<Vec3>,
    pub face_vert_idx: Vec<[usize; 3]>,
    pub face_texture_idx: Vec<[usize; 3]>,
    pub vert_normal_idx: Vec<[usize; 3]>,
}

pub open spec fn indices_below(faces: Seq<[usize; 3]>, n: int) -> bool {
    forall|f: int, k: int| 0 <= f < faces.len() && 0 <= k < 3 ==> faces[f][k] < n
}

fn check_indices(faces: &Vec<[usize; 3]>, n: usize) -> (r: bool)
    ensures
        r == indices_below(faces@, n as int),
{
    let mut i: usize = 0;
    while i < faces.len()
        invariant
            i <= faces@.len(),
            forall|g: int, k: int| 0 <= g < i && 0 <= k < 3 ==> #[trigger] faces@[g][k] < n,
        decreases faces@.len() - i,
    {
        let f = faces[i];
        if f[0] >= n || f[1] >= n || f[2] >= n {
            proof {
                assert(faces@[i as int] == f);
                assert(!indices_below(faces@, n as int)) by {
                    if f[0] >= n {
                        assert(faces@[i as int][0] >= n);
                    } else if f[1] >= n {
                        assert(faces@[i as int][1] >= n);
                    } else {
                        assert(faces@[i as int][2] >= n);
                    }
                }
            }
            return false;
        }
        proof {
            assert(faces@[i as int] == f);
        }
        i = i + 1;
    }
    true
}

pub open spec fn small_point(p: Vec3) -> bool {
    -0x2000_0000 <= p.x <= 0x2000_0000 && -0x2000_0000 <= p.y <= 0x2000_0000 && -0x2000_0000 <= p.z <= 0x2000_0000
}

impl Object {
    pub open spec fn wf(&self) -> bool {
        &&& self.face_texture_idx@.len() == self.face_vert_idx@.len()
        &&& self.vert_normal_idx@.len() == self.face_vert_idx@.len()
        &&& indices_below(self.face_vert_idx@, self.verts@.len() as int)
        &&& indices_below(self.face_texture_idx@, self.texture_coords@.len() as int)
        &&& indices_below(self.vert_normal_idx@, self.vert_normals@.len() as int)
    }

    pub open spec fn faces(&self) -> int {
        self.face_vert_idx@.len() as int
    }

    /// A mesh over the given data, or `None` where the face lists differ in length
    /// or a corner refers past the end of its data.
    pub fn new(
        verts: Vec<Vec3>,
        texture_coords: Vec<Vec3>,
        vert_normals: Vec<Vec3>,
        face_vert_idx: Vec<[usize; 3]>,
        face_texture_idx: Vec<[usize; 3]>,
        vert_normal_idx: Vec<[usize; 3]>,
    ) -> (r: Option<Object>)
        ensures
            r is Some <==> (Object {
                verts, texture_coords, vert_normals, face_vert_idx, face_texture_idx, vert_normal_idx,
            }).wf(),
            r is Some ==> r->0 == (Object {
                verts, texture_coords, vert_normals, face_vert_idx, face_texture_idx, vert_normal_idx,
            }),
    {
        if face_texture_idx.len() != face_vert_idx.len() || vert_normal_idx.len() != face_vert_idx.len() {
            return None;
        }
        if !check_indices(&face_vert_idx, verts.len()) || !check_indices(&face_texture_idx, texture_coords.len())
            || !check_indices(&vert_normal_idx, vert_normals.len()) {
            return None;
        }
        Some(Object { verts, texture_coords, vert_normals, face_vert_idx, face_texture_idx, vert_normal_idx })
    }

    pub fn vert_count(&self) -> (r: usize)
        ensures
            r == self.verts@.len(),
    {
        self.verts.len()
    }

    pub fn face_count(&self) -> (r: usize)
        ensures
            r == self.faces(),
    {
        self.face_vert_idx.len()
    }

    pub fn has_normal_vector(&self) -> (r: bool)
        ensures
            r == (self.vert_normals@.len() > 0),
    {
        self.vert_normals.len() > 0
    }

    pub open spec fn vert_spec(&self, face: int, nth_vert: int) -> Vec3 {
        self.verts@[self.face_vert_idx@[face][nth_vert] as int]
    }

    pub open spec fn texture_coord_spec(&self, face: int, nth_vert: int) -> Vec3 {
        self.texture_coords@[self.face_texture_idx@[face][nth_vert] as int]
    }

    pub open spec fn normal_spec(&self, face: int, nth_vert: int) -> Vec3 {
        self.vert_normals@[self.vert_normal_idx@[face][nth_vert] as int]
    }

    /// Position of corner `nth_vert` of face `face`.
    pub fn vert(&self, face: usize, nth_vert: usize) -> (r: Vec3)
        requires
            self.wf(),
            face < self.faces(),
            nth_vert < 3,
        ensures
            r == self.vert_spec(face as int, nth_vert as int),
    {
        self.verts[self.face_vert_idx[face][nth_vert]]
    }

    /// Texture coordinate of corner `nth_vert` of face `face`.
    pub fn texture_coord(&self, face: usize, nth_vert: usize) -> (r: Vec3)
        requires
            self.wf(),
            face < self.faces(),
            nth_vert < 3,
        ensures
            r == self.texture_coord_spec(face as int, nth_vert as int),
    {
        self.texture_coords[self.face_texture_idx[face][nth_vert]]
    }

    /// The three corner positions of face `face`.
    pub fn verts_of_face(&self, face: usize) -> (r: [Vec3; 3])
        requires
            self.wf(),
            face < self.faces(),
        ensures
            forall|k: int| 0 <= k < 3 ==> #[trigger] r[k] == self.vert_spec(face as int, k),
    {
        [self.vert(face, 0), self.vert(face, 1), self.vert(face, 2)]
    }

    /// The three corner texture coordinates of face `face`.
    pub fn texture_coords_of_face(&self, face: usize) -> (r: [Vec3; 3])
        requires
            self.wf(),
            face < self.faces(),
        ensures
            forall|k: int| 0 <= k < 3 ==> #[trigger] r[k] == self.texture_coord_spec(face as int, k),
    {
        [self.texture_coord(face, 0), self.texture_coord(face, 1), self.texture_coord(face, 2)]
    }

    /// The normal of face `face`, not normalized: `(v1 - v0) x (v2 - v0)` of its
    /// corners, where every coordinate is within `2^29`.
    pub fn normal_of_face(&self, face: usize) -> (r: Option<Vec3>)
        requires
            self.wf(),
            face < self.faces(),
        ensures
            match r {
                Some(n) => {
                    let (v0, v1, v2) = (self.vert_spec(face as int, 0), self.vert_spec(face as int, 1),
                        self.vert_spec(face as int, 2));
                    let c = cross_spec(Vec3 { x: (v1.x - v0.x) as i64, y: (v1.y - v0.y) as i64, z: (v1.z - v0.z) as i64 },
                        Vec3 { x: (v2.x - v0.x) as i64, y: (v2.y - v0.y) as i64, z: (v2.z - v0.z) as i64 });
                    n.x == c.0 && n.y == c.1 && n.z == c.2
                },
                None => true,
            },
            r is Some <==> forall|k: int| 0 <= k < 3 ==> small_point(#[trigger] self.vert_spec(face as int, k)),
    {
        let v = self.verts_of_face(face);
        let l: i64 = 0x2000_0000;
        let ok = |p: Vec3| -> (b: bool)
            ensures
                b == (-l <= p.x <= l && -l <= p.y <= l && -l <= p.z <= l),
        { -l <= p.x && p.x <= l && -l <= p.y && p.y <= l && -l <= p.z && p.z <= l };
        if !(ok(v[0]) && ok(v[1]) && ok(v[2])) {
            proof {
                assert(!small_point(v[0]) || !small_point(v[1]) || !small_point(v[2]));
            }
            return None;
        }
        let a = Vec3 { x: v[1].x - v[0].x, y: v[1].y - v[0].y, z: v[1].z - v[0].z };
        let b = Vec3 { x: v[2].x - v[0].x, y: v[2].y - v[0].y, z: v[2].z - v[0].z };
        proof {
            let m: int = 0x4000_0000;
            crate::raster::lemma_mul_abs(a.y as int, b.z as int, m, m);
            crate::raster::lemma_mul_abs(a.z as int, b.y as int, m, m);
            crate::raster::lemma_mul_abs(a.z as int, b.x as int, m, m);
            crate::raster::lemma_mul_abs(a.x as int, b.z as int, m, m);
            crate::raster::lemma_mul_abs(a.x as int, b.y as int, m, m);
            crate::raster::lemma_mul_abs(a.y as int, b.x as int, m, m);
            assert(v[0] == self.vert_spec(face as int, 0));
            assert(v[1] == self.vert_spec(face as int, 1));
            assert(v[2] == self.vert_spec(face as int, 2));
        }
        Some(a.cross_product(b))
    }

    /// Normal of corner `nth_vert` of face `face`.
    pub fn normal(&self, face: usize, nth_vert: usize) -> (r: Vec3)
        requires
            self.wf(),
            face < self.faces(),
            nth_vert < 3,
        ensures
            r == self.normal_spec(face as int, nth_vert as int),
    {
        self.vert_normals[self.vert_normal_idx[face][nth_vert]]
    }
}

impl Model for Object {
    open spec fn wf(&self) -> bool {
        Object::wf(self)
    }

    open spec fn faces(&self) -> int {
        Object::faces(self)
    }

    open spec fn vert_spec(&self, face: int, nth_vert: int) -> Vec3 {
        Object::vert_spec(self, face, nth_vert)
    }

    open spec fn texture_coord_spec(&self, face: int, nth_vert: int) -> Vec3 {
        Object::texture_coord_spec(self, face, nth_vert)
    }

    open spec fn normal_spec(&self, face: int, nth_vert: int) -> Vec3 {
        Object::normal_spec(self, face, nth_vert)
    }

    fn face_count(&self) -> (r: usize) {
        Object::face_count(self)
    }

    fn vert(&self, face: usize, nth_vert: usize) -> (r: Vec3) {
        Object::vert(self, face, nth_vert)
    }

    fn texture_coord(&self, face: usize, nth_vert: usize) -> (r: Vec3) {
        Object::texture_coord(self, face, nth_vert)
    }

    fn normal(&self, face: usize, nth_vert: usize) -> (r: Vec3) {
        Object::normal(self, face, nth_vert)
    }
}

/// `s` split at every `sep`.
pub open spec fn split(s: Seq<u8>, sep: u8) -> Seq<Seq<u8>>
    decreases s.len(),
{
    let i = find(s, sep);
    if i < 0 || i >= s.len() {
        seq![s]
    } else {
        seq![s.subrange(0, i)] + split(s.subrange(i + 1, s.len() as int), sep)
    }
}

pub open spec fn is_face_pad(b: u8) -> bool {
    b == 102u8 || b == 32u8
}

/// Leading `f`s and spaces removed.
pub open spec fn trim_start(s: Seq<u8>) -> Seq<u8>
    decreases s.len(),
{
    if s.len() > 0 && is_face_pad(s[0]) { trim_start(s.subrange(1, s.len() as int)) } else { s }
}

/// Trailing `f`s and spaces removed.
pub open spec fn trim_end(s: Seq<u8>) -> Seq<u8>
    decreases s.len(),
{
    if s.len() > 0 && is_face_pad(s.last()) { trim_end(s.drop_last()) } else { s }
}

/// Vertex, texture and normal indices, in the order they appear.
pub type FaceIndices = (Seq<i32>, Seq<i32>, Seq<i32>);

/// One corner of a face: `v`, `v/vt`, `v/vt/vn` or `v//vn`, added to `acc`.
pub open spec fn face_corner(acc: FaceIndices, item: Seq<u8>) -> Option<FaceIndices> {
    let parts = split(item, 47u8);
    if parts.len() == 1 {
        match signed(parts[0]) {
            Some(v) => Some((acc.0.push(v), acc.1, acc.2)),
            None => None,
        }
    } else if parts.len() == 2 {
        match (signed(parts[0]), signed(parts[1])) {
            (Some(v), Some(t)) => Some((acc.0.push(v), acc.1.push(t), acc.2)),
            _ => None,
        }
    } else if parts.len() == 3 {
        let t = if parts[1].len() == 0 { Some(acc.1) } else {
            match signed(parts[1]) { Some(t) => Some(acc.1.push(t)), None => None }
        };
        match (signed(parts[0]), t, signed(parts[2])) {
            (Some(v), Some(ts), Some(n)) => Some((acc.0.push(v), ts, acc.2.push(n))),
            _ => None,
        }
    } else {
        None
    }
}

/// The corners `items[..k]` added in order.
pub open spec fn face_corners(items: Seq<Seq<u8>>, k: int) -> Option<FaceIndices>
    decreases k,
{
    if k <= 0 {
        Some((seq![], seq![], seq![]))
    } else {
        match face_corners(items, k - 1) {
            Some(acc) => face_corner(acc, items[k - 1]),
            None => None,
        }
    }
}

/// The indices of an OBJ face line: `f` and corners separated by single spaces.
pub open spec fn face_spec(line: Seq<u8>) -> Option<FaceIndices> {
    let items = split(trim_end(trim_start(line)), 32u8);
    face_corners(items, items.len() as int)
}

proof fn lemma_split_at(d: Seq<u8>, s: int, e: int, i: int, sep: u8)
    requires
        0 <= s <= i <= e <= d.len(),
        i == s + find(d.subrange(s, e), sep),
    ensures
        i >= e ==> split(d.subrange(s, e), sep) == seq![d.subrange(s, e)],
        i < e ==> split(d.subrange(s, e), sep) == seq![d.subrange(s, i)] + split(d.subrange(i + 1, e), sep),
{
    lemma_find_bound(d.subrange(s, e), sep);
    if i < e {
        assert(d.subrange(s, e).subrange(0, i - s) =~= d.subrange(s, i));
        assert(d.subrange(s, e).subrange(i - s + 1, e - s) =~= d.subrange(i + 1, e));
    }
}

/// Adds the corner `data[s..e]` to `acc`.
fn add_corner(data: &[u8], s: usize, e: usize, acc: &mut (Vec<i32>, Vec<i32>, Vec<i32>)) -> (r: bool)
    requires
        s <= e <= data@.len(),
    ensures
        r == face_corner((old(acc).0@, old(acc).1@, old(acc).2@), data@.subrange(s as int, e as int)) is Some,
        r ==> face_corner((old(acc).0@, old(acc).1@, old(acc).2@), data@.subrange(s as int, e as int))
            == Some((final(acc).0@, final(acc).1@, final(acc).2@)),
{
    let ghost item = data@.subrange(s as int, e as int);
    let i1 = find_from(data, s, e, 47);
    proof {
        lemma_split_at(data@, s as int, e as int, i1 as int, 47u8);
    }
    if i1 >= e {
        match parse_signed(data, s, e) {
            Some(v) => {
                acc.0.push(v);
                return true;
            },
            None => {
                return false;
            },
        }
    }
    let i2 = find_from(data, i1 + 1, e, 47);
    proof {
        lemma_split_at(data@, i1 + 1, e as int, i2 as int, 47u8);
    }
    if i2 >= e {
        match (parse_signed(data, s, i1), parse_signed(data, i1 + 1, e)) {
            (Some(v), Some(t)) => {
                acc.0.push(v);
                acc.1.push(t);
                return true;
            },
            _ => {
                return false;
            },
        }
    }
    let i3 = find_from(data, i2 + 1, e, 47);
    proof {
        lemma_split_at(data@, i2 + 1, e as int, i3 as int, 47u8);
    }
    if i3 < e {
        proof {
            assert(split(item, 47u8).len() > 3);
        }
        return false;
    }
    let v = parse_signed(data, s, i1);
    let t = if i2 == i1 + 1 { None } else { parse_signed(data, i1 + 1, i2) };
    let n = parse_signed(data, i2 + 1, e);
    proof {
        assert(split(item, 47u8) == seq![data@.subrange(s as int, i1 as int), data@.subrange(i1 + 1, i2 as int),
            data@.subrange(i2 + 1, e as int)]);
        assert((data@.subrange(i1 + 1, i2 as int).len() == 0) == (i2 == i1 + 1));
    }
    match (v, n) {
        (Some(v), Some(n)) => {
            if i2 != i1 + 1 {
                match t {
                    Some(t) => {
                        acc.1.push(t);
                    },
                    None => {
                        return false;
                    },
                }
            }
            acc.0.push(v);
            acc.2.push(n);
            true
        },
        _ => false,
    }
}

/// The vertex, texture and normal indices of an OBJ face line such as
/// `f 1/2/3 4/5/6 7/8/9`, `f 1 2 3`, `f 1/2 3/4 5/6` or `f 1//2 3//4 5//6`;
/// `None` where a corner is not one of those forms.
pub fn parse_face(line: &str) -> (r: Option<(Vec<i32>, Vec<i32>, Vec<i32>)>)
    ensures
        match r {
            Some(f) => face_spec(line.spec_bytes()) == Some((f.0@, f.1@, f.2@)),
            None => face_spec(line.spec_bytes()) is None,
        },
{
    let data = line.as_bytes();
    let len = data.len();
    let mut a: usize = 0;
    proof {
        assert(data@.subrange(0, len as int) =~= data@);
    }
    while a < len && (data[a] == 102 || data[a] == 32)
        invariant
            a <= len == data@.len(),
            trim_start(data@) == trim_start(data@.subrange(a as int, len as int)),
        decreases len - a,
    {
        proof {
            assert(data@.subrange(a as int, len as int).subrange(1, len - a) =~= data@.subrange(a + 1, len as int));
        }
        a = a + 1;
    }
    proof {
        assert(data@.subrange(0, len as int) =~= data@);
    }
    let mut b: usize = len;
    while b > a && (data[b - 1] == 102 || data[b - 1] == 32)
        invariant
            a <= b <= len == data@.len(),
            trim_end(trim_start(data@)) == trim_end(data@.subrange(a as int, b as int)),
            a < len ==> !(data@[a as int] == 102 || data@[a as int] == 32),
        decreases b - a,
    {
        proof {
            assert(data@.subrange(a as int, b as int).drop_last() =~= data@.subrange(a as int, b - 1));
        }
        b = b - 1;
    }
    proof {
        let t = data@.subrange(a as int, b as int);
        if b > a {
            assert(!is_face_pad(t.last()));
            assert(trim_end(t) == t);
            if a < len {
                assert(trim_start(data@.subrange(a as int, len as int)) == data@.subrange(a as int, len as int));
            }
        } else {
            assert(trim_end(t) == t);
        }
    }
    proof {
        assert(trim_end(trim_start(data@)) == data@.subrange(a as int, b as int));
    }
    let ghost items = split(data@.subrange(a as int, b as int), 32u8);
    let mut acc: (Vec<i32>, Vec<i32>, Vec<i32>) = (Vec::new(), Vec::new(), Vec::new());
    let mut pos = a;
    let mut done = false;
    let ghost mut k: int = 0;
    proof {
        assert(items.subrange(0, items.len() as int) =~= items);
        assert(acc.0@ =~= seq![] && acc.1@ =~= seq![] && acc.2@ =~= seq![]);
    }
    while !done
        invariant
            a <= pos <= b <= len == data@.len(),
            items == split(data@.subrange(a as int, b as int), 32u8),
            data@ == line.spec_bytes(),
            trim_end(trim_start(data@)) == data@.subrange(a as int, b as int),
            0 <= k <= items.len(),
            !done ==> items.subrange(k, items.len() as int) == split(data@.subrange(pos as int, b as int), 32u8),
            done ==> k == items.len(),
            face_corners(items, k) == Some((acc.0@, acc.1@, acc.2@)),
        decreases b + 1 - pos - (if done { 1int } else { 0 }),
    {
        let i = find_from(data, pos, b, 32);
        proof {
            lemma_split_at(data@, pos as int, b as int, i as int, 32u8);
            assert(split(data@.subrange(pos as int, b as int), 32u8).len() >= 1);
            assert(items.subrange(k, items.len() as int).len() >= 1);
            assert(k < items.len());
            assert(items.subrange(k, items.len() as int)[0] == items[k]);
            assert(items[k] == data@.subrange(pos as int, i as int));
        }
        if !add_corner(data, pos, i, &mut acc) {
            proof {
                assert(face_corners(items, k + 1) is None);
                lemma_corners_stay_none(items, k + 1, items.len() as int);
                assert(data@ == line.spec_bytes());
                assert(face_spec(line.spec_bytes()) is None);
            }
            return None;
        }
        proof {
            k = k + 1;
        }
        if i >= b {
            done = true;
            proof {
                assert(items.subrange(k - 1, items.len() as int).len() == 1);
            }
        } else {
            proof {
                assert(items.subrange(k, items.len() as int) =~= items.subrange(k - 1, items.len() as int).subrange(1, items.len() - k + 1));
            }
            pos = i + 1;
        }
    }
    Some(acc)
}

proof fn lemma_corners_stay_none(items: Seq<Seq<u8>>, k: int, n: int)
    requires
        face_corners(items, k) is None,
        k <= n,
    ensures
        face_corners(items, n) is None,
    decreases n - k,
{
    if k < n {
        lemma_corners_stay_none(items, k, n - 1);
    }
}

/// The position in a list of `count` entries that an OBJ index names: `i` counts
/// from 1 at the start, `-i` from 1 at the end; `None` where it names none.
pub open spec fn resolve_spec(idx: int, count: int) -> Option<int> {
    if 1 <= idx <= count {
        Some(idx - 1)
    } else if -count <= idx <= -1 {
        Some(count + idx)
    } else {
        None
    }
}

pub fn resolve_index(idx: i32, count: usize) -> (r: Option<usize>)
    ensures
        match r {
            Some(i) => resolve_spec(idx as int, count as int) == Some(i as int),
            None => resolve_spec(idx as int, count as int) is None,
        },
{
    if idx >= 1 && (idx as u64) <= count as u64 {
        Some((idx - 1) as usize)
    } else if idx <= -1 && (-(idx as i64)) as u64 <= count as u64 {
        Some(count - (-(idx as i64)) as usize)
    } else {
        None
    }
}

} // verus!

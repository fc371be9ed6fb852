use vstd::prelude::*;
use crate::geometry::{Vec3, Vec4};
use crate::raster::{abs, lemma_mul_abs};
use crate::util::floor_div;

verus! {

/// Matrix entries and transformed coordinates are fixed-point: `MAT_ONE` is 1.
pub const MAT_ONE: i64 = 0x1_0000;

/// Largest magnitude of a matrix entry, and of a point's coordinate, that
/// `transform_point` takes.
pub const MAT_LIMIT: i64 = 0x4000_0000;

/// A 4 by 4 matrix, row-major, entries in units of `1 / MAT_ONE`.
#[derive(Clone, Copy, Debug)]
pub struct Mat4(pub [i64; 16]);

pub open spec fn mat_ok(m: Mat4) -> bool {
    forall|i: int| 0 <= i < 16 ==> abs(#[trigger] m.0[i] as int) <= MAT_LIMIT
}

pub open spec fn point_ok(p: Vec3) -> bool {
    abs(p.x as int) <= MAT_LIMIT && abs(p.y as int) <= MAT_LIMIT && abs(p.z as int) <= MAT_LIMIT
}

/// Row `r` of `m` times the homogeneous point `(x, y, z, 1)`, in units of
/// `1 / MAT_ONE`, rounded down.
pub open spec fn row_times(m: Mat4, r: int, p: Vec3) -> int {
    (m.0[4 * r] * p.x + m.0[4 * r + 1] * p.y + m.0[4 * r + 2] * p.z + m.0[4 * r + 3] * MAT_ONE) / (MAT_ONE as int)
}

/// `m` applied to the point `p` (with `w = 1`).
pub open spec fn transform_spec(m: Mat4, p: Vec3) -> Vec4 {
    Vec4 {
        x: row_times(m, 0, p) as i64,
        y: row_times(m, 1, p) as i64,
        z: row_times(m, 2, p) as i64,
        w: row_times(m, 3, p) as i64,
    }
}

impl Mat4 {
    pub open spec fn identity_spec() -> Mat4 {
        Mat4([MAT_ONE, 0, 0, 0, 0, MAT_ONE, 0, 0, 0, 0, MAT_ONE, 0, 0, 0, 0, MAT_ONE])
    }

    /// The identity.
    pub fn identity() -> (r: Mat4)
        ensures
            r == Mat4::identity_spec(),
            mat_ok(r),
            forall|i: int| 0 <= i < 16 ==> #[trigger] r.0[i] == (if i % 5 == 0 { MAT_ONE } else { 0 }),
    {
        let o = MAT_ONE;
        let r = Mat4([o, 0, 0, 0, 0, o, 0, 0, 0, 0, o, 0, 0, 0, 0, o]);
        proof {
            assert forall|i: int| 0 <= i < 16 implies #[trigger] r.0[i] == (if i % 5 == 0 { MAT_ONE } else { 0 }) by {
                assert(r.0@ == seq![o, 0, 0, 0, 0, o, 0, 0, 0, 0, o, 0, 0, 0, 0, o]);
            }
        }
        r
    }

    /// The entry in row `r`, column `c`.
    pub fn get(&self, r: u8, c: u8) -> (v: i64)
        requires
            r < 4,
            c < 4,
        ensures
            v == self.0[4 * r + c],
    {
        self.0[(c + r * 4) as usize]
    }

    /// Sets the entry in row `r`, column `c`.
    pub fn set(&mut self, r: u8, c: u8, val: i64)
        requires
            r < 4,
            c < 4,
        ensures
            final(self).0@ == old(self).0@.update(4 * r + c, val),
    {
        self.0[(c + r * 4) as usize] = val;
    }

    /// The transpose.
    pub fn transpose(&self) -> (t: Mat4)
        ensures
            forall|r: int, c: int| 0 <= r < 4 && 0 <= c < 4 ==> #[trigger] t.0[4 * r + c] == self.0[4 * c + r],
    {
        let mut t = Mat4([0; 16]);
        let mut r: u8 = 0;
        while r < 4
            invariant
                r <= 4,
                forall|r2: int, c2: int| 0 <= r2 < r && 0 <= c2 < 4 ==> #[trigger] t.0[4 * r2 + c2] == self.0[4 * c2 + r2],
            decreases 4 - r,
        {
            let mut c: u8 = 0;
            while c < 4
                invariant
                    r < 4,
                    c <= 4,
                    forall|r2: int, c2: int| (0 <= r2 < r && 0 <= c2 < 4 || r2 == r && 0 <= c2 < c)
                        ==> #[trigger] t.0[4 * r2 + c2] == self.0[4 * c2 + r2],
                decreases 4 - c,
            {
                let v = self.get(c, r);
                t.set(r, c, v);
                c = c + 1;
            }
            r = r + 1;
        }
        t
    }
}

fn row_exec(m: &Mat4, r: usize, p: Vec3) -> (v: i64)
    requires
        r < 4,
        mat_ok(*m),
        point_ok(p),
    ensures
        v == row_times(*m, r as int, p),
{
    let ghost l = MAT_LIMIT as int;
    proof {
        assert(abs(m.0[4 * r as int] as int) <= l);
        assert(abs(m.0[4 * r + 1] as int) <= l);
        assert(abs(m.0[4 * r + 2] as int) <= l);
        assert(abs(m.0[4 * r + 3] as int) <= l);
        lemma_mul_abs(m.0[4 * r as int] as int, p.x as int, l, l);
        lemma_mul_abs(m.0[4 * r + 1] as int, p.y as int, l, l);
        lemma_mul_abs(m.0[4 * r + 2] as int, p.z as int, l, l);
        lemma_mul_abs(m.0[4 * r + 3] as int, MAT_ONE as int, l, MAT_ONE as int);
    }
    let n: i128 = m.0[4 * r] as i128 * p.x as i128 + m.0[4 * r + 1] as i128 * p.y as i128
        + m.0[4 * r + 2] as i128 * p.z as i128 + m.0[4 * r + 3] as i128 * MAT_ONE as i128;
    let q = floor_div(n, MAT_ONE as i128);
    proof {
        let b: int = 4 * l * l;
        assert(-b <= n <= b);
        vstd::arithmetic::div_mod::lemma_div_is_ordered(n as int, b, MAT_ONE as int);
        vstd::arithmetic::div_mod::lemma_div_is_ordered(-b, n as int, MAT_ONE as int);
    }
    q as i64
}

/// `m` applied to the point `p`.
pub fn transform_point(m: &Mat4, p: Vec3) -> (r: Vec4)
    requires
        mat_ok(*m),
        point_ok(p),
    ensures
        r == transform_spec(*m, p),
{
    Vec4 { x: row_exec(m, 0, p), y: row_exec(m, 1, p), z: row_exec(m, 2, p), w: row_exec(m, 3, p) }
}

} // verus!

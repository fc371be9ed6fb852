use vstd::prelude::*;
use crate::util::{isqrt, isqrt_spec};

verus! {

/// A three-component integer vector.
#[derive(Clone, Copy, Debug, PartialEq, Eq, Structural)]
pub struct Vec3 {
    pub x: i64,
    pub y: i64,
    pub z: i64,
}

/// A four-component integer vector (homogeneous coordinates).
#[derive(Clone, Copy, Debug, PartialEq, Eq, Structural)]
pub struct Vec4 {
    pub x: i64,
    pub y: i64,
    pub z: i64,
    pub w: i64,
}

pub open spec fn fits_i64(v: int) -> bool {
    i64::MIN <= v <= i64::MAX
}

/// The cross product over mathematical integers.
pub open spec fn cross_spec(a: Vec3, b: Vec3) -> (int, int, int) {
    (
        a.y * b.z - a.z * b.y,
        a.z * b.x - a.x * b.z,
        a.x * b.y - a.y * b.x,
    )
}

/// The products that the cross product of `a` and `b` forms, and its components,
/// all fit in `i64`.
pub open spec fn cross_fits(a: Vec3, b: Vec3) -> bool {
    &&& fits_i64(a.y * b.z) && fits_i64(a.z * b.y)
    &&& fits_i64(a.z * b.x) && fits_i64(a.x * b.z)
    &&& fits_i64(a.x * b.y) && fits_i64(a.y * b.x)
    &&& fits_i64(cross_spec(a, b).0)
    &&& fits_i64(cross_spec(a, b).1)
    &&& fits_i64(cross_spec(a, b).2)
}

impl Vec3 {
    pub fn new(x: i64, y: i64, z: i64) -> (r: Vec3)
        ensures
            r == (Vec3 { x, y, z }),
    {
        Vec3 { x, y, z }
    }

    /// The cross product `self × rhs`.
    pub fn cross_product(self, rhs: Vec3) -> (r: Vec3)
        requires
            cross_fits(self, rhs),
        ensures
            r.x == cross_spec(self, rhs).0,
            r.y == cross_spec(self, rhs).1,
            r.z == cross_spec(self, rhs).2,
    {
        let x = self.y * rhs.z - self.z * rhs.y;
        let y = self.z * rhs.x - self.x * rhs.z;
        let z = self.x * rhs.y - self.y * rhs.x;
        Vec3 { x, y, z }
    }

    /// The Euclidean length, rounded down.
    pub fn norm(self) -> (r: u64)
        requires
            -0x1_0000_0000_0000 <= self.x <= 0x1_0000_0000_0000,
            -0x1_0000_0000_0000 <= self.y <= 0x1_0000_0000_0000,
            -0x1_0000_0000_0000 <= self.z <= 0x1_0000_0000_0000,
        ensures
            r == isqrt_spec((self.x * self.x + self.y * self.y + self.z * self.z) as nat),
    {
        let (x, y, z) = (self.x as i128, self.y as i128, self.z as i128);
        proof {
            assert(0 <= x * x <= 0x1_0000_0000_0000_0000_0000_0000) by (nonlinear_arith)
                requires -0x1_0000_0000_0000 <= x <= 0x1_0000_0000_0000;
            assert(0 <= y * y <= 0x1_0000_0000_0000_0000_0000_0000) by (nonlinear_arith)
                requires -0x1_0000_0000_0000 <= y <= 0x1_0000_0000_0000;
            assert(0 <= z * z <= 0x1_0000_0000_0000_0000_0000_0000) by (nonlinear_arith)
                requires -0x1_0000_0000_0000 <= z <= 0x1_0000_0000_0000;
        }
        isqrt((x * x + y * y + z * z) as u128)
    }

    /// The component-wise product.
    pub fn product(self, rhs: Vec3) -> (r: Vec3)
        requires
            fits_i64(self.x * rhs.x),
            fits_i64(self.y * rhs.y),
            fits_i64(self.z * rhs.z),
        ensures
            r.x == self.x * rhs.x,
            r.y == self.y * rhs.y,
            r.z == self.z * rhs.z,
    {
        Vec3 { x: self.x * rhs.x, y: self.y * rhs.y, z: self.z * rhs.z }
    }
}

impl Vec4 {
    pub fn new(x: i64, y: i64, z: i64, w: i64) -> (r: Vec4)
        ensures
            r == (Vec4 { x, y, z, w }),
    {
        Vec4 { x, y, z, w }
    }

    /// Sets component `i`: 0 is x, 1 y, 2 z and 3 w.
    pub fn set(&mut self, i: u8, v: i64)
        requires
            i < 4,
        ensures
            final(self).x == (if i == 0 { v } else { old(self).x }),
            final(self).y == (if i == 1 { v } else { old(self).y }),
            final(self).z == (if i == 2 { v } else { old(self).z }),
            final(self).w == (if i == 3 { v } else { old(self).w }),
    {
        match i {
            0 => self.x = v,
            1 => self.y = v,
            2 => self.z = v,
            _ => self.w = v,
        }
    }
}

} // verus!

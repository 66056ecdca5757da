//! Two-, three- and four-component vectors and a 4x4 matrix.
//!
//! The types are generic over their component; the component-moving
//! operations (`xyz`, `transpose`) work for any `Copy` component, the
//! arithmetic ones are given for the integer instantiations that the
//! library computes with (`usize` grid sizes, `i64` lattice vectors).
use vstd::prelude::*;

verus! {

/// Is `v` representable as an `i64`?
pub open spec fn fits_i64(v: int) -> bool {
    i64::MIN <= v <= i64::MAX
}

#[derive(Clone, Copy, Debug, PartialEq, Eq)]
pub struct Vec2<T> {
    pub x: T,
    pub y: T,
}

#[derive(Clone, Copy, Debug, PartialEq, Eq)]
pub struct Vec3<T> {
    pub x: T,
    pub y: T,
    pub z: T,
}

#[derive(Clone, Copy, Debug, PartialEq, Eq)]
pub struct Vec4<T> {
    pub x: T,
    pub y: T,
    pub z: T,
    pub w: T,
}

/// A matrix stored as four row vectors.
#[derive(Clone, Copy, Debug, PartialEq, Eq)]
pub struct Mat4<T> {
    pub x: Vec4<T>,
    pub y: Vec4<T>,
    pub z: Vec4<T>,
    pub w: Vec4<T>,
}

impl Vec2<usize> {
    /// The number of cells of a `x` by `y` grid.
    pub fn area(&self) -> (r: usize)
        requires
            self.x * self.y <= usize::MAX,
        ensures
            r == self.x * self.y,
    {
        self.x * self.y
    }

    /// Component-wise product.
    pub fn hadamard(self, rhs: Self) -> (r: Self)
        requires
            self.x * rhs.x <= usize::MAX,
            self.y * rhs.y <= usize::MAX,
        ensures
            r.x == self.x * rhs.x,
            r.y == self.y * rhs.y,
    {
        Vec2 { x: self.x * rhs.x, y: self.y * rhs.y }
    }
}

impl Vec3<i64> {
    /// Cross product, defined when every product and difference fits.
    pub fn cross(self, rhs: Self) -> (r: Self)
        requires
            fits_i64(self.y * rhs.z),
            fits_i64(self.z * rhs.y),
            fits_i64(self.z * rhs.x),
            fits_i64(self.x * rhs.z),
            fits_i64(self.x * rhs.y),
            fits_i64(self.y * rhs.x),
            fits_i64(self.y * rhs.z - self.z * rhs.y),
            fits_i64(self.z * rhs.x - self.x * rhs.z),
            fits_i64(self.x * rhs.y - self.y * rhs.x),
        ensures
            r.x == self.y * rhs.z - self.z * rhs.y,
            r.y == self.z * rhs.x - self.x * rhs.z,
            r.z == self.x * rhs.y - self.y * rhs.x,
    {
        Vec3 {
            x: self.y * rhs.z - self.z * rhs.y,
            y: self.z * rhs.x - self.x * rhs.z,
            z: self.x * rhs.y - self.y * rhs.x,
        }
    }

    /// Dot product, summed left to right.
    pub fn dot(self, rhs: Self) -> (r: i64)
        requires
            fits_i64(self.x * rhs.x),
            fits_i64(self.y * rhs.y),
            fits_i64(self.z * rhs.z),
            fits_i64(self.x * rhs.x + self.y * rhs.y),
            fits_i64(self.x * rhs.x + self.y * rhs.y + self.z * rhs.z),
        ensures
            r == self.x * rhs.x + self.y * rhs.y + self.z * rhs.z,
    {
        self.x * rhs.x + self.y * rhs.y + self.z * rhs.z
    }

    /// Component-wise maximum.
    pub fn max(self, rhs: Self) -> (r: Self)
        ensures
            r.x == if self.x >= rhs.x { self.x } else { rhs.x },
            r.y == if self.y >= rhs.y { self.y } else { rhs.y },
            r.z == if self.z >= rhs.z { self.z } else { rhs.z },
    {
        Vec3 {
            x: if self.x >= rhs.x { self.x } else { rhs.x },
            y: if self.y >= rhs.y { self.y } else { rhs.y },
            z: if self.z >= rhs.z { self.z } else { rhs.z },
        }
    }

    /// Component-wise minimum.
    pub fn min(self, rhs: Self) -> (r: Self)
        ensures
            r.x == if self.x <= rhs.x { self.x } else { rhs.x },
            r.y == if self.y <= rhs.y { self.y } else { rhs.y },
            r.z == if self.z <= rhs.z { self.z } else { rhs.z },
    {
        Vec3 {
            x: if self.x <= rhs.x { self.x } else { rhs.x },
            y: if self.y <= rhs.y { self.y } else { rhs.y },
            z: if self.z <= rhs.z { self.z } else { rhs.z },
        }
    }

    /// The largest component.
    pub fn max_component(self) -> (r: i64)
        ensures
            r >= self.x && r >= self.y && r >= self.z,
            r == self.x || r == self.y || r == self.z,
    {
        let xy = if self.x >= self.y { self.x } else { self.y };
        if xy >= self.z { xy } else { self.z }
    }

    /// The smallest component.
    pub fn min_component(self) -> (r: i64)
        ensures
            r <= self.x && r <= self.y && r <= self.z,
            r == self.x || r == self.y || r == self.z,
    {
        let xy = if self.x <= self.y { self.x } else { self.y };
        if xy <= self.z { xy } else { self.z }
    }

    /// The sign of each component: -1, 0 or 1.
    pub fn signum(self) -> (r: Self)
        ensures
            r.x == sign(self.x as int),
            r.y == sign(self.y as int),
            r.z == sign(self.z as int),
    {
        Vec3 { x: signum_i64(self.x), y: signum_i64(self.y), z: signum_i64(self.z) }
    }

    /// 0 for each component below `edge`, 1 for the others.
    pub fn step(self, edge: i64) -> (r: Self)
        ensures
            r.x == if self.x < edge { 0i64 } else { 1i64 },
            r.y == if self.y < edge { 0i64 } else { 1i64 },
            r.z == if self.z < edge { 0i64 } else { 1i64 },
    {
        Vec3 {
            x: if self.x < edge { 0 } else { 1 },
            y: if self.y < edge { 0 } else { 1 },
            z: if self.z < edge { 0 } else { 1 },
        }
    }
}

/// -1, 0 or 1 as `v` is negative, zero or positive.
pub open spec fn sign(v: int) -> int {
    if v < 0 { -1 } else if v == 0 { 0 } else { 1 }
}

fn signum_i64(v: i64) -> (r: i64)
    ensures
        r == sign(v as int),
{
    if v < 0 {
        -1
    } else if v == 0 {
        0
    } else {
        1
    }
}

impl<T: Copy> Vec4<T> {
    /// The first three components.
    pub fn xyz(self) -> (r: Vec3<T>)
        ensures
            r == (Vec3 { x: self.x, y: self.y, z: self.z }),
    {
        Vec3 { x: self.x, y: self.y, z: self.z }
    }
}

impl Vec4<i64> {
    /// Component-wise product.
    pub fn hadamard(self, rhs: Self) -> (r: Self)
        requires
            fits_i64(self.x * rhs.x),
            fits_i64(self.y * rhs.y),
            fits_i64(self.z * rhs.z),
            fits_i64(self.w * rhs.w),
        ensures
            r.x == self.x * rhs.x,
            r.y == self.y * rhs.y,
            r.z == self.z * rhs.z,
            r.w == self.w * rhs.w,
    {
        Vec4 { x: self.x * rhs.x, y: self.y * rhs.y, z: self.z * rhs.z, w: self.w * rhs.w }
    }

    /// Sum of the components, added left to right.
    pub fn sum(self) -> (r: i64)
        requires
            fits_i64(self.x + self.y),
            fits_i64(self.x + self.y + self.z),
            fits_i64(self.x + self.y + self.z + self.w),
        ensures
            r == self.x + self.y + self.z + self.w,
    {
        self.x + self.y + self.z + self.w
    }
}

impl<T: Copy> Mat4<T> {
    /// Rows become columns.
    pub fn transpose(self) -> (r: Self)
        ensures
            r.x == (Vec4 { x: self.x.x, y: self.y.x, z: self.z.x, w: self.w.x }),
            r.y == (Vec4 { x: self.x.y, y: self.y.y, z: self.z.y, w: self.w.y }),
            r.z == (Vec4 { x: self.x.z, y: self.y.z, z: self.z.z, w: self.w.z }),
            r.w == (Vec4 { x: self.x.w, y: self.y.w, z: self.z.w, w: self.w.w }),
    {
        Mat4 {
            x: Vec4 { x: self.x.x, y: self.y.x, z: self.z.x, w: self.w.x },
            y: Vec4 { x: self.x.y, y: self.y.y, z: self.z.y, w: self.w.y },
            z: Vec4 { x: self.x.z, y: self.y.z, z: self.z.z, w: self.w.z },
            w: Vec4 { x: self.x.w, y: self.y.w, z: self.z.w, w: self.w.w },
        }
    }
}

} // verus!

//! Three-component vectors for sizes and positions.
use vstd::prelude::*;

verus! {

/// A size along width, height and depth.
#[derive(Debug, Copy, Clone, PartialEq, Eq, Default)]
pub struct Size3<T> {
    pub width: T,
    pub height: T,
    pub depth: T,
}

/// A position along x, y and z.
#[derive(Debug, Copy, Clone, PartialEq, Eq, Default)]
pub struct Point3<T> {
    pub x: T,
    pub y: T,
    pub z: T,
}

impl Size3<i64> {
    /// The size with all three components zero.
    pub fn zero() -> (r: Size3<i64>)
        ensures
            r == (Size3 { width: 0i64, height: 0i64, depth: 0i64 }),
    {
        Size3 { width: 0, height: 0, depth: 0 }
    }
}

impl Point3<i64> {
    /// The origin.
    pub fn zero() -> (r: Point3<i64>)
        ensures
            r == (Point3 { x: 0i64, y: 0i64, z: 0i64 }),
    {
        Point3 { x: 0, y: 0, z: 0 }
    }
}

impl<T> Size3<T> {
    /// Applies `f` to each of the three components.
    pub fn map<R, F: Fn(T) -> R>(self, f: F) -> (r: Size3<R>)
        requires
            f.requires((self.width,)),
            f.requires((self.height,)),
            f.requires((self.depth,)),
        ensures
            f.ensures((self.width,), r.width),
            f.ensures((self.height,), r.height),
            f.ensures((self.depth,), r.depth),
    {
        Size3 { width: f(self.width), height: f(self.height), depth: f(self.depth) }
    }

    /// The width and height, dropping the depth.
    pub fn to_planar(self) -> (r: (T, T))
        ensures
            r == planar_size(self),
    {
        (self.width, self.height)
    }
}

impl<T> Point3<T> {
    /// Applies `f` to each of the three components.
    pub fn map<R, F: Fn(T) -> R>(self, f: F) -> (r: Point3<R>)
        requires
            f.requires((self.x,)),
            f.requires((self.y,)),
            f.requires((self.z,)),
        ensures
            f.ensures((self.x,), r.x),
            f.ensures((self.y,), r.y),
            f.ensures((self.z,), r.z),
    {
        Point3 { x: f(self.x), y: f(self.y), z: f(self.z) }
    }

    /// The x and y coordinates, dropping z.
    pub fn to_planar(self) -> (r: (T, T))
        ensures
            r == planar_point(self),
    {
        (self.x, self.y)
    }
}

impl Size3<i64> {
    /// A size from a planar width and height, with zero depth.
    pub fn from_planar(p: (i64, i64)) -> (r: Size3<i64>)
        ensures
            r == size_from_planar(p),
    {
        Size3 { width: p.0, height: p.1, depth: 0 }
    }
}

impl Point3<i64> {
    /// A point from planar x and y, with zero z.
    pub fn from_planar(p: (i64, i64)) -> (r: Point3<i64>)
        ensures
            r == point_from_planar(p),
    {
        Point3 { x: p.0, y: p.1, z: 0 }
    }
}

/// The planar part of a size: its width and height.
pub open spec fn planar_size<T>(s: Size3<T>) -> (T, T) {
    (s.width, s.height)
}

/// The planar part of a point: its x and y.
pub open spec fn planar_point<T>(p: Point3<T>) -> (T, T) {
    (p.x, p.y)
}

/// The size with a planar width and height and zero depth.
pub open spec fn size_from_planar(p: (i64, i64)) -> Size3<i64> {
    Size3 { width: p.0, height: p.1, depth: 0 }
}

/// The point with planar x and y and zero z.
pub open spec fn point_from_planar(p: (i64, i64)) -> Point3<i64> {
    Point3 { x: p.0, y: p.1, z: 0 }
}

/// Projecting a size to the plane and back keeps width and height and resets the depth to zero;
/// the same holds of a point, with z reset.
pub proof fn lemma_planar_round_trip(s: Size3<i64>, p: Point3<i64>)
    ensures
        size_from_planar(planar_size(s)) == (Size3 { width: s.width, height: s.height, depth: 0i64 }),
        point_from_planar(planar_point(p)) == (Point3 { x: p.x, y: p.y, z: 0i64 }),
{
}

} // verus!

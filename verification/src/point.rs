//! Points of a LiDAR cloud and the clustering state attached to each point.
use vstd::prelude::*;

verus! {

/// A point of the cloud: three 16-bit coordinates and a validity flag.
///
/// An invalid point is a placeholder slot: the clustering kernels never
/// change the state of an invalid point.
#[derive(Copy, Clone, Debug, PartialEq, Eq, Structural)]
pub struct Point3D {
    pub x: u16,
    pub y: u16,
    pub z: u16,
    pub valid: bool,
}

/// The invalid point with all coordinates at zero.
pub open spec fn invalid_point() -> Point3D {
    Point3D { x: 0, y: 0, z: 0, valid: false }
}

impl Point3D {
    /// A valid point at the given coordinates.
    pub fn new(x: u16, y: u16, z: u16) -> (p: Self)
        ensures
            p == (Point3D { x, y, z, valid: true }),
    {
        Point3D { x, y, z, valid: true }
    }

    /// The invalid point at the origin, used as an empty seed slot.
    pub fn invalid() -> (p: Self)
        ensures
            p == invalid_point(),
    {
        Point3D { x: 0, y: 0, z: 0, valid: false }
    }
}

impl Default for Point3D {
    /// The default point is the invalid point at the origin.
    fn default() -> (p: Self)
        ensures
            p == invalid_point(),
    {
        Point3D::invalid()
    }
}

/// Where a point stands in the clustering.
#[derive(Copy, Clone, Debug, PartialEq, Eq, Structural)]
pub enum PointState {
    Unvisited,
    Visited,
    Clustered(u8),
    Noise,
}

impl Default for PointState {
    /// Every point starts out unvisited.
    fn default() -> (s: Self)
        ensures
            s == PointState::Unvisited,
    {
        PointState::Unvisited
    }
}

} // verus!

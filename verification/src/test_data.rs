//! The synthetic point cloud of the demo driver: three grid-shaped clusters
//! and three isolated noise points.
use vstd::prelude::*;
use crate::point::Point3D;

verus! {

/// Point `i` of the synthetic cloud.
///
/// - 0..15: a 5-wide grid with spacing 4 from (20, 20) at z = 20;
/// - 15..33: a 6-wide grid with spacing 4 from (100, 100) at z = 50;
/// - 33..45: a 4-wide grid with spacing 3 from (200, 50) at z = 100;
/// - 45, 46, 47: the isolated points (500, 500, 500), (50, 300, 200) and
///   (400, 20, 300).
pub open spec fn test_point(i: int) -> Point3D {
    if i < 15 {
        Point3D { x: (20 + (i % 5) * 4) as u16, y: (20 + (i / 5) * 4) as u16, z: 20, valid: true }
    } else if i < 33 {
        let j = i - 15;
        Point3D { x: (100 + (j % 6) * 4) as u16, y: (100 + (j / 6) * 4) as u16, z: 50, valid: true }
    } else if i < 45 {
        let j = i - 33;
        Point3D { x: (200 + (j % 4) * 3) as u16, y: (50 + (j / 4) * 3) as u16, z: 100, valid: true }
    } else if i == 45 {
        Point3D { x: 500, y: 500, z: 500, valid: true }
    } else if i == 46 {
        Point3D { x: 50, y: 300, z: 200, valid: true }
    } else {
        Point3D { x: 400, y: 20, z: 300, valid: true }
    }
}

/// Builds the synthetic cloud: 48 valid points, point `i` being
/// `test_point(i)`.
pub fn generate_test_data() -> (points: Vec<Point3D>)
    ensures
        points.len() == 48,
        forall|i: int| 0 <= i < 48 ==> #[trigger] points@[i] == test_point(i),
{
    let mut points: Vec<Point3D> = Vec::new();
    let mut i: u16 = 0;
    while i < 15
        invariant
            0 <= i <= 15,
            points.len() == i,
            forall|k: int| 0 <= k < points.len() ==> #[trigger] points@[k] == test_point(k),
        decreases 15 - i,
    {
        let x = 20 + (i % 5) * 4;
        let y = 20 + (i / 5) * 4;
        points.push(Point3D::new(x, y, 20));
        i += 1;
    }
    let mut i: u16 = 0;
    while i < 18
        invariant
            0 <= i <= 18,
            points.len() == 15 + i,
            forall|k: int| 0 <= k < points.len() ==> #[trigger] points@[k] == test_point(k),
        decreases 18 - i,
    {
        let x = 100 + (i % 6) * 4;
        let y = 100 + (i / 6) * 4;
        points.push(Point3D::new(x, y, 50));
        i += 1;
    }
    let mut i: u16 = 0;
    while i < 12
        invariant
            0 <= i <= 12,
            points.len() == 33 + i,
            forall|k: int| 0 <= k < points.len() ==> #[trigger] points@[k] == test_point(k),
        decreases 12 - i,
    {
        let x = 200 + (i % 4) * 3;
        let y = 50 + (i / 4) * 3;
        points.push(Point3D::new(x, y, 100));
        i += 1;
    }
    points.push(Point3D::new(500, 500, 500));
    points.push(Point3D::new(50, 300, 200));
    points.push(Point3D::new(400, 20, 300));
    points
}

} // verus!

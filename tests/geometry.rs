use taffy_3d::geometry::{Point3, Size3};

#[test]
fn size3_conversions() {
    let size3 = Size3 { width: 1i64, height: 2i64, depth: 3i64 };
    let size2 = size3.to_planar();
    assert_eq!(size2.0, 1);
    assert_eq!(size2.1, 2);
    let back = Size3::from_planar(size2);
    assert_eq!(back, Size3 { width: 1, height: 2, depth: 0 });
}

#[test]
fn point3_conversions() {
    let pt3 = Point3 { x: 4i64, y: 5i64, z: 6i64 };
    let pt2 = pt3.to_planar();
    assert_eq!(pt2.0, 4);
    assert_eq!(pt2.1, 5);
    let back = Point3::from_planar(pt2);
    assert_eq!(back, Point3 { x: 4, y: 5, z: 0 });
}

#[test]
fn zero_constants() {
    assert_eq!(Size3::zero(), Size3 { width: 0, height: 0, depth: 0 });
    assert_eq!(Point3::zero(), Point3 { x: 0, y: 0, z: 0 });
}

#[test]
fn map_applies_to_each_axis() {
    let s = Size3 { width: 1i64, height: 2i64, depth: 3i64 }.map(|v| v * 10);
    assert_eq!(s, Size3 { width: 10, height: 20, depth: 30 });
    let p = Point3 { x: 1i64, y: -2i64, z: 3i64 }.map(|v| v - 1);
    assert_eq!(p, Point3 { x: 0, y: -3, z: 2 });
}

#[test]
fn planar_round_trip_resets_third_axis() {
    let s = Size3 { width: -7i64, height: 9i64, depth: 11i64 };
    assert_eq!(Size3::from_planar(s.to_planar()), Size3 { width: -7, height: 9, depth: 0 });
    let p = Point3 { x: 3i64, y: 0i64, z: -4i64 };
    assert_eq!(Point3::from_planar(p.to_planar()), Point3 { x: 3, y: 0, z: 0 });
}

use raytracer::point::Vector3;
use raytracer::point::isqrt;

#[test]
fn test_adding_to_positive_points() {
    let point1 = Vector3 { x: 1, y: 2, z: 3 };
    let point2 = Vector3 { x: 10, y: 20, z: 30 };
    let result = point1.add(point2);
    assert_eq!(result, Vector3 { x: 11, y: 22, z: 33 });
}

#[test]
fn test_length_squared() {
    let point1 = Vector3 { x: 3, y: 4, z: 5 };
    assert_eq!(point1.length_squared(), 50);
}

#[test]
fn test_length() {
    let point1 = Vector3 { x: 3, y: 4, z: 12 };
    assert_eq!(point1.length(), 13);
}

#[test]
fn test_multiply_by_scalar() {
    let point1 = Vector3 { x: 3, y: 4, z: 5 };
    let expected = Vector3 { x: 6, y: 8, z: 10 };
    assert_eq!(point1.mul(2), expected);
}

#[test]
fn test_dot_product() {
    let point1 = Vector3 { x: 2, y: 3, z: 5 };
    let point2 = Vector3 { x: 100, y: 10, z: 1 };
    assert_eq!(point1.dot_product(&point2), 235);
}

#[test]
fn test_reflect() {
    let vector = Vector3 { x: 1, y: -1, z: 1 };
    let norm = Vector3 { x: 0, y: 1, z: 0 };
    let expected = Vector3 { x: 1, y: 1, z: 1 };
    assert_eq!(vector.reflect(&norm), expected);
}

#[test]
fn test_reflect_twice_is_identity() {
    let vector = Vector3 { x: 7, y: -3, z: 2 };
    let norm = Vector3 { x: 0, y: 0, z: 1 };
    let once = vector.reflect(&norm);
    assert_eq!(once, Vector3 { x: 7, y: -3, z: -2 });
    assert_eq!(once.reflect(&norm), vector);
}

#[test]
fn test_reflect_parallel_negates() {
    let norm = Vector3 { x: 0, y: 1, z: 0 };
    let parallel = Vector3 { x: 0, y: 5, z: 0 };
    assert_eq!(parallel.reflect(&norm), Vector3 { x: 0, y: -5, z: 0 });
}

#[test]
fn test_subtracting_points() {
    let point1 = Vector3 { x: 11, y: 22, z: 33 };
    let point2 = Vector3 { x: 10, y: 20, z: 30 };
    assert_eq!(point1.sub(point2), Vector3 { x: 1, y: 2, z: 3 });
}

#[test]
fn test_cross_product() {
    let x_axis = Vector3 { x: 1, y: 0, z: 0 };
    let y_axis = Vector3 { x: 0, y: 1, z: 0 };
    assert_eq!(x_axis.cross_product(&y_axis), Vector3 { x: 0, y: 0, z: 1 });
}

#[test]
fn test_near_zero() {
    assert!(Vector3 { x: 0, y: 0, z: 0 }.near_zero());
    assert!(!Vector3 { x: 0, y: 1, z: 0 }.near_zero());
}

#[test]
fn test_length_floor_of_irrational() {
    // |(1,1,1)| = sqrt(3); the reported length is its floor.
    let v = Vector3 { x: 1, y: 1, z: 1 };
    assert_eq!(v.length(), 1);
}

#[test]
fn test_isqrt_values() {
    assert_eq!(isqrt(0), 0);
    assert_eq!(isqrt(1), 1);
    assert_eq!(isqrt(2), 1);
    assert_eq!(isqrt(3), 1);
    assert_eq!(isqrt(4), 2);
    assert_eq!(isqrt(169), 13);
    assert_eq!(isqrt(170), 13);
    assert_eq!(isqrt(u64::MAX as u128), 4294967295);
}

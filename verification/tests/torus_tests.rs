use raytracer::color::Color;
use raytracer::material::LambertianMaterial;
use raytracer::material::Material;
use raytracer::point::Point3;
use raytracer::point::Vector3;
use raytracer::ray::Ray;
use raytracer::torus::Torus;
use raytracer::torus::closest_root_in_range;

fn grey_material() -> Material {
    Material::Lambertian(LambertianMaterial::new(Color { r: 127, g: 127, b: 127 }))
}

#[test]
fn test_torus_quartic_roots_axis_ray() {
    // A torus ten units across the ring, one unit across the tube; the ray
    // runs along +z through the ring plane and crosses the tube at
    // t = 89, 91, 109 and 111.
    let torus = Torus {
        center: Point3 { x: 10, y: 20, z: 100 },
        a: 10,
        b: 1,
        material: grey_material(),
    };
    let ray = Ray {
        origin: Point3 { x: 10, y: 20, z: 0 },
        direction: Vector3 { x: 0, y: 0, z: 1 },
    };
    let q = torus.quartic_coefficients(&ray);
    assert_eq!(q.eval(89), 0);
    assert_eq!(q.eval(91), 0);
    assert_eq!(q.eval(109), 0);
    assert_eq!(q.eval(111), 0);
    assert!(q.eval(90) != 0);
    assert!(q.eval(100) != 0);
    assert!(q.eval(8) != 0);
}

#[test]
fn test_hit_torus_in_center_scaled() {
    let torus = Torus {
        center: Point3 { x: 10, y: 20, z: 100 },
        a: 10,
        b: 1,
        material: grey_material(),
    };
    let ray = Ray {
        origin: Point3 { x: 10, y: 20, z: 0 },
        direction: Vector3 { x: 0, y: 0, z: 1 },
    };
    let roots = vec![89, 91, 109, 111];
    let (rec, m) = torus.hit_with_roots(&ray, &roots, 0, 500).unwrap();
    assert_eq!(rec.t, 89);
    assert_eq!(rec.point, Point3 { x: 10, y: 20, z: 89 });
    // The gradient at (0, 0, -11) relative to the center is (0, 0, -220):
    // the exact (unnormalized) outward direction, opposing the ray.
    assert!(rec.front_face);
    assert_eq!(rec.normal, Vector3 { x: 0, y: 0, z: -220 });
    assert_eq!(m, grey_material());
}

#[test]
fn test_hit_central_torus_in_center_scaled() {
    let torus = Torus {
        center: Point3 { x: 0, y: 0, z: 0 },
        a: 10,
        b: 1,
        material: grey_material(),
    };
    let ray = Ray {
        origin: Point3 { x: 0, y: 0, z: -50 },
        direction: Vector3 { x: 0, y: 0, z: 1 },
    };
    let q = torus.quartic_coefficients(&ray);
    assert_eq!(q.eval(39), 0);
    assert_eq!(q.eval(41), 0);
    assert_eq!(q.eval(59), 0);
    assert_eq!(q.eval(61), 0);
    let roots = vec![39, 41, 59, 61];
    let (rec, _) = torus.hit_with_roots(&ray, &roots, -500, 500).unwrap();
    assert_eq!(rec.t, 39);
    assert_eq!(rec.point, Point3 { x: 0, y: 0, z: -11 });
    assert!(rec.front_face);
    assert_eq!(rec.normal, Vector3 { x: 0, y: 0, z: -220 });
}

#[test]
fn test_ray_missing_torus_quartic_has_no_small_roots() {
    // The diagonal ray of the original miss scenario, scaled to the lattice:
    // no integer parameter in the window comes near the surface, and with no
    // real roots supplied there is no hit.
    let torus = Torus {
        center: Point3 { x: 10, y: 20, z: 100 },
        a: 10,
        b: 2,
        material: grey_material(),
    };
    let ray = Ray {
        origin: Point3 { x: 10, y: 20, z: 0 },
        direction: Vector3 { x: 1, y: 1, z: 1 },
    };
    let q = torus.quartic_coefficients(&ray);
    for t in -500..=500 {
        assert!(q.eval(t) != 0);
    }
    assert_eq!(torus.hit_with_roots(&ray, &Vec::new(), 0, 100), None);
}

#[test]
fn test_closest_root_selection() {
    assert_eq!(closest_root_in_range(&vec![5, 3, 7], 3, 8), Some(5));
    assert_eq!(closest_root_in_range(&vec![9, 4, 6], 0, 100), Some(4));
    assert_eq!(closest_root_in_range(&vec![9, 4, 6], 6, 7), None);
    assert_eq!(closest_root_in_range(&Vec::new(), 0, 100), None);
}

use raytracer::color::Color;
use raytracer::material::LambertianMaterial;
use raytracer::material::Material;
use raytracer::point::Point3;
use raytracer::point::Vector3;
use raytracer::ray::HitRecord;
use raytracer::ray::Ray;
use raytracer::sphere::Sphere;

fn grey_material() -> Material {
    Material::Lambertian(LambertianMaterial::new(Color { r: 127, g: 127, b: 127 }))
}

#[test]
fn test_hit_sphere_in_center() {
    let material = grey_material();
    let sphere = Sphere { center: Point3 { x: 1, y: 2, z: 10 }, radius: 1, material };
    let ray = Ray {
        origin: Point3 { x: 1, y: 2, z: 0 },
        direction: Vector3 { x: 0, y: 0, z: 1 },
    };
    let hit = sphere.hit(&ray, 0, 100);
    let expected = HitRecord {
        point: Point3 { x: 1, y: 2, z: 9 },
        normal: Point3 { x: 0, y: 0, z: -1 },
        t: 9,
        front_face: true,
    };
    assert_eq!(
        hit,
        Some((expected, material)),
        "actual hit {:?} was different from expected hit {:?}",
        hit,
        Some((expected, material))
    );
}

#[test]
fn test_ray_missing_sphere() {
    let material = grey_material();
    let sphere = Sphere { center: Point3 { x: 1, y: 2, z: 10 }, radius: 1, material };
    let ray = Ray {
        origin: Point3 { x: 1, y: 2, z: 0 },
        direction: Vector3 { x: 1, y: 1, z: 1 },
    };
    let hit = sphere.hit(&ray, 0, 100);
    assert_eq!(hit, None);
}

#[test]
fn test_negative_radius_reverses_normal() {
    // The same geometry as test_hit_sphere_in_center, with the radius
    // negated: same hit parameter, but the outward normal is reversed, so
    // the front-face flag flips while the reported normal still opposes the
    // ray.
    let material = grey_material();
    let shell = Sphere { center: Point3 { x: 1, y: 2, z: 10 }, radius: -1, material };
    let ray = Ray {
        origin: Point3 { x: 1, y: 2, z: 0 },
        direction: Vector3 { x: 0, y: 0, z: 1 },
    };
    let (rec, _) = shell.hit(&ray, 0, 100).unwrap();
    assert_eq!(rec.t, 9);
    assert_eq!(rec.point, Point3 { x: 1, y: 2, z: 9 });
    assert!(!rec.front_face);
    assert_eq!(rec.normal, Vector3 { x: 0, y: 0, z: -1 });
}

#[test]
fn test_hit_from_inside_takes_far_root() {
    let material = grey_material();
    let sphere = Sphere { center: Point3 { x: 1, y: 2, z: 10 }, radius: 1, material };
    let ray = Ray {
        origin: Point3 { x: 1, y: 2, z: 10 },
        direction: Vector3 { x: 0, y: 0, z: 1 },
    };
    let (rec, _) = sphere.hit(&ray, 0, 100).unwrap();
    assert_eq!(rec.t, 1);
    assert_eq!(rec.point, Point3 { x: 1, y: 2, z: 11 });
    assert!(!rec.front_face);
    assert_eq!(rec.normal, Vector3 { x: 0, y: 0, z: -1 });
}

#[test]
fn test_hit_reports_floor_of_irrational_root() {
    // a = 9, hb = -15, c = 24: the near root is 4/3, reported as 1.
    let material = grey_material();
    let sphere = Sphere { center: Point3 { x: 0, y: 0, z: 5 }, radius: 1, material };
    let ray = Ray {
        origin: Point3 { x: 0, y: 0, z: 0 },
        direction: Vector3 { x: 0, y: 0, z: 3 },
    };
    let (rec, _) = sphere.hit(&ray, 0, 100).unwrap();
    assert_eq!(rec.t, 1);
    assert!(rec.front_face);
}

#[test]
fn test_hit_window_is_closed_at_bounds() {
    // A root exactly on the window bound counts as a hit.
    let material = grey_material();
    let sphere = Sphere { center: Point3 { x: 1, y: 2, z: 10 }, radius: 1, material };
    let ray = Ray {
        origin: Point3 { x: 1, y: 2, z: 0 },
        direction: Vector3 { x: 0, y: 0, z: 1 },
    };
    let (rec, _) = sphere.hit(&ray, 9, 100).unwrap();
    assert_eq!(rec.t, 9);
    let (rec2, _) = sphere.hit(&ray, 0, 9).unwrap();
    assert_eq!(rec2.t, 9);
}

#[test]
fn test_hit_window_excludes_root() {
    let material = grey_material();
    let sphere = Sphere { center: Point3 { x: 1, y: 2, z: 10 }, radius: 1, material };
    let ray = Ray {
        origin: Point3 { x: 1, y: 2, z: 0 },
        direction: Vector3 { x: 0, y: 0, z: 1 },
    };
    // Both roots (9 and 11) lie beyond the window.
    assert_eq!(sphere.hit(&ray, 0, 8), None);
    // A window that admits only the far root selects it.
    let (rec, _) = sphere.hit(&ray, 10, 100).unwrap();
    assert_eq!(rec.t, 11);
}

use raytracer::color::Color;
use raytracer::material::LambertianMaterial;
use raytracer::material::Material;
use raytracer::point::Point3;
use raytracer::point::Vector3;
use raytracer::ray::HittableList;
use raytracer::ray::Ray;
use raytracer::ray::Surface;
use raytracer::ray::new_hittable_list;
use raytracer::sphere::Sphere;
use raytracer::torus::Torus;

fn material_with_red(r: i64) -> Material {
    Material::Lambertian(LambertianMaterial::new(Color { r, g: 0, b: 0 }))
}

fn sphere_at_z(z: i64, red: i64) -> Surface {
    Surface::Sphere(Sphere {
        center: Point3 { x: 0, y: 0, z },
        radius: 1,
        material: material_with_red(red),
    })
}

fn axis_ray() -> Ray {
    Ray {
        origin: Point3 { x: 0, y: 0, z: 0 },
        direction: Vector3 { x: 0, y: 0, z: 1 },
    }
}

fn no_roots(n: usize) -> Vec<Vec<i64>> {
    vec![Vec::new(); n]
}

#[test]
fn test_list_returns_nearest_hit() {
    let mut list = new_hittable_list();
    list.add(sphere_at_z(5, 1));
    list.add(sphere_at_z(10, 2));
    let (rec, m) = list.hit(&axis_ray(), &no_roots(2), 0, 100).unwrap();
    assert_eq!(rec.t, 4);
    assert_eq!(m, material_with_red(1));
}

#[test]
fn test_list_nearest_independent_of_order() {
    let mut list = HittableList { objects: Vec::new() };
    list.add(sphere_at_z(10, 2));
    list.add(sphere_at_z(5, 1));
    let (rec, m) = list.hit(&axis_ray(), &no_roots(2), 0, 100).unwrap();
    assert_eq!(rec.t, 4);
    assert_eq!(m, material_with_red(1));
}

#[test]
fn test_list_narrows_window_monotonically() {
    // The near sphere is hit first and shrinks the window; with the window
    // floor at 5 its near root is excluded and its far root wins instead.
    let mut list = new_hittable_list();
    list.add(sphere_at_z(5, 1));
    list.add(sphere_at_z(10, 2));
    let near_only = list.hit(&axis_ray(), &no_roots(2), 0, 100).unwrap();
    let far_only = list.hit(&axis_ray(), &no_roots(2), 5, 100).unwrap();
    assert_eq!(near_only.0.t, 4);
    assert_eq!(far_only.0.t, 6);
    assert_eq!(far_only.1, material_with_red(1));
}

#[test]
fn test_mixed_scene_torus_in_front() {
    // A torus two units across the ring sits closer along the ray than the
    // sphere: the scene reports the torus hit with its material.
    let mut list = new_hittable_list();
    list.add(sphere_at_z(10, 1));
    list.add(Surface::Torus(Torus {
        center: Point3 { x: 0, y: 0, z: 5 },
        a: 2,
        b: 1,
        material: material_with_red(9),
    }));
    // The ray crosses the torus tube at t = 2, 4, 6, 8.
    let roots = vec![Vec::new(), vec![2, 4, 6, 8]];
    let (rec, m) = list.hit(&axis_ray(), &roots, 0, 100).unwrap();
    assert_eq!(rec.t, 2);
    assert_eq!(rec.point, Point3 { x: 0, y: 0, z: 2 });
    assert_eq!(rec.normal, Vector3 { x: 0, y: 0, z: -12 });
    assert_eq!(m, material_with_red(9));
}

#[test]
fn test_mixed_scene_sphere_in_front() {
    let mut list = new_hittable_list();
    list.add(sphere_at_z(3, 1));
    list.add(Surface::Torus(Torus {
        center: Point3 { x: 0, y: 0, z: 5 },
        a: 2,
        b: 1,
        material: material_with_red(9),
    }));
    let roots = vec![Vec::new(), vec![4, 6, 8]];
    let (rec, m) = list.hit(&axis_ray(), &roots, 0, 100).unwrap();
    assert_eq!(rec.t, 2);
    assert_eq!(m, material_with_red(1));
}

#[test]
fn test_empty_list_misses() {
    let list = HittableList { objects: Vec::new() };
    assert_eq!(list.hit(&axis_ray(), &no_roots(0), 0, 100), None);
}

#[test]
fn test_list_miss_when_no_surface_in_window() {
    let mut list = new_hittable_list();
    list.add(sphere_at_z(5, 1));
    assert_eq!(list.hit(&axis_ray(), &no_roots(1), 0, 3), None);
}

#[test]
fn test_add_appends() {
    let mut list = HittableList::new();
    assert_eq!(list.objects.len(), 0);
    list.add(sphere_at_z(5, 1));
    list.add(sphere_at_z(10, 2));
    assert_eq!(list.objects.len(), 2);
}

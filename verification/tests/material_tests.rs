use raytracer::color::Color;
use raytracer::material::Dialectric;
use raytracer::material::LambertianMaterial;
use raytracer::material::Metal;
use raytracer::point::Vector3;

fn albedo() -> Color {
    Color { r: 100, g: 100, b: 100 }
}

#[test]
fn test_metal_fuzz_clamped() {
    assert_eq!(Metal::new(albedo(), 3, 2).fuzz(), (2, 2));
    assert_eq!(Metal::new(albedo(), -1, 2).fuzz(), (0, 2));
    assert_eq!(Metal::new(albedo(), 1, 2).fuzz(), (1, 2));
}

#[test]
fn test_lambertian_degenerate_direction_falls_back_to_normal() {
    let m = LambertianMaterial::new(albedo());
    let normal = Vector3 { x: 0, y: 0, z: 1 };
    let opposite = Vector3 { x: 0, y: 0, z: -1 };
    assert_eq!(m.scatter(&normal, &opposite), (normal, albedo()));
    let sample = Vector3 { x: 1, y: 0, z: 0 };
    assert_eq!(m.scatter(&normal, &sample), (Vector3 { x: 1, y: 0, z: 1 }, albedo()));
}

#[test]
fn test_metal_absorbs_ray_into_surface() {
    let m = Metal::new(albedo(), 0, 1);
    let incoming = Vector3 { x: 1, y: -1, z: 0 };
    let normal = Vector3 { x: 0, y: 1, z: 0 };
    let no_offset = Vector3 { x: 0, y: 0, z: 0 };
    assert_eq!(
        m.scatter(&incoming, &normal, &no_offset),
        Some((Vector3 { x: 1, y: 1, z: 0 }, albedo()))
    );
    // A fuzz offset that pushes the reflection back into the surface is
    // absorbed.
    let burying_offset = Vector3 { x: 0, y: -2, z: 0 };
    assert_eq!(m.scatter(&incoming, &normal, &burying_offset), None);
}

#[test]
fn test_dielectric_refraction_ratio() {
    let glass = Dialectric::new(3, 2);
    assert_eq!(glass.refraction_ratio(true), (2, 3));
    assert_eq!(glass.refraction_ratio(false), (3, 2));
}

#[test]
fn test_total_internal_reflection() {
    let glass = Dialectric::new(3, 2);
    // Exiting the medium (ratio 3/2) at cos = 1/2: (3/2)^2 * (3/4) > 1, so
    // refraction is impossible.
    assert!(glass.cannot_refract(false, 1, 2));
    // Entering (ratio 2/3) at the same angle: (2/3)^2 * (3/4) = 1/3 <= 1.
    assert!(!glass.cannot_refract(true, 1, 2));
    // Head-on (cos = 1) always refracts.
    assert!(!glass.cannot_refract(false, 1, 1));
}

#[test]
fn test_lambertian_albedo() {
    let m = LambertianMaterial::new(albedo());
    assert_eq!(m.albedo(), albedo());
    assert_eq!(LambertianMaterial::default().albedo(), Color { r: 0, g: 0, b: 0 });
}

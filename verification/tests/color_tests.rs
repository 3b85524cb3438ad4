use raytracer::color::Color;

#[test]
fn test_color_fmt_for_white() {
    let color = Color { r: 1, g: 1, b: 1 };
    let pixel = color.to_simple(1);
    assert_eq!(format!("{} {} {}", pixel.0, pixel.1, pixel.2), String::from("255 255 255"));
}

#[test]
fn test_to_simple_truncates() {
    // floor(255.999 * 0.5) = 127: truncation, not rounding.
    let half = Color { r: 1, g: 1, b: 1 };
    assert_eq!(half.to_simple(2), (127, 127, 127));
    let black = Color { r: 0, g: 0, b: 0 };
    assert_eq!(black.to_simple(1), (0, 0, 0));
    // floor(255.999 * 254/255) = 254, floor(255.999 * 255/255) = 255.
    let almost = Color { r: 254, g: 255, b: 0 };
    assert_eq!(almost.to_simple(255), (254, 255, 0));
}

#[test]
fn test_gamma_correct_takes_square_root() {
    // At denominator 1: each channel becomes the floor of its square root.
    let c = Color { r: 49, g: 2, b: 8 };
    assert_eq!(c.gamma_correct(1), Color { r: 7, g: 1, b: 2 });
}

#[test]
fn test_gamma_round_trip() {
    // gamma(x)^2 recovers the pre-gamma value exactly for perfect squares
    // (1/4 -> 1/2 -> 1/4), and within the floor error otherwise.
    let c = Color { r: 1, g: 0, b: 0 };
    let g = c.gamma_correct(4);
    assert_eq!(g.r, 2);
    assert_eq!(g.r * g.r, c.r * 4);
    let d = Color { r: 3, g: 0, b: 0 };
    let h = d.gamma_correct(4);
    assert!(h.r * h.r <= 12 && 12 < (h.r + 1) * (h.r + 1));
}

#[test]
fn test_color_arithmetic() {
    let a = Color { r: 1, g: 2, b: 3 };
    let b = Color { r: 10, g: 20, b: 30 };
    assert_eq!(a.add(b), Color { r: 11, g: 22, b: 33 });
    assert_eq!(a.mul(3), Color { r: 3, g: 6, b: 9 });
    assert_eq!(a.mul_color(b), Color { r: 10, g: 40, b: 90 });
    assert_eq!(Color { r: 10, g: 11, b: 0 }.div(2), Color { r: 5, g: 5, b: 0 });
}

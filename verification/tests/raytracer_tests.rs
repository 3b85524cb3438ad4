use raytracer::color::Color;
use raytracer::config::Config;
use raytracer::raytracer::finish_pixel;
use raytracer::raytracer::sky_gradient;
use raytracer::raytracer::BounceEvent;
use raytracer::raytracer::TraceAction;
use raytracer::raytracer::TraceOutcome;
use raytracer::raytracer::pixel_index;
use raytracer::raytracer::row_for_chunk;
use raytracer::raytracer::trace_outcome;
use raytracer::raytracer::trace_step;

#[test]
fn test_config_pixel_count() {
    let config = Config { width: 800, height: 600, samples_per_pixel: 200, max_depth: 50 };
    assert_eq!(config.pixel_count(), 480000);
}

#[test]
fn test_row_for_chunk_flips_vertically() {
    assert_eq!(row_for_chunk(600, 0), 599);
    assert_eq!(row_for_chunk(600, 599), 0);
    assert_eq!(row_for_chunk(600, 250), 349);
}

#[test]
fn test_pixel_index_row_major() {
    assert_eq!(pixel_index(800, 0, 0), 0);
    assert_eq!(pixel_index(800, 2, 3), 1603);
    assert_eq!(pixel_index(800, 599, 799), 480_000 - 1);
}

#[test]
fn test_sky_gradient_blend() {
    // Straight down (t = 0): white. Straight up (t = 1): (0.5, 0.7, 1.0).
    assert_eq!(sky_gradient(0, 1), (Color { r: 10, g: 10, b: 10 }, 10));
    assert_eq!(sky_gradient(1, 1), (Color { r: 5, g: 7, b: 10 }, 10));
    // Halfway: (0.75, 0.85, 1.0) at denominator 20.
    assert_eq!(sky_gradient(1, 2), (Color { r: 15, g: 17, b: 20 }, 20));
}

#[test]
fn test_finish_pixel_pipeline() {
    // Two samples summing to (200, 0, 50) at denominator 100: the average is
    // (1.0, 0.0, 0.25), gamma gives (1.0, 0.0, 0.5), and the display triple
    // truncates to (255, 0, 127).
    let accumulated = Color { r: 200, g: 0, b: 50 };
    assert_eq!(finish_pixel(accumulated, 2, 100), (255, 0, 127));
}

#[test]
fn test_trace_step_policy() {
    assert_eq!(trace_step(0, BounceEvent::Scattered), TraceAction::EmitBlack);
    assert_eq!(trace_step(0, BounceEvent::Missed), TraceAction::EmitBlack);
    assert_eq!(trace_step(5, BounceEvent::Scattered), TraceAction::Bounce);
    assert_eq!(trace_step(5, BounceEvent::Absorbed), TraceAction::EmitBlack);
    assert_eq!(trace_step(5, BounceEvent::Missed), TraceAction::EmitSky);
}

#[test]
fn test_trace_outcome_miss_gives_sky() {
    let events = vec![
        BounceEvent::Scattered,
        BounceEvent::Scattered,
        BounceEvent::Missed,
        BounceEvent::Absorbed,
        BounceEvent::Scattered,
    ];
    assert_eq!(trace_outcome(&events, 5), TraceOutcome::Sky { bounces: 2 });
}

#[test]
fn test_trace_outcome_absorption_gives_black() {
    let events = vec![BounceEvent::Absorbed, BounceEvent::Missed, BounceEvent::Missed];
    assert_eq!(trace_outcome(&events, 3), TraceOutcome::Absorbed { bounces: 0 });
}

#[test]
fn test_trace_outcome_depth_cap_cuts_off_black() {
    // A miss beyond the depth budget contributes no sky term.
    let events = vec![BounceEvent::Scattered, BounceEvent::Scattered, BounceEvent::Missed];
    assert_eq!(trace_outcome(&events, 2), TraceOutcome::DepthExhausted);
    assert_eq!(trace_outcome(&events, 3), TraceOutcome::Sky { bounces: 2 });
}

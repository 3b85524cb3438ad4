//! The tiled renderer's verified logic: the scanline partition of the flat
//! pixel buffer, and the termination policy of the light-transport
//! integrator.
//!
//! Per-pixel sampling, color accumulation and the worker pool involve
//! floating-point arithmetic, randomness and threads, and are carried out by
//! the caller; what is verified here is the partition geometry -- one chunk
//! per scanline, disjoint and covering, with the vertical flip between chunk
//! order and row order -- and the exact bounce policy: which event ends a
//! path, and with what kind of contribution.

use vstd::prelude::*;
use vstd::arithmetic::div_mod::lemma_fundamental_div_mod;
use vstd::arithmetic::div_mod::lemma_mod_division_less_than_divisor;
use crate::color::Color;

verus! {

/// Image row rendered by scanline chunk `line_no`: chunks are sampled
/// bottom-to-top while rows are stored top-to-bottom, so chunk `i` maps to
/// row `height - 1 - i`. This vertical flip must be preserved for the image
/// to come out upright.
pub fn row_for_chunk(height: usize, line_no: usize) -> (row: usize)
    requires
        line_no < height,
    ensures
        row == height - 1 - line_no,
{
    height - 1 - line_no
}

/// Index of pixel `(row, col)` in the flat row-major pixel buffer.
pub fn pixel_index(width: usize, row: usize, col: usize) -> (idx: usize)
    requires
        col < width,
        (row + 1) * width <= usize::MAX,
    ensures
        idx == row * width + col,
{
    proof {
        assert(row * width + col < (row + 1) * width) by (nonlinear_arith)
            requires
                col < width,
        ;
    }
    row * width + col
}

/// Scanline chunks are disjoint: pixels in different rows occupy different
/// buffer indices, so parallel workers writing whole rows never conflict.
pub proof fn lemma_rows_disjoint(width: int, r1: int, c1: int, r2: int, c2: int)
    requires
        0 < width,
        0 <= c1 < width,
        0 <= c2 < width,
        0 <= r1,
        0 <= r2,
        r1 != r2,
    ensures
        r1 * width + c1 != r2 * width + c2,
{
    if r1 < r2 {
        assert(r1 * width + c1 < r2 * width + c2) by (nonlinear_arith)
            requires
                0 < width,
                0 <= c1 < width,
                0 <= c2,
                r1 < r2,
        ;
    } else {
        assert(r2 * width + c2 < r1 * width + c1) by (nonlinear_arith)
            requires
                0 < width,
                0 <= c2 < width,
                0 <= c1,
                r2 < r1,
        ;
    }
}

/// Scanline chunks cover the buffer: every index lies in exactly one row's
/// chunk, namely row `idx / width` at column `idx % width`.
pub proof fn lemma_index_in_unique_row(width: int, idx: int)
    requires
        0 < width,
        0 <= idx,
    ensures
        idx == (idx / width) * width + (idx % width),
        0 <= idx % width < width,
        0 <= idx / width,
{
    lemma_fundamental_div_mod(idx, width);
    lemma_mod_division_less_than_divisor(idx, width);
    vstd::arithmetic::div_mod::lemma_div_pos_is_pos(idx, width);
    assert(width * (idx / width) == (idx / width) * width) by (nonlinear_arith);
}

/// The sky a missed ray contributes: the vertical gradient
/// `(1-t) * white + t * (0.5, 0.7, 1.0)` at blend factor `t` in [0, 1],
/// computed exactly. The factor is given as the fraction
/// `t_num / t_den` (the caller derives it from the ray direction as
/// `(unit_y + 1) / 2`); the returned channels share the denominator
/// `10 * t_den`, which is also returned.
pub fn sky_gradient(t_num: i64, t_den: i64) -> (res: (Color, i64))
    requires
        0 < t_den <= 100000000,
        0 <= t_num <= t_den,
    ensures
        res.1 == 10 * t_den,
        res.0.r == 10 * t_den - 5 * t_num,
        res.0.g == 10 * t_den - 3 * t_num,
        res.0.b == 10 * t_den,
        res.0.non_negative(),
        res.0.r <= res.1 && res.0.g <= res.1 && res.0.b <= res.1,
{
    let den = 10 * t_den;
    (Color { r: den - 5 * t_num, g: den - 3 * t_num, b: den }, den)
}

/// The per-pixel finishing pipeline of the renderer: average the accumulated
/// color over the sample count (floor), gamma-correct at the common channel
/// denominator, and emit the 8-bit display triple. Each stage's exact
/// contract composes; `avg` and `gamma` name the intermediate colors.
pub fn finish_pixel(accumulated: Color, samples: i64, den: i64) -> (pixel: (u8, u8, u8))
    requires
        accumulated.non_negative(),
        0 < samples,
        0 < den <= 1000000000,
        accumulated.r / samples <= den,
        accumulated.g / samples <= den,
        accumulated.b / samples <= den,
    ensures
        ({
            let avg = Color {
                r: (accumulated.r / samples) as i64,
                g: (accumulated.g / samples) as i64,
                b: (accumulated.b / samples) as i64,
            };
            exists|gamma: Color|
                {
                    &&& (#[trigger] gamma.r) * gamma.r <= avg.r * den < (gamma.r + 1) * (gamma.r
                        + 1)
                    &&& gamma.g * gamma.g <= avg.g * den < (gamma.g + 1) * (gamma.g + 1)
                    &&& gamma.b * gamma.b <= avg.b * den < (gamma.b + 1) * (gamma.b + 1)
                    &&& gamma.non_negative()
                    &&& pixel.0 == 255999 * gamma.r / (1000 * den)
                    &&& pixel.1 == 255999 * gamma.g / (1000 * den)
                    &&& pixel.2 == 255999 * gamma.b / (1000 * den)
                }
        }),
{
    let avg = accumulated.div(samples);
    proof {
        lemma_avg_channel_bound(avg.r as int, den as int);
        lemma_avg_channel_bound(avg.g as int, den as int);
        lemma_avg_channel_bound(avg.b as int, den as int);
    }
    let gamma = avg.gamma_correct(den);
    proof {
        lemma_gamma_in_range(avg.r as int, gamma.r as int, den as int);
        lemma_gamma_in_range(avg.g as int, gamma.g as int, den as int);
        lemma_gamma_in_range(avg.b as int, gamma.b as int, den as int);
    }
    gamma.to_simple(den)
}

proof fn lemma_avg_channel_bound(v: int, den: int)
    by (nonlinear_arith)
    requires
        0 <= v <= den,
        0 < den <= 1000000000,
    ensures
        v * den <= den * den,
        den * den < 4611686018427387904,
{
}

proof fn lemma_gamma_in_range(v: int, g: int, den: int)
    by (nonlinear_arith)
    requires
        0 <= v <= den,
        0 < den,
        0 <= g,
        g * g <= v * den,
    ensures
        g <= den,
{
}

/// What one segment of a light path did: the surface scattered the ray
/// onward, the surface absorbed it, or the ray left the scene.
#[derive(Debug, Clone, Copy, PartialEq, Eq, Structural)]
pub enum BounceEvent {
    Scattered,
    Absorbed,
    Missed,
}

/// What the integrator does next: follow the scattered ray, end the path
/// contributing nothing further (black), or end it against the sky gradient.
#[derive(Debug, Clone, Copy, PartialEq, Eq, Structural)]
pub enum TraceAction {
    Bounce,
    EmitBlack,
    EmitSky,
}

/// One decision step of the integrator loop. With the bounce budget
/// exhausted the path ends black -- reaching the depth cap contributes no sky
/// term. Otherwise a scattered ray is followed, an absorbed path ends black,
/// and a miss ends against the sky.
pub fn trace_step(depth_remaining: u32, event: BounceEvent) -> (action: TraceAction)
    ensures
        depth_remaining == 0 ==> action == TraceAction::EmitBlack,
        depth_remaining > 0 && event == BounceEvent::Scattered ==> action == TraceAction::Bounce,
        depth_remaining > 0 && event == BounceEvent::Absorbed ==> action == TraceAction::EmitBlack,
        depth_remaining > 0 && event == BounceEvent::Missed ==> action == TraceAction::EmitSky,
{
    if depth_remaining == 0 {
        TraceAction::EmitBlack
    } else {
        match event {
            BounceEvent::Scattered => TraceAction::Bounce,
            BounceEvent::Absorbed => TraceAction::EmitBlack,
            BounceEvent::Missed => TraceAction::EmitSky,
        }
    }
}

/// How a whole path ended: against the sky after some bounces, absorbed
/// after some bounces, or cut off by the depth cap.
#[derive(Debug, Clone, Copy, PartialEq, Eq, Structural)]
pub enum TraceOutcome {
    Sky { bounces: u32 },
    Absorbed { bounces: u32 },
    DepthExhausted,
}

/// The integrator's termination policy over a path's bounce events:
/// the first non-scattering event within the depth budget decides the
/// contribution (sky on a miss, black on absorption), and a path that
/// scatters through the whole budget is cut off black.
pub fn trace_outcome(events: &Vec<BounceEvent>, max_depth: u32) -> (out: TraceOutcome)
    requires
        events@.len() >= max_depth,
    ensures
        out matches TraceOutcome::Sky { bounces } ==> {
            &&& bounces < max_depth
            &&& events@[bounces as int] == BounceEvent::Missed
            &&& forall|i: int| 0 <= i < bounces ==> events@[i] == BounceEvent::Scattered
        },
        out matches TraceOutcome::Absorbed { bounces } ==> {
            &&& bounces < max_depth
            &&& events@[bounces as int] == BounceEvent::Absorbed
            &&& forall|i: int| 0 <= i < bounces ==> events@[i] == BounceEvent::Scattered
        },
        out == TraceOutcome::DepthExhausted ==> forall|i: int|
            0 <= i < max_depth ==> events@[i] == BounceEvent::Scattered,
    {
        let mut i: u32 = 0;
        while i < max_depth
            invariant
                0 <= i <= max_depth,
                events@.len() >= max_depth,
                forall|j: int| 0 <= j < i ==> events@[j] == BounceEvent::Scattered,
            decreases max_depth - i,
        {
            let event = events[i as usize];
            let action = trace_step(max_depth - i, event);
            match action {
                TraceAction::Bounce => {},
                TraceAction::EmitBlack => {
                    return TraceOutcome::Absorbed { bounces: i };
                },
                TraceAction::EmitSky => {
                    return TraceOutcome::Sky { bounces: i };
                },
            }
            i = i + 1;
        }
        TraceOutcome::DepthExhausted
    }

} // verus!

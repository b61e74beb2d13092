use rtow::path::{Interaction, PathEnd, PathStep, PathWalk};

/// Runs a path against the interactions given, in order, and returns how it
/// ended and how many rays it traced.
fn run(max_depth: i32, events: &[Interaction]) -> (PathEnd, usize) {
    let mut walk = PathWalk::new(max_depth);
    let mut traced = 0;
    loop {
        match walk.step() {
            PathStep::Done(end) => return (end, traced),
            PathStep::Trace => {
                walk.record(events[traced]);
                traced += 1;
            }
        }
    }
}

use Interaction::{Absorbed, Missed, Scattered};

#[test]
fn no_budget_is_black_without_tracing() {
    assert_eq!(run(0, &[]), (PathEnd::Exhausted, 0));
    assert_eq!(run(-3, &[]), (PathEnd::Exhausted, 0));
}

#[test]
fn miss_shows_the_sky() {
    assert_eq!(run(10, &[Missed]), (PathEnd::Sky, 1));
}

#[test]
fn empty_scene_shows_the_sky_for_every_budget() {
    for depth in 1..20 {
        assert_eq!(run(depth, &[Missed; 20]), (PathEnd::Sky, 1));
    }
}

#[test]
fn absorbed_ray_is_black() {
    assert_eq!(run(10, &[Absorbed]), (PathEnd::Absorbed, 1));
    assert_eq!(run(10, &[Scattered, Scattered, Absorbed]), (PathEnd::Absorbed, 3));
}

#[test]
fn single_bounce_budget_hit_is_black() {
    assert_eq!(run(1, &[Scattered, Missed]), (PathEnd::Exhausted, 1));
}

#[test]
fn scatters_then_escape() {
    assert_eq!(run(3, &[Scattered, Scattered, Missed]), (PathEnd::Sky, 3));
}

#[test]
fn budget_runs_out_after_max_depth_scatters() {
    assert_eq!(run(3, &[Scattered; 10]), (PathEnd::Exhausted, 3));
    assert_eq!(run(8, &[Scattered; 10]), (PathEnd::Exhausted, 8));
}

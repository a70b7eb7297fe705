use silver::path::plain_step;
use silver::path::volume_step;
use silver::path::weighted_step;
use silver::path::PathAction;
use silver::path::PathEvent;
use silver::path::PathState;
use silver::path::WeightedAction;

fn surface(scatter_first: bool, boundary: bool, front: bool, scatters: bool) -> PathEvent {
    PathEvent::Surface { scatter_first, boundary, front, scatters }
}

#[test]
fn exhausted_path_returns_the_environment() {
    let state = PathState { depth: 0, in_medium: false };
    let (action, next) = volume_step(state, surface(false, true, true, true));
    assert_eq!(action, PathAction::Environment);
    assert_eq!(next, state);

    let inside = PathState { depth: 0, in_medium: true };
    let (action, _) = volume_step(inside, PathEvent::Miss);
    assert_eq!(action, PathAction::Environment);
}

#[test]
fn miss_outside_any_medium_returns_the_environment() {
    let state = PathState { depth: 4, in_medium: false };
    let (action, next) = volume_step(state, PathEvent::Miss);
    assert_eq!(action, PathAction::Environment);
    assert_eq!(next, state);
}

#[test]
fn entering_a_medium_is_free() {
    let state = PathState { depth: 3, in_medium: false };
    let (action, next) = volume_step(state, surface(false, true, true, true));
    assert_eq!(action, PathAction::EnterMedium);
    assert_eq!(next.depth, 3);
    assert!(next.in_medium);
}

#[test]
fn leaving_a_medium_is_free() {
    let state = PathState { depth: 3, in_medium: true };
    let (action, next) = volume_step(state, surface(false, true, false, true));
    assert_eq!(action, PathAction::ExitMedium);
    assert_eq!(next.depth, 3);
    assert!(!next.in_medium);
}

#[test]
fn free_flight_scatters_before_the_surface() {
    // Inside a medium, a free flight that ends first wins even over a
    // boundary surface, and costs one bounce.
    let state = PathState { depth: 3, in_medium: true };
    let (action, next) = volume_step(state, surface(true, true, true, true));
    assert_eq!(action, PathAction::MediumScatter);
    assert_eq!(next.depth, 2);
    assert!(next.in_medium);
}

#[test]
fn miss_inside_a_medium_scatters() {
    let state = PathState { depth: 2, in_medium: true };
    let (action, next) = volume_step(state, PathEvent::Miss);
    assert_eq!(action, PathAction::MediumScatter);
    assert_eq!(next.depth, 1);
    assert!(next.in_medium);
}

#[test]
fn ordinary_bounce_costs_one_and_keeps_the_medium() {
    let outside = PathState { depth: 5, in_medium: false };
    let (action, next) = volume_step(outside, surface(false, false, true, true));
    assert_eq!(action, PathAction::Bounce);
    assert_eq!(next.depth, 4);
    assert!(!next.in_medium);

    let inside = PathState { depth: 5, in_medium: true };
    let (action, next) = volume_step(inside, surface(false, false, true, true));
    assert_eq!(action, PathAction::Bounce);
    assert_eq!(next.depth, 4);
    assert!(next.in_medium);
}

#[test]
fn absorbing_surface_emits_and_stops() {
    let state = PathState { depth: 5, in_medium: false };
    let (action, next) = volume_step(state, surface(false, false, true, false));
    assert_eq!(action, PathAction::Emit);
    assert_eq!(next, state);
}

#[test]
fn plain_step_decides_like_the_simple_tracer() {
    assert_eq!(plain_step(0, true, true), PathAction::Environment);
    assert_eq!(plain_step(3, false, false), PathAction::Environment);
    assert_eq!(plain_step(3, true, true), PathAction::Bounce);
    assert_eq!(plain_step(3, true, false), PathAction::Emit);
}

#[test]
fn weighted_step_guards_the_zero_density_draw() {
    assert_eq!(weighted_step(0, true, true, true, true), WeightedAction::Environment);
    assert_eq!(weighted_step(2, false, true, true, true), WeightedAction::Environment);
    assert_eq!(weighted_step(2, true, false, true, true), WeightedAction::Emit);
    assert_eq!(weighted_step(2, true, true, false, false), WeightedAction::AlbedoBounce);
    assert_eq!(weighted_step(2, true, true, true, false), WeightedAction::Emit);
    assert_eq!(weighted_step(2, true, true, true, true), WeightedAction::WeightedBounce);
}

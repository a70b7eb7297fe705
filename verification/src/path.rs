//! The light-transport recursion's control skeleton.
//!
//! A path is traced by recursion: hit the scene, ask the material to
//! scatter, recurse along the scattered ray with one less bounce left.
//! The continuous work — intersection times, radiance, densities — is
//! the caller's; what this module pins down is every *decision* the
//! recursion takes, as a step function from a control state and an
//! observed event to an action and the next state.  The most
//! failure-sensitive decisions are the participating-medium ones: an
//! off-by-one in whether crossing a fog boundary consumes a bounce, or a
//! swapped front/back face, changes the picture without ever crashing.
//!
//! Convention fixed here: an exhausted path (no bounces left) falls back
//! to the environment's radiance, never to black.

use vstd::prelude::*;

verus! {

/// Control state of one path: how many bounces are left, and whether
/// the ray is currently travelling inside a participating medium.
#[derive(PartialEq, Eq, Structural, Clone, Copy, Debug)]
pub struct PathState {
    pub depth: u32,
    pub in_medium: bool,
}

/// What the tracer observed for the current ray.
///
/// `scatter_first` reports, for a ray inside a medium, that the drawn
/// free-flight distance ends before the nearest surface; it is only
/// consulted while `in_medium` holds.  On a surface, `boundary` tells
/// whether the material marks a medium boundary, `front` which side was
/// struck, and `scatters` whether the material produced an outgoing ray.
#[derive(PartialEq, Eq, Structural, Clone, Copy, Debug)]
pub enum PathEvent {
    Miss,
    Surface { scatter_first: bool, boundary: bool, front: bool, scatters: bool },
}

/// What the tracer must do next.
#[derive(PartialEq, Eq, Structural, Clone, Copy, Debug)]
pub enum PathAction {
    /// Terminal: return the environment's radiance for the ray.
    Environment,
    /// Terminal: return the material's emitted radiance alone.
    Emit,
    /// Scatter isotropically at the free-flight point inside the medium,
    /// tint by the medium's color, and continue with a fresh
    /// free-flight draw.
    MediumScatter,
    /// Continue from the boundary into the medium.
    EnterMedium,
    /// Continue from the boundary out of the medium.
    ExitMedium,
    /// Ordinary bounce: emitted radiance plus attenuated recursion
    /// along the scattered ray.
    Bounce,
}

/// One decision step of the volumetric tracer.
///
/// The clauses spell out the complete case split:
/// - an exhausted path returns the environment, whatever it sees;
/// - inside a medium, a free flight ending before the surface — or no
///   surface at all — scatters in the medium and costs one bounce;
/// - a medium boundary is crossed for free: entering turns the medium
///   state on, leaving turns it off, neither consumes a bounce;
/// - an ordinary surface bounces (one bounce consumed, medium state
///   kept) if its material scatters, else terminates on its emission;
/// - a miss outside any medium returns the environment.
pub fn volume_step(state: PathState, event: PathEvent) -> (r: (PathAction, PathState))
    ensures
        r == spec_volume_step(state, event),
{
    if state.depth == 0 {
        return (PathAction::Environment, state);
    }
    match event {
        PathEvent::Miss => {
            if state.in_medium {
                (
                    PathAction::MediumScatter,
                    PathState { depth: state.depth - 1, in_medium: true },
                )
            } else {
                (PathAction::Environment, state)
            }
        },
        PathEvent::Surface { scatter_first, boundary, front, scatters } => {
            if state.in_medium && scatter_first {
                (
                    PathAction::MediumScatter,
                    PathState { depth: state.depth - 1, in_medium: true },
                )
            } else if boundary && front {
                (PathAction::EnterMedium, PathState { depth: state.depth, in_medium: true })
            } else if boundary {
                (PathAction::ExitMedium, PathState { depth: state.depth, in_medium: false })
            } else if scatters {
                (
                    PathAction::Bounce,
                    PathState { depth: state.depth - 1, in_medium: state.in_medium },
                )
            } else {
                (PathAction::Emit, state)
            }
        },
    }
}

/// One decision step of the plain (non-volumetric) tracer: an exhausted
/// path or a miss returns the environment; a hit bounces if the material
/// scatters and terminates on its emission otherwise.
pub fn plain_step(depth: u32, hit: bool, scatters: bool) -> (r: PathAction)
    ensures
        depth == 0 ==> r == PathAction::Environment,
        depth > 0 && !hit ==> r == PathAction::Environment,
        depth > 0 && hit && scatters ==> r == PathAction::Bounce,
        depth > 0 && hit && !scatters ==> r == PathAction::Emit,
{
    if depth == 0 || !hit {
        PathAction::Environment
    } else if scatters {
        PathAction::Bounce
    } else {
        PathAction::Emit
    }
}

/// What the importance-sampling tracer must do next.
#[derive(PartialEq, Eq, Structural, Clone, Copy, Debug)]
pub enum WeightedAction {
    /// Terminal: the environment's radiance.
    Environment,
    /// Terminal: the material's emitted radiance alone — also the guard
    /// taken when the mixture density is not positive, so that no
    /// division by zero reaches the estimator.
    Emit,
    /// A delta-distribution material: attenuated recursion along the
    /// material's own ray, with no density reweighting.
    AlbedoBounce,
    /// A density-carrying material: emitted radiance plus attenuated
    /// recursion along the mixture-drawn ray, reweighted by the ratio of
    /// the material's scattering density to the mixture's density.
    WeightedBounce,
}

/// One decision step of the importance-sampling tracer.
///
/// `has_pdf` tells whether the material attached a sampling density;
/// `pdf_positive` whether the density drawn from the light/material
/// mixture is strictly positive.  The zero-density guard is what keeps
/// NaNs out of the image: a draw the mixture itself deems impossible
/// contributes emission only.
pub fn weighted_step(depth: u32, hit: bool, scatters: bool, has_pdf: bool, pdf_positive: bool) -> (r:
    WeightedAction)
    ensures
        depth == 0 ==> r == WeightedAction::Environment,
        depth > 0 && !hit ==> r == WeightedAction::Environment,
        depth > 0 && hit && !scatters ==> r == WeightedAction::Emit,
        depth > 0 && hit && scatters && !has_pdf ==> r == WeightedAction::AlbedoBounce,
        depth > 0 && hit && scatters && has_pdf && !pdf_positive ==> r == WeightedAction::Emit,
        depth > 0 && hit && scatters && has_pdf && pdf_positive ==> r
            == WeightedAction::WeightedBounce,
{
    if depth == 0 || !hit {
        WeightedAction::Environment
    } else if !scatters {
        WeightedAction::Emit
    } else if !has_pdf {
        WeightedAction::AlbedoBounce
    } else if !pdf_positive {
        WeightedAction::Emit
    } else {
        WeightedAction::WeightedBounce
    }
}

/// Bounces only ever run out: no step leaves more depth than it found.
pub proof fn lemma_depth_never_grows(state: PathState, event: PathEvent, r: (
    PathAction,
    PathState,
))
    requires
        r == spec_volume_step(state, event),
    ensures
        r.1.depth <= state.depth,
{
}

/// Crossing a medium boundary is free: entering or leaving a medium
/// keeps the remaining depth, and every other non-terminal action
/// consumes exactly one bounce.
pub proof fn lemma_boundary_costs_nothing(state: PathState, event: PathEvent, r: (
    PathAction,
    PathState,
))
    requires
        r == spec_volume_step(state, event),
    ensures
        r.0 == PathAction::EnterMedium || r.0 == PathAction::ExitMedium ==> r.1.depth
            == state.depth,
        r.0 == PathAction::MediumScatter || r.0 == PathAction::Bounce ==> r.1.depth
            == state.depth - 1,
{
}

/// The medium state is driven by the boundaries alone: after entering,
/// the ray is inside; after leaving, outside; a bounce keeps it.
pub proof fn lemma_medium_follows_boundaries(state: PathState, event: PathEvent, r: (
    PathAction,
    PathState,
))
    requires
        r == spec_volume_step(state, event),
    ensures
        r.0 == PathAction::EnterMedium ==> r.1.in_medium,
        r.0 == PathAction::ExitMedium ==> !r.1.in_medium,
        r.0 == PathAction::MediumScatter ==> r.1.in_medium,
        r.0 == PathAction::Bounce ==> r.1.in_medium == state.in_medium,
{
}

/// An exhausted path falls back to the environment's radiance — the
/// one termination convention this tracer uses, never zero radiance.
pub proof fn lemma_exhausted_returns_environment(state: PathState, event: PathEvent)
    requires
        state.depth == 0,
    ensures
        spec_volume_step(state, event).0 == PathAction::Environment,
{
}

/// The decisions of [`volume_step`], as a specification function; the
/// executable step agrees with it clause by clause.
pub open spec fn spec_volume_step(state: PathState, event: PathEvent) -> (PathAction, PathState) {
    if state.depth == 0 {
        (PathAction::Environment, state)
    } else {
        match event {
            PathEvent::Miss => if state.in_medium {
                (
                    PathAction::MediumScatter,
                    PathState { depth: (state.depth - 1) as u32, in_medium: true },
                )
            } else {
                (PathAction::Environment, state)
            },
            PathEvent::Surface { scatter_first, boundary, front, scatters } => if state.in_medium
                && scatter_first {
                (
                    PathAction::MediumScatter,
                    PathState { depth: (state.depth - 1) as u32, in_medium: true },
                )
            } else if boundary && front {
                (PathAction::EnterMedium, PathState { depth: state.depth, in_medium: true })
            } else if boundary {
                (PathAction::ExitMedium, PathState { depth: state.depth, in_medium: false })
            } else if scatters {
                (
                    PathAction::Bounce,
                    PathState { depth: (state.depth - 1) as u32, in_medium: state.in_medium },
                )
            } else {
                (PathAction::Emit, state)
            },
        }
    }
}

} // verus!

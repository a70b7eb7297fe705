//! Verified core of a small path tracer.
//!
//! Ray tracing mixes two kinds of logic: continuous geometry (intersection
//! times, radiance, probability densities) and a discrete skeleton that
//! decides how that geometry is organised and traversed.  This crate holds
//! the discrete skeleton, with machine-checked contracts:
//!
//! - [`tex`]: the 8-bit texture image buffer with wrap-around addressing,
//!   and the checker pattern's parity rule;
//! - [`rng`]: the deterministic pseudo-random generator used for sampling,
//!   with a proof that re-seeding reproduces the same draw sequence;
//! - [`bvh`]: the bounding-volume hierarchy's build step — sorting by a
//!   per-axis key and splitting at the median index — with proofs that no
//!   object is lost or duplicated and that the tree is balanced;
//! - [`resolve`]: a model of the two resolvers' queries, with proofs
//!   that the hierarchy's pruned, bound-tightening descent reports the
//!   same nearest hit as the plain linear scan;
//! - [`path`]: the light-transport recursion's control state machine,
//!   including the participating-medium bookkeeping, as a verified
//!   step function from state and event to action and next state;
//! - [`render`]: the image-plane driver's pixel scheduling and the
//!   assembly of scattered per-pixel results into a grid, with a proof
//!   that the assembled image does not depend on completion order.

pub mod bvh;
pub mod path;
pub mod render;
pub mod resolve;
pub mod rng;
pub mod tex;

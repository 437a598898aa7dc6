//! Tracking of asset groups whose full dependency set grows while they load.
//!
//! Fetching one resource can, as a side effect, discover further sub-resources
//! that must also finish loading before the group is ready. This crate keeps
//! the parent/child registry of such discoveries (`sub_assets`), computes a
//! debounced aggregate readiness signal for a group and its transitive
//! dependencies (`aggregate`), and drives the per-group load/unload state
//! machine (`asset_struct`). All actual fetching is left to an external
//! collaborator; this crate only looks at plain snapshots of its per-identifier
//! load states.

pub mod aggregate;
pub mod asset_struct;
pub mod load_state;
pub mod sub_assets;

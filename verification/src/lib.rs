//! Core logic of a debug inspector overlay for a live simulation.
//!
//! Two independent reducers drive the overlay, once per simulation tick:
//!
//! * the list synchronizer ([`sync::sync`]) projects newly created domain
//!   entities into append commands against the per-category list containers;
//! * the focus coordinator ([`focus::reconcile`]) keeps at most one text
//!   input active, following the most recent pointer press.
//!
//! Both are pure functions from a snapshot of external state plus an event
//! batch to a list of mutation commands; the host applies the commands to
//! its UI tree.

pub mod focus;
pub mod model;
pub mod sync;

//! Discovery of groups that have no owning account.
//!
//! The crate decides, and leaves every effect to its caller. Each component is
//! a value that is moved forward by events and answers with the next thing the
//! caller has to do: fetch a record, write the exclusion file, print a group.
//! What is decided is stated in contracts and proved.
//!
//! - [`model`]: the records exchanged with the group data provider.
//! - [`availability`]: the predicate that says whether a group counts as unclaimed.
//! - [`exclusion`]: the set of group ids that were already visited, and its stored form.
//! - `random`: the two random draws the selector needs.
//! - [`selector`]: picks the next candidate id, at random or by keyword search.
//! - [`select_laws`]: what holds of every selection.
//! - [`walker`]: visits a group and everything reachable through allies and enemies.
//! - [`walk_laws`]: what holds of every walk: no group is visited twice, every walk ends.
//! - [`walk_meaning`]: the visit said in one piece, and the proof that the walker computes it.
//! - [`run_loop`]: one discovery attempt after another, until a walk succeeds.

pub mod availability;
pub mod exclusion;
pub mod model;
mod random;
pub mod run_loop;
pub mod select_laws;
pub mod selector;
pub mod walk_laws;
pub mod walk_meaning;
pub mod walker;

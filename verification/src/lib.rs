//! Optimal-action tables for a resource-constrained, turn-based production
//! process.
//!
//! A production attempt holds two depleting resources (durability and action
//! points) plus a set of timed modifiers. The library models the fixed action
//! catalog, enumerates the reachable modifier combinations, and fills a dense
//! value table and policy table by backward induction over action-point
//! layers.

pub mod logic;
pub mod statespace;
pub mod table;

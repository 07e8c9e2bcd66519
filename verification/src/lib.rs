//! Core state machine for a guild's lawsuit and confinement workflows.
//!
//! A guild's persistent record holds its court rooms, its lawsuits and its
//! confinement entries. The lawsuit lifecycle provisions an isolated room per
//! dispute and closes a dispute by recording a verdict; the confinement
//! workflow keeps a member's restriction durable across the platform losing
//! the member's roles, by reconciling on every membership join.

pub mod confinement;
pub mod lawsuit;
pub mod model;
pub mod store;

//! A deterministic core for a small creature-herding simulation.
//!
//! Creatures ("shmoops") live in one shared entity store. Once per frame and
//! once per physics step an ordered pipeline of systems runs over that store:
//! pointer selection and dragging, hunger, goal pursuit, pickup and feeding on
//! contact, goal abandonment, fall detection, despawning and the hazard that
//! drops ground tiles one by one.
//!
//! All quantities are fixed point: lengths in thousandths of a world unit,
//! time in milliseconds, speeds in thousandths of a unit per second and
//! hunger in thousandths of a percent.

pub mod census;
pub mod death;
pub mod geometry;
pub mod hazard;
pub mod hunger;
pub mod interaction;
pub mod laws;
pub mod pointer;
pub mod pursuit;
pub mod schedule;
pub mod store;
pub mod timer;

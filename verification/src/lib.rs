//! Frame-stepped core of a small fixed-screen shooter: a ship that slides
//! along the bottom edge and fires upward, a formation of bugs that sweeps
//! and descends, and the lasers flying between them. Everything here works on
//! fixed-point coordinates, so each frame is a pure, exactly specified
//! function of the previous one.
//!
//! [`store`] owns the entities. [`player`], [`bug`], [`laser`] and
//! [`collision`] are the four systems, and [`simulation`] runs them in their
//! fixed order. [`input`] turns raw key states into per-frame snapshots.
//! [`laws`] proves what holds over whole runs.

pub mod bug;
pub mod collision;
pub mod entity;
pub mod input;
pub mod laser;
pub mod laws;
pub mod player;
pub mod simulation;
pub mod store;
pub mod units;

//! A verified PLONK-style random-access gate: the unit that turns "the value
//! at a dynamic position inside a fixed-size list equals a given element"
//! into a bounded-degree polynomial constraint system, together with the
//! witness generator that fills in the auxiliary wires those constraints need.
//!
//! The constraints are evaluated in three contexts — over the base
//! field, over a degree-`D` extension ring, and symbolically inside another
//! circuit — and the three are proved consistent.

pub mod builder;
pub mod extension;
pub mod field;
pub mod random_access;
pub mod witness;

//! Analysis layer: kinematic formulas, the particle/event capability
//! traits, the criteria families, and the event analyzer engine.
pub mod fncs;
pub mod generic;
pub mod impls;

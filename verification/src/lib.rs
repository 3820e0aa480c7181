//! Analysis of heavy-ion event-simulation output: format decoders for several
//! line-oriented record grammars, a particle-code dictionary, kinematic
//! formulas, and a criteria-driven analyzer that folds per-event observables.
//!
//! All physical quantities are fixed-point integers in units of 1e-9
//! (see `numeric::FP_SCALE`), so every formula here is exact integer
//! arithmetic with stated truncation behaviour.
#![allow(non_snake_case)]
#![allow(non_camel_case_types)]

pub mod anlz;
pub mod api_macro;
pub mod cli;
pub mod custom_criteria;
pub mod fmt;
pub mod numeric;

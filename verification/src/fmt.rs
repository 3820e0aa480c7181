//! Format layer: the particle dictionary and the line-oriented decoders
//! for each supported event-record grammar.
pub mod decoder;
pub mod generic;
pub mod hepmc;
pub mod oscar;
pub mod phqmd;
pub mod qgsm;

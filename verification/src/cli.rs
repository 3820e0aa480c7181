//! Run-configuration values shared with the command-line front end.
use vstd::prelude::*;

verus! {

/// The input-format tag a caller selects.
#[derive(Clone, Debug)]
pub enum AcceptedTypes {
    EPOS,
    UrQmdF19,
    PHQMD,
}

/// What a run computes.
#[derive(Clone, Debug, PartialEq, Eq, Structural)]
pub enum CalcTarget {
    Statistics,
    Distribution,
}

/// How a run walks the event history.
#[derive(Clone, Debug, PartialEq, Eq, Structural)]
pub enum CalcMode {
    /// final result checkout
    Default,
    /// calculate checkout to each timestep
    InTime,
}

} // verus!

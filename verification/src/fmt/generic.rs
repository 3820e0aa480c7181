//! Shared shape of every format reader: a data file holds a run-level
//! header and a list of event blocks, each block a header and particles.
use vstd::prelude::*;

use super::decoder::EposDict;

verus! {

/// A failure while decoding an event stream.
#[derive(Debug, Clone, PartialEq, Eq, Structural)]
pub enum ParseError {
    /// A token that should be numeric does not parse: fatal for the file.
    Field,
    /// The stream ended without the run-level header the format requires.
    MissingHeader,
}

/// An event block: a block header plus its particles.
pub trait DataBlock<Header> {
    fn get_header(&self) -> &Header;
}

/// A decoded data file: a run header and its event blocks, with
/// concatenation of several uploads of the same format.
pub trait GenericDataContainer: Sized {
    type Header;

    type BlockHeader;

    type Block;

    /// The run-level header.
    spec fn spec_header(&self) -> Self::Header;

    /// The event blocks, in input order.
    spec fn spec_blocks(&self) -> Seq<Self::Block>;

    fn get_header(&self) -> (r: &Self::Header)
        ensures
            *r == self.spec_header(),
    ;

    fn get_blocks(&self) -> (r: &Vec<Self::Block>)
        ensures
            r@ == self.spec_blocks(),
    ;

    fn borrow_blocks(self) -> (r: Vec<Self::Block>)
        ensures
            r@ == self.spec_blocks(),
    ;

    /// Decodes one input stream, given as its lines. Each implementation
    /// states the exact grammar in its own contract.
    fn upload(lines: &Vec<Vec<u8>>, decoder: &EposDict) -> Result<Self, ParseError>;

    /// Appends the events of another decoded file, keeping this header.
    fn push_back(&mut self, t: Self)
        ensures
            final(self).spec_blocks() == old(self).spec_blocks() + t.spec_blocks(),
            final(self).spec_header() == old(self).spec_header(),
    ;
}

} // verus!

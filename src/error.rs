use vstd::prelude::*;

verus! {

/// The failures that the engine reports.
#[derive(Debug, Clone, Copy, PartialEq, Eq, Structural)]
pub enum Error {
    /// Bad operator or document input: a malformed address, a missing file,
    /// a reference to a variable that no earlier step bound.
    Config,
    /// Token text that the grammar does not accept.
    Grammar,
    /// A socket could not be opened, written or read.
    Transport,
    /// A response shorter than the tokens expect, or otherwise malformed.
    Protocol,
    /// A payload that the wire format cannot carry.
    Framing,
}

} // verus!

//! Why a recogniser found nothing at the start of its input.

use vstd::prelude::*;

verus! {

/// The reason for which a recogniser gave up. Whatever the reason, nothing of
/// the input was consumed: the caller may try another production at the same
/// position.
#[derive(Clone, Copy, Debug, PartialEq, Eq)]
pub enum ParseError {
    /// No reserved word, followed by a boundary, stands at the start of the
    /// input.
    NoKeyword,
    /// A reserved word stands where an identifier was expected.
    KeywordCollision,
    /// Not one identifier byte stands at the start of the input, which may be
    /// empty.
    EmptyInput,
    /// One qualifier or more, each with its dot, was read, and no identifier
    /// follows the last dot.
    MalformedPath,
    /// The input does not begin with a call of an aggregate function, or the
    /// call lacks the argument that the function asks for.
    MalformedFunctionCall,
    /// The input does not begin with one of the three field selectors.
    UnrecognizedSelector,
}

} // verus!

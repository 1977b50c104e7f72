use vstd::prelude::*;

verus! {

/// Errors raised while parsing a Matroska/EBML container.
///
/// `NotMatroska` is raised only when the very first bytes of the input do not
/// carry the EBML header signature. `Truncated` is raised when a declared
/// element size reaches past the available bytes. The three `Malformed*`
/// variants cover structurally invalid fields: a bad variable-length integer,
/// a track entry missing a required child (or carrying a zero or duplicate
/// track number), and a block whose track number or lacing header does not
/// decode.
#[derive(Clone, Copy, Debug, PartialEq, Eq, Structural)]
pub enum ParseError {
    NotMatroska,
    Truncated,
    MalformedId,
    MalformedTrack,
    MalformedBlock,
}

} // verus!

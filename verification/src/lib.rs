//! Verified core of a client for a line-oriented, turn-based grid game
//! protocol: the cell-token grammar, the field decoder, the incremental
//! game-state model, the line dispatcher, and the response encoder.
//!
//! Input/output plumbing (reading lines, printing responses) lives outside
//! this crate; every function here is pure computation over plain values.
#![allow(unused_imports)]

use vstd::prelude::*;

pub mod cell;
pub mod field;
pub mod game;
pub mod num;
pub mod protocol;
pub mod split;

verus! {

/// How a malformed protocol line is classified.  A line that draws one of
/// these is skipped whole: the game state is left exactly as it was.
#[derive(Clone, Copy, PartialEq, Eq, Structural, Debug)]
pub enum ProtocolError {
    /// A cell token or a numeric token does not match the grammar.
    MalformedToken,
    /// The cell count of a field update is not a positive multiple of the
    /// configured field width.
    DimensionMismatch,
}

} // verus!

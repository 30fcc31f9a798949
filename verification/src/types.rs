//! Plain records shared by the analysis pipeline.

use vstd::prelude::*;
use crate::motif::Motif;

verus! {

/// A position as described to the explanation writer.
#[derive(Debug, Clone, PartialEq, Eq)]
pub struct PositionInfo {
    pub fen: String,
    /// "white" or "black".
    pub side_to_move: String,
    pub fullmove_number: u32,
    /// Search depth, recorded for reproducibility.
    pub depth: u8,
}

/// Which counterfactual is told.
#[derive(Debug, Clone, Copy, PartialEq, Eq, Structural)]
pub enum CounterfactualKind {
    /// Bad move: how the opponent punishes what was played.
    Refutation,
    /// Good move: how the position collapses if the second-best move is
    /// played instead.
    AlternativeCollapse,
}

impl CounterfactualKind {
    /// The name on the wire.
    pub fn as_str(self) -> (r: &'static str)
        ensures
            r@ == (match self {
                CounterfactualKind::Refutation => "refutation"@,
                CounterfactualKind::AlternativeCollapse => "alternative_collapse"@,
            }),
    {
        match self {
            CounterfactualKind::Refutation => "refutation",
            CounterfactualKind::AlternativeCollapse => "alternative_collapse",
        }
    }
}

/// What would have happened otherwise.
#[derive(Debug, Clone, PartialEq, Eq)]
pub struct Counterfactual {
    pub kind: CounterfactualKind,
    /// The position the replay starts from: after the move for a
    /// refutation, before it for an alternative collapse.
    pub start_fen: String,
    /// The line replayed (SAN).
    pub pv: Vec<String>,
    pub motifs: Vec<Motif>,
}

/// A named opening as reported with a move.
#[derive(Debug, Clone, PartialEq, Eq)]
pub struct OpeningInfo {
    pub eco: String,
    pub name: String,
    /// How many plies matched the book.
    pub matched_plies: u32,
}

} // verus!

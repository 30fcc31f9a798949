//! Engine evaluations and the point-of-view flip between adjacent positions.

use vstd::prelude::*;

verus! {

/// A Stockfish evaluation, always from the point of view of the side to move
/// in that position.
#[derive(Debug, Clone, Copy, PartialEq, Eq, Structural)]
pub enum Score {
    Cp(i32),
    /// Positive means the side to move is delivering mate; the value is in moves.
    Mate(i32),
}

/// A score whose sign can be flipped without leaving `i32`.
pub open spec fn negatable(s: Score) -> bool {
    match s {
        Score::Cp(cp) => cp > i32::MIN,
        Score::Mate(n) => n > i32::MIN,
    }
}

/// Whether the side to move is the one delivering mate; `None` for centipawns.
pub open spec fn spec_mating_side(s: Score) -> Option<bool> {
    match s {
        Score::Cp(_) => None,
        Score::Mate(n) => Some(n > 0),
    }
}

/// The flipped point of view. `Mate(0)` (the side to move is already mated)
/// flips to the shortest representable winning mate, `Mate(1)`.
pub open spec fn spec_negate(s: Score) -> Score {
    match s {
        Score::Cp(cp) => Score::Cp(-cp as i32),
        Score::Mate(n) => if n == 0 { Score::Mate(1) } else { Score::Mate(-n as i32) },
    }
}

/// Plain sign flip of either kind of score.
pub open spec fn spec_opponent_pov(s: Score) -> Score {
    match s {
        Score::Cp(cp) => Score::Cp(-cp as i32),
        Score::Mate(n) => Score::Mate(-n as i32),
    }
}

impl Score {
    pub fn is_mate(self) -> (r: bool)
        ensures
            r == (self is Mate),
    {
        match self {
            Score::Mate(_) => true,
            Score::Cp(_) => false,
        }
    }

    /// Whether the side to move is the one delivering mate. `None` for `Cp`.
    /// `Mate(0)` means the side to move is already mated, so it counts as
    /// getting mated.
    pub fn mating_side(self) -> (r: Option<bool>)
        ensures
            r == spec_mating_side(self),
    {
        match self {
            Score::Cp(_) => None,
            Score::Mate(n) => Some(n > 0),
        }
    }

    /// Flip the point of view, reading position N+1's evaluation from the side
    /// that moved in position N.
    pub fn negate(self) -> (r: Score)
        requires
            negatable(self),
        ensures
            r == spec_negate(self),
    {
        match self {
            Score::Cp(cp) => Score::Cp(-cp),
            Score::Mate(n) => if n == 0 { Score::Mate(1) } else { Score::Mate(-n) },
        }
    }
}

/// The point-of-view flip used between adjacent positions of a line.
pub fn opponent_pov(score: Score) -> (r: Score)
    requires
        negatable(score),
    ensures
        r == spec_opponent_pov(score),
{
    match score {
        Score::Cp(cp) => Score::Cp(-cp),
        Score::Mate(n) => Score::Mate(-n),
    }
}

/// Negating twice gives the score back, for every score except `Mate(0)`.
pub proof fn lemma_negate_involution(s: Score)
    requires
        negatable(s),
        s != Score::Mate(0),
    ensures
        negatable(spec_negate(s)),
        spec_negate(spec_negate(s)) == s,
{
}

/// A delivered checkmate, flipped, is a win for the side that delivered it.
pub proof fn lemma_negate_of_mated_is_mating()
    ensures
        spec_mating_side(spec_negate(Score::Mate(0))) == Some(true),
{
}

/// Flipping the point of view twice is the identity.
pub proof fn lemma_opponent_pov_involution(s: Score)
    requires
        negatable(s),
    ensures
        negatable(spec_opponent_pov(s)),
        spec_opponent_pov(spec_opponent_pov(s)) == s,
{
}

/// Flipping a mate swaps who delivers it, except a mate already delivered.
pub proof fn lemma_negate_swaps_mating_side(s: Score)
    requires
        negatable(s),
        s is Mate,
        s != Score::Mate(0),
    ensures
        spec_mating_side(spec_negate(s)) == Some(!(spec_mating_side(s)->0)),
{
}

} // verus!

//! Move classification: the rule table that turns the evaluations around a
//! move into a verdict.
//!
//! The table is decided here over plain facts. The comparisons of win
//! probabilities against the calibrated thresholds are made by the caller,
//! which hands over which band the win-probability change fell into, whether
//! the runner-up trailed by the "only move" gap, and whether the position was
//! still undecided.

use vstd::prelude::*;
use crate::score::{Score, spec_mating_side};

verus! {

#[derive(Debug, Clone, Copy, PartialEq, Eq, Structural)]
pub enum Classification {
    /// Decided by the opening-book stage before the engine; `decide` never returns it.
    Book,
    /// `!`
    Great,
    Best,
    Excellent,
    Good,
    /// `?!`
    Inaccuracy,
    /// `?`
    Mistake,
    /// `??`
    Blunder,
    /// The best move was mate, and the move played gave the mate up.
    Miss,
}

pub open spec fn spec_deserves_explanation(c: Classification) -> bool {
    c == Classification::Blunder || c == Classification::Mistake || c == Classification::Great
        || c == Classification::Miss
}

pub open spec fn spec_is_mistake(c: Classification) -> bool {
    c == Classification::Inaccuracy || c == Classification::Mistake || c == Classification::Blunder
        || c == Classification::Miss
}

pub open spec fn spec_glyph(c: Classification) -> Seq<char> {
    match c {
        Classification::Great => seq!['!'],
        Classification::Inaccuracy => seq!['?', '!'],
        Classification::Mistake => seq!['?'],
        Classification::Blunder => seq!['?', '?'],
        _ => seq![],
    }
}

pub open spec fn spec_label(c: Classification) -> Seq<char> {
    match c {
        Classification::Book => "book"@,
        Classification::Great => "great"@,
        Classification::Best => "best"@,
        Classification::Excellent => "excellent"@,
        Classification::Good => "good"@,
        Classification::Inaccuracy => "inaccuracy"@,
        Classification::Mistake => "mistake"@,
        Classification::Blunder => "blunder"@,
        Classification::Miss => "miss"@,
    }
}

impl Classification {
    /// Whether this move gets an LLM explanation.
    pub fn deserves_explanation(self) -> (r: bool)
        ensures
            r == spec_deserves_explanation(self),
    {
        match self {
            Classification::Blunder | Classification::Mistake | Classification::Great
            | Classification::Miss => true,
            _ => false,
        }
    }

    /// Whether this is a bad move, which decides the line replayed on the board.
    pub fn is_mistake(self) -> (r: bool)
        ensures
            r == spec_is_mistake(self),
    {
        match self {
            Classification::Inaccuracy | Classification::Mistake | Classification::Blunder
            | Classification::Miss => true,
            _ => false,
        }
    }

    /// NAG-style glyph.
    pub fn glyph(self) -> (r: &'static str)
        ensures
            r@ == spec_glyph(self),
    {
        proof {
            reveal_strlit("!");
            reveal_strlit("?!");
            reveal_strlit("?");
            reveal_strlit("??");
            reveal_strlit("");
        }
        match self {
            Classification::Great => "!",
            Classification::Inaccuracy => "?!",
            Classification::Mistake => "?",
            Classification::Blunder => "??",
            _ => "",
        }
    }
}

/// Lower-case name of a classification, as it appears in reports.
pub fn label(classification: Classification) -> (r: &'static str)
    ensures
        r@ == spec_label(classification),
{
    match classification {
        Classification::Book => "book",
        Classification::Great => "great",
        Classification::Best => "best",
        Classification::Excellent => "excellent",
        Classification::Good => "good",
        Classification::Inaccuracy => "inaccuracy",
        Classification::Mistake => "mistake",
        Classification::Blunder => "blunder",
        Classification::Miss => "miss",
    }
}

/// Where the change in winning chances (`delta = after - before`) falls
/// against the thresholds, worst first: at or below the blunder threshold, at
/// or below the mistake threshold, at or below the inaccuracy threshold,
/// strictly below the excellent threshold, exactly on it, strictly above it.
#[derive(Debug, Clone, Copy, PartialEq, Eq, Structural)]
pub enum DeltaBand {
    Blunder,
    Mistake,
    Inaccuracy,
    BelowExcellent,
    AtExcellent,
    AboveExcellent,
}

/// The evaluations a classification is made from.
#[derive(Debug, Clone, Copy, PartialEq, Eq, Structural)]
pub struct ClassifyInput {
    /// Evaluation of the best move in position N, side-to-move's view.
    pub best: Score,
    /// Evaluation of the second-best move; `None` when MultiPV returned one move.
    pub second: Option<Score>,
    /// Evaluation of the move played: position N+1's score, already negated
    /// into the mover's point of view.
    pub played: Score,
    /// Rank of the played move among the candidates, `None` if absent.
    pub played_rank: Option<usize>,
}

impl ClassifyFacts {
    /// The facts for an input, given what its win probabilities say: the band
    /// of the change, whether the gap to the second move is the "only move"
    /// gap, and whether the position was undecided before the move.
    pub fn from_input(input: &ClassifyInput, band: DeltaBand, gap_reached: bool, undecided: bool) -> (r: ClassifyFacts)
        ensures
            r.best == input.best,
            r.second == input.second,
            r.played == input.played,
            r.played_rank == input.played_rank,
            r.band == band,
            r.gap_reached == gap_reached,
            r.undecided == undecided,
    {
        ClassifyFacts {
            best: input.best,
            second: input.second,
            played: input.played,
            played_rank: input.played_rank,
            band,
            gap_reached,
            undecided,
        }
    }
}

/// Everything the rule table reads.
#[derive(Debug, Clone, Copy)]
pub struct ClassifyFacts {
    /// Evaluation of the best move in position N, side-to-move's view.
    pub best: Score,
    /// Evaluation of the second-best move; `None` when MultiPV returned one move.
    pub second: Option<Score>,
    /// Evaluation of the move played, already in the mover's point of view.
    pub played: Score,
    /// Rank of the played move among the candidates, `None` if absent.
    pub played_rank: Option<usize>,
    /// Band of `delta`.
    pub band: DeltaBand,
    /// Best minus second-best win probability reaches the "only move" gap.
    /// Meaningless (and ignored) when `second` is `None`.
    pub gap_reached: bool,
    /// Win probability before the move lies strictly inside the undecided band.
    pub undecided: bool,
}

/// The move played walks into a forced mate that the best move avoided.
pub open spec fn spec_walks_into_mate(f: ClassifyFacts) -> bool {
    spec_mating_side(f.played) == Some(false) && spec_mating_side(f.best) != Some(false)
}

/// The played move is the only candidate forcing a mate at least two moves away.
pub open spec fn spec_only_mate(f: ClassifyFacts) -> bool {
    &&& f.best matches Score::Mate(n) && n >= 2
    &&& match f.second {
        Some(second) => spec_mating_side(second) != Some(true),
        None => false,
    }
}

/// Band at or above the excellent threshold (`delta >= EXCELLENT_DELTA`).
pub open spec fn held(b: DeltaBand) -> bool {
    b == DeltaBand::AtExcellent || b == DeltaBand::AboveExcellent
}

/// The rule table, evaluated top to bottom; the first match wins.
/// Miss, Great (only move held), Great (only move that mates), Blunder,
/// Mistake, Inaccuracy, Best, Excellent, Good.
pub open spec fn spec_decide(f: ClassifyFacts) -> Classification {
    let is_best = f.played_rank == Some(0usize);
    let only_move = f.second is Some && f.gap_reached;
    if spec_mating_side(f.best) == Some(true) && !(f.played is Mate) {
        Classification::Miss
    } else if is_best && only_move && f.undecided && held(f.band) {
        Classification::Great
    } else if is_best && spec_only_mate(f) && held(f.band) {
        Classification::Great
    } else if f.band == DeltaBand::Blunder || spec_walks_into_mate(f) {
        Classification::Blunder
    } else if f.band == DeltaBand::Mistake {
        Classification::Mistake
    } else if f.band == DeltaBand::Inaccuracy {
        Classification::Inaccuracy
    } else if is_best {
        Classification::Best
    } else if f.band == DeltaBand::AboveExcellent {
        Classification::Excellent
    } else {
        Classification::Good
    }
}

/// The move played walks into a forced mate that the best move avoided.
pub fn walks_into_mate(f: &ClassifyFacts) -> (r: bool)
    ensures
        r == spec_walks_into_mate(*f),
{
    f.played.mating_side() == Some(false) && f.best.mating_side() != Some(false)
}

/// The played move is the only move that forces a mate still a move away.
pub fn only_mate(f: &ClassifyFacts) -> (r: bool)
    ensures
        r == spec_only_mate(*f),
{
    let far_mate = match f.best {
        Score::Mate(n) => n >= 2,
        Score::Cp(_) => false,
    };
    far_mate && match f.second {
        Some(second) => second.mating_side() != Some(true),
        None => false,
    }
}

/// Apply the rule table.
pub fn decide(f: &ClassifyFacts) -> (c: Classification)
    ensures
        c == spec_decide(*f),
{
    if f.best.mating_side() == Some(true) && !f.played.is_mate() {
        return Classification::Miss;
    }
    let is_best = match f.played_rank {
        Some(rank) => rank == 0,
        None => false,
    };
    let only_move = match f.second {
        Some(_) => f.gap_reached,
        None => false,
    };
    let held_position = match f.band {
        DeltaBand::AtExcellent | DeltaBand::AboveExcellent => true,
        _ => false,
    };
    if is_best && only_move && f.undecided && held_position {
        return Classification::Great;
    }
    if is_best && only_mate(f) && held_position {
        return Classification::Great;
    }
    if matches!(f.band, DeltaBand::Blunder) || walks_into_mate(f) {
        return Classification::Blunder;
    }
    if matches!(f.band, DeltaBand::Mistake) {
        return Classification::Mistake;
    }
    if matches!(f.band, DeltaBand::Inaccuracy) {
        return Classification::Inaccuracy;
    }
    if is_best {
        return Classification::Best;
    }
    if matches!(f.band, DeltaBand::AboveExcellent) {
        return Classification::Excellent;
    }
    Classification::Good
}

/// The book verdict is decided before the engine: the rule table never yields it.
pub proof fn lemma_decide_never_book(f: ClassifyFacts)
    ensures
        spec_decide(f) != Classification::Book,
{
}

/// Miss fires exactly when the best move mated and the move played no longer does.
pub proof fn lemma_miss_iff_mate_given_up(f: ClassifyFacts)
    ensures
        (spec_decide(f) == Classification::Miss) <==> (spec_mating_side(f.best) == Some(true)
            && !(f.played is Mate)),
{
}

/// Great goes only to the top-ranked move, and only when the move held its value.
pub proof fn lemma_great_needs_best_and_held(f: ClassifyFacts)
    requires
        spec_decide(f) == Classification::Great,
    ensures
        f.played_rank == Some(0usize),
        held(f.band),
        f.second is Some,
{
}

/// A change in winning chances at or below the blunder threshold is always a
/// blunder, unless a mate was given up (Miss).
pub proof fn lemma_blunder_band_is_blunder(f: ClassifyFacts)
    requires
        f.band == DeltaBand::Blunder,
    ensures
        spec_decide(f) == Classification::Blunder || spec_decide(f) == Classification::Miss,
{
}

/// Walking into a mate the best move avoided is a blunder, whatever the band.
/// It is never a Miss (a forced mate is still on the board, against the
/// mover, so no mate was given up);
/// only the top-ranked move whose value held can be judged Great instead.
pub proof fn lemma_walking_into_mate_is_a_blunder(f: ClassifyFacts)
    requires
        spec_walks_into_mate(f),
    ensures
        spec_decide(f) == Classification::Blunder || spec_decide(f) == Classification::Great,
        !(f.played_rank == Some(0usize) && held(f.band)) ==> spec_decide(f) == Classification::Blunder,
{
}

/// The top-ranked move is never judged below Best unless the change in winning
/// chances itself says so (or a mate was given up, or walked into).
pub proof fn lemma_best_move_with_held_value_is_best_or_great(f: ClassifyFacts)
    requires
        f.played_rank == Some(0usize),
        held(f.band),
        !spec_walks_into_mate(f),
        !(spec_mating_side(f.best) == Some(true) && !(f.played is Mate)),
    ensures
        spec_decide(f) == Classification::Best || spec_decide(f) == Classification::Great,
{
}

/// A move judged a mistake is exactly one in the lower bands or a Miss or a
/// walk into mate: `is_mistake` agrees with the table.
pub proof fn lemma_is_mistake_matches_bands(f: ClassifyFacts)
    requires
        !spec_walks_into_mate(f),
        !(spec_mating_side(f.best) == Some(true) && !(f.played is Mate)),
        !(f.played_rank == Some(0usize) && held(f.band)),
    ensures
        spec_is_mistake(spec_decide(f)) <==> (f.band == DeltaBand::Blunder || f.band
            == DeltaBand::Mistake || f.band == DeltaBand::Inaccuracy),
{
}

/// Each band has its own verdict. Unless a mate was given up (Miss) or
/// walked into (Blunder), the band alone decides the lower verdicts: the
/// blunder band is a Blunder, the mistake band a Mistake, the inaccuracy
/// band an Inaccuracy. Above them, the top-ranked move is Best (or Great when
/// it was the only move that held or the only one that mates), and any other
/// move is Excellent strictly above the excellent threshold and Good at or
/// below it.
pub proof fn lemma_each_band_its_verdict(f: ClassifyFacts)
    requires
        !(spec_mating_side(f.best) == Some(true) && !(f.played is Mate)),
        !(spec_mating_side(f.played) == Some(false) && spec_mating_side(f.best) != Some(false)),
    ensures
        f.band == DeltaBand::Blunder ==> spec_decide(f) == Classification::Blunder,
        f.band == DeltaBand::Mistake ==> spec_decide(f) == Classification::Mistake,
        f.band == DeltaBand::Inaccuracy ==> spec_decide(f) == Classification::Inaccuracy,
        f.played_rank != Some(0usize) && f.band == DeltaBand::AboveExcellent ==> spec_decide(f) == Classification::Excellent,
        f.played_rank != Some(0usize) && (f.band == DeltaBand::BelowExcellent || f.band == DeltaBand::AtExcellent)
            ==> spec_decide(f) == Classification::Good,
        f.played_rank == Some(0usize) && f.band == DeltaBand::BelowExcellent ==> spec_decide(f) == Classification::Best,
        f.played_rank == Some(0usize) && (f.band == DeltaBand::AtExcellent || f.band == DeltaBand::AboveExcellent) ==> (
        spec_decide(f) == Classification::Great <==> ((f.second is Some && f.gap_reached && f.undecided) || (
        f.best matches Score::Mate(n) && n >= 2 && (f.second matches Some(s) && spec_mating_side(s) != Some(true))))),
        f.played_rank == Some(0usize) && (f.band == DeltaBand::AtExcellent || f.band == DeltaBand::AboveExcellent) ==> (
        spec_decide(f) == Classification::Great || spec_decide(f) == Classification::Best),
{
}

} // verus!

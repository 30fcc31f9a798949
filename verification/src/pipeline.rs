//! The pure decisions of the analysis pass: the point-of-view flip between
//! adjacent positions, the input a classification is made from, which line a
//! counterfactual replays, and which positions of a line are searched.
//!
//! Position `N`'s candidates give the alternatives to the move played there;
//! position `N+1`'s evaluation, negated, gives the value of the move played.

use vstd::prelude::*;
use crate::board::ChessMove;
use crate::book::{info_view, BookVerdict};
use crate::classify::{spec_is_mistake, Classification, ClassifyInput};
use crate::engine::{Candidate, EngineError, SearchResult};
use crate::motif::{line_ranked, motif_views, reported};
use crate::position::{
    parse_move, position_of_fen, PositionView, spec_parse_move, uci_parses, uci_reads, FenError, Position, Terminal,
};
use crate::score::{negatable, spec_opponent_pov, Score};
use crate::text::{copy_strings, decimal, push_decimal, push_str, string_from_chars, strings_view};
use crate::tree::GameTree;
use crate::types::{Counterfactual, CounterfactualKind, OpeningInfo, PositionInfo};
use crate::board::Color;

pub use crate::score::opponent_pov;

verus! {

/// The score of a position whose side to move has been checkmated: being
/// mated, so that the flip turns it into a mate for the side that delivered
/// it (`Mate(0)` has no sign and would flip into itself).
pub fn mated() -> (r: Score)
    ensures
        r == Score::Mate(-1i32),
{
    Score::Mate(-1i32)
}

/// How many plies of the best line the strategic outlook walks.
pub const OUTLOOK_PLIES: usize = 12;

/// A position's evaluation from its side to move: checkmate is `mated()`,
/// every other end of the game is dead even, and otherwise it is the best
/// candidate's score (even when there is none).
pub open spec fn spec_position_score(r: SearchResult) -> Score {
    match r.terminal {
        Some(Terminal::Checkmate) => Score::Mate(-1i32),
        Some(_) => Score::Cp(0),
        None => if r.candidates@.len() > 0 { r.candidates@[0].score } else { Score::Cp(0) },
    }
}

/// A position's evaluation, from the side to move's point of view.
pub fn position_score(result: &SearchResult) -> (r: Score)
    ensures
        r == spec_position_score(*result),
{
    match result.terminal {
        Some(Terminal::Checkmate) => mated(),
        Some(Terminal::Stalemate) | Some(Terminal::Draw) => Score::Cp(0),
        None => if result.candidates.len() > 0 {
            result.candidates[0].score
        } else {
            Score::Cp(0)
        },
    }
}

/// The first index from `k` on whose candidate has the UCI text `uci`.
pub open spec fn rank_of(cands: Seq<Candidate>, uci: Seq<char>, k: int) -> Option<usize>
    decreases cands.len() - k,
{
    if k < 0 || k >= cands.len() {
        None
    } else if cands[k].uci@ == uci {
        Some(k as usize)
    } else {
        rank_of(cands, uci, k + 1)
    }
}

/// The classification input of a move: `best` and `second` from the search
/// before it, `played` from the search after it, flipped into the mover's
/// point of view, and the played move's rank among the earlier candidates.
pub open spec fn spec_classify_input(played_uci: Seq<char>, before: SearchResult, after: SearchResult) -> ClassifyInput {
    ClassifyInput {
        best: if before.candidates@.len() > 0 { before.candidates@[0].score } else { spec_position_score(before) },
        second: if before.candidates@.len() > 1 { Some(before.candidates@[1].score) } else { None },
        played: spec_opponent_pov(spec_position_score(after)),
        played_rank: rank_of(before.candidates@, played_uci, 0),
    }
}

/// Assemble the input of a classification. This is where the sign
/// convention lives.
pub fn classify_input(played_uci: &str, before: &SearchResult, after: &SearchResult) -> (r: ClassifyInput)
    requires
        negatable(spec_position_score(*after)),
    ensures
        r == spec_classify_input(played_uci@, *before, *after),
{
    let best = if before.candidates.len() > 0 {
        before.candidates[0].score
    } else {
        position_score(before)
    };
    let second = if before.candidates.len() > 1 {
        Some(before.candidates[1].score)
    } else {
        None
    };
    let played = opponent_pov(position_score(after));
    let mut rank: Option<usize> = None;
    let mut k: usize = 0;
    while k < before.candidates.len() && rank.is_none()
        invariant
            k <= before.candidates@.len(),
            rank is None ==> rank_of(before.candidates@, played_uci@, 0) == rank_of(before.candidates@, played_uci@, k as int),
            rank is Some ==> rank_of(before.candidates@, played_uci@, 0) == rank,
        decreases before.candidates.len() - k,
    {
        if crate::text::str_eq(before.candidates[k].uci.as_str(), played_uci) {
            rank = Some(k);
        }
        k += 1;
    }
    ClassifyInput { best, second, played, played_rank: rank }
}

/// The first index from `k` on (and past 0) whose candidate is not the move
/// played.
pub open spec fn other_than(cands: Seq<Candidate>, uci: Seq<char>, k: int) -> Option<int>
    decreases cands.len() - k,
{
    if k < 1 || k >= cands.len() {
        None
    } else if cands[k].uci@ != uci {
        Some(k)
    } else {
        other_than(cands, uci, k + 1)
    }
}

/// The alternative whose collapse is shown for a good move: the second-best
/// candidate, or the next one that is not the move played, falling back to
/// the best move when that is not the move played either.
pub open spec fn spec_alternative(cands: Seq<Candidate>, uci: Seq<char>) -> Option<int> {
    match other_than(cands, uci, 1) {
        Some(i) => Some(i),
        None => if cands.len() > 0 && cands[0].uci@ != uci { Some(0) } else { None },
    }
}

pub fn alternative<'a>(candidates: &'a [Candidate], played_uci: &str) -> (r: Option<&'a Candidate>)
    ensures
        match spec_alternative(candidates@, played_uci@) {
            Some(i) => r == Some(&candidates@[i]),
            None => r is None,
        },
{
    let mut k: usize = 1;
    while k < candidates.len()
        invariant
            1 <= k,
            k <= candidates@.len() || candidates@.len() == 0,
            other_than(candidates@, played_uci@, 1) == other_than(candidates@, played_uci@, k as int),
        decreases candidates.len() - k,
    {
        if !crate::text::str_eq(candidates[k].uci.as_str(), played_uci) {
            return Some(&candidates[k]);
        }
        k += 1;
    }
    if candidates.len() > 0 && !crate::text::str_eq(candidates[0].uci.as_str(), played_uci) {
        Some(&candidates[0])
    } else {
        None
    }
}

/// The line a counterfactual replays, as kind, starting FEN and SAN moves:
/// after a mistake, the opponent's best line from the position after the
/// move; otherwise the alternative's line from the position before it. None
/// when there is no such line, or it is empty.
pub open spec fn spec_counterfactual_line(
    classification: Classification,
    before_fen: Seq<char>,
    after_fen: Seq<char>,
    played_uci: Seq<char>,
    before_search: SearchResult,
    after_search: SearchResult,
) -> Option<(CounterfactualKind, Seq<char>, Seq<Seq<char>>)> {
    if spec_is_mistake(classification) {
        if after_search.candidates@.len() > 0 && after_search.candidates@[0].pv@.len() > 0 {
            Some((CounterfactualKind::Refutation, after_fen, strings_view(after_search.candidates@[0].pv@)))
        } else {
            None
        }
    } else {
        match spec_alternative(before_search.candidates@, played_uci) {
            Some(i) => if before_search.candidates@[i].pv@.len() > 0 {
                Some((CounterfactualKind::AlternativeCollapse, before_fen, strings_view(before_search.candidates@[i].pv@)))
            } else {
                None
            },
            None => None,
        }
    }
}

pub open spec fn line_view(r: Option<(CounterfactualKind, String, Vec<String>)>) -> Option<(CounterfactualKind, Seq<char>, Seq<Seq<char>>)> {
    match r {
        Some((k, f, pv)) => Some((k, f@, strings_view(pv@))),
        None => None,
    }
}

/// Which line the board replays, and the position it starts from.
pub fn counterfactual_line(
    classification: Classification,
    before: &Position,
    after: &Position,
    played_uci: &str,
    before_search: &SearchResult,
    after_search: &SearchResult,
) -> (r: Option<(CounterfactualKind, String, Vec<String>)>)
    ensures
        line_view(r) == spec_counterfactual_line(
            classification,
            before.fen@,
            after.fen@,
            played_uci@,
            *before_search,
            *after_search,
        ),
{
    if classification.is_mistake() {
        if after_search.candidates.len() == 0 {
            return None;
        }
        let pv = &after_search.candidates[0].pv;
        if pv.len() == 0 {
            return None;
        }
        Some((CounterfactualKind::Refutation, after.fen.clone(), copy_strings(pv)))
    } else {
        let alt = match alternative(before_search.candidates.as_slice(), played_uci) {
            Some(c) => c,
            None => {
                return None;
            },
        };
        if alt.pv.len() == 0 {
            return None;
        }
        Some((CounterfactualKind::AlternativeCollapse, before.fen.clone(), copy_strings(&alt.pv)))
    }
}

/// The position a counterfactual line is replayed from.
pub open spec fn line_start(kind: CounterfactualKind, before: PositionView, after: PositionView) -> PositionView {
    match kind {
        CounterfactualKind::Refutation => after,
        CounterfactualKind::AlternativeCollapse => before,
    }
}

/// The counterfactual line plus the tactical motifs found along it, read
/// from the position the line starts from.
pub fn counterfactual(
    classification: Classification,
    before: &Position,
    after: &Position,
    played_uci: &str,
    before_search: &SearchResult,
    after_search: &SearchResult,
) -> (r: Option<Counterfactual>)
    requires
        before.wf(),
        after.wf(),
    ensures
        match spec_counterfactual_line(classification, before.fen@, after.fen@, played_uci@, *before_search, *after_search) {
            None => r is None,
            Some((kind, fen, pv)) => r matches Some(c) && c.kind == kind && c.start_fen@ == fen && strings_view(c.pv@) == pv,
        },
        r matches Some(c) ==> exists|idx: Seq<int>| #[trigger] reported(
            line_ranked(line_start(c.kind, before@, after@), strings_view(c.pv@)),
            motif_views(c.motifs@),
            idx,
        ),
{
    let (kind, start_fen, pv) = match counterfactual_line(classification, before, after, played_uci, before_search, after_search) {
        Some(l) => l,
        None => {
            return None;
        },
    };
    let start = match kind {
        CounterfactualKind::Refutation => after,
        CounterfactualKind::AlternativeCollapse => before,
    };
    let motifs = crate::motif::detect_in_line(start, &pv);
    let ghost ranked = line_ranked(start@, strings_view(pv@));
    let ghost views = motif_views(motifs@);
    let r = Counterfactual { kind, start_fen, pv, motifs };
    assert(line_start(kind, before@, after@) == start@);
    assert(views == motif_views(r.motifs@) && ranked == line_ranked(start@, strings_view(r.pv@)));
    Some(r)
}

/// The position as described to the explanation writer.
pub fn position_info(pos: &Position, depth: u8) -> (r: PositionInfo)
    ensures
        r.fen@ == pos.fen@,
        r.side_to_move@ == (match pos.turn {
            Color::White => "white"@,
            Color::Black => "black"@,
        }),
        r.fullmove_number == pos.fullmoves,
        r.depth == depth,
{
    let side = match pos.turn {
        Color::White => "white",
        Color::Black => "black",
    };
    PositionInfo { fen: pos.fen.clone(), side_to_move: side.to_owned(), fullmove_number: pos.fullmoves, depth }
}

/// The opening a move left, when the book says it left one.
pub fn left_book(verdict: &BookVerdict) -> (r: Option<OpeningInfo>)
    ensures
        match *verdict {
            BookVerdict::LeftBook(Some(o)) => r matches Some(x) && info_view(x) == info_view(o),
            _ => r is None,
        },
{
    match verdict {
        BookVerdict::LeftBook(Some(o)) => Some(
            OpeningInfo { eco: o.eco.clone(), name: o.name.clone(), matched_plies: o.matched_plies },
        ),
        _ => None,
    }
}

/// What can go wrong in an analysis pass.
#[derive(Debug, Clone, PartialEq, Eq)]
pub enum PipelineError {
    Engine(EngineError),
    Book(String),
    Position(String),
    NodeNotFound(usize),
}

/// The sentence a pipeline error reads as.
pub open spec fn spec_pipeline_message(e: PipelineError) -> Seq<char> {
    match e {
        PipelineError::Engine(e) => "engine: "@ + crate::engine::error_text(e),
        PipelineError::Book(d) => "book: "@ + d@,
        PipelineError::Position(d) => "invalid position: "@ + d@,
        PipelineError::NodeNotFound(n) => "node "@ + decimal(n as nat) + " not found"@,
    }
}

impl PipelineError {
    /// The error as a sentence.
    pub fn message(&self) -> (r: String)
        ensures
            r@ == spec_pipeline_message(*self),
    {
        let mut out: Vec<char> = Vec::new();
        match self {
            PipelineError::Engine(e) => {
                push_str(&mut out, "engine: ");
                let m = e.message();
                push_str(&mut out, m.as_str());
            },
            PipelineError::Book(d) => {
                push_str(&mut out, "book: ");
                push_str(&mut out, d.as_str());
            },
            PipelineError::Position(d) => {
                push_str(&mut out, "invalid position: ");
                push_str(&mut out, d.as_str());
            },
            PipelineError::NodeNotFound(n) => {
                push_str(&mut out, "node ");
                push_decimal(&mut out, *n as u64);
                push_str(&mut out, " not found");
            },
        }
        string_from_chars(&out)
    }

    /// A newer request superseded this search.
    pub fn is_cancelled(&self) -> (r: bool)
        ensures
            r == (*self == PipelineError::Engine(EngineError::Cancelled)),
    {
        match self {
            PipelineError::Engine(EngineError::Cancelled) => true,
            _ => false,
        }
    }
}

/// What `move_into` gives for `node`: the node and its parent must exist, the
/// parent's position read, and the node's UCI text be a legal move there.
pub open spec fn move_into_outcome<A>(tree: GameTree<A>, node: usize, r: Result<ChessMove, PipelineError>) -> bool {
    &&& node >= tree.nodes@.len() ==> r == Err::<ChessMove, PipelineError>(PipelineError::NodeNotFound(node))
    &&& node < tree.nodes@.len() ==> match tree.nodes@[node as int].parent {
        None => r == Err::<ChessMove, PipelineError>(PipelineError::NodeNotFound(node)),
        Some(p) => match position_of_fen(tree.nodes@[p as int].fen@) {
            None => r matches Err(PipelineError::Position(m)) && m@ == "invalid FEN: "@ + tree.nodes@[p as int].fen@,
            Some(pos) => match tree.nodes@[node as int].uci {
                None => r matches Err(PipelineError::Position(m)) && m@ == "node "@ + decimal(node as nat) + " has no move"@,
                Some(u) => if !uci_reads(u@) {
                    r matches Err(PipelineError::Position(m)) && m@ == "unparsable uci: "@ + u@
                } else {
                    match spec_parse_move(pos, u@, false) {
                        Some(mv) => r == Ok::<ChessMove, PipelineError>(mv),
                        None => r matches Err(PipelineError::Position(m)) && m@ == "illegal uci: "@ + u@,
                    }
                },
            },
        },
    }
}

/// The move that leads into a node.
pub fn move_into<A>(tree: &GameTree<A>, node: usize) -> (r: Result<ChessMove, PipelineError>)
    requires
        tree.wf(),
    ensures
        move_into_outcome(*tree, node, r),
{
    if node >= tree.nodes.len() {
        return Err(PipelineError::NodeNotFound(node));
    }
    let parent = match tree.nodes[node].parent {
        Some(p) => p,
        None => {
            return Err(PipelineError::NodeNotFound(node));
        },
    };
    proof {
        assert(tree.view_nodes()[node as int].parent == Some(parent));
    }
    let pos = match tree.position(parent) {
        Ok(p) => p,
        Err(e) => {
            return Err(PipelineError::Position(e.message()));
        },
    };
    let uci = match &tree.nodes[node].uci {
        Some(u) => u,
        None => {
            let mut out: Vec<char> = Vec::new();
            push_str(&mut out, "node ");
            push_decimal(&mut out, node as u64);
            push_str(&mut out, " has no move");
            return Err(PipelineError::Position(string_from_chars(&out)));
        },
    };
    if !uci_parses(uci.as_str()) {
        let mut out: Vec<char> = Vec::new();
        push_str(&mut out, "unparsable uci: ");
        push_str(&mut out, uci.as_str());
        return Err(PipelineError::Position(string_from_chars(&out)));
    }
    match parse_move(&pos, uci.as_str(), false) {
        Some(mv) => Ok(mv),
        None => {
            let mut out: Vec<char> = Vec::new();
            push_str(&mut out, "illegal uci: ");
            push_str(&mut out, uci.as_str());
            Err(PipelineError::Position(string_from_chars(&out)))
        },
    }
}

/// How a position of a line is searched.
#[derive(Debug, Clone, Copy, PartialEq, Eq, Structural)]
pub enum SearchKind {
    /// All candidate moves, for the alternatives to the move played there.
    MultiPv,
    /// The evaluation alone, for the last position of a line.
    Evaluate,
}

/// Which positions of a line need a search, and of which kind. Position `i`
/// is searched for its candidates and position `i + 1` for the value of the
/// move played, unless the book accepted move `i`; a line without moves
/// still has its position searched. The last position of a line with moves
/// only needs its evaluation.
pub open spec fn spec_plan(in_book: Seq<bool>, i: int) -> Option<SearchKind> {
    let n = in_book.len() as int;
    let needed = n == 0 || (i < n && !in_book[i]) || (i > 0 && !in_book[i - 1]);
    if !needed {
        None
    } else if i == n && n > 0 {
        Some(SearchKind::Evaluate)
    } else {
        Some(SearchKind::MultiPv)
    }
}

pub open spec fn in_book_flags(verdicts: Seq<BookVerdict>) -> Seq<bool> {
    verdicts.map_values(|v: BookVerdict| v is InBook)
}

/// The searches a line of positions needs, one entry per position (one more
/// than there are verdicts on its moves).
pub fn plan_searches(verdicts: &[BookVerdict]) -> (r: Vec<Option<SearchKind>>)
    requires
        verdicts@.len() < usize::MAX,
    ensures
        r@.len() == verdicts@.len() + 1,
        forall|i: int| 0 <= i < r@.len() ==> #[trigger] r@[i] == spec_plan(in_book_flags(verdicts@), i),
{
    let ghost flags = in_book_flags(verdicts@);
    let n = verdicts.len();
    let mut out: Vec<Option<SearchKind>> = Vec::new();
    let mut i: usize = 0;
    while i <= n
        invariant
            n == verdicts@.len(),
            n < usize::MAX,
            flags == in_book_flags(verdicts@),
            i <= n + 1,
            out@.len() == i,
            forall|k: int| 0 <= k < i ==> #[trigger] out@[k] == spec_plan(flags, k),
        decreases n + 1 - i,
    {
        let here = i < n && !matches!(verdicts[i], BookVerdict::InBook(_));
        let played_into = i > 0 && !matches!(verdicts[i - 1], BookVerdict::InBook(_));
        let needed = n == 0 || here || played_into;
        let kind = if !needed {
            None
        } else if i == n && n > 0 {
            Some(SearchKind::Evaluate)
        } else {
            Some(SearchKind::MultiPv)
        };
        out.push(kind);
        i += 1;
    }
    out
}

/// How a game has ended at a position, if it has, so that the engine is
/// never asked about a position it cannot search.
pub fn terminal_of(pos: &Position) -> (r: Option<Terminal>)
    requires
        pos.wf(),
    ensures
        r == crate::position::spec_terminal(pos@),
{
    crate::position::terminal(pos)
}

/// What analysing one node takes before the engine runs: the depth (the one
/// asked for, else the default), and, for a node a move led into, its parent
/// and that move. The node must exist and its position read; a node with a
/// parent must have a move that can be played there.
pub fn node_plan<A>(tree: &GameTree<A>, node: usize, depth: Option<u8>, default_depth: u8) -> (r: Result<
    (u8, Option<(usize, ChessMove)>),
    PipelineError,
>)
    requires
        tree.wf(),
    ensures
        node >= tree.nodes@.len() ==> r == Err::<(u8, Option<(usize, ChessMove)>), PipelineError>(PipelineError::NodeNotFound(node)),
        node < tree.nodes@.len() ==> match position_of_fen(tree.nodes@[node as int].fen@) {
            None => r matches Err(PipelineError::Position(m)) && m@ == "invalid FEN: "@ + tree.nodes@[node as int].fen@,
            Some(_) => match tree.nodes@[node as int].parent {
                None => r == Ok::<(u8, Option<(usize, ChessMove)>), PipelineError>((
                    match depth { Some(d) => d, None => default_depth },
                    None,
                )),
                Some(p) => match r {
                    Ok((d, x)) => d == (match depth { Some(d) => d, None => default_depth }) && (x matches Some((pp, mv))
                        && pp == p && move_into_outcome(*tree, node, Ok::<ChessMove, PipelineError>(mv))),
                    Err(e) => move_into_outcome(*tree, node, Err::<ChessMove, PipelineError>(e)),
                },
            },
        },
{
    let d = match depth {
        Some(d) => d,
        None => default_depth,
    };
    if node >= tree.nodes.len() {
        return Err(PipelineError::NodeNotFound(node));
    }
    match tree.position(node) {
        Ok(_) => {},
        Err(e) => {
            return Err(PipelineError::Position(e.message()));
        },
    }
    match tree.nodes[node].parent {
        None => Ok((d, None)),
        Some(p) => match move_into(tree, node) {
            Ok(mv) => Ok((d, Some((p, mv)))),
            Err(e) => Err(e),
        },
    }
}

/// Whether the position before the move must be searched too: not when the
/// book accepted the move.
pub fn needs_parent_search(v: &BookVerdict) -> (r: bool)
    ensures
        r == !(*v is InBook),
{
    match v {
        BookVerdict::InBook(_) => false,
        _ => true,
    }
}

/// The book is an optimisation, not a dependency: when it cannot be asked,
/// the move is out of book.
pub fn book_or_out<E>(r: Result<BookVerdict, E>) -> (v: BookVerdict)
    ensures
        r is Err ==> v is OutOfBook,
        r matches Ok(x) ==> v == x,
{
    match r {
        Ok(x) => x,
        Err(_) => BookVerdict::OutOfBook,
    }
}

} // verus!

//! The strategic outlook of a position: where the engine's best line leads,
//! summed up as a feature diff, and what the top candidate moves agree on.
//! It summarises the engine's line; it infers nothing beyond it.

use vstd::prelude::*;
use crate::board::{attacks, occupancy, occupied, other, piece_attacks, squares_where, ChessMove};
use crate::engine::{Candidate, CandidateView};
use crate::feature::{diff, extracted, realizes_all, spec_changes, StaticDiff};
use crate::motif::{names_of, role_name, role_str, square_names};
use crate::position::{is_legal, legal_moves_of, parse_move, play, spec_parse_move, spec_play, Position, PositionView};
use crate::text::strings_view;

verus! {

/// What the top candidate moves agree on: the direction the position demands.
#[derive(Debug, Clone, PartialEq, Eq)]
pub struct CandidateConsensus {
    /// The kind of piece every candidate moves, if they all move the same kind.
    pub common_piece: Option<String>,
    /// Squares every candidate aims at, a1 first.
    pub common_targets: Vec<String>,
}

#[derive(Debug, Clone, PartialEq, Eq)]
pub struct StrategicOutlook {
    /// The best line as far as it was walked (SAN).
    pub long_pv: Vec<String>,
    pub terminal_fen: String,
    /// Features of the current position against those at the end of the line.
    pub terminal_diff: StaticDiff,
    pub consensus: CandidateConsensus,
}

pub open spec fn opt_chars(s: Option<String>) -> Option<Seq<char>> {
    match s {
        Some(x) => Some(x@),
        None => None,
    }
}

pub open spec fn candidates_view(c: Seq<Candidate>) -> Seq<CandidateView> {
    c.map_values(|x: Candidate| x@)
}

/// Whether `mv`, played in `pos`, aims at `s`: `s` is where the piece lands,
/// or holds an enemy piece that the moved piece attacks from there. A move
/// that is not legal aims at nothing.
pub open spec fn aims_at(pos: PositionView, mv: ChessMove, s: int) -> bool {
    legal_moves_of(pos.fen).contains(mv) && match spec_play(pos, mv) {
        None => false,
        Some(after) => s == mv.to || match after.board[mv.to as int] {
            Some(p) => piece_attacks(p, mv.to as int, s, occupancy(after.board)) && (after.board[s] matches Some(q)
                && q.color == other(pos.turn)),
            None => false,
        },
    }
}

/// The squares a move aims at, as a mask over the 64 squares.
fn aimed_squares(pos: &Position, mv: &ChessMove) -> (r: Vec<bool>)
    requires
        pos.wf(),
        mv.wf(),
    ensures
        r@.len() == 64,
        forall|s: int| 0 <= s < 64 ==> r@[s] == aims_at(pos@, *mv, s),
{
    let mut out: Vec<bool> = Vec::new();
    let after = if is_legal(pos, mv) {
        play(pos, mv)
    } else {
        None
    };
    let enemy = pos.turn.other();
    let mut s: usize = 0;
    while s < 64
        invariant
            s <= 64,
            out@.len() == s,
            mv.wf(),
            enemy == other(pos@.turn),
            (match after {
                Some(a) => Some(a@),
                None => None::<PositionView>,
            }) == (if legal_moves_of(pos@.fen).contains(*mv) { spec_play(pos@, *mv) } else { None }),
            after matches Some(a) ==> a.wf(),
            forall|k: int| 0 <= k < s ==> out@[k] == aims_at(pos@, *mv, k),
        decreases 64 - s,
    {
        let hit = match &after {
            None => false,
            Some(a) => {
                if s == mv.to {
                    true
                } else {
                    match a.board.cells[mv.to] {
                        None => false,
                        Some(p) => {
                            let occ = occupied(&a.board);
                            let enemy_there = match a.board.cells[s] {
                                Some(q) => q.color == enemy,
                                None => false,
                            };
                            enemy_there && attacks(p, mv.to, s, &occ)
                        },
                    }
                }
            },
        };
        out.push(hit);
        s += 1;
    }
    out
}

/// The moves that the candidates' SAN stands for in `pos`, in order; a
/// candidate that does not fit the position is dropped.
pub open spec fn playable(pos: PositionView, cands: Seq<CandidateView>, n: int) -> Seq<ChessMove>
    decreases n,
{
    if n <= 0 {
        seq![]
    } else {
        match spec_parse_move(pos, cands[n - 1].san, true) {
            Some(mv) => playable(pos, cands, n - 1).push(mv),
            None => playable(pos, cands, n - 1),
        }
    }
}

/// All moves move the same kind of piece.
pub open spec fn one_role(moves: Seq<ChessMove>) -> bool {
    forall|i: int| 0 <= i < moves.len() ==> #[trigger] moves[i].role == moves[0].role
}

/// Every move aims at `s`.
pub open spec fn aimed_by_all(pos: PositionView, moves: Seq<ChessMove>, s: int) -> bool {
    forall|i: int| 0 <= i < moves.len() ==> aims_at(pos, #[trigger] moves[i], s)
}

/// The consensus of the candidates: with fewer than two playable ones there
/// is nothing to agree on; otherwise the piece kind if all move the same
/// kind, and the names of the squares that all aim at, a1 first.
pub open spec fn spec_consensus(pos: PositionView, cands: Seq<CandidateView>) -> (Option<Seq<char>>, Seq<Seq<char>>) {
    let moves = playable(pos, cands, cands.len() as int);
    if moves.len() < 2 {
        (None, seq![])
    } else {
        (
            if one_role(moves) { Some(role_name(moves[0].role)) } else { None },
            names_of(squares_where(|s: int| aimed_by_all(pos, moves, s), 64)),
        )
    }
}

/// What the candidate moves have in common.
pub fn consensus(pos: &Position, candidates: &[Candidate]) -> (r: CandidateConsensus)
    requires
        pos.wf(),
    ensures
        opt_chars(r.common_piece) == spec_consensus(pos@, candidates_view(candidates@)).0,
        strings_view(r.common_targets@) == spec_consensus(pos@, candidates_view(candidates@)).1,
{
    let ghost cv = candidates_view(candidates@);
    let mut moves: Vec<ChessMove> = Vec::new();
    let mut i: usize = 0;
    while i < candidates.len()
        invariant
            cv == candidates_view(candidates@),
            i <= candidates@.len(),
            moves@ == playable(pos@, cv, i as int),
            forall|k: int| 0 <= k < moves@.len() ==> #[trigger] moves@[k].wf(),
        decreases candidates.len() - i,
    {
        assert(cv[i as int].san == candidates@[i as int].san@);
        match parse_move(pos, candidates[i].san.as_str(), true) {
            Some(m) => moves.push(m),
            None => {},
        }
        i += 1;
    }
    let ghost mv = moves@;
    if moves.len() < 2 {
        return CandidateConsensus { common_piece: None, common_targets: Vec::new() };
    }
    let role = moves[0].role;
    let mut same = true;
    let mut j: usize = 0;
    while j < moves.len()
        invariant
            mv == moves@,
            j <= moves@.len(),
            role == moves@[0].role,
            same == (forall|k: int| 0 <= k < j ==> #[trigger] moves@[k].role == role),
        decreases moves.len() - j,
    {
        if moves[j].role != role {
            same = false;
        }
        j += 1;
    }
    let common_piece = if same {
        Some(role_str(role).to_owned())
    } else {
        None
    };
    let mut common: Vec<bool> = Vec::new();
    let mut s: usize = 0;
    while s < 64
        invariant
            s <= 64,
            common@.len() == s,
            forall|x: int| 0 <= x < s ==> common@[x],
        decreases 64 - s,
    {
        common.push(true);
        s += 1;
    }
    let mut j: usize = 0;
    while j < moves.len()
        invariant
            pos.wf(),
            mv == moves@,
            j <= moves@.len(),
            common@.len() == 64,
            forall|k: int| 0 <= k < moves@.len() ==> #[trigger] moves@[k].wf(),
            forall|x: int| 0 <= x < 64 ==> common@[x] == (forall|k: int| 0 <= k < j ==> aims_at(pos@, #[trigger] moves@[k], x)),
        decreases moves.len() - j,
    {
        let mask = aimed_squares(pos, &moves[j]);
        let mut x: usize = 0;
        while x < 64
            invariant
                mask@.len() == 64,
                common@.len() == 64,
                x <= 64,
                forall|y: int| 0 <= y < 64 ==> mask@[y] == aims_at(pos@, mv[j as int], y),
                forall|y: int| 0 <= y < x ==> common@[y] == (forall|k: int| 0 <= k < j + 1 ==> aims_at(pos@, #[trigger] mv[k], y)),
                forall|y: int| x <= y < 64 ==> common@[y] == (forall|k: int| 0 <= k < j ==> aims_at(pos@, #[trigger] mv[k], y)),
            decreases 64 - x,
        {
            let keep = common[x] && mask[x];
            proof {
                if keep {
                    assert forall|k: int| 0 <= k < j + 1 implies aims_at(pos@, #[trigger] mv[k], x as int) by {
                        if k < j {
                        }
                    }
                } else if common[x as int] {
                    assert(!aims_at(pos@, mv[j as int], x as int));
                }
            }
            common.set(x, keep);
            x += 1;
        }
        j += 1;
    }
    let ghost p = |x: int| aimed_by_all(pos@, mv, x);
    let mut squares: Vec<usize> = Vec::new();
    let mut x: usize = 0;
    while x < 64
        invariant
            x <= 64,
            common@.len() == 64,
            forall|y: int| 0 <= y < 64 ==> common@[y] == p(y),
            squares@ == squares_where(p, x as int),
        decreases 64 - x,
    {
        if common[x] {
            squares.push(x);
        }
        x += 1;
    }
    let common_targets = square_names(&squares);
    CandidateConsensus { common_piece, common_targets }
}

/// Walking the first `n` SAN moves of a line: the position reached, how
/// many moves were played, and whether the walk stopped at a move that does
/// not fit.
pub open spec fn san_walk(pos: PositionView, pv: Seq<Seq<char>>, n: int) -> (PositionView, int, bool)
    decreases n,
{
    if n <= 0 {
        (pos, 0, false)
    } else {
        let prev = san_walk(pos, pv, n - 1);
        if prev.2 {
            prev
        } else {
            match spec_parse_move(prev.0, pv[n - 1], true) {
                None => (prev.0, prev.1, true),
                Some(mv) => match spec_play(prev.0, mv) {
                    None => (prev.0, prev.1, true),
                    Some(q) => (q, prev.1 + 1, false),
                },
            }
        }
    }
}

/// How many moves of the best line are walked: at most `max_plies`.
pub open spec fn walk_len(cands: Seq<CandidateView>, max_plies: int) -> int {
    if cands.len() == 0 {
        0
    } else if cands[0].pv.len() < max_plies {
        cands[0].pv.len() as int
    } else {
        max_plies
    }
}

/// Where the best line leads from `pos`, walked for at most `max_plies`.
pub open spec fn line_end(pos: PositionView, cands: Seq<CandidateView>, max_plies: int) -> (PositionView, int, bool) {
    if cands.len() == 0 {
        (pos, 0, false)
    } else {
        san_walk(pos, cands[0].pv, walk_len(cands, max_plies))
    }
}

proof fn lemma_walk_count(pos: PositionView, pv: Seq<Seq<char>>, n: int)
    requires
        0 <= n,
    ensures
        0 <= san_walk(pos, pv, n).1 <= n,
    decreases n,
{
    if n > 0 {
        lemma_walk_count(pos, pv, n - 1);
    }
}

proof fn lemma_walk_stays(pos: PositionView, pv: Seq<Seq<char>>, k: int, n: int)
    requires
        0 <= k <= n,
        san_walk(pos, pv, k).2,
    ensures
        san_walk(pos, pv, n) == san_walk(pos, pv, k),
    decreases n - k,
{
    if n > k {
        lemma_walk_stays(pos, pv, k, n - 1);
    }
}

/// Walk the best candidate's line for at most `max_plies` moves, stopping
/// at the first move that does not fit (engine lines are occasionally cut
/// or corrupt), and diff the features at its end against the current ones.
pub fn build(pos: &Position, candidates: &[Candidate], max_plies: usize) -> (r: StrategicOutlook)
    requires
        pos.wf(),
    ensures
        ({
            let cv = candidates_view(candidates@);
            let end = line_end(pos@, cv, max_plies as int);
            &&& strings_view(r.long_pv@) == (if cv.len() == 0 { seq![] } else { cv[0].pv.take(end.1) })
            &&& r.terminal_fen@ == end.0.fen
            &&& extracted(pos@, r.terminal_diff.before)
            &&& extracted(end.0, r.terminal_diff.after)
            &&& realizes_all(r.terminal_diff.changes@, spec_changes(r.terminal_diff.before, r.terminal_diff.after))
            &&& opt_chars(r.consensus.common_piece) == spec_consensus(pos@, cv).0
            &&& strings_view(r.consensus.common_targets@) == spec_consensus(pos@, cv).1
        }),
{
    let ghost cv = candidates_view(candidates@);
    let mut terminal = pos.copy();
    let mut long_pv: Vec<String> = Vec::new();
    if candidates.len() > 0 {
        let best = &candidates[0];
        let ghost pv = cv[0].pv;
        assert(pv == strings_view(best.pv@));
        let n = if best.pv.len() < max_plies {
            best.pv.len()
        } else {
            max_plies
        };
        let mut stopped = false;
        let mut i: usize = 0;
        while i < n && !stopped
            invariant
                pv == strings_view(best.pv@),
                n <= best.pv@.len(),
                i <= n,
                terminal.wf(),
                san_walk(pos@, pv, i as int) == (terminal@, long_pv@.len() as int, stopped),
                strings_view(long_pv@) == pv.take(long_pv@.len() as int),
                long_pv@.len() <= i,
                !stopped ==> long_pv@.len() == i,
            decreases n - i,
        {
            assert(pv[i as int] == best.pv@[i as int]@);
            match parse_move(&terminal, best.pv[i].as_str(), true) {
                None => {
                    stopped = true;
                },
                Some(mv) => match play(&terminal, &mv) {
                    None => {
                        stopped = true;
                    },
                    Some(q) => {
                        terminal = q;
                        let ghost before = strings_view(long_pv@);
                        let san = best.pv[i].clone();
                        assert(san@ == pv[i as int]);
                        long_pv.push(san);
                        assert(strings_view(long_pv@) =~= before.push(pv[i as int]));
                        assert(pv.take(i as int + 1) =~= pv.take(i as int).push(pv[i as int]));
                    },
                },
            }
            i += 1;
        }
        proof {
            if stopped {
                lemma_walk_stays(pos@, pv, i as int, n as int);
            }
        }
    }
    let terminal_fen = terminal.fen.clone();
    let terminal_diff = diff(pos, &terminal);
    let consensus = consensus(pos, candidates);
    StrategicOutlook { long_pv, terminal_fen, terminal_diff, consensus }
}

} // verus!

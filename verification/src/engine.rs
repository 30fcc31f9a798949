//! The engine's settings, errors and results, and what needs a board rather
//! than the process: terminal positions, move normalisation, and turning
//! `info` lines into candidate moves.

use vstd::prelude::*;
use crate::position::{
    Position, PositionView, parse_move, play, san_of, spec_parse_move, spec_play, uci_of, uci_chars, uci_reads,
    uci_parses, san_text, Terminal,
};
use crate::score::Score;
use crate::text::{push_str, string_from_chars, strings_view};
use crate::uci::{InfoLine, InfoView};

verus! {

/// Search depth when none is asked for.
pub const DEFAULT_DEPTH: u8 = 12;
/// Candidate moves every search produces.
pub const DEFAULT_MULTIPV: usize = 5;
/// The shallowest completed iteration worth reporting while a search runs.
pub const MIN_STREAM_DEPTH: u8 = 6;
/// How much deeper than the configured depth a long line is searched.
pub const LONG_PV_EXTRA_DEPTH: u8 = 6;
/// Hash table size in megabytes.
pub const DEFAULT_HASH_MB: usize = 1024;

#[derive(Debug, Clone, PartialEq, Eq)]
pub struct EngineConfig {
    /// Path to the binary.
    pub path: String,
    pub threads: usize,
    /// Megabytes.
    pub hash: usize,
    pub multipv: usize,
    pub depth: u8,
}

/// Search threads for a machine with `cores` (if known): all but one, at
/// least one.
pub open spec fn spec_threads(cores: Option<usize>) -> usize {
    match cores {
        Some(n) => if n >= 2 { (n - 1) as usize } else { 1 },
        None => 1,
    }
}

impl EngineConfig {
    /// The default configuration for a binary at `path` on a machine with
    /// `cores` (if known).
    pub fn with_defaults(path: String, cores: Option<usize>) -> (r: EngineConfig)
        ensures
            r.path == path,
            r.threads == spec_threads(cores),
            r.hash == DEFAULT_HASH_MB,
            r.multipv == DEFAULT_MULTIPV,
            r.depth == DEFAULT_DEPTH,
    {
        let threads = match cores {
            Some(n) => if n >= 2 { n - 1 } else { 1 },
            None => 1,
        };
        EngineConfig { path, threads, hash: DEFAULT_HASH_MB, multipv: DEFAULT_MULTIPV, depth: DEFAULT_DEPTH }
    }

    /// The depth of a long-line search when none is given.
    pub fn long_pv_depth(&self) -> (r: u8)
        ensures
            r == (if self.depth as int + LONG_PV_EXTRA_DEPTH <= 255 { (self.depth + LONG_PV_EXTRA_DEPTH) as u8 } else { 255u8 }),
    {
        if self.depth <= 255 - LONG_PV_EXTRA_DEPTH {
            self.depth + LONG_PV_EXTRA_DEPTH
        } else {
            255
        }
    }
}

#[derive(Debug, Clone, PartialEq, Eq)]
pub enum EngineError {
    /// The binary could not be started: its path and the reason.
    Spawn(String, String),
    Died,
    Cancelled,
    Protocol(String),
    Io(String),
}

/// The sentence an engine error reads as.
pub open spec fn error_text(e: EngineError) -> Seq<char> {
    match e {
        EngineError::Spawn(p, e) => "failed to spawn stockfish at "@ + p@ + ": "@ + e@,
        EngineError::Died => "engine process died"@,
        EngineError::Cancelled => "search was cancelled by a newer request"@,
        EngineError::Protocol(d) => "unexpected UCI output: "@ + d@,
        EngineError::Io(d) => "io error: "@ + d@,
    }
}

impl EngineError {
    /// The error as a sentence.
    pub fn message(&self) -> (r: String)
        ensures
            r@ == error_text(*self),
    {
        let mut out: Vec<char> = Vec::new();
        match self {
            EngineError::Spawn(p, e) => {
                push_str(&mut out, "failed to spawn stockfish at ");
                push_str(&mut out, p.as_str());
                push_str(&mut out, ": ");
                push_str(&mut out, e.as_str());
            },
            EngineError::Died => push_str(&mut out, "engine process died"),
            EngineError::Cancelled => push_str(&mut out, "search was cancelled by a newer request"),
            EngineError::Protocol(d) => {
                push_str(&mut out, "unexpected UCI output: ");
                push_str(&mut out, d.as_str());
            },
            EngineError::Io(d) => {
                push_str(&mut out, "io error: ");
                push_str(&mut out, d.as_str());
            },
        }
        string_from_chars(&out)
    }
}

/// A candidate move: its SAN and UCI, the engine's score, and the line in SAN.
#[derive(Debug, Clone, PartialEq, Eq)]
pub struct Candidate {
    pub san: String,
    pub uci: String,
    pub score: Score,
    pub pv: Vec<String>,
}

pub struct CandidateView {
    pub san: Seq<char>,
    pub uci: Seq<char>,
    pub score: Score,
    pub pv: Seq<Seq<char>>,
}

impl View for Candidate {
    type V = CandidateView;

    open spec fn view(&self) -> CandidateView {
        CandidateView { san: self.san@, uci: self.uci@, score: self.score, pv: strings_view(self.pv@) }
    }
}

/// The result of analysing one position.
#[derive(Debug, Clone, PartialEq, Eq)]
pub struct SearchResult {
    pub fen: String,
    pub depth: u8,
    /// Candidates, best first; none for a terminal position.
    pub candidates: Vec<Candidate>,
    /// Set when the position was already over.
    pub terminal: Option<Terminal>,
}

/// One finished iteration of a search still running.
#[derive(Debug, Clone, PartialEq, Eq)]
pub struct DepthUpdate {
    pub depth: u8,
    pub candidates: Vec<Candidate>,
}

/// Parse a UCI move against a position and print it back in canonical
/// (standard castling) form.
pub fn normalize_uci(pos: &Position, uci: &str) -> (r: Result<String, EngineError>)
    ensures
        !uci_reads(uci@) ==> (r matches Err(EngineError::Protocol(m)) && m@ == "not a UCI move: "@ + uci@),
        uci_reads(uci@) ==> (match crate::position::uci_text(pos.fen@, uci@, false) {
            Some(t) => (r matches Ok(s) && s@ == t),
            None => (r matches Err(EngineError::Protocol(m)) && m@ == "illegal move "@ + uci@ + " in this position"@),
        }),
{
    if !uci_parses(uci) {
        let mut out: Vec<char> = Vec::new();
        push_str(&mut out, "not a UCI move: ");
        push_str(&mut out, uci);
        return Err(EngineError::Protocol(string_from_chars(&out)));
    }
    match crate::position::normalize_uci(pos, uci) {
        Some(s) => Ok(s),
        None => {
            let mut out: Vec<char> = Vec::new();
            push_str(&mut out, "illegal move ");
            push_str(&mut out, uci);
            push_str(&mut out, " in this position");
            Err(EngineError::Protocol(string_from_chars(&out)))
        },
    }
}

/// Walking a line of UCI moves from a position: after `n` moves, the
/// position reached (none once a move failed to read, play or print), the
/// SAN of the moves played, and the first move.
pub open spec fn walk(pos: PositionView, pv: Seq<Seq<char>>, n: int) -> (Option<PositionView>, Seq<Seq<char>>, Option<Seq<char>>)
    decreases n,
{
    if n <= 0 {
        (Some(pos), seq![], None)
    } else {
        let prev = walk(pos, pv, n - 1);
        match prev.0 {
            None => prev,
            Some(p) => match spec_parse_move(p, pv[n - 1], false) {
                None => (None, prev.1, prev.2),
                Some(mv) => match (san_text(p.fen, uci_chars(mv), true), spec_play(p, mv)) {
                    (Some(s), Some(q)) => (
                        Some(q),
                        prev.1.push(s),
                        if prev.2 is None { Some(uci_chars(mv)) } else { prev.2 },
                    ),
                    _ => (None, prev.1, prev.2),
                },
            },
        }
    }
}

/// The candidate of an `info` line: the line walked from the position, cut
/// at the first move that does not fit; none when not even the first move
/// does.
pub open spec fn spec_candidate(pos: PositionView, info: InfoView) -> Option<CandidateView> {
    let w = walk(pos, info.pv, info.pv.len() as int);
    match w.2 {
        Some(u) => if w.1.len() > 0 {
            Some(CandidateView { san: w.1[0], uci: u, score: info.score, pv: w.1 })
        } else {
            None
        },
        None => None,
    }
}

proof fn lemma_walk_stops(pos: PositionView, pv: Seq<Seq<char>>, k: int, j: int)
    requires
        0 <= k <= j,
        walk(pos, pv, k).0 is None,
    ensures
        walk(pos, pv, j) == walk(pos, pv, k),
    decreases j - k,
{
    if j > k {
        lemma_walk_stops(pos, pv, k, j - 1);
    }
}

proof fn lemma_walk_first(pos: PositionView, pv: Seq<Seq<char>>, n: int)
    ensures
        walk(pos, pv, n).2 is None <==> walk(pos, pv, n).1.len() == 0,
    decreases n,
{
    if n > 0 {
        lemma_walk_first(pos, pv, n - 1);
    }
}

/// The candidate for one `info` line.
pub fn candidate(pos: &Position, info: &InfoLine) -> (r: Option<Candidate>)
    requires
        pos.wf(),
    ensures
        (match r {
            Some(c) => Some(c@),
            None => None::<CandidateView>,
        }) == spec_candidate(pos@, info@),
{
    let ghost pv = info@.pv;
    let mut walk_pos = pos.copy();
    let mut sans: Vec<String> = Vec::new();
    let mut first: Option<String> = None;
    let mut stopped = false;
    let mut i: usize = 0;
    while i < info.pv.len() && !stopped
        invariant
            pv == info@.pv,
            i <= info.pv@.len(),
            walk_pos.wf(),
            (if stopped { None } else { Some(walk_pos@) }) == walk(pos@, pv, i as int).0,
            strings_view(sans@) == walk(pos@, pv, i as int).1,
            (match first {
                Some(f) => Some(f@),
                None => None::<Seq<char>>,
            }) == walk(pos@, pv, i as int).2,
        decreases info.pv.len() - i,
    {
        assert(pv[i as int] == info.pv@[i as int]@);
        match parse_move(&walk_pos, info.pv[i].as_str(), false) {
            None => {
                stopped = true;
            },
            Some(mv) => {
                let san = san_of(&walk_pos, &mv, true);
                let next = play(&walk_pos, &mv);
                match (san, next) {
                    (Some(s), Some(q)) => {
                        if first.is_none() {
                            first = Some(uci_of(&mv));
                        }
                        let ghost before = strings_view(sans@);
                        sans.push(s);
                        assert(strings_view(sans@) =~= before.push(sans@.last()@));
                        walk_pos = q;
                    },
                    _ => {
                        stopped = true;
                    },
                }
            },
        }
        i += 1;
    }
    proof {
        if stopped {
            lemma_walk_stops(pos@, pv, i as int, pv.len() as int);
        }
        lemma_walk_first(pos@, pv, pv.len() as int);
    }
    match first {
        Some(u) => {
            if sans.len() == 0 {
                return None;
            }
            let san0 = sans[0].clone();
            Some(Candidate { san: san0, uci: u, score: info.score, pv: sans })
        },
        None => None,
    }
}

/// The candidates of a set of `info` lines, in order; lines whose first move
/// does not fit the position are dropped.
pub fn candidates(pos: &Position, infos: &Vec<InfoLine>) -> (r: Vec<Candidate>)
    requires
        pos.wf(),
    ensures
        r@.map_values(|c: Candidate| c@) == kept_candidates(pos@, infos@.map_values(|i: InfoLine| i@), infos@.len() as int),
{
    let ghost iv = infos@.map_values(|i: InfoLine| i@);
    let mut out: Vec<Candidate> = Vec::new();
    let mut k: usize = 0;
    while k < infos.len()
        invariant
            iv == infos@.map_values(|i: InfoLine| i@),
            pos.wf(),
            k <= infos@.len(),
            out@.map_values(|c: Candidate| c@) == kept_candidates(pos@, iv, k as int),
        decreases infos.len() - k,
    {
        let ghost before = out@.map_values(|c: Candidate| c@);
        match candidate(pos, &infos[k]) {
            Some(c) => {
                out.push(c);
                assert(out@.map_values(|c: Candidate| c@) =~= before.push(out@.last()@));
            },
            None => {},
        }
        k += 1;
    }
    out
}

/// The candidates of the first `n` lines, those that fit kept in order.
pub open spec fn kept_candidates(pos: PositionView, infos: Seq<InfoView>, n: int) -> Seq<CandidateView>
    decreases n,
{
    if n <= 0 {
        seq![]
    } else {
        match spec_candidate(pos, infos[n - 1]) {
            Some(c) => kept_candidates(pos, infos, n - 1).push(c),
            None => kept_candidates(pos, infos, n - 1),
        }
    }
}

/// Whether a finished iteration is handed to a streaming caller: deep
/// enough, and with at least one playable candidate.
pub fn worth_reporting(depth: u8, candidates: &Vec<Candidate>) -> (r: bool)
    ensures
        r == (depth >= MIN_STREAM_DEPTH && candidates@.len() > 0),
{
    depth >= MIN_STREAM_DEPTH && candidates.len() > 0
}

/// The FEN of a position (the canonical one, with en passant only when legal).
pub fn fen(pos: &Position) -> (r: String)
    ensures
        r@ == pos.fen@,
{
    pos.fen.clone()
}

/// The update handed to a streaming caller for a finished iteration: none
/// when it is shallower than the streaming floor or has no playable line.
pub fn depth_update(pos: &Position, closed: &crate::progress::CompletedDepth) -> (r: Option<DepthUpdate>)
    requires
        pos.wf(),
    ensures
        ({
            let cands = kept_candidates(pos@, closed.infos@.map_values(|i: InfoLine| i@), closed.infos@.len() as int);
            match r {
                Some(u) => closed.depth >= MIN_STREAM_DEPTH && cands.len() > 0 && u.depth == closed.depth
                    && u.candidates@.map_values(|c: Candidate| c@) == cands,
                None => closed.depth < MIN_STREAM_DEPTH || cands.len() == 0,
            }
        }),
{
    if closed.depth < MIN_STREAM_DEPTH {
        return None;
    }
    let cands = candidates(pos, &closed.infos);
    if cands.len() == 0 {
        return None;
    }
    Some(DepthUpdate { depth: closed.depth, candidates: cands })
}

/// The result for a terminal position, which never reaches the engine;
/// none when the game goes on.
pub fn terminal_result(pos: &Position, depth: u8) -> (r: Option<SearchResult>)
    requires
        pos.wf(),
    ensures
        match crate::position::spec_terminal(pos@) {
            Some(t) => r matches Some(x) && x.fen@ == pos.fen@ && x.depth == depth && x.candidates@.len() == 0
                && x.terminal == Some(t),
            None => r is None,
        },
{
    match crate::position::terminal(pos) {
        Some(t) => Some(SearchResult { fen: pos.fen.clone(), depth, candidates: Vec::new(), terminal: Some(t) }),
        None => None,
    }
}

/// The result of a finished search: the deepest iteration seen (the depth
/// asked for when none was reported) and the candidates of its lines.
pub fn search_result(pos: &Position, depth: u8, outcome: &crate::driver::SearchOutcome) -> (r: SearchResult)
    requires
        pos.wf(),
    ensures
        r.fen@ == pos.fen@,
        r.depth == (if outcome.depth == 0 { depth } else { outcome.depth }),
        r.candidates@.map_values(|c: Candidate| c@) == kept_candidates(
            pos@,
            outcome.infos@.map_values(|i: InfoLine| i@),
            outcome.infos@.len() as int,
        ),
        r.terminal is None,
{
    SearchResult {
        fen: pos.fen.clone(),
        depth: if outcome.depth == 0 { depth } else { outcome.depth },
        candidates: candidates(pos, &outcome.infos),
        terminal: None,
    }
}

/// The candidate of a single-line search; a protocol error with `missing`
/// when no line fits the position.
pub fn single_candidate(pos: &Position, infos: &Vec<InfoLine>, missing: String) -> (r: Result<Candidate, EngineError>)
    requires
        pos.wf(),
    ensures
        ({
            let cands = kept_candidates(pos@, infos@.map_values(|i: InfoLine| i@), infos@.len() as int);
            match r {
                Ok(c) => cands.len() > 0 && c@ == cands[0],
                Err(e) => cands.len() == 0 && e == EngineError::Protocol(missing),
            }
        }),
{
    let mut cands = candidates(pos, infos);
    if cands.len() == 0 {
        return Err(EngineError::Protocol(missing));
    }
    let ghost views = cands@.map_values(|c: Candidate| c@);
    let first = cands.swap_remove(0);
    assert(first@ == views[0]);
    Ok(first)
}

} // verus!

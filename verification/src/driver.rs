//! The decisions of the task that owns the engine process: the commands that
//! set up and start a search, what each line of output or each interruption
//! does to a running search, and which waiting request survives when a newer
//! one arrives ("latest only"). The task itself, which reads and writes the
//! process, runs these decisions and carries out what they ask for.

use vstd::prelude::*;
use crate::engine::{EngineConfig, EngineError};
use crate::progress::{
    after_flush, after_push, by_rank, closed_by_push, closing, completed_view, info_views, upsert, upsert_info,
    CompletedDepth, DepthTracker, TrackerView,
};
use crate::text::{chars_of, decimal, push_decimal, push_str, string_from_chars, strings_view, trim, trim_str};
use crate::uci::{is_bestmove, parse_info, spec_parse_info, tokens, InfoLine, InfoView};

verus! {

/// Stand-in for the `id name` of a binary that finishes the handshake
/// without sending one.
pub const UNKNOWN_ENGINE_NAME: &'static str = "unknown-engine";

/// What a search asks of the engine.
#[derive(Debug, Clone, PartialEq, Eq)]
pub struct SearchSpec {
    pub fen: String,
    pub depth: u8,
    pub multipv: usize,
    /// Space-separated UCI moves for `go ... searchmoves`.
    pub searchmoves: Option<String>,
    /// Whether finished iterations are reported while the search runs.
    pub streaming: bool,
}

/// The raw result of one search.
#[derive(Debug, Clone, PartialEq, Eq)]
pub struct SearchOutcome {
    /// Deepest iteration seen among the kept lines.
    pub depth: u8,
    /// One line per MultiPV rank, ascending.
    pub infos: Vec<InfoLine>,
}

/// A MultiPV value the engine accepts: at least one.
pub open spec fn at_least_one(n: usize) -> usize {
    if n == 0 { 1 } else { n }
}

pub open spec fn setoption_text(name: Seq<char>, value: usize) -> Seq<char> {
    "setoption name "@ + name + " value "@ + decimal(value as nat)
}

pub open spec fn go_text(depth: u8, searchmoves: Option<Seq<char>>) -> Seq<char> {
    match searchmoves {
        Some(m) => "go depth "@ + decimal(depth as nat) + " searchmoves "@ + m,
        None => "go depth "@ + decimal(depth as nat),
    }
}

/// The commands that start a search on an engine whose MultiPV is currently
/// `current`: the MultiPV option only when it changes, then the position
/// and the `go`.
pub open spec fn spec_start_commands(current: usize, fen: Seq<char>, depth: u8, multipv: usize, searchmoves: Option<Seq<char>>) -> Seq<Seq<char>> {
    let m = at_least_one(multipv);
    (if m != current { seq![setoption_text("MultiPV"@, m)] } else { seq![] })
        + seq!["position fen "@ + fen, go_text(depth, searchmoves)]
}

pub open spec fn opt_chars(s: Option<String>) -> Option<Seq<char>> {
    match s {
        Some(x) => Some(x@),
        None => None,
    }
}

fn setoption(name: &str, value: usize) -> (r: String)
    ensures
        r@ == setoption_text(name@, value),
{
    let mut out: Vec<char> = Vec::new();
    push_str(&mut out, "setoption name ");
    push_str(&mut out, name);
    push_str(&mut out, " value ");
    push_decimal(&mut out, value as u64);
    string_from_chars(&out)
}

/// The commands that start `spec` on an engine whose MultiPV is `current`,
/// and the MultiPV the engine has afterwards.
pub fn start_commands(current: usize, spec: &SearchSpec) -> (r: (Vec<String>, usize))
    ensures
        strings_view(r.0@) == spec_start_commands(current, spec.fen@, spec.depth, spec.multipv, opt_chars(spec.searchmoves)),
        r.1 == at_least_one(spec.multipv),
{
    let m = if spec.multipv == 0 { 1 } else { spec.multipv };
    let mut cmds: Vec<String> = Vec::new();
    if m != current {
        cmds.push(setoption("MultiPV", m));
    }
    let mut pos: Vec<char> = Vec::new();
    push_str(&mut pos, "position fen ");
    push_str(&mut pos, spec.fen.as_str());
    let ghost before = strings_view(cmds@);
    cmds.push(string_from_chars(&pos));
    let mut go: Vec<char> = Vec::new();
    push_str(&mut go, "go depth ");
    push_decimal(&mut go, spec.depth as u64);
    match &spec.searchmoves {
        Some(moves) => {
            push_str(&mut go, " searchmoves ");
            push_str(&mut go, moves.as_str());
        },
        None => {},
    }
    cmds.push(string_from_chars(&go));
    assert(strings_view(cmds@) =~= spec_start_commands(current, spec.fen@, spec.depth, spec.multipv, opt_chars(spec.searchmoves)));
    (cmds, m)
}

/// The options set during the handshake: threads, hash and MultiPV, each at
/// least one.
pub fn option_commands(config: &EngineConfig) -> (r: Vec<String>)
    ensures
        strings_view(r@) == seq![
            setoption_text("Threads"@, at_least_one(config.threads)),
            setoption_text("Hash"@, at_least_one(config.hash)),
            setoption_text("MultiPV"@, at_least_one(config.multipv)),
        ],
{
    let threads = if config.threads == 0 { 1 } else { config.threads };
    let hash = if config.hash == 0 { 1 } else { config.hash };
    let multipv = if config.multipv == 0 { 1 } else { config.multipv };
    let mut out: Vec<String> = Vec::new();
    out.push(setoption("Threads", threads));
    out.push(setoption("Hash", hash));
    out.push(setoption("MultiPV", multipv));
    assert(strings_view(out@) =~= seq![
        setoption_text("Threads"@, threads),
        setoption_text("Hash"@, hash),
        setoption_text("MultiPV"@, multipv),
    ]);
    out
}

/// What one line read during the handshake says.
#[derive(Debug, Clone, PartialEq, Eq)]
pub enum HandshakeLine {
    /// The token being waited for (`uciok`, `readyok`).
    Token,
    /// The engine's `id name`.
    Name(String),
    Other,
}

/// A handshake line: the token when the trimmed line is it; the name when it
/// reads `id name` followed by a name that is not blank.
pub open spec fn spec_handshake_line(line: Seq<char>, token: Seq<char>) -> Option<Option<Seq<char>>> {
    let t = trim(line);
    if t == token {
        None
    } else if t.len() >= 8 && t.take(8) == "id name "@ && trim(t.skip(8)).len() > 0 {
        Some(Some(trim(t.skip(8))))
    } else {
        Some(None)
    }
}

pub fn read_handshake_line(line: &str, token: &str) -> (r: HandshakeLine)
    ensures
        match spec_handshake_line(line@, token@) {
            None => r == HandshakeLine::Token,
            Some(Some(n)) => r matches HandshakeLine::Name(s) && s@ == n,
            Some(None) => r == HandshakeLine::Other,
        },
{
    let t = trim_str(line);
    if crate::text::str_eq(t.as_str(), token) {
        return HandshakeLine::Token;
    }
    let cs = chars_of(t.as_str());
    assert(cs@ == trim(line@));
    assert(trim(line@) != token@);
    let prefix = chars_of("id name ");
    proof {
        reveal_strlit("id name ");
    }
    if cs.len() < 8 {
        return HandshakeLine::Other;
    }
    assert(prefix@.len() == 8);
    let mut k: usize = 0;
    while k < 8
        invariant
            k <= 8,
            cs@.len() >= 8,
            prefix@.len() == 8,
            prefix@ == "id name "@,
            cs@ == trim(line@),
            trim(line@) != token@,
            cs@.take(k as int) == prefix@.take(k as int),
        decreases 8 - k,
    {
        if cs[k] != prefix[k] {
            assert(cs@.take(8)[k as int] != "id name "@[k as int]);
            assert(cs@.take(8) != "id name "@);
            return HandshakeLine::Other;
        }
        assert(cs@.take(k as int + 1) =~= cs@.take(k as int).push(cs@[k as int]));
        assert(prefix@.take(k as int + 1) =~= prefix@.take(k as int).push(prefix@[k as int]));
        k += 1;
    }
    assert(prefix@.take(8) =~= prefix@);
    assert(cs@.take(8) == "id name "@);
    let mut rest: Vec<char> = Vec::new();
    let mut i: usize = 8;
    while i < cs.len()
        invariant
            8 <= i <= cs@.len(),
            cs@ == trim(line@),
            trim(line@) != token@,
            cs@.take(8) == "id name "@,
            rest@ == cs@.subrange(8, i as int),
        decreases cs.len() - i,
    {
        rest.push(cs[i]);
        i += 1;
    }
    assert(rest@ =~= cs@.skip(8));
    let rest_str = string_from_chars(&rest);
    let name = trim_str(rest_str.as_str());
    if name.unicode_len() == 0 {
        HandshakeLine::Other
    } else {
        HandshakeLine::Name(name)
    }
}

/// What can interrupt or feed a running search.
#[derive(Debug, Clone, PartialEq, Eq)]
pub enum SearchEvent {
    /// A line of engine output.
    Line(String),
    /// A newer request arrived; this search is superseded.
    NewRequest,
    /// The `bestmove` that must follow a `stop` did not come in time.
    StopTimedOut,
    /// The engine's output ended: the process is gone.
    OutputClosed,
}

/// What the task has to do after an event.
#[derive(Debug, Clone, PartialEq, Eq)]
pub struct SearchStep {
    /// Send `stop` to the engine (and start the deadline for its answer).
    pub send_stop: bool,
    /// A finished iteration to report to a streaming caller.
    pub progress: Option<CompletedDepth>,
    /// The search is over, with this result.
    pub done: Option<Result<SearchOutcome, EngineError>>,
}

/// A search running on the engine.
pub struct SearchRun {
    limit: usize,
    streaming: bool,
    /// The deepest line seen per rank, ranks ascending.
    best: Vec<InfoLine>,
    tracker: DepthTracker,
    superseded: bool,
    stopping: bool,
}

/// The state of a running search.
pub struct RunView {
    pub limit: usize,
    pub streaming: bool,
    pub best: Seq<InfoView>,
    pub tracker: TrackerView,
    pub superseded: bool,
    pub stopping: bool,
}

impl View for SearchRun {
    type V = RunView;

    closed spec fn view(&self) -> RunView {
        RunView {
            limit: self.limit,
            streaming: self.streaming,
            best: info_views(self.best@),
            tracker: self.tracker@,
            superseded: self.superseded,
            stopping: self.stopping,
        }
    }
}

/// The line of rank `rank` in `s`, if any.
pub open spec fn line_of_rank(s: Seq<InfoView>, rank: usize, k: int) -> Option<InfoView>
    decreases s.len() - k,
{
    if k < 0 || k >= s.len() {
        None
    } else if s[k].multipv == rank {
        Some(s[k])
    } else {
        line_of_rank(s, rank, k + 1)
    }
}

/// Keeping the deepest line per rank: a line replaces the one of its rank
/// unless that one is deeper.
pub open spec fn keep_deepest(s: Seq<InfoView>, x: InfoView) -> Seq<InfoView> {
    match line_of_rank(s, x.multipv, 0) {
        Some(c) => if c.depth > x.depth { s } else { upsert(s, x) },
        None => upsert(s, x),
    }
}

/// The deepest depth among lines, 0 when there are none.
pub open spec fn max_depth(s: Seq<InfoView>) -> u8
    decreases s.len(),
{
    if s.len() == 0 {
        0
    } else {
        let rest = max_depth(s.drop_last());
        if s.last().depth > rest { s.last().depth } else { rest }
    }
}

pub open spec fn outcome_view(o: SearchOutcome) -> (u8, Seq<InfoView>) {
    (o.depth, info_views(o.infos@))
}

pub open spec fn done_view(d: Option<Result<SearchOutcome, EngineError>>) -> Option<Result<(u8, Seq<InfoView>), EngineError>> {
    match d {
        None => None,
        Some(Ok(o)) => Some(Ok(outcome_view(o))),
        Some(Err(e)) => Some(Err(e)),
    }
}

/// The event as plain values.
pub open spec fn event_line(e: SearchEvent) -> Option<Seq<char>> {
    match e {
        SearchEvent::Line(l) => Some(l@),
        _ => None,
    }
}

/// One step of a running search: the state after an event, whether to send
/// `stop`, the iteration to report, and the result if the search is over.
///
/// * The output ending, or `stop` going unanswered, means the engine died.
/// * A `bestmove` ends the search: a superseded search is cancelled (its
///   half-finished iteration is not reported); otherwise the iteration in
///   progress is reported to a streaming caller and the deepest line per
///   rank is the result.
/// * An `info` line of a rank within the MultiPV asked for is reported to
///   the tracker of a streaming caller and kept if it is not shallower than
///   the line of its rank; other lines are ignored.
/// * A newer request supersedes the search; `stop` is sent once.
pub open spec fn spec_step(v: RunView, e: SearchEvent) -> (RunView, bool, Option<(u8, Seq<InfoView>)>, Option<Result<(u8, Seq<InfoView>), EngineError>>) {
    match e {
        SearchEvent::OutputClosed => (v, false, None, Some(Err(EngineError::Died))),
        SearchEvent::StopTimedOut => (v, false, None, Some(Err(EngineError::Died))),
        SearchEvent::NewRequest => (RunView { superseded: true, stopping: true, ..v }, !v.stopping, None, None),
        SearchEvent::Line(l) => if tokens(l@).len() > 0 && tokens(l@)[0] == "bestmove"@ {
            if v.superseded {
                (v, false, None, Some(Err(EngineError::Cancelled)))
            } else if v.streaming {
                (RunView { tracker: after_flush(v.tracker), ..v }, false, closing(v.tracker), Some(Ok((max_depth(v.best), v.best))))
            } else {
                (v, false, None, Some(Ok((max_depth(v.best), v.best))))
            }
        } else {
            match spec_parse_info(l@) {
                Some(info) => if info.multipv > v.limit {
                    (v, false, None, None)
                } else if v.streaming {
                    (
                        RunView { tracker: after_push(v.tracker, info), best: keep_deepest(v.best, info), ..v },
                        false,
                        closed_by_push(v.tracker, info),
                        None,
                    )
                } else {
                    (RunView { best: keep_deepest(v.best, info), ..v }, false, None, None)
                },
                None => (v, false, None, None),
            }
        },
    }
}

proof fn lemma_find_rank(s: Seq<InfoView>, rank: usize, k: int)
    requires
        0 <= k,
    ensures
        line_of_rank(s, rank, k) matches Some(c) ==> exists|j: int| k <= j < s.len() && #[trigger] s[j] == c && c.multipv == rank,
    decreases s.len() - k,
{
    if k < s.len() {
        lemma_find_rank(s, rank, k + 1);
        if s[k].multipv == rank {
            assert(s[k] == s[k]);
        }
    }
}

/// In lines with ascending ranks, the line of a rank is found wherever it is.
proof fn lemma_rank_found(s: Seq<InfoView>, rank: usize, i: int, k: int)
    requires
        by_rank(s),
        0 <= k <= i < s.len(),
        s[i].multipv == rank,
    ensures
        line_of_rank(s, rank, k) == Some(s[i]),
    decreases i - k,
{
    if k < i {
        assert(s[k].multipv < s[i].multipv);
        lemma_rank_found(s, rank, i, k + 1);
    }
}

impl SearchRun {
    pub closed spec fn wf(&self) -> bool {
        &&& by_rank(info_views(self.best@))
        &&& self.tracker.wf()
        &&& (self.superseded <==> self.stopping)
    }

    /// A search that asked for `multipv` lines, reporting iterations as they
    /// finish when `streaming`.
    pub fn new(multipv: usize, streaming: bool) -> (r: SearchRun)
        ensures
            r.wf(),
            r@.limit == multipv,
            r@.streaming == streaming,
            r@.best == Seq::<InfoView>::empty(),
            r@.tracker.depth is None,
            r@.tracker.lines == Seq::<InfoView>::empty(),
            !r@.superseded,
            !r@.stopping,
    {
        let r = SearchRun {
            limit: multipv,
            streaming,
            best: Vec::new(),
            tracker: DepthTracker::new(),
            superseded: false,
            stopping: false,
        };
        assert(info_views(r.best@) =~= Seq::<InfoView>::empty());
        r
    }

    /// The deepest depth among the kept lines.
    fn deepest(&self) -> (r: u8)
        ensures
            r == max_depth(info_views(self.best@)),
    {
        let ghost s = info_views(self.best@);
        let mut d: u8 = 0;
        let mut i: usize = 0;
        while i < self.best.len()
            invariant
                s == info_views(self.best@),
                i <= self.best@.len(),
                d == max_depth(s.take(i as int)),
            decreases self.best.len() - i,
        {
            assert(s.take(i as int + 1).drop_last() =~= s.take(i as int));
            if self.best[i].depth > d {
                d = self.best[i].depth;
            }
            i += 1;
        }
        assert(s.take(self.best@.len() as int) =~= s);
        d
    }

    fn copy_best(&self) -> (r: Vec<InfoLine>)
        ensures
            info_views(r@) == info_views(self.best@),
    {
        let mut out: Vec<InfoLine> = Vec::new();
        let mut i: usize = 0;
        while i < self.best.len()
            invariant
                i <= self.best@.len(),
                info_views(out@) == info_views(self.best@).take(i as int),
            decreases self.best.len() - i,
        {
            let x = crate::uci::copy_info(&self.best[i]);
            let ghost before = info_views(out@);
            out.push(x);
            assert(info_views(out@) =~= before.push(x@));
            assert(info_views(self.best@).take(i as int + 1) =~= info_views(self.best@).take(i as int).push(self.best@[i as int]@));
            i += 1;
        }
        assert(info_views(self.best@).take(self.best@.len() as int) =~= info_views(self.best@));
        out
    }

    /// Keep `info` unless the line of its rank is deeper.
    fn keep(&mut self, info: InfoLine)
        requires
            by_rank(info_views(old(self).best@)),
        ensures
            by_rank(info_views(final(self).best@)),
            info_views(final(self).best@) == keep_deepest(info_views(old(self).best@), info@),
            final(self).limit == old(self).limit,
            final(self).streaming == old(self).streaming,
            final(self).tracker == old(self).tracker,
            final(self).superseded == old(self).superseded,
            final(self).stopping == old(self).stopping,
    {
        let ghost s = info_views(self.best@);
        let mut k: usize = 0;
        let mut found = false;
        while k < self.best.len() && !found
            invariant
                s == info_views(self.best@),
                by_rank(s),
                k <= self.best@.len(),
                !found ==> line_of_rank(s, info.multipv, 0) == line_of_rank(s, info.multipv, k as int),
                found ==> k < self.best@.len() && line_of_rank(s, info.multipv, 0) == Some(s[k as int]),
            decreases (self.best.len() - k) * 2 + (if found { 0int } else { 1int }),
        {
            if self.best[k].multipv == info.multipv {
                assert(line_of_rank(s, info.multipv, k as int) == Some(s[k as int]));
                found = true;
            } else {
                k += 1;
            }
        }
        if found && self.best[k].depth > info.depth {
            return;
        }
        upsert_info(&mut self.best, info);
    }

    /// Take one event.
    pub fn step(&mut self, event: SearchEvent) -> (r: SearchStep)
        requires
            old(self).wf(),
        ensures
            final(self).wf(),
            (final(self)@, r.send_stop, completed_view(r.progress), done_view(r.done)) == spec_step(old(self)@, event),
    {
        let ghost v = self@;
        match event {
            SearchEvent::OutputClosed => SearchStep { send_stop: false, progress: None, done: Some(Err(EngineError::Died)) },
            SearchEvent::StopTimedOut => SearchStep { send_stop: false, progress: None, done: Some(Err(EngineError::Died)) },
            SearchEvent::NewRequest => {
                let send_stop = !self.stopping;
                self.superseded = true;
                self.stopping = true;
                SearchStep { send_stop, progress: None, done: None }
            },
            SearchEvent::Line(line) => {
                if is_bestmove(line.as_str()) {
                    if self.superseded {
                        return SearchStep { send_stop: false, progress: None, done: Some(Err(EngineError::Cancelled)) };
                    }
                    let progress = if self.streaming {
                        self.tracker.flush()
                    } else {
                        None
                    };
                    let depth = self.deepest();
                    let infos = self.copy_best();
                    return SearchStep { send_stop: false, progress, done: Some(Ok(SearchOutcome { depth, infos })) };
                }
                match parse_info(line.as_str()) {
                    None => SearchStep { send_stop: false, progress: None, done: None },
                    Some(info) => {
                        if info.multipv > self.limit {
                            return SearchStep { send_stop: false, progress: None, done: None };
                        }
                        let progress = if self.streaming {
                            self.tracker.push(crate::uci::copy_info(&info))
                        } else {
                            None
                        };
                        self.keep(info);
                        SearchStep { send_stop: false, progress, done: None }
                    },
                }
            },
        }
    }
}

/// Once a search is superseded it never reports a result, whatever comes
/// next, and `stop` is sent at most once.
pub proof fn lemma_superseded_stays_cancelled(v: RunView, e: SearchEvent)
    requires
        v.superseded,
        v.stopping,
    ensures
        spec_step(v, e).0.superseded,
        !spec_step(v, e).1,
        !(spec_step(v, e).3 matches Some(Ok(_))),
{
}

/// The lines a search keeps stay one per rank, ranks ascending, and every
/// rank's line only gets deeper.
pub proof fn lemma_kept_lines_deepen(s: Seq<InfoView>, x: InfoView, rank: usize)
    requires
        by_rank(s),
    ensures
        by_rank(keep_deepest(s, x)),
        line_of_rank(s, rank, 0) matches Some(c) ==> (line_of_rank(keep_deepest(s, x), rank, 0) matches Some(d)
            && d.depth >= c.depth),
{
    crate::progress::lemma_upsert_replaces(s, x);
    let u = upsert(s, x);
    lemma_find_rank(s, rank, 0);
    if let Some(c) = line_of_rank(s, rank, 0) {
        let j = choose|j: int| 0 <= j < s.len() && #[trigger] s[j] == c && c.multipv == rank;
        if keep_deepest(s, x) != s {
            if rank == x.multipv {
                let i = choose|i: int| 0 <= i < u.len() && u[i] == x;
                lemma_rank_found(u, rank, i, 0);
            } else {
                assert(u.contains(s[j]));
                let i = choose|i: int| 0 <= i < u.len() && u[i] == s[j];
                lemma_rank_found(u, rank, i, 0);
            }
        }
    }
}

/// Which request runs next when `incoming` arrives while `next` waits: a
/// waiting shutdown is never displaced (the newcomer is cancelled);
/// otherwise the newcomer displaces whatever waited, which is cancelled.
/// Requests are tagged with whether they are a shutdown.
pub fn park<R>(next: Option<(bool, R)>, incoming: (bool, R)) -> (r: (Option<(bool, R)>, Option<R>))
    ensures
        match next {
            Some((true, w)) => r.0 == Some((true, w)) && r.1 == Some(incoming.1),
            Some((false, w)) => r.0 == Some(incoming) && r.1 == Some(w),
            None => r.0 == Some(incoming) && r.1 is None,
        },
{
    match next {
        Some((true, w)) => (Some((true, w)), Some(incoming.1)),
        Some((false, w)) => (Some(incoming), Some(w)),
        None => (Some(incoming), None),
    }
}

} // verus!

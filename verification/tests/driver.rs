use kibitz::driver::{
    option_commands, park, read_handshake_line, start_commands, HandshakeLine, SearchEvent, SearchRun, SearchSpec,
    UNKNOWN_ENGINE_NAME,
};
use kibitz::engine::{EngineConfig, EngineError};

fn spec(multipv: usize, searchmoves: Option<&str>) -> SearchSpec {
    SearchSpec {
        fen: "8/8/8/8/8/8/8/K6k w - - 0 1".into(),
        depth: 12,
        multipv,
        searchmoves: searchmoves.map(|s| s.to_string()),
        streaming: false,
    }
}

fn line(s: &str) -> SearchEvent {
    SearchEvent::Line(s.to_string())
}

#[test]
fn multipv_is_only_set_when_it_changes() {
    let (cmds, m) = start_commands(3, &spec(3, None));
    assert_eq!(cmds, vec!["position fen 8/8/8/8/8/8/8/K6k w - - 0 1", "go depth 12"]);
    assert_eq!(m, 3);
    let (cmds, m) = start_commands(3, &spec(1, Some("e2e4 d2d4")));
    assert_eq!(
        cmds,
        vec![
            "setoption name MultiPV value 1",
            "position fen 8/8/8/8/8/8/8/K6k w - - 0 1",
            "go depth 12 searchmoves e2e4 d2d4",
        ]
    );
    assert_eq!(m, 1);
    // Zero lines is read as one.
    let (cmds, m) = start_commands(1, &spec(0, None));
    assert_eq!(cmds.len(), 2);
    assert_eq!(m, 1);
}

#[test]
fn handshake_options_are_at_least_one() {
    let config = EngineConfig { path: "stockfish".into(), threads: 0, hash: 256, multipv: 5, depth: 12 };
    assert_eq!(
        option_commands(&config),
        vec!["setoption name Threads value 1", "setoption name Hash value 256", "setoption name MultiPV value 5"]
    );
}

#[test]
fn handshake_lines_are_read() {
    assert_eq!(read_handshake_line("  uciok ", "uciok"), HandshakeLine::Token);
    assert_eq!(read_handshake_line("id name Stockfish 17", "uciok"), HandshakeLine::Name("Stockfish 17".into()));
    assert_eq!(read_handshake_line("id name    ", "uciok"), HandshakeLine::Other);
    assert_eq!(read_handshake_line("id author the team", "uciok"), HandshakeLine::Other);
    assert_eq!(read_handshake_line("readyok", "uciok"), HandshakeLine::Other);
    assert_eq!(UNKNOWN_ENGINE_NAME, "unknown-engine");
}

#[test]
fn a_search_keeps_the_deepest_line_per_rank() {
    let mut run = SearchRun::new(2, false);
    for l in [
        "info depth 1 multipv 1 score cp 10 pv e2e4",
        "info depth 1 multipv 2 score cp 5 pv d2d4",
        "info depth 2 multipv 1 score cp 20 pv e2e4 e7e5",
        "info depth 2 multipv 3 score cp 1 pv a2a3",
        "info string hello",
    ] {
        let step = run.step(line(l));
        assert!(step.done.is_none());
        assert!(step.progress.is_none());
        assert!(!step.send_stop);
    }
    let step = run.step(line("bestmove e2e4 ponder e7e5"));
    let outcome = step.done.expect("finished").expect("ok");
    assert_eq!(outcome.depth, 2);
    assert_eq!(outcome.infos.len(), 2);
    assert_eq!(outcome.infos[0].depth, 2);
    assert_eq!(outcome.infos[0].pv, vec!["e2e4", "e7e5"]);
    assert_eq!(outcome.infos[1].depth, 1);
    assert_eq!(outcome.infos[1].multipv, 2);
}

#[test]
fn a_streaming_search_reports_each_finished_depth() {
    let mut run = SearchRun::new(1, true);
    assert!(run.step(line("info depth 1 multipv 1 score cp 10 pv e2e4")).progress.is_none());
    let step = run.step(line("info depth 2 multipv 1 score cp 20 pv d2d4"));
    assert_eq!(step.progress.expect("depth 1 closed").depth, 1);
    let step = run.step(line("bestmove d2d4"));
    assert_eq!(step.progress.expect("depth 2 flushed").depth, 2);
    assert!(matches!(step.done, Some(Ok(_))));
}

#[test]
fn a_superseded_search_is_cancelled_and_stopped_once() {
    let mut run = SearchRun::new(1, true);
    run.step(line("info depth 1 multipv 1 score cp 10 pv e2e4"));
    let first = run.step(SearchEvent::NewRequest);
    assert!(first.send_stop);
    let second = run.step(SearchEvent::NewRequest);
    assert!(!second.send_stop);
    let end = run.step(line("bestmove e2e4"));
    assert_eq!(end.done, Some(Err(EngineError::Cancelled)));
    assert!(end.progress.is_none());
}

#[test]
fn a_dead_engine_ends_the_search() {
    let mut run = SearchRun::new(1, false);
    assert_eq!(run.step(SearchEvent::OutputClosed).done, Some(Err(EngineError::Died)));
    let mut run = SearchRun::new(1, false);
    run.step(SearchEvent::NewRequest);
    assert_eq!(run.step(SearchEvent::StopTimedOut).done, Some(Err(EngineError::Died)));
}

#[test]
fn a_waiting_shutdown_is_never_displaced() {
    let (next, cancelled) = park(Some((true, "shutdown")), (false, "search"));
    assert_eq!(next, Some((true, "shutdown")));
    assert_eq!(cancelled, Some("search"));
    let (next, cancelled) = park(Some((false, "old")), (false, "new"));
    assert_eq!(next, Some((false, "new")));
    assert_eq!(cancelled, Some("old"));
    let (next, cancelled) = park(None, (true, "shutdown"));
    assert_eq!(next, Some((true, "shutdown")));
    assert_eq!(cancelled, None);
}

use kibitz::driver::SearchOutcome;
use kibitz::engine::{depth_update, search_result, single_candidate, terminal_result};
use kibitz::progress::CompletedDepth;
use kibitz::engine::{candidates, fen, normalize_uci, worth_reporting, EngineConfig, EngineError};
use kibitz::position::{parse_fen, terminal, Position, Terminal};
use kibitz::uci::parse_info;

const START: &str = "rnbqkbnr/pppppppp/8/8/8/8/PPPPPPPP/RNBQKBNR w KQkq - 0 1";

fn chess(fen: &str) -> Position {
    parse_fen(fen).ok().expect("legal position")
}

#[test]
fn detects_checkmate() {
    let pos = chess("rnb1kbnr/pppp1ppp/8/4p3/6Pq/5P2/PPPPP2P/RNBQKBNR w KQkq - 1 3");
    assert_eq!(terminal(&pos), Some(Terminal::Checkmate));
}

#[test]
fn detects_stalemate() {
    let pos = chess("7k/5Q2/6K1/8/8/8/8/8 b - - 0 1");
    assert_eq!(terminal(&pos), Some(Terminal::Stalemate));
}

#[test]
fn detects_insufficient_material() {
    let pos = chess("8/8/4k3/8/8/3K4/8/7B w - - 0 1");
    assert_eq!(terminal(&pos), Some(Terminal::Draw));
}

#[test]
fn detects_the_fifty_move_rule() {
    let pos = chess("8/8/4k3/8/8/3K4/R7/8 w - - 100 80");
    assert_eq!(terminal(&pos), Some(Terminal::Draw));
}

#[test]
fn ordinary_positions_are_not_terminal() {
    assert_eq!(terminal(&chess(START)), None);
}

#[test]
fn fen_round_trips_the_start_position() {
    assert_eq!(fen(&chess(START)), "rnbqkbnr/pppppppp/8/8/8/8/PPPPPPPP/RNBQKBNR w KQkq - 0 1");
}

#[test]
fn normalizes_castling_to_king_target_squares() {
    let pos = chess("r3k2r/8/8/8/8/8/8/R3K2R w KQkq - 0 1");
    assert_eq!(normalize_uci(&pos, "e1g1").unwrap(), "e1g1");
    assert_eq!(normalize_uci(&pos, "e1h1").unwrap(), "e1g1");
    assert!(normalize_uci(&pos, "e1e8").is_err());
    assert!(normalize_uci(&pos, "not-a-move").is_err());
    assert_eq!(
        normalize_uci(&pos, "not-a-move"),
        Err(EngineError::Protocol("not a UCI move: not-a-move".into()))
    );
}

#[test]
fn converts_a_pv_to_san() {
    let info = parse_info("info depth 12 multipv 1 score cp 46 pv e2e4 c7c5 g1f3 b8c6 f1b5").unwrap();
    let candidates = candidates(&chess(START), &vec![info]);
    assert_eq!(candidates.len(), 1);
    assert_eq!(candidates[0].san, "e4");
    assert_eq!(candidates[0].uci, "e2e4");
    assert_eq!(candidates[0].pv, vec!["e4", "c5", "Nf3", "Nc6", "Bb5"]);
}

#[test]
fn truncates_a_pv_at_the_first_unplayable_move() {
    let info = parse_info("info depth 5 multipv 1 score cp 10 pv e2e4 e7e5 h8h1").unwrap();
    let candidates = candidates(&chess(START), &vec![info]);
    assert_eq!(candidates[0].pv, vec!["e4", "e5"]);
}

#[test]
fn drops_a_pv_whose_first_move_is_unplayable() {
    let info = parse_info("info depth 5 multipv 1 score cp 10 pv a1a8").unwrap();
    assert!(candidates(&chess(START), &vec![info]).is_empty());
}

#[test]
fn adds_check_and_mate_suffixes() {
    let pos = chess("r1bqkbnr/pppp1ppp/2n5/4p3/2B1P3/5Q2/PPPP1PPP/RNB1K1NR w KQkq - 4 4");
    let info = parse_info("info depth 5 multipv 1 score mate 1 pv f3f7").unwrap();
    let candidates = candidates(&pos, &vec![info]);
    assert_eq!(candidates[0].san, "Qxf7#");
}

#[test]
fn shallow_or_empty_iterations_are_not_reported() {
    let info = parse_info("info depth 8 multipv 1 score cp 10 pv e2e4").unwrap();
    let some = candidates(&chess(START), &vec![info]);
    assert!(worth_reporting(6, &some));
    assert!(!worth_reporting(5, &some));
    assert!(!worth_reporting(12, &Vec::new()));
}

#[test]
fn default_threads_leave_a_core_free() {
    assert_eq!(EngineConfig::with_defaults("sf".into(), Some(8)).threads, 7);
    assert_eq!(EngineConfig::with_defaults("sf".into(), Some(1)).threads, 1);
    assert_eq!(EngineConfig::with_defaults("sf".into(), None).threads, 1);
    assert_eq!(EngineConfig::with_defaults("sf".into(), None).long_pv_depth(), 18);
}

fn info(depth: u8, multipv: usize, pv: &[&str]) -> kibitz::uci::InfoLine {
    kibitz::uci::InfoLine {
        depth,
        multipv,
        score: kibitz::score::Score::Cp(20),
        pv: pv.iter().map(|s| s.to_string()).collect(),
        nodes: None,
        nps: None,
    }
}

#[test]
fn shallow_or_unplayable_iterations_are_not_reported() {
    let pos = chess(START);
    let shallow = CompletedDepth { depth: 3, infos: vec![info(3, 1, &["e2e4"])] };
    assert!(depth_update(&pos, &shallow).is_none());
    let unplayable = CompletedDepth { depth: 9, infos: vec![info(9, 1, &["e2e5"])] };
    assert!(depth_update(&pos, &unplayable).is_none());
    let good = CompletedDepth { depth: 9, infos: vec![info(9, 1, &["e2e4", "e7e5"])] };
    let update = depth_update(&pos, &good).expect("reported");
    assert_eq!(update.depth, 9);
    assert_eq!(update.candidates[0].san, "e4");
    assert_eq!(update.candidates[0].pv, vec!["e4", "e5"]);
}

#[test]
fn results_are_assembled_from_the_search() {
    let pos = chess(START);
    assert!(terminal_result(&pos, 12).is_none());
    let mate = chess("rnb1kbnr/pppp1ppp/8/4p3/6Pq/5P2/PPPPP2P/RNBQKBNR w KQkq - 1 3");
    let t = terminal_result(&mate, 12).expect("terminal");
    assert_eq!(t.terminal, Some(Terminal::Checkmate));
    assert!(t.candidates.is_empty());
    assert_eq!(t.depth, 12);

    let none = SearchOutcome { depth: 0, infos: Vec::new() };
    let r = search_result(&pos, 14, &none);
    assert_eq!(r.depth, 14, "the depth asked for stands in when none was reported");
    assert!(r.candidates.is_empty());
    let some = SearchOutcome { depth: 11, infos: vec![info(11, 1, &["d2d4"])] };
    assert_eq!(search_result(&pos, 14, &some).depth, 11);

    assert_eq!(
        single_candidate(&pos, &Vec::new(), "no PV returned for the long search".into()),
        Err(EngineError::Protocol("no PV returned for the long search".into()))
    );
    assert_eq!(single_candidate(&pos, &vec![info(5, 1, &["g1f3"])], "x".into()).unwrap().san, "Nf3");
}

use kibitz::book::BookVerdict;
use kibitz::classify::Classification;
use kibitz::engine::{Candidate, EngineError, SearchResult};
use kibitz::pipeline::{
    alternative, classify_input, counterfactual, counterfactual_line, left_book, mated, move_into, opponent_pov,
    plan_searches, position_info, position_score, terminal_of, PipelineError, SearchKind,
};
use kibitz::position::{parse_fen, parse_move, play, Position, Terminal};
use kibitz::score::Score;
use kibitz::tree::GameTree;
use kibitz::types::{CounterfactualKind, OpeningInfo};

const START: &str = "rnbqkbnr/pppppppp/8/8/8/8/PPPPPPPP/RNBQKBNR w KQkq - 0 1";

fn start() -> Position {
    parse_fen(START).ok().expect("legal")
}

fn play_san(pos: &Position, san: &str) -> Position {
    let mv = parse_move(pos, san, true).expect("legal san");
    play(pos, &mv).expect("playable")
}

fn candidate(uci: &str, san: &str, score: Score, pv: &[&str]) -> Candidate {
    Candidate { san: san.to_string(), uci: uci.to_string(), score, pv: pv.iter().map(|s| s.to_string()).collect() }
}

fn search(candidates: Vec<Candidate>) -> SearchResult {
    SearchResult { fen: "startpos".into(), depth: 20, candidates, terminal: None }
}

fn terminal_result(t: Terminal) -> SearchResult {
    SearchResult { fen: "terminal".into(), depth: 20, candidates: Vec::new(), terminal: Some(t) }
}

#[test]
fn opponent_pov_flips_both_kinds_of_score() {
    assert_eq!(opponent_pov(Score::Cp(120)), Score::Cp(-120));
    assert_eq!(opponent_pov(Score::Cp(-120)), Score::Cp(120));
    assert_eq!(opponent_pov(Score::Mate(3)), Score::Mate(-3));
    assert_eq!(opponent_pov(Score::Mate(-3)), Score::Mate(3));
    for s in [Score::Cp(0), Score::Cp(77), Score::Mate(1), mated()] {
        assert_eq!(opponent_pov(opponent_pov(s)), s);
    }
}

#[test]
fn a_mated_position_flips_into_a_mating_score() {
    assert_eq!(position_score(&terminal_result(Terminal::Checkmate)), mated());
    let played = opponent_pov(position_score(&terminal_result(Terminal::Checkmate)));
    assert_eq!(played, Score::Mate(1));
    assert!(matches!(played, Score::Mate(m) if m > 0));
}

#[test]
fn draws_are_dead_even_from_either_side() {
    for t in [Terminal::Stalemate, Terminal::Draw] {
        assert_eq!(position_score(&terminal_result(t)), Score::Cp(0));
        assert_eq!(opponent_pov(position_score(&terminal_result(t))), Score::Cp(0));
    }
}

#[test]
fn played_value_comes_from_the_next_position_negated() {
    let before = search(vec![
        candidate("e2e4", "e4", Score::Cp(50), &["e4", "e5"]),
        candidate("d2d4", "d4", Score::Cp(20), &["d4", "d5"]),
        candidate("g1f3", "Nf3", Score::Cp(10), &["Nf3", "Nf6"]),
    ]);
    let after = search(vec![candidate("d8h4", "Qh4#", Score::Cp(300), &["Qh4"])]);

    let input = classify_input("g1f3", &before, &after);

    assert_eq!(input.best, Score::Cp(50), "best comes from position N");
    assert_eq!(input.second, Some(Score::Cp(20)));
    assert_eq!(input.played, Score::Cp(-300), "played comes from position N+1, negated");
    assert_eq!(input.played_rank, Some(2));
}

#[test]
fn a_move_outside_the_multipv_has_no_rank() {
    let before = search(vec![candidate("e2e4", "e4", Score::Cp(50), &["e4"])]);
    let after = search(vec![candidate("e7e5", "e5", Score::Cp(-40), &["e5"])]);
    let input = classify_input("a2a3", &before, &after);
    assert_eq!(input.played_rank, None);
    assert_eq!(input.second, None);
    assert_eq!(input.played, Score::Cp(40));
}

#[test]
fn a_move_delivering_mate_is_read_as_mating() {
    let before = search(vec![candidate("d1h5", "Qh5#", Score::Mate(1), &["Qh5#"])]);
    let input = classify_input("d1h5", &before, &terminal_result(Terminal::Checkmate));
    assert_eq!(input.best, Score::Mate(1));
    assert_eq!(input.played, Score::Mate(1));
}

#[test]
fn giving_up_a_mate_reads_as_no_longer_mating() {
    let before = search(vec![
        candidate("f3f7", "Qxf7#", Score::Mate(2), &["Qxf7"]),
        candidate("f3f4", "Qf4", Score::Cp(200), &["Qf4"]),
    ]);
    let after = search(vec![candidate("e8e7", "Ke7", Score::Cp(-200), &["Ke7"])]);
    let input = classify_input("f3f4", &before, &after);
    assert!(input.best.is_mate());
    assert!(!input.played.is_mate());
    assert_eq!(input.played, Score::Cp(200));
}

#[test]
fn alternative_skips_the_move_actually_played() {
    let cands = vec![
        candidate("e2e4", "e4", Score::Cp(50), &["e4"]),
        candidate("d2d4", "d4", Score::Cp(40), &["d4"]),
        candidate("g1f3", "Nf3", Score::Cp(30), &["Nf3"]),
    ];
    assert_eq!(alternative(&cands, "e2e4").unwrap().uci, "d2d4");
    assert_eq!(alternative(&cands, "d2d4").unwrap().uci, "g1f3");
    assert_eq!(alternative(&cands, "a2a3").unwrap().uci, "d2d4");
    assert!(alternative(&cands[..1], "e2e4").is_none());
    assert!(alternative(&[], "e2e4").is_none());
}

#[test]
fn alternative_falls_back_to_the_best_move() {
    let cands = vec![
        candidate("e2e4", "e4", Score::Cp(50), &["e4"]),
        candidate("d2d4", "d4", Score::Cp(40), &["d4"]),
    ];
    // The second best was played and nothing follows it: the best is shown.
    assert_eq!(alternative(&cands, "d2d4").unwrap().uci, "e2e4");
}

#[test]
fn bad_moves_replay_the_refutation_from_after_the_move() {
    let before = start();
    let after = play_san(&before, "e4");
    let before_search = search(vec![
        candidate("e2e4", "e4", Score::Cp(50), &["e4"]),
        candidate("d2d4", "d4", Score::Cp(40), &["d4", "d5", "c4"]),
    ]);
    let after_search = search(vec![candidate("e7e5", "e5", Score::Cp(20), &["e5", "Nf3"])]);

    let (kind, start_fen, pv) =
        counterfactual_line(Classification::Blunder, &before, &after, "e2e4", &before_search, &after_search).unwrap();
    assert_eq!(kind, CounterfactualKind::Refutation);
    assert_eq!(start_fen, after.fen, "the punishment starts after the move");
    assert_eq!(pv, ["e5", "Nf3"]);
}

#[test]
fn good_moves_replay_the_alternative_from_before_the_move() {
    let before = start();
    let after = play_san(&before, "e4");
    let before_search = search(vec![
        candidate("e2e4", "e4", Score::Cp(50), &["e4"]),
        candidate("d2d4", "d4", Score::Cp(40), &["d4", "d5", "c4"]),
    ]);
    let after_search = search(vec![candidate("e7e5", "e5", Score::Cp(20), &["e5"])]);

    for classification in [Classification::Great, Classification::Best, Classification::Excellent, Classification::Good] {
        let (kind, start_fen, pv) =
            counterfactual_line(classification, &before, &after, "e2e4", &before_search, &after_search).unwrap();
        assert_eq!(kind, CounterfactualKind::AlternativeCollapse);
        assert_eq!(start_fen, before.fen, "{classification:?}");
        assert_eq!(pv, ["d4", "d5", "c4"], "{classification:?}");
    }
}

#[test]
fn no_counterfactual_without_a_line_to_show() {
    let before = start();
    let after = start();
    let one = search(vec![candidate("e2e4", "e4", Score::Cp(50), &["e4"])]);
    assert!(counterfactual_line(Classification::Best, &before, &after, "e2e4", &one, &one).is_none());
    assert!(counterfactual_line(
        Classification::Blunder,
        &before,
        &after,
        "e2e4",
        &one,
        &terminal_result(Terminal::Checkmate),
    )
    .is_none());
}

#[test]
fn a_counterfactual_carries_its_line_and_start() {
    let before = start();
    let after = play_san(&before, "e4");
    let before_search = search(vec![candidate("e2e4", "e4", Score::Cp(50), &["e4"])]);
    let after_search = search(vec![candidate("d8h4", "e5", Score::Cp(20), &["e5", "Nf3", "Nc6"])]);
    let c = counterfactual(Classification::Mistake, &before, &after, "e2e4", &before_search, &after_search).unwrap();
    assert_eq!(c.kind, CounterfactualKind::Refutation);
    assert_eq!(c.start_fen, after.fen);
    assert_eq!(c.pv, vec!["e5", "Nf3", "Nc6"]);
}

#[test]
fn pipeline_terminal_positions_never_reach_the_engine() {
    let mated_pos = parse_fen("rnb1kbnr/pppp1ppp/8/4p3/6Pq/5P2/PPPPP2P/RNBQKBNR w KQkq - 1 3").ok().unwrap();
    assert_eq!(terminal_of(&mated_pos), Some(Terminal::Checkmate));

    let stalemate = parse_fen("7k/5Q2/6K1/8/8/8/8/8 b - - 0 1").ok().unwrap();
    assert_eq!(terminal_of(&stalemate), Some(Terminal::Stalemate));

    let bare_kings = parse_fen("4k3/8/8/8/8/8/8/4K3 w - - 0 1").ok().unwrap();
    assert_eq!(terminal_of(&bare_kings), Some(Terminal::Draw));

    assert_eq!(terminal_of(&start()), None);
}

#[test]
fn position_info_reads_the_side_and_move_number() {
    let after = play_san(&start(), "e4");
    let info = position_info(&after, 18);
    assert_eq!(info.fen, "rnbqkbnr/pppppppp/8/8/4P3/8/PPPP1PPP/RNBQKBNR b KQkq - 0 1");
    assert_eq!(info.side_to_move, "black");
    assert_eq!(info.fullmove_number, 1);
    assert_eq!(info.depth, 18);
    assert_eq!(position_info(&start(), 1).side_to_move, "white");
}

#[test]
fn only_a_move_that_left_the_book_names_an_opening() {
    let o = OpeningInfo { eco: "C20".into(), name: "King's Pawn Game".into(), matched_plies: 2 };
    assert_eq!(left_book(&BookVerdict::LeftBook(Some(o.clone()))), Some(o.clone()));
    assert_eq!(left_book(&BookVerdict::LeftBook(None)), None);
    assert_eq!(left_book(&BookVerdict::InBook(o)), None);
    assert_eq!(left_book(&BookVerdict::OutOfBook), None);
}

#[test]
fn the_move_into_a_node_is_read_from_its_parent() {
    let mut t: GameTree<u32> = GameTree::new(&start());
    let e4 = t.play_san(0, "e4").expect("legal");
    let mv = move_into(&t, e4).expect("a move");
    assert_eq!(mv, parse_move(&start(), "e2e4", false).unwrap());
    assert_eq!(move_into(&t, 0), Err(PipelineError::NodeNotFound(0)));
    assert_eq!(move_into(&t, 7), Err(PipelineError::NodeNotFound(7)));
    assert_eq!(PipelineError::NodeNotFound(7).message(), "node 7 not found");
}

#[test]
fn pipeline_errors_read_as_sentences() {
    assert!(PipelineError::Engine(EngineError::Cancelled).is_cancelled());
    assert!(!PipelineError::Engine(EngineError::Died).is_cancelled());
    assert!(!PipelineError::Book("down".into()).is_cancelled());
    assert_eq!(PipelineError::Engine(EngineError::Died).message(), "engine: engine process died");
    assert_eq!(PipelineError::Position("x".into()).message(), "invalid position: x");
}

#[test]
fn book_moves_need_no_search() {
    let o = OpeningInfo { eco: "C20".into(), name: "King's Pawn Game".into(), matched_plies: 1 };
    let verdicts = vec![BookVerdict::InBook(o), BookVerdict::OutOfBook, BookVerdict::LeftBook(None)];
    assert_eq!(
        plan_searches(&verdicts),
        vec![None, Some(SearchKind::MultiPv), Some(SearchKind::MultiPv), Some(SearchKind::Evaluate)]
    );
    assert_eq!(plan_searches(&[]), vec![Some(SearchKind::MultiPv)]);
}

use kibitz::book::{BookError, BookVerdict};
use kibitz::pipeline::{book_or_out, needs_parent_search, node_plan, PipelineError};
use kibitz::position::parse_fen;
use kibitz::tree::GameTree;
use kibitz::types::OpeningInfo;

const START: &str = "rnbqkbnr/pppppppp/8/8/8/8/PPPPPPPP/RNBQKBNR w KQkq - 0 1";

fn tree() -> GameTree<u32> {
    let mut t = GameTree::new(&parse_fen(START).ok().unwrap());
    let e4 = t.play_san(0, "e4").unwrap();
    t.play_san(e4, "e5").unwrap();
    t
}

#[test]
fn the_root_needs_no_parent_and_takes_the_default_depth() {
    let t = tree();
    let plan = node_plan(&t, 0, None, 14).unwrap();
    assert_eq!(plan.0, 14);
    assert!(plan.1.is_none());
}

#[test]
fn a_move_node_names_its_parent_and_move() {
    let t = tree();
    let (depth, step) = node_plan(&t, 2, Some(20), 14).unwrap();
    assert_eq!(depth, 20);
    let (parent, mv) = step.unwrap();
    assert_eq!(parent, 1);
    assert_eq!(kibitz::position::uci_of(&mv), "e7e5");
}

#[test]
fn an_unknown_node_is_not_found() {
    let t = tree();
    assert_eq!(node_plan(&t, 9, None, 14).unwrap_err(), PipelineError::NodeNotFound(9));
}

#[test]
fn a_node_with_a_bad_position_is_refused() {
    let mut t = tree();
    t.nodes[2].fen = "nonsense".to_string();
    assert_eq!(
        node_plan(&t, 2, None, 14).unwrap_err(),
        PipelineError::Position("invalid FEN: nonsense".to_string())
    );
}

#[test]
fn only_a_book_move_skips_the_parent_search() {
    let info = OpeningInfo { eco: "C20".into(), name: "King's Pawn Game".into(), matched_plies: 1 };
    assert!(!needs_parent_search(&BookVerdict::InBook(info.clone())));
    assert!(needs_parent_search(&BookVerdict::LeftBook(Some(info))));
    assert!(needs_parent_search(&BookVerdict::OutOfBook));
}

#[test]
fn a_book_failure_reads_as_out_of_book() {
    let failed: Result<BookVerdict, BookError> = Err(BookError::Http("rate limited".into()));
    assert_eq!(book_or_out(failed), BookVerdict::OutOfBook);
    let info = OpeningInfo { eco: "C20".into(), name: "King's Pawn Game".into(), matched_plies: 1 };
    let ok: Result<BookVerdict, BookError> = Ok(BookVerdict::InBook(info.clone()));
    assert_eq!(book_or_out(ok), BookVerdict::InBook(info));
}

#[test]
fn playing_keeps_the_analyses_already_attached() {
    let mut t = tree();
    t.nodes[1].analysis = Some(7);
    let d5 = t.play_san(1, "d5").unwrap();
    assert_eq!(t.nodes[1].analysis, Some(7));
    assert_eq!(t.nodes[d5].analysis, None);
    assert!(t.nodes[d5].opening.is_none());
}

use kibitz::position::{parse_fen, parse_move, Position};
use kibitz::tree::{GameTree, TreeError};

const START: &str = "rnbqkbnr/pppppppp/8/8/8/8/PPPPPPPP/RNBQKBNR w KQkq - 0 1";

fn start() -> Position {
    parse_fen(START).ok().expect("legal position")
}

#[test]
fn new_tree_holds_only_the_root() {
    let t: GameTree<u32> = GameTree::new(&start());
    assert_eq!(t.nodes.len(), 1);
    assert_eq!(t.root, 0);
    let root = t.get(0).expect("root");
    assert_eq!(root.parent, None);
    assert!(root.san.is_none());
    assert_eq!(root.fen, START);
    assert!(t.get(1).is_none());
}

#[test]
fn playing_adds_a_child_with_san_uci_and_fen() {
    let mut t: GameTree<u32> = GameTree::new(&start());
    let id = t.play_san(0, "e4").expect("legal");
    assert_eq!(id, 1);
    let n = t.get(id).expect("node");
    assert_eq!(n.parent, Some(0));
    assert_eq!(n.san.as_deref(), Some("e4"));
    assert_eq!(n.uci.as_deref(), Some("e2e4"));
    assert_eq!(n.fen, "rnbqkbnr/pppppppp/8/8/4P3/8/PPPP1PPP/RNBQKBNR b KQkq - 0 1");
    assert_eq!(t.get(0).expect("root").children, vec![1]);
}

#[test]
fn replaying_a_move_merges_into_the_existing_child() {
    let mut t: GameTree<u32> = GameTree::new(&start());
    let a = t.play_san(0, "e4").expect("legal");
    let b = t.play_san(0, "e4").expect("legal");
    assert_eq!(a, b);
    assert_eq!(t.nodes.len(), 2);
    let pos = t.position(0).ok().expect("root position");
    let mv = parse_move(&pos, "e2e4", false).expect("uci");
    assert_eq!(t.play(0, &mv), Ok(a));
    assert_eq!(t.nodes.len(), 2);
}

#[test]
fn illegal_moves_are_refused() {
    let mut t: GameTree<u32> = GameTree::new(&start());
    assert_eq!(t.play_san(0, "e5"), Err(TreeError::IllegalMove));
    assert_eq!(t.play_san(0, "nonsense"), Err(TreeError::IllegalMove));
    assert_eq!(t.nodes.len(), 1);
    assert_eq!(TreeError::IllegalMove.message(), "illegal move");
}

#[test]
fn check_suffix_is_kept_in_san() {
    let mut t: GameTree<u32> = GameTree::new(&start());
    let mut at = 0;
    for san in ["e4", "e5", "Bc4", "Nc6", "Qh5", "Nf6"] {
        at = t.play_san(at, san).expect("legal");
    }
    let mate = t.play_san(at, "Qxf7").expect("legal");
    assert_eq!(t.get(mate).expect("node").san.as_deref(), Some("Qxf7#"));
}

#[test]
fn mainline_paths_and_variations() {
    let mut t: GameTree<u32> = GameTree::new(&start());
    let e4 = t.play_san(0, "e4").expect("legal");
    let e5 = t.play_san(e4, "e5").expect("legal");
    let c5 = t.play_san(e4, "c5").expect("legal");
    let nf3 = t.play_san(c5, "Nf3").expect("legal");
    assert_eq!(t.mainline(), vec![0, e4, e5]);
    assert_eq!(t.path_to(nf3), vec![0, e4, c5, nf3]);
    assert_eq!(t.path_to(0), vec![0]);
    assert!(t.is_mainline(0));
    assert!(t.is_mainline(e5));
    assert!(!t.is_mainline(c5));
    assert!(!t.is_mainline(nf3));
    assert_eq!(t.get(e4).expect("node").children, vec![e5, c5]);
}

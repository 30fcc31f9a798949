use kibitz::opening::{annotate, new_tree};
use kibitz::pgn::{GameBuilder, TagReader};
use kibitz::position::parse_fen;
use kibitz::tree::GameTree;

const START: &str = "rnbqkbnr/pppppppp/8/8/8/8/PPPPPPPP/RNBQKBNR w KQkq - 0 1";

/// A game read move by move, the way a PGN reader reports it; `(` and `)`
/// open and close variations.
fn imported(moves: &[&str]) -> GameTree<u32> {
    let mut game: GameBuilder<u32> = TagReader::new().begin_movetext().ok().expect("no tags");
    for m in moves {
        match *m {
            "(" => game.begin_variation(),
            ")" => game.end_variation(),
            san => game.san(san).ok().expect("legal"),
        }
    }
    game.end_game().tree
}

fn opening_at(tree: &GameTree<u32>, ply: usize) -> Option<(&str, &str, u32)> {
    let id = tree.mainline()[ply];
    tree.nodes[id].opening.as_ref().map(|o| (o.eco.as_str(), o.name.as_str(), o.matched_plies))
}

#[test]
fn the_root_of_a_fresh_game_has_no_opening() {
    let tree: GameTree<u32> = new_tree(&parse_fen(START).ok().unwrap());
    assert_eq!(tree.nodes[tree.root].opening, None);
}

#[test]
fn a_session_started_from_a_fen_is_named_when_the_position_is_known() {
    let fen = "r1bqkbnr/pppp1ppp/2n5/1B2p3/4P3/5N2/PPPP1PPP/RNBQK2R b KQkq - 3 3";
    let pos = parse_fen(fen).ok().unwrap();
    let tree: GameTree<u32> = new_tree(&pos);
    let opening = tree.nodes[tree.root].opening.as_ref().expect("named");
    assert_eq!(opening.eco, "C60");
    assert_eq!(opening.name, "Ruy Lopez");
    assert_eq!(opening.matched_plies, 0);

    let plain = parse_fen("4k3/8/8/8/8/8/4P3/4K3 w - - 0 1").ok().unwrap();
    let plain_tree: GameTree<u32> = new_tree(&plain);
    assert_eq!(plain_tree.nodes[0].opening, None);
}

#[test]
fn pgn_import_names_the_line() {
    let tree = imported(&["e4", "e5", "Nf3", "Nc6", "Bb5", "Nf6"]);
    assert_eq!(tree.nodes[tree.root].opening, None);
    assert_eq!(opening_at(&tree, 1), Some(("B00", "King's Pawn Game", 1)));
    assert_eq!(opening_at(&tree, 5), Some(("C60", "Ruy Lopez", 5)));
    assert_eq!(opening_at(&tree, 6), Some(("C65", "Ruy Lopez: Berlin Defense", 6)));
}

#[test]
fn variations_are_named_too() {
    let tree = imported(&["e4", "e5", "Nf3", "(", "f4", "exf4", ")", "Nc6"]);
    let e5 = tree.mainline()[2];
    let f4 = tree.nodes[e5].children[1];
    let exf4 = tree.nodes[f4].children[0];
    let named = tree.nodes[exf4].opening.as_ref().expect("King's Gambit Accepted");
    assert!(named.name.contains("King's Gambit"), "{}", named.name);
    assert_eq!(named.matched_plies, 4);
}

#[test]
fn annotating_outside_the_tree_changes_nothing() {
    let mut tree = imported(&["e4"]);
    annotate(&mut tree, 99);
    assert_eq!(tree.nodes.len(), 2);
    assert_eq!(opening_at(&tree, 1), Some(("B00", "King's Pawn Game", 1)));
}

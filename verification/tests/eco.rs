use kibitz::eco::{build, build_from, lookup, position_count, replay, volumes};
use kibitz::opening::new_tree;
use kibitz::tree::GameTree;

fn epd(moves: &str) -> String {
    replay(moves).expect("test line must replay").0
}

fn name_of(moves: &str) -> Option<String> {
    lookup(&epd(moves)).map(|o| o.name)
}

#[test]
fn the_starting_position_is_not_an_opening() {
    let start = "rnbqkbnr/pppppppp/8/8/8/8/PPPPPPPP/RNBQKBNR w KQkq - 0 1";
    assert_eq!(lookup(start), None);
}

#[test]
fn names_the_kings_pawn_game() {
    let opening = lookup(&epd("1. e4")).expect("1. e4 is a named opening");
    assert_eq!(opening.eco, "B00");
    assert_eq!(opening.name, "King's Pawn Game");
}

#[test]
fn names_the_ruy_lopez_and_the_berlin() {
    let ruy = lookup(&epd("1. e4 e5 2. Nf3 Nc6 3. Bb5")).expect("Ruy Lopez");
    assert_eq!(ruy.eco, "C60");
    assert_eq!(ruy.name, "Ruy Lopez");

    let berlin = lookup(&epd("1. e4 e5 2. Nf3 Nc6 3. Bb5 Nf6")).expect("Berlin Defense");
    assert_eq!(berlin.eco, "C65");
    assert_eq!(berlin.name, "Ruy Lopez: Berlin Defense");
}

#[test]
fn a_transposition_resolves_to_the_same_opening() {
    let direct = epd("1. e4 e5 2. Nf3 Nc6 3. Bb5");
    let transposed = epd("1. Nf3 Nc6 2. e4 e5 3. Bb5");
    assert_eq!(direct, transposed);
    assert_eq!(lookup(&direct), lookup(&transposed));
    assert_eq!(name_of("1. Nf3 Nc6 2. e4 e5 3. Bb5"), Some("Ruy Lopez".to_string()));

    let direct = epd("1. e4 c5 2. Nf3 d6");
    let transposed = epd("1. Nf3 d6 2. e4 c5");
    assert_eq!(direct, transposed);
    assert!(lookup(&direct).is_some(), "must be a named Sicilian line");
    assert_eq!(lookup(&direct), lookup(&transposed));
}

#[test]
fn a_position_that_is_not_an_opening_returns_none() {
    assert_eq!(lookup("1n1Rkb1r/p4ppp/4q3/4p1B1/4P3/8/PPP2PPP/2K5 b k - 1 17"), None);
    assert_eq!(lookup("4k3/8/8/8/8/8/4P3/4K3 w - - 0 1"), None);
}

#[test]
fn a_duplicated_position_keeps_the_longest_line_whatever_the_file_order() {
    const SHORT: &str = "eco\tname\tpgn\nX01\tShort route\t1. e4 e5 2. Nf3 Nc6\n";
    const LONG: &str = "eco\tname\tpgn\nX02\tLong route\t1. Nf3 Nc6 2. Ng1 Nb8 3. Nf3 Nc6 4. e4 e5\n";

    for volumes in [
        [("short.tsv", SHORT), ("long.tsv", LONG)],
        [("long.tsv", LONG), ("short.tsv", SHORT)],
    ] {
        let volumes: Vec<(String, String)> =
            volumes.iter().map(|(f, t)| (f.to_string(), t.to_string())).collect();
        let table = build_from(&volumes);
        assert_eq!(table.rows, 2);
        assert_eq!(table.entries.len(), 1, "both rows name the same position");
        assert_eq!(table.collisions.len(), 1);

        let kept = table.entries[0].opening.clone();
        assert_eq!(kept.name, "Long route", "file order must not decide");
        assert_eq!(table.collisions[0].1, "Long route");
        assert_eq!(table.collisions[0].2, "Short route");
    }
}

#[test]
fn the_public_table_covers_every_row() {
    assert_eq!(position_count(), build().entries.len());
}

#[test]
fn lookup_ignores_the_move_counters() {
    let a = "rnbqkbnr/pppp1ppp/8/4p3/4P3/8/PPPP1PPP/RNBQKBNR w KQkq - 0 2";
    let b = "rnbqkbnr/pppp1ppp/8/4p3/4P3/8/PPPP1PPP/RNBQKBNR w KQkq - 9 40";
    assert!(lookup(a).is_some());
    assert_eq!(lookup(a), lookup(b));
    assert_eq!(lookup("rnbqkbnr/pppp1ppp/8/4p3/4P3/8/PPPP1PPP/RNBQKBNR w KQkq -"), lookup(a));
}

#[test]
fn deep_lines_are_named_all_the_way_down() {
    let deep = "1. e4 e5 2. Nf3 Nc6 3. Bb5 a6 4. Ba4 Nf6 5. O-O Be7 6. Re1 b5 \
                7. Bb3 d6 8. c3 O-O 9. h3 Na5 10. Bc2 c5 11. d4 Qc7";
    let opening = lookup(&epd(deep)).expect("Chigorin main line is named");
    assert_eq!(opening.eco, "C97");
    assert!(opening.name.contains("Chigorin"), "{}", opening.name);
}

#[test]
fn building_the_table_is_cheap() {
    let started = std::time::Instant::now();
    let table = build();
    let elapsed = started.elapsed();
    println!("eco table: {} rows -> {} positions in {:?}", table.rows, table.entries.len(), elapsed);
    assert!(elapsed < std::time::Duration::from_secs(2));
}

#[test]
fn every_built_in_row_replays() {
    let table = build();
    assert!(table.failed.is_empty(), "{:?}", table.failed);
    assert_eq!(table.entries.len(), table.rows - table.collisions.len());
}

#[test]
fn malformed_and_unplayable_rows_are_reported_with_their_line() {
    let text = "eco\tname\tpgn\nonly two\tfields\nZ99\tNonsense\t1. e5\n\n";
    let table = build_from(&vec![("z.tsv".to_string(), text.to_string())]);
    assert_eq!(table.rows, 1);
    assert_eq!(table.failed, vec!["z.tsv:2: malformed row", "z.tsv:3: Z99 Nonsense"]);
    assert!(table.entries.is_empty());
}

#[test]
fn a_line_without_moves_is_not_an_opening() {
    assert_eq!(replay("1."), None);
    assert_eq!(replay(""), None);
    assert_eq!(replay("1.e4").map(|r| r.1), Some(1));
}

#[test]
fn duplicate_epds_keep_the_longest_line_deterministically() {
    let first = build();
    let second = build();

    assert_eq!(first.collisions.len(), 0, "upstream gained duplicate EPDs: {:?}", first.collisions);

    assert_eq!(first.entries.len(), second.entries.len());
    for entry in &first.entries {
        let other = second.entries.iter().find(|e| e.epd == entry.epd).expect("same keys");
        assert_eq!(entry.opening, other.opening, "{}", entry.epd);
    }

    let mut deepest: Vec<(String, usize)> = Vec::new();
    for (_file, text) in volumes() {
        for line in text.lines().skip(1) {
            let mut fields = line.trim_end().split('\t');
            let (Some(_eco), Some(_name), Some(pgn)) = (fields.next(), fields.next(), fields.next()) else {
                continue;
            };
            if let Some((epd, plies)) = replay(pgn) {
                match deepest.iter_mut().find(|(e, _)| *e == epd) {
                    Some(slot) => slot.1 = slot.1.max(plies),
                    None => deepest.push((epd, plies)),
                }
            }
        }
    }
    for entry in &first.entries {
        let d = deepest.iter().find(|(e, _)| *e == entry.epd).expect("replayed").1;
        assert_eq!(entry.plies, d, "{} kept a line shorter than another row for the same position", entry.epd);
    }
}

/// A name from the table says a position has a name; it is never a verdict
/// on a move. Naming the positions of a tree leaves every analysis empty.
#[test]
fn the_eco_table_never_touches_classification() {
    let start = kibitz::position::parse_fen("rnbqkbnr/pppp1ppp/8/4p3/4P3/8/PPPP1PPP/RNBQKBNR w KQkq - 0 2").ok().unwrap();
    let tree: GameTree<u32> = new_tree(&start);
    assert!(tree.nodes[0].opening.is_some());
    assert!(tree.nodes.iter().all(|n| n.analysis.is_none()));
}

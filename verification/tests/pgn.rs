use kibitz::pgn::{escape_tag, export, wrap, GameBuilder, ImportedGame, PgnError, TagReader};
use kibitz::tree::GameTree;

/// One thing a PGN reader reports.
enum Ev<'a> {
    Tag(&'a str, &'a str),
    San(&'a str),
    Open,
    Close,
    Outcome(Option<&'a str>),
}

/// Feed the events of one game, as a PGN reader reports them.
fn build(events: &[Ev]) -> Result<ImportedGame<u32>, PgnError> {
    let mut tags = TagReader::new();
    let mut i = 0;
    while i < events.len() {
        match events[i] {
            Ev::Tag(n, v) => tags.tag(n.to_string(), v.to_string()),
            _ => break,
        }
        i += 1;
    }
    let mut game: GameBuilder<u32> = tags.begin_movetext()?;
    for ev in &events[i..] {
        match ev {
            Ev::San(s) => game.san(s)?,
            Ev::Open => game.begin_variation(),
            Ev::Close => game.end_variation(),
            Ev::Outcome(r) => game.outcome(r.map(|x| x.to_string())),
            Ev::Tag(..) => unreachable!(),
        }
    }
    Ok(game.end_game())
}

fn sans(tree: &GameTree<u32>) -> Vec<String> {
    tree.mainline().into_iter().filter_map(|id| tree.nodes[id].san.clone()).collect()
}

fn header<'a>(game: &'a ImportedGame<u32>, name: &str) -> Option<&'a str> {
    game.headers.iter().find(|(k, _)| k == name).map(|(_, v)| v.as_str())
}

fn mainline_game() -> Vec<Ev<'static>> {
    vec![Ev::San("e4"), Ev::San("e5"), Ev::San("Nf3"), Ev::San("Nc6"), Ev::San("Bb5"), Ev::San("a6"), Ev::Outcome(Some("1/2-1/2"))]
}

#[test]
fn imports_a_mainline() {
    let game = build(&mainline_game()).unwrap();
    assert_eq!(sans(&game.tree), ["e4", "e5", "Nf3", "Nc6", "Bb5", "a6"]);
    assert_eq!(header(&game, "Result"), Some("1/2-1/2"));
}

#[test]
fn imports_headers() {
    let game = build(&[
        Ev::Tag("Event", "Test"),
        Ev::Tag("White", "Morphy"),
        Ev::Tag("Black", "Duke"),
        Ev::Tag("Result", "1-0"),
        Ev::San("e4"),
        Ev::San("e5"),
        Ev::Outcome(Some("1-0")),
    ])
    .unwrap();
    assert_eq!(header(&game, "White"), Some("Morphy"));
    assert_eq!(header(&game, "Black"), Some("Duke"));
    assert_eq!(header(&game, "Event"), Some("Test"));
    assert_eq!(header(&game, "Result"), Some("1-0"));
}

#[test]
fn variations_branch_off_the_parent() {
    // 1. e4 e5 2. Nf3 (2. f4 exf4) (2. Bc4) 2... Nc6 *
    let game = build(&[
        Ev::San("e4"),
        Ev::San("e5"),
        Ev::San("Nf3"),
        Ev::Open,
        Ev::San("f4"),
        Ev::San("exf4"),
        Ev::Close,
        Ev::Open,
        Ev::San("Bc4"),
        Ev::Close,
        Ev::San("Nc6"),
        Ev::Outcome(None),
    ])
    .unwrap();
    let tree = &game.tree;
    let e5 = tree.mainline()[2];
    let children = &tree.nodes[e5].children;
    assert_eq!(children.len(), 3);
    assert_eq!(tree.nodes[children[0]].san.as_deref(), Some("Nf3"));
    assert_eq!(tree.nodes[children[1]].san.as_deref(), Some("f4"));
    assert_eq!(tree.nodes[children[2]].san.as_deref(), Some("Bc4"));
    let f4 = children[1];
    assert_eq!(tree.nodes[tree.nodes[f4].children[0]].san.as_deref(), Some("exf4"));
    assert_eq!(sans(tree), ["e4", "e5", "Nf3", "Nc6"]);
    assert_eq!(header(&game, "Result"), Some("*"));
}

#[test]
fn nested_variations() {
    // 1. e4 e5 2. Nf3 (2. f4 exf4 (2... d6) 3. Bc4) 2... Nc6 *
    let game = build(&[
        Ev::San("e4"),
        Ev::San("e5"),
        Ev::San("Nf3"),
        Ev::Open,
        Ev::San("f4"),
        Ev::San("exf4"),
        Ev::Open,
        Ev::San("d6"),
        Ev::Close,
        Ev::San("Bc4"),
        Ev::Close,
        Ev::San("Nc6"),
        Ev::Outcome(None),
    ])
    .unwrap();
    let tree = &game.tree;
    let e5 = tree.mainline()[2];
    let f4 = tree.nodes[e5].children[1];
    let exf4 = tree.nodes[f4].children[0];
    assert_eq!(tree.nodes[exf4].san.as_deref(), Some("exf4"));
    assert_eq!(tree.nodes[f4].children.len(), 2);
    assert_eq!(tree.nodes[tree.nodes[f4].children[1]].san.as_deref(), Some("d6"));
    assert_eq!(tree.nodes[tree.nodes[exf4].children[0]].san.as_deref(), Some("Bc4"));
}

#[test]
fn rejects_an_illegal_move() {
    let err = build(&[Ev::San("e4"), Ev::San("e5"), Ev::San("Qxd8"), Ev::Outcome(None)]).err().unwrap();
    assert!(matches!(err, PgnError::IllegalMove(2, _)), "{err:?}");
    assert_eq!(err.message(), "invalid move at ply 2: Qxd8");
}

#[test]
fn a_bad_fen_tag_is_refused() {
    let err = build(&[Ev::Tag("FEN", "not a fen"), Ev::San("e4")]).err().unwrap();
    assert_eq!(err, PgnError::Parse("invalid FEN tag: not a fen".to_string()));
    assert_eq!(PgnError::Empty.message(), "no game found in PGN");
}

#[test]
fn export_numbers_moves_and_variations() {
    let game = build(&[
        Ev::San("e4"),
        Ev::San("e5"),
        Ev::San("Nf3"),
        Ev::Open,
        Ev::San("f4"),
        Ev::San("exf4"),
        Ev::Close,
        Ev::San("Nc6"),
        Ev::Outcome(None),
    ])
    .unwrap();
    let pgn = export(&game.tree, &game.headers);
    let movetext = pgn.split("\n\n").nth(1).unwrap().trim().to_string();
    assert_eq!(movetext, "1. e4 e5 2. Nf3 (2. f4 exf4) 2... Nc6 *");
}

#[test]
fn export_writes_the_seven_tag_roster_first() {
    let game = build(&[Ev::Tag("Black", "B"), Ev::Tag("White", "W"), Ev::Tag("Annotator", "me"), Ev::San("e4"), Ev::Outcome(None)])
        .unwrap();
    let pgn = export(&game.tree, &game.headers);
    let tags: Vec<&str> = pgn.lines().take_while(|l| l.starts_with('[')).collect();
    assert_eq!(tags[0], "[Event \"?\"]");
    assert_eq!(tags[4], "[White \"W\"]");
    assert_eq!(tags[5], "[Black \"B\"]");
    assert_eq!(tags[6], "[Result \"*\"]");
    assert_eq!(tags[7], "[Annotator \"me\"]");
}

#[test]
fn round_trips_a_non_standard_start_position() {
    let fen = "4k3/8/8/8/8/8/4P3/4K3 w - - 0 1";
    let first = build(&[
        Ev::Tag("SetUp", "1"),
        Ev::Tag("FEN", fen),
        Ev::San("e4"),
        Ev::San("Kd7"),
        Ev::San("e5"),
        Ev::San("Ke6"),
        Ev::Outcome(None),
    ])
    .unwrap();
    let exported = export(&first.tree, &first.headers);
    assert!(exported.contains("[SetUp \"1\"]"), "{exported}");
    assert!(exported.contains(&format!("[FEN \"{}\"]", first.tree.nodes[0].fen)), "{exported}");
    assert_eq!(sans(&first.tree), ["e4", "Kd7", "e5", "Ke6"]);
    assert!(exported.ends_with("1. e4 Kd7 2. e5 Ke6 *\n"), "{exported}");
}

#[test]
fn export_of_a_full_game_is_exact() {
    let game = build(&[Ev::Tag("Event", "Casual \"game\""), Ev::San("e4"), Ev::San("e5"), Ev::Outcome(Some("1-0"))]).unwrap();
    assert_eq!(
        export(&game.tree, &game.headers),
        "[Event \"Casual \\\"game\\\"\"]\n[Site \"?\"]\n[Date \"????.??.??\"]\n[Round \"?\"]\n[White \"?\"]\n\
         [Black \"?\"]\n[Result \"1-0\"]\n\n1. e4 e5 1-0\n"
    );
}

#[test]
fn checks_and_mates_keep_their_marks() {
    let game = build(&[
        Ev::San("e4"),
        Ev::San("e5"),
        Ev::San("Bc4"),
        Ev::San("Nc6"),
        Ev::San("Qh5"),
        Ev::San("Nf6"),
        Ev::San("Qxf7#"),
        Ev::Outcome(Some("1-0")),
    ])
    .unwrap();
    let pgn = export(&game.tree, &game.headers);
    assert!(pgn.ends_with("1. e4 e5 2. Bc4 Nc6 3. Qh5 Nf6 4. Qxf7# 1-0\n"), "{pgn}");
}

#[test]
fn long_movetext_wraps_at_eighty_columns() {
    let toks: Vec<String> = (0..30).map(|i| format!("tok{i:02}")).collect();
    let text = wrap(&toks, 80);
    for line in text.lines() {
        assert!(line.len() <= 80, "{line}");
    }
    assert_eq!(text.replace('\n', " "), toks.join(" "));
    let glued = wrap(&vec!["1.".into(), "(".into(), "e4".into(), ")".into()], 80);
    assert_eq!(glued, "1. (e4)");
    assert_eq!(escape_tag("a\\b\"c"), "a\\\\b\\\"c");
}

#[test]
fn imported_positions_are_named() {
    let game = build(&mainline_game()).unwrap();
    assert_eq!(game.tree.nodes[0].opening, None);
}

use kibitz::classify::Classification;
use kibitz::motif::Motif;
use kibitz::report::{counterfactual_text, move_number, render, score_text, MoveContext, MoveEntry};
use kibitz::score::Score;
use kibitz::types::{Counterfactual, CounterfactualKind, OpeningInfo};

fn context(san: &str, classification: Classification, fullmove: u32, side_to_move: &str) -> MoveContext {
    MoveContext {
        san: san.into(),
        classification,
        fullmove_number: fullmove,
        side_to_move: side_to_move.into(),
        win_line: "Win probability 62.0% -> 21.0% (delta -0.410), accuracy 34.2".into(),
        played_rank: Some(2),
        best: Some(("Bb5".into(), Score::Cp(35))),
        opening: None,
        counterfactual: Some(Counterfactual {
            kind: CounterfactualKind::Refutation,
            start_fen: "fen".into(),
            pv: vec!["Qa4+".into(), "Nc6".into()],
            motifs: Vec::new(),
        }),
    }
}

#[test]
fn renders_headers_summary_and_moves() {
    let headers = vec![
        ("White".to_string(), "Morphy".to_string()),
        ("Black".to_string(), "Duke".to_string()),
        ("Result".to_string(), "1-0".to_string()),
    ];
    let entries = vec![
        MoveEntry {
            context: Some(context("Nf3", Classification::Blunder, 12, "white")),
            explanation: Some("This drops a piece.\nThe knight is trapped.".into()),
        },
        MoveEntry { context: Some(context("Nc6", Classification::Good, 12, "black")), explanation: None },
    ];

    let markdown = render(&headers, &entries);
    assert!(markdown.starts_with("# Morphy vs Duke\n"), "{markdown}");
    assert!(markdown.contains("*?, ? — 1-0*"), "{markdown}");
    assert!(markdown.contains("| blunder | 1 |"), "{markdown}");
    assert!(markdown.contains("| good | 1 |"), "{markdown}");
    assert!(!markdown.contains("| great |"), "{markdown}");
    assert!(markdown.contains("### 12. Nf3?? — blunder"), "{markdown}");
    assert!(markdown.contains("### 12... Nc6 — good"), "{markdown}");
    assert!(markdown.contains("62.0% -> 21.0% (delta -0.410)"), "{markdown}");
    assert!(markdown.contains("#3"), "{markdown}");
    assert!(markdown.contains("Best: **Bb5** (+0.35)"), "{markdown}");
    assert!(markdown.contains("How it is punished: Qa4+ Nc6"), "{markdown}");
    assert!(markdown.contains("> This drops a piece.\n> The knight is trapped."), "{markdown}");
}

#[test]
fn book_moves_are_reported_as_theory_without_numbers() {
    let mut c = context("e4", Classification::Book, 1, "white");
    c.opening = Some(OpeningInfo { eco: "C97".into(), name: "Ruy Lopez".into(), matched_plies: 24 });
    let entries = vec![MoveEntry { context: Some(c), explanation: None }];
    let markdown = render(&Vec::new(), &entries);
    assert!(markdown.contains("### 1. e4 — book"), "{markdown}");
    assert!(markdown.contains("Theory: C97 Ruy Lopez (matched 24 plies)."), "{markdown}");
    assert!(!markdown.contains("Win probability"), "{markdown}");
}

#[test]
fn a_book_move_whose_position_has_no_name_does_not_print_an_empty_one() {
    let mut c = context("e4", Classification::Book, 1, "white");
    c.opening = Some(OpeningInfo { eco: String::new(), name: String::new(), matched_plies: 3 });
    let entries = vec![MoveEntry { context: Some(c), explanation: None }];
    let markdown = render(&Vec::new(), &entries);
    assert!(markdown.contains("Opening theory (matched 3 plies)."), "{markdown}");
    assert!(!markdown.contains("Theory:  "), "{markdown}");
}

#[test]
fn the_whole_report_reads_in_order() {
    let entries = vec![
        MoveEntry { context: None, explanation: Some("ignored".into()) },
        MoveEntry {
            context: Some(MoveContext {
                san: "Qh5".into(),
                classification: Classification::Mistake,
                fullmove_number: 3,
                side_to_move: "white".into(),
                win_line: "W".into(),
                played_rank: None,
                best: None,
                opening: Some(OpeningInfo { eco: "C20".into(), name: "King's Pawn".into(), matched_plies: 4 }),
                counterfactual: None,
            }),
            explanation: Some("  Line one.\r\nLine two.  \n".into()),
        },
    ];
    let markdown = render(&vec![("Event".to_string(), "Casual".to_string())], &entries);
    assert_eq!(
        markdown,
        "# ? vs ?\n\n*Casual, ? — **\n\n## Summary\n\n| Classification | Count |\n| --- | ---: |\n| mistake | 1 |\n\n\
         ## Moves\n\n### 3. Qh5? — mistake\n\n- W\n- The move played was outside the engine's top candidates\n\
         - Left the book here: C20 King's Pawn (matched 4 plies)\n\n> Line one.\n> Line two.\n\n"
    );
}

#[test]
fn scores_and_move_numbers_print_as_in_the_report() {
    assert_eq!(score_text(&Score::Cp(35)), "+0.35");
    assert_eq!(score_text(&Score::Cp(-5)), "-0.05");
    assert_eq!(score_text(&Score::Cp(0)), "+0.00");
    assert_eq!(score_text(&Score::Cp(1234)), "+12.34");
    assert_eq!(score_text(&Score::Mate(3)), "#3");
    assert_eq!(score_text(&Score::Mate(-2)), "#-2");
    assert_eq!(move_number(12, "black"), "12...");
    assert_eq!(move_number(12, "white"), "12.");
}

#[test]
fn counterfactuals_name_their_motifs() {
    let c = Counterfactual {
        kind: CounterfactualKind::AlternativeCollapse,
        start_fen: "fen".into(),
        pv: vec!["d4".into(), "exd4".into()],
        motifs: vec![
            Motif::Hanging { square: "d4".into(), role: "pawn".into(), see: -100 },
            Motif::BackRank { attacker: "e1".into(), king: "g8".into() },
        ],
    };
    assert_eq!(counterfactual_text(&c), "If the alternative is played instead: d4 exd4 (hanging, back_rank)");
}

#[test]
fn a_missing_header_reads_as_its_default() {
    let headers = vec![("White".to_string(), "Morphy".to_string()), ("White".to_string(), "Later".to_string())];
    assert_eq!(kibitz::report::header(&headers, "White", "?"), "Morphy");
    assert_eq!(kibitz::report::header(&headers, "Black", "?"), "?");
    assert_eq!(kibitz::report::header(&headers, "Result", "*"), "*");
}

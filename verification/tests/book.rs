use kibitz::book::{
    base_url_from, cooldown_remaining, extend_cooldown, percent_encode, play_uci, ply_of, reply_outcome,
    request_url, trim_base_url, verdict, BookConfig, LineJudge, BookError, BookVerdict, Database, ExplorerMove,
    ExplorerOpening, ExplorerResponse, HttpReply, ReplyOutcome, DEFAULT_BASE_URL,
};
use kibitz::position::parse_fen;

const START: &str = "rnbqkbnr/pppppppp/8/8/8/8/PPPPPPPP/RNBQKBNR w KQkq - 0 1";

fn mv(uci: &str, white: u64) -> ExplorerMove {
    ExplorerMove { uci: uci.into(), san: "?".into(), white, draws: 0, black: 0, average_rating: None }
}

fn response(moves: Vec<ExplorerMove>, named: bool) -> ExplorerResponse {
    let white = moves.iter().map(|m| m.white).sum();
    ExplorerResponse {
        opening: if named {
            Some(ExplorerOpening { eco: "C20".into(), name: "King's Pawn Game".into() })
        } else {
            None
        },
        moves,
        white,
        draws: 0,
        black: 0,
    }
}

#[test]
fn fen_is_percent_encoded() {
    let encoded = percent_encode("rnbqkbnr/pppppppp/8/8/8/8/PPPPPPPP/RNBQKBNR w KQkq - 0 1");
    assert!(!encoded.contains(' '));
    assert!(!encoded.contains('/'));
    assert!(encoded.contains("%20"));
    assert!(encoded.contains("%2F"));
}

#[test]
fn ply_counts_from_the_move_counters() {
    let pos = parse_fen(START).unwrap();
    assert_eq!(ply_of(&pos), 0);
    let pos = play_uci(&pos, "e2e4").unwrap();
    assert_eq!(ply_of(&pos), 1);
    let pos = play_uci(&pos, "e7e5").unwrap();
    assert_eq!(ply_of(&pos), 2);
}

#[test]
fn default_host_is_the_upstream_one() {
    assert_eq!(DEFAULT_BASE_URL, "https://explorer.lichess.ovh");
    assert_eq!(base_url_from(None), DEFAULT_BASE_URL);
    assert_eq!(base_url_from(Some("  ")), DEFAULT_BASE_URL);
    assert_eq!(base_url_from(Some(" https://explorer.lichess.org \n")), "https://explorer.lichess.org");
}

#[test]
fn in_book_move_is_recognized() {
    let resp = response(vec![mv("e2e4", 5000), mv("d2d4", 4000)], true);
    match verdict(&resp, "e2e4", 0, 10) {
        BookVerdict::InBook(info) => {
            assert_eq!(info.matched_plies, 1);
            assert_eq!(info.eco, "C20");
        }
        other => panic!("expected InBook, got {other:?}"),
    }
}

#[test]
fn unknown_position_is_out_of_book() {
    let resp = response(vec![], false);
    assert_eq!(verdict(&resp, "e2e4", 3, 10), BookVerdict::OutOfBook);
}

#[test]
fn move_not_in_the_list_leaves_book() {
    let resp = response(vec![mv("e2e4", 5000)], true);
    match verdict(&resp, "a2a3", 4, 10) {
        BookVerdict::LeftBook(Some(info)) => assert_eq!(info.matched_plies, 4),
        other => panic!("expected LeftBook, got {other:?}"),
    }
    let unnamed = response(vec![mv("e2e4", 5000)], false);
    assert_eq!(verdict(&unnamed, "a2a3", 4, 10), BookVerdict::LeftBook(None));
}

#[test]
fn min_games_filters_rare_moves() {
    let resp = response(vec![mv("e2e4", 5000), mv("h2h4", 3)], true);
    assert!(matches!(verdict(&resp, "h2h4", 0, 10), BookVerdict::LeftBook(_)));
    assert!(matches!(verdict(&resp, "H2H4", 0, 3), BookVerdict::InBook(_)));
}

#[test]
fn request_carries_the_documented_parameters() {
    let config = BookConfig::for_database(Database::Lichess);
    let url = request_url("http://test.invalid", &config, START);
    assert!(url.starts_with("http://test.invalid/lichess?fen="), "{url}");
    assert!(url.contains("&moves=30"), "{url}");
    assert!(url.contains("&topGames=0"), "{url}");
    assert!(url.ends_with("&recentGames=0"), "{url}");
    let masters = request_url("http://test.invalid", &BookConfig::for_database(Database::Masters), START);
    assert!(!masters.contains("recentGames"), "{masters}");
}

#[test]
fn trailing_slash_in_the_base_url_is_trimmed() {
    assert_eq!(trim_base_url("http://test.invalid/"), "http://test.invalid");
    assert_eq!(trim_base_url("http://test.invalid//"), "http://test.invalid");
}

#[test]
fn replies_are_read_by_status() {
    let config = BookConfig::for_database(Database::Masters);
    let ok = HttpReply { status: 200, retry_after_secs: None, body: "{}".into() };
    assert_eq!(reply_outcome(ok, &config), ReplyOutcome::Body("{}".into()));

    let limited = HttpReply { status: 429, retry_after_secs: Some(300), body: String::new() };
    assert_eq!(
        reply_outcome(limited, &config),
        ReplyOutcome::Cooldown { wait_secs: 300, status: 429, reason: "rate limited" }
    );
    let short = HttpReply { status: 429, retry_after_secs: Some(5), body: String::new() };
    assert_eq!(
        reply_outcome(short, &config),
        ReplyOutcome::Cooldown { wait_secs: 60, status: 429, reason: "rate limited" }
    );
    let denied = HttpReply { status: 401, retry_after_secs: None, body: String::new() };
    assert_eq!(
        reply_outcome(denied, &config),
        ReplyOutcome::Cooldown { wait_secs: 3600, status: 401, reason: "unavailable" }
    );
    let boom = HttpReply { status: 500, retry_after_secs: None, body: "boom".into() };
    assert_eq!(reply_outcome(boom, &config), ReplyOutcome::Failed(BookError::Http("status 500: boom".into())));
}

#[test]
fn a_cooldown_is_never_shortened() {
    assert_eq!(extend_cooldown(None, 100, 60), Some(160));
    assert_eq!(extend_cooldown(Some(1000), 100, 60), Some(1000));
    assert_eq!(extend_cooldown(Some(120), 100, 60), Some(160));
    assert_eq!(cooldown_remaining(Some(160), 100), Some(60));
    assert_eq!(cooldown_remaining(Some(160), 160), None);
    assert_eq!(cooldown_remaining(None, 0), None);
}

#[test]
fn an_illegal_or_unreadable_move_is_an_error() {
    let pos = parse_fen(START).unwrap();
    assert_eq!(play_uci(&pos, "e2e5").err(), Some(BookError::Http("illegal move: e2e5".into())));
    assert_eq!(play_uci(&pos, "zz").err(), Some(BookError::Http("invalid uci move: zz".into())));
}

#[test]
fn judge_line_stops_querying_after_left_book() {
    let start = parse_fen(START).ok().unwrap();
    let mut line = LineJudge::new(&start);
    assert!(line.needs_lookup());
    let r1 = response(vec![mv("e2e4", 1000)], true);
    line.record(Some(&r1), "e2e4", 10).unwrap();
    assert!(line.needs_lookup());
    assert_eq!(line.current().fen, "rnbqkbnr/pppppppp/8/8/4P3/8/PPPP1PPP/RNBQKBNR b KQkq - 0 1");
    let r2 = response(vec![mv("e7e5", 1000)], true);
    line.record(Some(&r2), "c7c5", 10).unwrap();
    assert!(!line.needs_lookup(), "a game never re-enters the book");
    line.record(None, "g1f3", 10).unwrap();
    let verdicts = line.finish();
    assert_eq!(verdicts.len(), 3);
    assert!(matches!(verdicts[0], BookVerdict::InBook(ref o) if o.matched_plies == 1));
    assert!(matches!(verdicts[1], BookVerdict::LeftBook(Some(ref o)) if o.matched_plies == 1));
    assert_eq!(verdicts[2], BookVerdict::OutOfBook);
}

#[test]
fn judge_line_during_a_cooldown_is_out_of_book() {
    let start = parse_fen(START).ok().unwrap();
    let mut line = LineJudge::new(&start);
    line.record(None, "e2e4", 10).unwrap();
    line.record(None, "e7e5", 10).unwrap();
    assert_eq!(line.finish(), vec![BookVerdict::OutOfBook, BookVerdict::OutOfBook]);
}

#[test]
fn a_theory_move_that_cannot_be_played_is_an_error_and_records_nothing() {
    let start = parse_fen(START).ok().unwrap();
    let mut line = LineJudge::new(&start);
    let r = response(vec![mv("e2e5", 1000)], true);
    let err = line.record(Some(&r), "e2e5", 10).unwrap_err();
    assert_eq!(err, BookError::Http("illegal move: e2e5".to_string()));
    assert!(line.needs_lookup());
    assert_eq!(line.current().fen, START);
    assert!(line.finish().is_empty());
}

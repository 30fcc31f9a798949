use kibitz::score::Score;
use kibitz::uci::{is_bestmove, parse_bestmove, parse_info, split_whitespace};

#[test]
fn parses_a_plain_cp_line() {
    let line = "info depth 12 seldepth 16 multipv 1 score cp 46 nodes 98598 nps 912944 \
                hashfull 29 tbhits 0 time 108 pv e2e4 c7c5 g1f3 e7e6";
    let info = parse_info(line).expect("should parse");
    assert_eq!(info.depth, 12);
    assert_eq!(info.multipv, 1);
    assert_eq!(info.score, Score::Cp(46));
    assert_eq!(info.pv, vec!["e2e4", "c7c5", "g1f3", "e7e6"]);
    assert_eq!(info.nodes, Some(98598));
    assert_eq!(info.nps, Some(912944));
}

#[test]
fn parses_negative_cp() {
    let line = "info depth 1 seldepth 2 multipv 1 score cp -1 nodes 71 nps 71000 \
                hashfull 0 tbhits 0 time 1 pv e2e4";
    let info = parse_info(line).expect("should parse");
    assert_eq!(info.score, Score::Cp(-1));
    assert_eq!(info.pv, vec!["e2e4"]);
}

#[test]
fn parses_multipv_rank() {
    let line = "info depth 12 seldepth 15 multipv 3 score cp 30 nodes 98598 nps 912944 \
                hashfull 29 tbhits 0 time 108 pv g1f3 d7d5 d2d4";
    let info = parse_info(line).expect("should parse");
    assert_eq!(info.multipv, 3);
    assert_eq!(info.score, Score::Cp(30));
}

#[test]
fn parses_mate_score() {
    let line = "info depth 14 seldepth 2 multipv 1 score mate 1 nodes 101394 nps 4055760 \
                hashfull 34 tbhits 0 time 25 pv a1a8";
    let info = parse_info(line).expect("should parse");
    assert_eq!(info.score, Score::Mate(1));
    assert_eq!(info.pv, vec!["a1a8"]);
}

#[test]
fn parses_getting_mated() {
    let line = "info depth 20 seldepth 4 multipv 1 score mate -2 nodes 4321 nps 100000 \
                hashfull 0 tbhits 0 time 43 pv h7h8 g1g2 d8d2";
    let info = parse_info(line).expect("should parse");
    assert_eq!(info.score, Score::Mate(-2));
}

#[test]
fn rejects_lowerbound() {
    let line = "info depth 21 seldepth 30 multipv 1 score cp 128 lowerbound nodes 12345678 \
                nps 1000000 hashfull 400 tbhits 0 time 12 pv d2d4";
    assert_eq!(parse_info(line), None);
}

#[test]
fn rejects_upperbound() {
    let line = "info depth 21 seldepth 30 multipv 1 score cp -64 upperbound nodes 12345678 \
                nps 1000000 hashfull 400 tbhits 0 time 12 pv d2d4";
    assert_eq!(parse_info(line), None);
}

#[test]
fn rejects_currmove_lines() {
    let line = "info depth 24 currmove b1c3 currmovenumber 3";
    assert_eq!(parse_info(line), None);
}

#[test]
fn rejects_lines_without_a_pv() {
    let line = "info depth 12 seldepth 16 multipv 1 score cp 46 nodes 98598 nps 912944 \
                hashfull 29 tbhits 0 time 108";
    assert_eq!(parse_info(line), None);
}

#[test]
fn rejects_lines_without_a_score() {
    let line = "info depth 12 seldepth 16 multipv 1 nodes 98598 nps 912944 time 108 pv e2e4";
    assert_eq!(parse_info(line), None);
}

#[test]
fn rejects_empty_pv() {
    let line = "info depth 12 multipv 1 score cp 46 pv";
    assert_eq!(parse_info(line), None);
}

#[test]
fn rejects_info_string_lines() {
    assert_eq!(parse_info("info string NNUE evaluation using nn-c288c895ea92.nnue"), None);
    assert_eq!(parse_info("info string Using 2 threads"), None);
}

#[test]
fn rejects_non_info_lines() {
    assert_eq!(parse_info("bestmove e2e4 ponder c7c5"), None);
    assert_eq!(parse_info("readyok"), None);
    assert_eq!(parse_info("uciok"), None);
    assert_eq!(parse_info(""), None);
    assert_eq!(parse_info("   "), None);
}

#[test]
fn tolerates_a_missing_multipv_field() {
    let line = "info depth 8 score cp 22 pv d2d4 d7d5";
    let info = parse_info(line).expect("should parse");
    assert_eq!(info.multipv, 1);
}

#[test]
fn parses_bestmove_with_ponder() {
    assert_eq!(parse_bestmove("bestmove e2e4 ponder c7c5"), Some("e2e4".to_owned()));
}

#[test]
fn parses_bestmove_without_ponder() {
    assert_eq!(parse_bestmove("bestmove a1a8"), Some("a1a8".to_owned()));
}

#[test]
fn parses_bestmove_none() {
    assert_eq!(parse_bestmove("bestmove (none)"), None);
    assert_eq!(parse_bestmove("bestmove 0000"), None);
}

#[test]
fn rejects_non_bestmove_lines() {
    assert_eq!(parse_bestmove("info depth 1 score cp 0 pv e2e4"), None);
    assert_eq!(parse_bestmove(""), None);
}

#[test]
fn recognises_bestmove_lines() {
    assert!(is_bestmove("bestmove (none)"));
    assert!(is_bestmove("bestmove e2e4 ponder c7c5"));
    assert!(!is_bestmove("info depth 1 score cp 0 pv e2e4"));
}

#[test]
fn split_whitespace_drops_runs_of_blanks() {
    assert_eq!(split_whitespace("  a \t bc\n d  "), vec!["a", "bc", "d"]);
    assert!(split_whitespace(" \u{3000} ").is_empty());
}

#[test]
fn depth_saturates_and_bad_numbers_leave_fields_unset() {
    let info = parse_info("info depth 300 nodes x nps 12 score cp +5 pv e2e4").expect("should parse");
    assert_eq!(info.depth, 255);
    assert_eq!(info.nodes, None);
    assert_eq!(info.nps, Some(12));
    assert_eq!(info.score, Score::Cp(5));
}

#[test]
fn an_out_of_range_score_rejects_the_line() {
    assert_eq!(parse_info("info depth 3 score cp 2147483648 pv e2e4"), None);
    let info = parse_info("info depth 3 score cp -2147483648 pv e2e4").expect("i32::MIN fits");
    assert_eq!(info.score, Score::Cp(i32::MIN));
    assert_eq!(parse_info("info depth 3 multipv -1 score cp 1 pv e2e4"), None);
}

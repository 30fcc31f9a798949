use kibitz::engine::{normalize_uci, EngineError};
use kibitz::position::parse_fen;

const START: &str = "rnbqkbnr/pppppppp/8/8/8/8/PPPPPPPP/RNBQKBNR w KQkq - 0 1";

fn check(uci: &str) -> Result<String, EngineError> {
    normalize_uci(&parse_fen(START).ok().unwrap(), uci)
}

#[test]
fn the_syntax_check_comes_before_the_position() {
    assert_eq!(check("e2e4"), Ok("e2e4".to_string()));
    for bad in ["e2e4x", "e2e", "e2e4qq", "i2e4", "e2é4", "e9e4", "e2-e4"] {
        assert_eq!(check(bad), Err(EngineError::Protocol(format!("not a UCI move: {bad}"))), "{bad}");
    }
    // Readable, but not a move in this position.
    for readable in ["0000", "Q@e4", "e7e8q", "a1a1"] {
        assert_eq!(
            check(readable),
            Err(EngineError::Protocol(format!("illegal move {readable} in this position"))),
            "{readable}"
        );
    }
}

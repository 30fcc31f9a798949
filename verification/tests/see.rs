use kibitz::board::{ChessMove, MoveKind, Role};
use kibitz::position::{legal_moves, parse_fen, parse_move, Position};
use kibitz::see::{piece_value_of, see, see_square};

/// Build the move from a UCI string in the given position.
fn mv(pos: &Position, uci: &str) -> ChessMove {
    parse_move(pos, uci, false).expect("legal move")
}

fn sq(name: &str) -> usize {
    let b = name.as_bytes();
    ((b[1] - b'1') as usize) * 8 + (b[0] - b'a') as usize
}

fn piece_value(role: Role) -> i32 {
    piece_value_of(role)
}

fn occupied(pos: &Position) -> Vec<usize> {
    (0..64).filter(|&s| pos.board.cells[s].is_some()).collect()
}

#[test]
fn piece_values_are_ordered() {
    assert!(piece_value(Role::Pawn) < piece_value(Role::Knight));
    assert!(piece_value(Role::Knight) < piece_value(Role::Bishop));
    assert!(piece_value(Role::Bishop) < piece_value(Role::Rook));
    assert!(piece_value(Role::Rook) < piece_value(Role::Queen));
    assert!(piece_value(Role::Queen) < piece_value(Role::King));
}

#[test]
fn quiet_move_to_a_safe_square_is_zero() {
    let pos = parse_fen("4k3/8/8/8/8/8/4P3/4K3 w - - 0 1").unwrap();
    assert_eq!(see(&pos.board, pos.turn, mv(&pos, "e2e4")), 0);
}

/// (a) An undefended piece is taken for free.
#[test]
fn free_capture_of_an_undefended_rook() {
    // Black rook on d5 with nothing defending it; white bishop on g2 takes.
    let pos = parse_fen("4k3/8/8/3r4/8/8/6B1/4K3 w - - 0 1").unwrap();
    assert_eq!(see(&pos.board, pos.turn, mv(&pos, "g2d5")), piece_value(Role::Rook));
    // From black's point of view the rook is simply hanging.
    assert_eq!(see_square(&pos.board, sq("d5")), -piece_value(Role::Rook));
}

/// (b) A defended piece: the capture loses material.
#[test]
fn capturing_a_defended_pawn_loses_material() {
    // White knight on f3 takes the e5 pawn, which the d6 pawn defends.
    let pos = parse_fen("4k3/8/3p4/4p3/8/5N2/8/4K3 w - - 0 1").unwrap();
    // +100 for the pawn, -320 for the knight.
    assert_eq!(
        see(&pos.board, pos.turn, mv(&pos, "f3e5")),
        piece_value(Role::Pawn) - piece_value(Role::Knight)
    );
    // The pawn itself is not hanging: taking it costs the knight, so the
    // exchange settles at zero for its owner.
    assert_eq!(see_square(&pos.board, sq("e5")), 0);
}

/// (c) An X-ray: a slider behind the first attacker joins the exchange.
#[test]
fn xray_changes_the_outcome() {
    // Black queen d8 stands behind the black rook d6; both bear on d4.
    // The white pawn on d4 is defended by the c3 pawn only.
    let pos = parse_fen("3qk3/8/3r4/8/3P4/2P5/8/4K3 b - - 0 1").unwrap();
    // Rxd4 cxd4 Qxd4: black wins a pawn and a pawn, loses a rook = 100 - 500 + 100.
    assert_eq!(see(&pos.board, pos.turn, mv(&pos, "d6d4")), -300);

    // Same position without the queen behind: the exchange stops after cxd4.
    let no_xray = parse_fen("4k3/8/3r4/8/3P4/2P5/8/4K3 b - - 0 1").unwrap();
    assert_eq!(see(&no_xray.board, no_xray.turn, mv(&no_xray, "d6d4")), -400);
}

/// (c') An X-ray that opens because the *first* attacker vacated its square.
#[test]
fn xray_through_a_departed_attacker() {
    // White rooks doubled on e1/e2 aiming at the black pawn on e5, which is
    // defended by the f6 pawn. Re2xe5 fxe5 Rxe5 — the second rook only ever
    // reaches e5 because the first one left e2.
    let pos = parse_fen("4k3/8/5p2/4p3/8/8/4R3/4R1K1 w - - 0 1").unwrap();
    // +100 (pawn) -500 (rook) +100 (pawn back) = -300.
    assert_eq!(see(&pos.board, pos.turn, mv(&pos, "e2e5")), -300);
}

/// (d) A longer sequence that has to be settled rather than played out.
#[test]
fn long_exchange_is_settled_not_played_out() {
    // The classic SEE test positions (chessprogramming.org).
    //
    // 1. Rxe5 wins a pawn outright: nothing recaptures.
    let pos = parse_fen("1k1r4/1pp4p/p7/4p3/8/P5P1/1PP4P/2K1R3 w - - 0 1").unwrap();
    assert_eq!(see(&pos.board, pos.turn, mv(&pos, "e1e5")), piece_value(Role::Pawn));

    // 2. Nxe5 on a square defended four deep. Played out to the end it would
    //    be Nxe5 Nxe5 Rxe5 Bxe5 Qxe5 Qxe5, but the settlement stops after
    //    Nxe5 Nxe5: white does not want to continue, so the swing is
    //    +100 (pawn) - 320 (knight).
    let pos = parse_fen("1k1r3q/1ppn3p/p4b2/4p3/8/P2N2P1/1PP1R1BP/2K1Q3 w - - 0 1").unwrap();
    assert_eq!(
        see(&pos.board, pos.turn, mv(&pos, "d3e5")),
        piece_value(Role::Pawn) - piece_value(Role::Knight)
    );
}

#[test]
fn recapture_is_declined_when_it_loses_material() {
    // White: pawn c4, knight c3. Black: pawns d5/e6.
    // cxd5 exd5 and white stops — Nxd5 would just drop the knight later.
    let pos = parse_fen("4k3/8/4p3/3p4/2P5/2N5/8/4K3 w - - 0 1").unwrap();
    assert_eq!(see(&pos.board, pos.turn, mv(&pos, "c4d5")), piece_value(Role::Pawn));

    // With a black knight on f6 guarding d5 a second time, even the first
    // recapture is refused and the exchange settles at zero.
    let pos = parse_fen("4k3/8/4pn2/3p4/2P5/2N5/8/4K3 w - - 0 1").unwrap();
    assert_eq!(see(&pos.board, pos.turn, mv(&pos, "c4d5")), 0);
}

#[test]
fn king_may_not_capture_a_defended_piece() {
    // Black pawn d5 defended by the e6 pawn; only the white king attacks it.
    let pos = parse_fen("4k3/8/4p3/3p4/3K4/8/8/8 w - - 0 1").unwrap();
    // The white king cannot take, so d5 is not hanging.
    assert_eq!(see_square(&pos.board, sq("d5")), 0);

    // Undefended, the king takes it for free.
    let pos = parse_fen("4k3/8/8/3p4/3K4/8/8/8 w - - 0 1").unwrap();
    assert_eq!(see_square(&pos.board, sq("d5")), -piece_value(Role::Pawn));
}

#[test]
fn king_recapture_ends_the_sequence() {
    // White queen takes a defended pawn next to the black king; the king
    // recaptures because nothing else defends the square.
    let pos = parse_fen("4k3/3p4/8/8/8/8/8/3QK3 w - - 0 1").unwrap();
    assert_eq!(
        see(&pos.board, pos.turn, mv(&pos, "d1d7")),
        piece_value(Role::Pawn) - piece_value(Role::Queen)
    );
}

#[test]
fn en_passant_is_handled() {
    let pos = parse_fen("4k3/8/8/3pP3/8/8/8/4K3 w - d6 0 2").unwrap();
    assert_eq!(see(&pos.board, pos.turn, mv(&pos, "e5d6")), piece_value(Role::Pawn));
}

#[test]
fn promotion_counts_the_extra_material() {
    // Pawn promotes on an empty, unattacked square.
    let pos = parse_fen("7k/3P4/8/8/8/8/8/4K3 w - - 0 1").unwrap();
    assert_eq!(
        see(&pos.board, pos.turn, mv(&pos, "d7d8q")),
        piece_value(Role::Queen) - piece_value(Role::Pawn)
    );
}

#[test]
fn sacrifice_onto_an_attacked_square_is_negative() {
    // Bxh7+ — the black king simply takes the bishop back.
    let pos = parse_fen("6k1/7p/8/8/8/3B4/8/6K1 w - - 0 1").unwrap();
    assert_eq!(
        see(&pos.board, pos.turn, mv(&pos, "d3h7")),
        piece_value(Role::Pawn) - piece_value(Role::Bishop)
    );
}

#[test]
fn see_square_of_an_empty_square_is_zero() {
    let pos = parse_fen("4k3/8/8/8/8/8/8/4K3 w - - 0 1").unwrap();
    assert_eq!(see_square(&pos.board, sq("d4")), 0);
}

#[test]
fn see_square_never_reports_a_gain() {
    // Whatever the position, being attacked cannot make a piece gain material.
    let pos =
        parse_fen("r1bqkbnr/pppp1ppp/2n5/4p3/2B1P3/5N2/PPPP1PPP/RNBQK2R b KQkq - 0 1").unwrap();
    for square in occupied(&pos) {
        assert!(see_square(&pos.board, square) <= 0, "{square} gained material");
    }
}

#[test]
fn starting_position_has_no_hanging_pieces() {
    let pos = parse_fen("rnbqkbnr/pppppppp/8/8/8/8/PPPPPPPP/RNBQKBNR w KQkq - 0 1").unwrap();
    for square in occupied(&pos) {
        assert_eq!(see_square(&pos.board, square), 0, "{square} looks hanging");
    }
    // ... and no capture is available at all.
    for m in legal_moves(&pos) {
        assert_eq!(see(&pos.board, pos.turn, m), 0);
    }
}

#[test]
fn castling_is_neutral() {
    let pos = parse_fen("4k3/8/8/8/8/8/8/4K2R w K - 0 1").unwrap();
    let castle = legal_moves(&pos)
        .into_iter()
        .find(|m| m.kind == MoveKind::Castle)
        .expect("castling available");
    assert_eq!(see(&pos.board, pos.turn, castle), 0);
}


/// Hanging-piece detection on a real position, which is what `see_square`
/// exists for.
#[test]
fn hanging_pieces_of_a_real_position() {
    // A white knight on d4, attacked by the e5 pawn and defended by nothing.
    let pos = parse_fen("rnbqkbnr/pppp1ppp/8/4p3/3N4/8/PPPPPPPP/RNBQKB1R b KQkq - 0 1").ok().unwrap();
    let hanging: Vec<usize> = (0..64usize).filter(|&s| pos.board.cells[s].is_some() && see_square(&pos.board, s) < 0).collect();
    assert_eq!(hanging, vec![27]); // d4
}

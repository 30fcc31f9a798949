//! Positions as plain values, and the calls into `shakmaty` for everything
//! that needs the rules of chess: reading a FEN, legal moves, playing a move,
//! and move notation.
//!
//! Everything crosses the boundary as text (FEN, UCI, SAN) or integers, and
//! the result of each call is named by a spec function of its arguments.

use vstd::prelude::*;
use shakmaty::{CastlingMode, Chess, EnPassantMode, Move, Position as _, fen::Fen, san::San, san::SanPlus, uci::UciMove};
use crate::board::{Board, ChessMove, Color, MoveKind, Piece, Role, attacker_at, attackers, attacks_to, occupancy, occupied, other};
use crate::text::{chars_eq, push_all, push_str, string_from_chars};

verus! {

/// What `shakmaty` reports about a position: one bitboard per role and per
/// colour (bit `i` is square `i`), the side to move, the canonical FEN
/// (en passant square only when a capture is legal) and the move counters.
pub struct RawPosition {
    pub roles: [u64; 6],
    pub white: u64,
    pub black: u64,
    pub white_to_move: bool,
    pub fen: String,
    pub halfmoves: u32,
    pub fullmoves: u32,
}

pub struct RawPositionView {
    pub roles: Seq<u64>,
    pub white: u64,
    pub black: u64,
    pub white_to_move: bool,
    pub fen: Seq<char>,
    pub halfmoves: u32,
    pub fullmoves: u32,
}

impl View for RawPosition {
    type V = RawPositionView;

    open spec fn view(&self) -> RawPositionView {
        RawPositionView {
            roles: self.roles@,
            white: self.white,
            black: self.black,
            white_to_move: self.white_to_move,
            fen: self.fen@,
            halfmoves: self.halfmoves,
            fullmoves: self.fullmoves,
        }
    }
}

/// What `shakmaty` reads out of a FEN (standard castling), `None` when the
/// text is not a FEN of a legal chess position.
pub uninterp spec fn fen_reading(fen: Seq<char>) -> Option<RawPositionView>;

/// `Fen::from_str` followed by `Fen::into_position::<Chess>` in standard
/// castling mode, reported as bitboards, side to move, the canonical FEN
/// (`Fen::from_position` with legal en passant) and the move counters. The
/// contract only names the result.
#[verifier::external_body]
fn read_fen(fen: &str) -> (r: Option<RawPosition>)
    ensures
        (match r {
            Some(p) => Some(p@),
            None => None::<RawPositionView>,
        }) == fen_reading(fen@),
{
    let pos: Chess = fen.parse::<Fen>().ok()?.into_position(CastlingMode::Standard).ok()?;
    let b = pos.board();
    let roles = [b.pawns().0, b.knights().0, b.bishops().0, b.rooks().0, b.queens().0, b.kings().0];
    Some(RawPosition {
        roles,
        white: b.white().0,
        black: b.black().0,
        white_to_move: pos.turn().is_white(),
        fen: Fen::from_position(pos.clone(), EnPassantMode::Legal).to_string(),
        halfmoves: pos.halfmoves(),
        fullmoves: pos.fullmoves().get(),
    })
}

/// The legal moves `shakmaty` generates for the position a FEN describes, each
/// as `(kind, role, from, to, capture, promotion)`: kind 0 normal, 1 en
/// passant, 2 castling (to = rook square), 3 drop; roles 1 (pawn) to 6
/// (king), 0 for none. `None` when the FEN does not read.
pub uninterp spec fn legal_move_list(fen: Seq<char>) -> Option<Seq<(u8, u8, u8, u8, u8, u8)>>;

/// `Position::legal_moves` on the position read from `fen`, in shakmaty's
/// generation order. The contract names the result and states the bound of
/// shakmaty's `MoveList`, an `ArrayVec` of capacity 256 (512 only with the
/// `variant` feature, which is not enabled).
#[verifier::external_body]
fn legal_move_codes(fen: &str) -> (r: Option<Vec<(u8, u8, u8, u8, u8, u8)>>)
    ensures
        (match r {
            Some(v) => Some(v@),
            None => None::<Seq<(u8, u8, u8, u8, u8, u8)>>,
        }) == legal_move_list(fen@),
        r matches Some(v) ==> v@.len() <= 256,
{
    let pos: Chess = fen.parse::<Fen>().ok()?.into_position(CastlingMode::Standard).ok()?;
    let code = |m: &Move| {
        let kind = match m {
            Move::Normal { .. } => 0u8,
            Move::EnPassant { .. } => 1u8,
            Move::Castle { .. } => 2u8,
            Move::Put { .. } => 3u8,
        };
        let to = m.to() as u8;
        (kind, m.role() as u8, m.from().map_or(to, |s| s as u8), to, m.capture().map_or(0, |r| r as u8), m.promotion().map_or(0, |r| r as u8))
    };
    Some(pos.legal_moves().iter().map(code).collect())
}

/// The FEN reached by playing a UCI move, `None` when the FEN does not read
/// or the move is not legal there.
pub uninterp spec fn fen_after(fen: Seq<char>, uci: Seq<char>) -> Option<Seq<char>>;

/// `UciMove::from_str` and `UciMove::to_move` (which rejects illegal moves),
/// then `Position::play_unchecked`, reported as the canonical FEN. The
/// contract only names the result.
#[verifier::external_body]
fn play_uci_fen(fen: &str, uci: &str) -> (r: Option<String>)
    ensures
        (match r {
            Some(s) => Some(s@),
            None => None::<Seq<char>>,
        }) == fen_after(fen@, uci@),
{
    let mut pos: Chess = fen.parse::<Fen>().ok()?.into_position(CastlingMode::Standard).ok()?;
    let mv = uci.parse::<UciMove>().ok()?.to_move(&pos).ok()?;
    pos.play_unchecked(&mv);
    Some(Fen::from_position(pos, EnPassantMode::Legal).to_string())
}

/// The position with the other side to move (a null move), as a FEN; `None`
/// when that position is illegal (the side to move is in check).
pub uninterp spec fn fen_swapped(fen: Seq<char>) -> Option<Seq<char>>;

/// `Position::swap_turn` on the position read from `fen`, reported as the
/// canonical FEN. The contract only names the result.
#[verifier::external_body]
fn swap_turn_fen(fen: &str) -> (r: Option<String>)
    ensures
        (match r {
            Some(s) => Some(s@),
            None => None::<Seq<char>>,
        }) == fen_swapped(fen@),
{
    let pos: Chess = fen.parse::<Fen>().ok()?.into_position(CastlingMode::Standard).ok()?;
    let swapped = pos.swap_turn().ok()?;
    Some(Fen::from_position(swapped, EnPassantMode::Legal).to_string())
}

/// SAN (`San::from_move`, no check suffix) of a UCI move in a position;
/// `None` when the FEN does not read or the move is not legal.
pub uninterp spec fn bare_san_text(fen: Seq<char>, uci: Seq<char>) -> Option<Seq<char>>;

/// SAN with its check or mate suffix (`SanPlus::from_move`) of a UCI move in
/// a position; `None` when the FEN does not read or the move is not legal.
pub uninterp spec fn san_plus_text(fen: Seq<char>, uci: Seq<char>) -> Option<Seq<char>>;

/// SAN of a UCI move, `with_suffix` choosing the form with `+` / `#`.
pub open spec fn san_text(fen: Seq<char>, uci: Seq<char>, with_suffix: bool) -> Option<Seq<char>> {
    if with_suffix { san_plus_text(fen, uci) } else { bare_san_text(fen, uci) }
}

/// `San::from_move` for the move `UciMove::to_move` gives. The contract only
/// names the result.
#[verifier::external_body]
fn bare_san_of_uci(fen: &str, uci: &str) -> (r: Option<String>)
    ensures
        (match r {
            Some(s) => Some(s@),
            None => None::<Seq<char>>,
        }) == bare_san_text(fen@, uci@),
{
    let pos: Chess = fen.parse::<Fen>().ok()?.into_position(CastlingMode::Standard).ok()?;
    let mv = uci.parse::<UciMove>().ok()?.to_move(&pos).ok()?;
    Some(San::from_move(&pos, &mv).to_string())
}

/// `SanPlus::from_move` for the move `UciMove::to_move` gives. The contract
/// only names the result.
#[verifier::external_body]
fn san_plus_of_uci(fen: &str, uci: &str) -> (r: Option<String>)
    ensures
        (match r {
            Some(s) => Some(s@),
            None => None::<Seq<char>>,
        }) == san_plus_text(fen@, uci@),
{
    let pos: Chess = fen.parse::<Fen>().ok()?.into_position(CastlingMode::Standard).ok()?;
    let mv = uci.parse::<UciMove>().ok()?.to_move(&pos).ok()?;
    Some(SanPlus::from_move(pos, &mv).to_string())
}

/// SAN of a UCI move in a position, with or without the check suffix.
pub(crate) fn san_of_uci(fen: &str, uci: &str, with_suffix: bool) -> (r: Option<String>)
    ensures
        (match r {
            Some(s) => Some(s@),
            None => None::<Seq<char>>,
        }) == san_text(fen@, uci@, with_suffix),
{
    if with_suffix { san_plus_of_uci(fen, uci) } else { bare_san_of_uci(fen, uci) }
}

/// The canonical UCI text (standard castling) of a move given as SAN; `None`
/// when the FEN does not read, the text does not parse, or the move is not
/// legal there.
pub uninterp spec fn uci_of_san_text(fen: Seq<char>, text: Seq<char>) -> Option<Seq<char>>;

/// The canonical UCI text (standard castling) of a move given as UCI text;
/// `None` when the FEN does not read, the text does not parse, or the move is
/// not legal there.
pub uninterp spec fn uci_of_uci_text(fen: Seq<char>, text: Seq<char>) -> Option<Seq<char>>;

/// The canonical UCI text of a move given as SAN or as UCI text.
pub open spec fn uci_text(fen: Seq<char>, text: Seq<char>, text_is_san: bool) -> Option<Seq<char>> {
    if text_is_san { uci_of_san_text(fen, text) } else { uci_of_uci_text(fen, text) }
}

/// `San::from_str` + `San::to_move`, then `UciMove::from_move` in standard
/// castling mode. The contract only names the result.
#[verifier::external_body]
fn canonical_uci_of_san(fen: &str, text: &str) -> (r: Option<String>)
    ensures
        (match r {
            Some(s) => Some(s@),
            None => None::<Seq<char>>,
        }) == uci_of_san_text(fen@, text@),
{
    let pos: Chess = fen.parse::<Fen>().ok()?.into_position(CastlingMode::Standard).ok()?;
    let mv = text.parse::<San>().ok()?.to_move(&pos).ok()?;
    Some(UciMove::from_move(&mv, CastlingMode::Standard).to_string())
}

/// `UciMove::from_str` + `UciMove::to_move`, then `UciMove::from_move` in
/// standard castling mode. The contract only names the result.
#[verifier::external_body]
fn canonical_uci_of_uci(fen: &str, text: &str) -> (r: Option<String>)
    ensures
        (match r {
            Some(s) => Some(s@),
            None => None::<Seq<char>>,
        }) == uci_of_uci_text(fen@, text@),
{
    let pos: Chess = fen.parse::<Fen>().ok()?.into_position(CastlingMode::Standard).ok()?;
    let mv = text.parse::<UciMove>().ok()?.to_move(&pos).ok()?;
    Some(UciMove::from_move(&mv, CastlingMode::Standard).to_string())
}

fn canonical_uci(fen: &str, text: &str, text_is_san: bool) -> (r: Option<String>)
    ensures
        (match r {
            Some(s) => Some(s@),
            None => None::<Seq<char>>,
        }) == uci_text(fen@, text@, text_is_san),
{
    if text_is_san { canonical_uci_of_san(fen, text) } else { canonical_uci_of_uci(fen, text) }
}

pub open spec fn is_file_char(c: char) -> bool {
    'a' <= c <= 'h'
}

pub open spec fn is_rank_char(c: char) -> bool {
    '1' <= c <= '8'
}

pub open spec fn is_role_char(c: char) -> bool {
    c == 'P' || c == 'p' || c == 'N' || c == 'n' || c == 'B' || c == 'b' || c == 'R' || c == 'r' || c == 'Q'
        || c == 'q' || c == 'K' || c == 'k'
}

/// Whether a text reads as a UCI move at all, legal or not (the syntax of
/// `UciMove::from_str`): ASCII, four or five characters, and either the null
/// move `0000`, or a drop (a role letter, `@`, a square), or two squares with
/// an optional promotion role after them.
pub open spec fn uci_reads(t: Seq<char>) -> bool {
    &&& forall|k: int| 0 <= k < t.len() ==> (#[trigger] t[k] as u32) < 128
    &&& t.len() == 4 || t.len() == 5
    &&& (t =~= seq!['0', '0', '0', '0'] || (is_file_char(t[2]) && is_rank_char(t[3]) && if t[1] == '@' {
        is_role_char(t[0])
    } else {
        is_file_char(t[0]) && is_rank_char(t[1]) && (t.len() == 5 ==> is_role_char(t[4]))
    }))
}

fn role_char(c: char) -> (r: bool)
    ensures
        r == is_role_char(c),
{
    c == 'P' || c == 'p' || c == 'N' || c == 'n' || c == 'B' || c == 'b' || c == 'R' || c == 'r' || c == 'Q'
        || c == 'q' || c == 'K' || c == 'k'
}

/// Whether `UciMove::from_str` accepts a text: the syntax check alone, before
/// any position is consulted.
pub(crate) fn uci_parses(text: &str) -> (r: bool)
    ensures
        r == uci_reads(text@),
{
    let t = crate::text::chars_of(text);
    let mut k: usize = 0;
    while k < t.len()
        invariant
            t@ == text@,
            k <= t@.len(),
            forall|j: int| 0 <= j < k ==> (#[trigger] t@[j] as u32) < 128,
        decreases t.len() - k,
    {
        if (t[k] as u32) >= 128 {
            return false;
        }
        k += 1;
    }
    let n = t.len();
    if n != 4 && n != 5 {
        return false;
    }
    if n == 4 && t[0] == '0' && t[1] == '0' && t[2] == '0' && t[3] == '0' {
        assert(t@ =~= seq!['0', '0', '0', '0']);
        return true;
    }
    assert(!(t@ =~= seq!['0', '0', '0', '0'])) by {
        if t@ =~= seq!['0', '0', '0', '0'] {
            assert(t@[0] == '0' && t@[1] == '0' && t@[2] == '0' && t@[3] == '0');
        }
    }
    let to = 'a' <= t[2] && t[2] <= 'h' && '1' <= t[3] && t[3] <= '8';
    if !to {
        return false;
    }
    if t[1] == '@' {
        role_char(t[0])
    } else {
        'a' <= t[0] && t[0] <= 'h' && '1' <= t[1] && t[1] <= '8' && (n == 4 || role_char(t[4]))
    }
}

/// Whether neither side has mating material; `None` when the FEN does not read.
pub uninterp spec fn material_insufficient(fen: Seq<char>) -> Option<bool>;

/// `Position::is_insufficient_material` on the position read from `fen`.
/// The contract only names the result.
#[verifier::external_body]
fn insufficient_material(fen: &str) -> (r: Option<bool>)
    ensures
        r == material_insufficient(fen@),
{
    let pos: Chess = fen.parse::<Fen>().ok()?.into_position(CastlingMode::Standard).ok()?;
    Some(pos.is_insufficient_material())
}

/// A position: the board, the side to move, the canonical FEN that the rules
/// are asked about, and the move counters.
pub struct Position {
    pub board: Board,
    pub turn: Color,
    pub fen: String,
    pub halfmoves: u32,
    pub fullmoves: u32,
}

pub struct PositionView {
    pub board: Seq<Option<Piece>>,
    pub turn: Color,
    pub fen: Seq<char>,
    pub halfmoves: u32,
    pub fullmoves: u32,
}

impl View for Position {
    type V = PositionView;

    open spec fn view(&self) -> PositionView {
        PositionView {
            board: self.board.cells@,
            turn: self.turn,
            fen: self.fen@,
            halfmoves: self.halfmoves,
            fullmoves: self.fullmoves,
        }
    }
}

impl Position {
    pub open spec fn wf(&self) -> bool {
        self.board.wf()
    }
}

impl Position {
    /// An independent copy of the position.
    pub fn copy(&self) -> (r: Position)
        ensures
            r@ == self@,
    {
        let mut cells: Vec<Option<Piece>> = Vec::new();
        let mut i: usize = 0;
        while i < self.board.cells.len()
            invariant
                i <= self.board.cells@.len(),
                cells@ == self.board.cells@.subrange(0, i as int),
            decreases self.board.cells.len() - i,
        {
            cells.push(self.board.cells[i]);
            i += 1;
        }
        assert(cells@ =~= self.board.cells@);
        Position {
            board: Board { cells },
            turn: self.turn,
            fen: self.fen.clone(),
            halfmoves: self.halfmoves,
            fullmoves: self.fullmoves,
        }
    }
}

/// Whether bit `s` of a bitboard is set.
pub open spec fn has_bit(bb: u64, s: int) -> bool {
    (bb >> (s as u64)) & 1u64 == 1u64
}

pub open spec fn role_of_index(i: int) -> Role {
    if i <= 0 { Role::Pawn }
    else if i == 1 { Role::Knight }
    else if i == 2 { Role::Bishop }
    else if i == 3 { Role::Rook }
    else if i == 4 { Role::Queen }
    else { Role::King }
}

/// The first role (pawn to king) whose bitboard holds square `s`.
pub open spec fn role_from_bits(roles: Seq<u64>, s: int, i: int) -> Option<Role>
    decreases 6 - i,
{
    if i >= 6 {
        None
    } else if has_bit(roles[i], s) {
        Some(role_of_index(i))
    } else {
        role_from_bits(roles, s, i + 1)
    }
}

/// The piece the bitboards put on square `s`.
pub open spec fn cell_from_bits(raw: RawPositionView, s: int) -> Option<Piece> {
    let color = if has_bit(raw.white, s) {
        Some(Color::White)
    } else if has_bit(raw.black, s) {
        Some(Color::Black)
    } else {
        None
    };
    match (color, role_from_bits(raw.roles, s, 0)) {
        (Some(c), Some(r)) => Some(Piece { color: c, role: r }),
        _ => None,
    }
}

pub open spec fn decode(raw: RawPositionView) -> PositionView {
    PositionView {
        board: Seq::new(64, |s: int| cell_from_bits(raw, s)),
        turn: if raw.white_to_move { Color::White } else { Color::Black },
        fen: raw.fen,
        halfmoves: raw.halfmoves,
        fullmoves: raw.fullmoves,
    }
}

/// The position a FEN describes, if it reads.
pub open spec fn position_of_fen(fen: Seq<char>) -> Option<PositionView> {
    match fen_reading(fen) {
        Some(raw) => Some(decode(raw)),
        None => None,
    }
}

/// A FEN that does not describe a legal chess position.
#[derive(Debug)]
pub struct FenError(pub String);

impl FenError {
    /// The error as a sentence.
    pub fn message(&self) -> (r: String)
        ensures
            r@ == "invalid FEN: "@ + self.0@,
    {
        let mut out: Vec<char> = Vec::new();
        push_str(&mut out, "invalid FEN: ");
        push_str(&mut out, self.0.as_str());
        string_from_chars(&out)
    }
}

fn role_at_bits(roles: &[u64; 6], s: usize) -> (r: Option<Role>)
    requires
        s < 64,
    ensures
        r == role_from_bits(roles@, s as int, 0),
{
    let mut i: usize = 0;
    while i < 6
        invariant
            s < 64,
            i <= 6,
            role_from_bits(roles@, s as int, 0) == role_from_bits(roles@, s as int, i as int),
        decreases 6 - i,
    {
        if (roles[i] >> (s as u64)) & 1u64 == 1u64 {
            return Some(
                if i == 0 { Role::Pawn }
                else if i == 1 { Role::Knight }
                else if i == 2 { Role::Bishop }
                else if i == 3 { Role::Rook }
                else if i == 4 { Role::Queen }
                else { Role::King },
            );
        }
        i += 1;
    }
    None
}

fn decode_raw(raw: RawPosition) -> (p: Position)
    ensures
        p@ == decode(raw@),
        p.wf(),
{
    let mut cells: Vec<Option<Piece>> = Vec::new();
    let mut s: usize = 0;
    while s < 64
        invariant
            s <= 64,
            cells@.len() == s,
            forall|i: int| 0 <= i < s ==> cells@[i] == cell_from_bits(raw@, i),
        decreases 64 - s,
    {
        let color = if (raw.white >> (s as u64)) & 1u64 == 1u64 {
            Some(Color::White)
        } else if (raw.black >> (s as u64)) & 1u64 == 1u64 {
            Some(Color::Black)
        } else {
            None
        };
        let cell = match (color, role_at_bits(&raw.roles, s)) {
            (Some(c), Some(r)) => Some(Piece { color: c, role: r }),
            _ => None,
        };
        cells.push(cell);
        s += 1;
    }
    assert(cells@ =~= Seq::new(64, |i: int| cell_from_bits(raw@, i)));
    Position {
        board: Board { cells },
        turn: if raw.white_to_move { Color::White } else { Color::Black },
        fen: raw.fen,
        halfmoves: raw.halfmoves,
        fullmoves: raw.fullmoves,
    }
}

/// The FEN of the standard starting position.
pub const INITIAL_FEN: &'static str = "rnbqkbnr/pppppppp/8/8/8/8/PPPPPPPP/RNBQKBNR w KQkq - 0 1";

/// `Chess::default()`, reported as `read_fen` reports a position. The
/// contract claims that it is the position read from the standard starting
/// FEN, which is how `shakmaty` documents its default.
#[verifier::external_body]
fn initial_raw() -> (r: RawPosition)
    ensures
        fen_reading(INITIAL_FEN@) == Some(r@),
{
    let pos = Chess::default();
    let b = pos.board();
    let roles = [b.pawns().0, b.knights().0, b.bishops().0, b.rooks().0, b.queens().0, b.kings().0];
    RawPosition {
        roles,
        white: b.white().0,
        black: b.black().0,
        white_to_move: pos.turn().is_white(),
        fen: Fen::from_position(pos.clone(), EnPassantMode::Legal).to_string(),
        halfmoves: pos.halfmoves(),
        fullmoves: pos.fullmoves().get(),
    }
}

/// The standard starting position.
pub fn initial_position() -> (r: Position)
    ensures
        position_of_fen(INITIAL_FEN@) == Some(r@),
        r.wf(),
{
    decode_raw(initial_raw())
}

/// Restore a position from FEN (standard castling).
pub fn parse_fen(fen: &str) -> (r: Result<Position, FenError>)
    ensures
        match position_of_fen(fen@) {
            Some(v) => r is Ok && r->Ok_0@ == v && r->Ok_0.wf(),
            None => r is Err && r->Err_0.0@ == fen@,
        },
{
    match read_fen(fen) {
        Some(raw) => Ok(decode_raw(raw)),
        None => Err(FenError(fen.to_string())),
    }
}

pub open spec fn role_from_code(c: u8) -> Option<Role> {
    if c == 1 { Some(Role::Pawn) }
    else if c == 2 { Some(Role::Knight) }
    else if c == 3 { Some(Role::Bishop) }
    else if c == 4 { Some(Role::Rook) }
    else if c == 5 { Some(Role::Queen) }
    else if c == 6 { Some(Role::King) }
    else { None }
}

fn role_from_code_of(c: u8) -> (r: Option<Role>)
    ensures
        r == role_from_code(c),
{
    if c == 1 { Some(Role::Pawn) }
    else if c == 2 { Some(Role::Knight) }
    else if c == 3 { Some(Role::Bishop) }
    else if c == 4 { Some(Role::Rook) }
    else if c == 5 { Some(Role::Queen) }
    else if c == 6 { Some(Role::King) }
    else { None }
}

/// The move a generated code stands for; drops and malformed codes have none.
pub open spec fn decode_move(c: (u8, u8, u8, u8, u8, u8)) -> Option<ChessMove> {
    let kind = if c.0 == 0 {
        Some(MoveKind::Normal)
    } else if c.0 == 1 {
        Some(MoveKind::EnPassant)
    } else if c.0 == 2 {
        Some(MoveKind::Castle)
    } else {
        None
    };
    match (kind, role_from_code(c.1)) {
        (Some(k), Some(role)) => if c.2 < 64 && c.3 < 64 {
            Some(
                ChessMove {
                    kind: k,
                    role,
                    from: c.2 as usize,
                    to: c.3 as usize,
                    capture: role_from_code(c.4),
                    promotion: role_from_code(c.5),
                },
            )
        } else {
            None
        },
        _ => None,
    }
}

/// The decodable moves among the first `n` codes, in order.
pub open spec fn decode_moves(codes: Seq<(u8, u8, u8, u8, u8, u8)>, n: int) -> Seq<ChessMove>
    decreases n,
{
    if n <= 0 {
        seq![]
    } else {
        match decode_move(codes[n - 1]) {
            Some(m) => decode_moves(codes, n - 1).push(m),
            None => decode_moves(codes, n - 1),
        }
    }
}

/// The legal moves of a position, in generation order.
pub open spec fn legal_moves_of(fen: Seq<char>) -> Seq<ChessMove> {
    match legal_move_list(fen) {
        Some(codes) => decode_moves(codes, codes.len() as int),
        None => seq![],
    }
}

proof fn lemma_decode_moves_wf(codes: Seq<(u8, u8, u8, u8, u8, u8)>, n: int)
    ensures
        forall|i: int| 0 <= i < decode_moves(codes, n).len() ==> #[trigger] decode_moves(codes, n)[i].wf(),
    decreases n,
{
    if n > 0 {
        lemma_decode_moves_wf(codes, n - 1);
        match decode_move(codes[n - 1]) {
            Some(m) => {
                assert(m.wf());
                let prev = decode_moves(codes, n - 1);
                assert(decode_moves(codes, n) == prev.push(m));
                assert forall|i: int| 0 <= i < decode_moves(codes, n).len() implies #[trigger] decode_moves(codes, n)[i].wf() by {
                    if i < prev.len() {
                        assert(decode_moves(codes, n)[i] == prev[i]);
                    }
                }
            },
            None => {
                assert(decode_moves(codes, n) == decode_moves(codes, n - 1));
            },
        }
    }
}

fn decode_move_of(c: (u8, u8, u8, u8, u8, u8)) -> (r: Option<ChessMove>)
    ensures
        r == decode_move(c),
{
    let kind = if c.0 == 0 {
        Some(MoveKind::Normal)
    } else if c.0 == 1 {
        Some(MoveKind::EnPassant)
    } else if c.0 == 2 {
        Some(MoveKind::Castle)
    } else {
        None
    };
    match (kind, role_from_code_of(c.1)) {
        (Some(k), Some(role)) => if c.2 < 64 && c.3 < 64 {
            Some(
                ChessMove {
                    kind: k,
                    role,
                    from: c.2 as usize,
                    to: c.3 as usize,
                    capture: role_from_code_of(c.4),
                    promotion: role_from_code_of(c.5),
                },
            )
        } else {
            None
        },
        _ => None,
    }
}

/// The number of legal moves of the position a FEN describes, 0 when it does
/// not read.
pub open spec fn move_count(fen: Seq<char>) -> nat {
    match legal_move_list(fen) {
        Some(codes) => codes.len(),
        None => 0,
    }
}

/// The number of legal moves of the position a FEN describes.
pub fn legal_move_total(fen: &str) -> (r: usize)
    ensures
        r == move_count(fen@),
        r <= 256,
{
    match legal_move_codes(fen) {
        Some(codes) => codes.len(),
        None => 0,
    }
}

/// The legal move count of the side not to move, through a null move; 0 when
/// the null move is illegal.
pub fn swapped_move_count(fen: &str) -> (r: u32)
    ensures
        r == (match fen_swapped(fen@) {
            Some(f) => move_count(f) as u32,
            None => 0u32,
        }),
        r <= 256,
{
    match swap_turn_fen(fen) {
        Some(f) => legal_move_total(f.as_str()) as u32,
        None => 0,
    }
}

/// The legal moves of a position, in shakmaty's generation order.
pub fn legal_moves(pos: &Position) -> (r: Vec<ChessMove>)
    ensures
        r@ == legal_moves_of(pos.fen@),
        forall|i: int| 0 <= i < r@.len() ==> #[trigger] r@[i].wf(),
{
    let fen = pos.fen.as_str();
    match legal_move_codes(fen) {
        None => {
            let r: Vec<ChessMove> = Vec::new();
            r
        },
        Some(codes) => {
            let mut out: Vec<ChessMove> = Vec::new();
            let mut i: usize = 0;
            while i < codes.len()
                invariant
                    i <= codes@.len(),
                    out@ == decode_moves(codes@, i as int),
                decreases codes.len() - i,
            {
                match decode_move_of(codes[i]) {
                    Some(m) => out.push(m),
                    None => {},
                }
                i += 1;
            }
            proof {
                lemma_decode_moves_wf(codes@, codes@.len() as int);
            }
            out
        },
    }
}

/// Whether a move is among the legal moves of a position.
pub fn is_legal(pos: &Position, mv: &ChessMove) -> (r: bool)
    ensures
        r == legal_moves_of(pos.fen@).contains(*mv),
{
    let moves = legal_moves(pos);
    let mut i: usize = 0;
    while i < moves.len()
        invariant
            i <= moves@.len(),
            moves@ == legal_moves_of(pos.fen@),
            !moves@.subrange(0, i as int).contains(*mv),
        decreases moves.len() - i,
    {
        if moves[i] == *mv {
            assert(moves@[i as int] == *mv);
            return true;
        }
        assert(moves@.subrange(0, i as int + 1) =~= moves@.subrange(0, i as int).push(moves@[i as int]));
        i += 1;
    }
    assert(moves@.subrange(0, moves@.len() as int) =~= moves@);
    false
}

pub open spec fn file_char(f: int) -> char {
    if f == 0 { 'a' }
    else if f == 1 { 'b' }
    else if f == 2 { 'c' }
    else if f == 3 { 'd' }
    else if f == 4 { 'e' }
    else if f == 5 { 'f' }
    else if f == 6 { 'g' }
    else { 'h' }
}

pub open spec fn rank_char(r: int) -> char {
    if r == 0 { '1' }
    else if r == 1 { '2' }
    else if r == 2 { '3' }
    else if r == 3 { '4' }
    else if r == 4 { '5' }
    else if r == 5 { '6' }
    else if r == 6 { '7' }
    else { '8' }
}

/// Algebraic name of a square, e.g. `e4`.
pub open spec fn square_name(s: int) -> Seq<char> {
    seq![file_char(s % 8), rank_char(s / 8)]
}

pub fn file_letter(f: usize) -> (c: char)
    ensures
        c == file_char(f as int),
{
    if f == 0 { 'a' }
    else if f == 1 { 'b' }
    else if f == 2 { 'c' }
    else if f == 3 { 'd' }
    else if f == 4 { 'e' }
    else if f == 5 { 'f' }
    else if f == 6 { 'g' }
    else { 'h' }
}

fn rank_digit(r: usize) -> (c: char)
    ensures
        c == rank_char(r as int),
{
    if r == 0 { '1' }
    else if r == 1 { '2' }
    else if r == 2 { '3' }
    else if r == 3 { '4' }
    else if r == 4 { '5' }
    else if r == 5 { '6' }
    else if r == 6 { '7' }
    else { '8' }
}

pub fn push_square(out: &mut Vec<char>, s: usize)
    ensures
        final(out)@ == old(out)@ + square_name(s as int),
{
    out.push(file_letter(s % 8));
    out.push(rank_digit(s / 8));
}

/// Algebraic name of a square, e.g. `e4`.
pub fn square_string(s: usize) -> (r: String)
    ensures
        r@ == square_name(s as int),
{
    let mut cs: Vec<char> = Vec::new();
    push_square(&mut cs, s);
    string_from_chars(&cs)
}

pub open spec fn promotion_char(r: Role) -> char {
    match r {
        Role::Pawn => 'p',
        Role::Knight => 'n',
        Role::Bishop => 'b',
        Role::Rook => 'r',
        Role::Queen => 'q',
        Role::King => 'k',
    }
}

/// Where the king lands when castling in standard chess: the g-file on the
/// king side, the c-file on the queen side.
pub open spec fn castle_target(mv: ChessMove) -> int {
    if mv.to % 8 > mv.from % 8 { (mv.from / 8) * 8 + 6 } else { (mv.from / 8) * 8 + 2 }
}

/// UCI text of a move, castling written as the king's two-square step.
pub open spec fn uci_chars(mv: ChessMove) -> Seq<char> {
    let dest = if mv.kind == MoveKind::Castle { castle_target(mv) } else { mv.to as int };
    let base = square_name(mv.from as int) + square_name(dest);
    match mv.promotion {
        Some(r) => base.push(promotion_char(r)),
        None => base,
    }
}

fn promotion_letter(r: Role) -> (c: char)
    ensures
        c == promotion_char(r),
{
    match r {
        Role::Pawn => 'p',
        Role::Knight => 'n',
        Role::Bishop => 'b',
        Role::Rook => 'r',
        Role::Queen => 'q',
        Role::King => 'k',
    }
}

pub fn uci_chars_of(mv: &ChessMove) -> (r: Vec<char>)
    ensures
        r@ == uci_chars(*mv),
{
    let dest = if matches!(mv.kind, MoveKind::Castle) {
        if mv.to % 8 > mv.from % 8 { (mv.from / 8) * 8 + 6 } else { (mv.from / 8) * 8 + 2 }
    } else {
        mv.to
    };
    let mut cs: Vec<char> = Vec::new();
    push_square(&mut cs, mv.from);
    push_square(&mut cs, dest);
    match mv.promotion {
        Some(r) => cs.push(promotion_letter(r)),
        None => {},
    }
    cs
}

/// UCI text of a move (standard castling).
pub fn uci_of(mv: &ChessMove) -> (r: String)
    ensures
        r@ == uci_chars(*mv),
{
    let cs = uci_chars_of(mv);
    string_from_chars(&cs)
}

/// The position after playing `mv`, `None` when it is not legal there.
pub open spec fn spec_play(pos: PositionView, mv: ChessMove) -> Option<PositionView> {
    match fen_after(pos.fen, uci_chars(mv)) {
        Some(f) => position_of_fen(f),
        None => None,
    }
}

/// Play a move, if it is legal.
pub fn play(pos: &Position, mv: &ChessMove) -> (r: Option<Position>)
    ensures
        (match r {
            Some(p) => Some(p@),
            None => None::<PositionView>,
        }) == spec_play(pos@, *mv),
        r matches Some(p) ==> p.wf(),
{
    let uci = uci_of(mv);
    match play_uci_fen(pos.fen.as_str(), uci.as_str()) {
        None => None,
        Some(next) => match parse_fen(next.as_str()) {
            Ok(p) => Some(p),
            Err(_) => None,
        },
    }
}

/// SAN of a move (`with_suffix` adds `+` / `#`).
pub fn san_of(pos: &Position, mv: &ChessMove, with_suffix: bool) -> (r: Option<String>)
    ensures
        (match r {
            Some(s) => Some(s@),
            None => None::<Seq<char>>,
        }) == san_text(pos.fen@, uci_chars(*mv), with_suffix),
{
    let uci = uci_of(mv);
    san_of_uci(pos.fen.as_str(), uci.as_str(), with_suffix)
}

/// The first move of `moves` whose UCI text is `uci`.
pub open spec fn find_by_uci(moves: Seq<ChessMove>, uci: Seq<char>, from: int) -> Option<ChessMove>
    decreases moves.len() - from,
{
    if from < 0 || from >= moves.len() {
        None
    } else if uci_chars(moves[from]) == uci {
        Some(moves[from])
    } else {
        find_by_uci(moves, uci, from + 1)
    }
}

/// The legal move a SAN or UCI text stands for.
pub open spec fn spec_parse_move(pos: PositionView, text: Seq<char>, is_san: bool) -> Option<ChessMove> {
    match uci_text(pos.fen, text, is_san) {
        Some(u) => find_by_uci(legal_moves_of(pos.fen), u, 0),
        None => None,
    }
}

/// The legal move a SAN (`is_san`) or UCI text stands for.
pub fn parse_move(pos: &Position, text: &str, is_san: bool) -> (r: Option<ChessMove>)
    ensures
        r == spec_parse_move(pos@, text@, is_san),
        r matches Some(m) ==> m.wf(),
{
    let fen = pos.fen.as_str();
    assert(fen@ == pos.fen@);
    let u = match canonical_uci(fen, text, is_san) {
        Some(u) => u,
        None => return None,
    };
    assert(uci_text(pos@.fen, text@, is_san) == Some(u@));
    let target = crate::text::chars_of(u.as_str());
    let moves = legal_moves(pos);
    let mut i: usize = 0;
    while i < moves.len()
        invariant
            i <= moves@.len(),
            moves@ == legal_moves_of(pos.fen@),
            target@ == u@,
            uci_text(pos@.fen, text@, is_san) == Some(u@),
            forall|k: int| 0 <= k < moves@.len() ==> #[trigger] moves@[k].wf(),
            find_by_uci(moves@, u@, 0) == find_by_uci(moves@, u@, i as int),
        decreases moves.len() - i,
    {
        let cs = uci_chars_of(&moves[i]);
        if chars_eq(&cs, &target) {
            assert(uci_chars(moves@[i as int]) == u@);
            assert(find_by_uci(moves@, u@, i as int) == Some(moves@[i as int]));
            return Some(moves[i]);
        }
        i += 1;
    }
    None
}

/// Canonical UCI text of a move given as UCI text, `None` when it is not
/// legal in the position.
pub fn normalize_uci(pos: &Position, uci: &str) -> (r: Option<String>)
    ensures
        (match r {
            Some(s) => Some(s@),
            None => None::<Seq<char>>,
        }) == uci_text(pos.fen@, uci@, false),
{
    canonical_uci(pos.fen.as_str(), uci, false)
}

/// Whether a king of `color` stands on `s`.
pub open spec fn king_at(b: Seq<Option<Piece>>, color: Color) -> spec_fn(int) -> bool {
    |s: int| b[s] == Some(Piece { color, role: Role::King })
}

/// The square of the king of `color`: none when there is no such king or
/// more than one.
pub open spec fn king_square(b: Seq<Option<Piece>>, color: Color) -> Option<int> {
    match crate::see::first_where(king_at(b, color), 0) {
        Some(s) => if crate::see::first_where(king_at(b, color), s + 1) is None {
            Some(s)
        } else {
            None
        },
        None => None,
    }
}

/// The first square at or above `from` holding a king of `color`.
fn next_king(b: &Board, color: Color, from: usize) -> (r: Option<usize>)
    requires
        b.wf(),
        from <= 64,
    ensures
        r == (match crate::see::first_where(king_at(b@, color), from as int) {
            Some(s) => Some(s as usize),
            None => None::<usize>,
        }),
        r matches Some(s) ==> from <= s < 64,
{
    proof {
        crate::see::lemma_first_where_sound(king_at(b@, color), from as int);
    }
    let ghost p = king_at(b@, color);
    let mut s: usize = from;
    while s < 64
        invariant
            b.wf(),
            from <= s <= 64,
            p == king_at(b@, color),
            crate::see::first_where(p, from as int) == crate::see::first_where(p, s as int),
        decreases 64 - s,
    {
        let hit = match b.cells[s] {
            Some(piece) => matches!(piece.color, Color::White) == matches!(color, Color::White)
                && matches!(piece.role, Role::King),
            None => false,
        };
        assert(hit == p(s as int));
        if hit {
            return Some(s);
        }
        s += 1;
    }
    None
}

pub fn king_of(b: &Board, color: Color) -> (r: Option<usize>)
    requires
        b.wf(),
    ensures
        r == (match king_square(b@, color) {
            Some(s) => Some(s as usize),
            None => None::<usize>,
        }),
        r matches Some(s) ==> s < 64 && b@[s as int] == Some(Piece { color, role: Role::King }),
        king_square(b@, color) matches Some(s) ==> 0 <= s < 64,
{
    proof {
        crate::see::lemma_first_where_sound(king_at(b@, color), 0);
    }
    match next_king(b, color, 0) {
        None => None,
        Some(s) => {
            match next_king(b, color, s + 1) {
                None => Some(s),
                Some(_) => None,
            }
        },
    }
}

/// The pieces giving check to the side to move.
pub open spec fn spec_checkers(pos: PositionView) -> Seq<usize> {
    match king_square(pos.board, pos.turn) {
        Some(k) => attackers(pos.board, k, other(pos.turn), occupancy(pos.board)),
        None => seq![],
    }
}

pub fn checkers(pos: &Position) -> (r: Vec<usize>)
    requires
        pos.wf(),
    ensures
        r@ == spec_checkers(pos@),
{
    match king_of(&pos.board, pos.turn) {
        Some(k) => {
            let occ = occupied(&pos.board);
            attacks_to(&pos.board, k, pos.turn.other(), &occ)
        },
        None => Vec::new(),
    }
}

pub fn is_check(pos: &Position) -> (r: bool)
    requires
        pos.wf(),
    ensures
        r == (spec_checkers(pos@).len() > 0),
{
    checkers(pos).len() > 0
}

/// How a game has ended at a position, if it has.
#[derive(Debug, Clone, Copy, PartialEq, Eq, Structural)]
pub enum Terminal {
    /// The side to move has lost.
    Checkmate,
    Stalemate,
    /// Insufficient material, the fifty-move rule, and the like.
    Draw,
}

/// Checkmate first (a mate past the fifty-move count is still mate), then
/// stalemate, then insufficient material or a halfmove clock of 100.
pub open spec fn spec_terminal(pos: PositionView) -> Option<Terminal> {
    let no_moves = move_count(pos.fen) == 0;
    let check = spec_checkers(pos).len() > 0;
    if no_moves && check {
        Some(Terminal::Checkmate)
    } else if no_moves {
        Some(Terminal::Stalemate)
    } else if material_insufficient(pos.fen) == Some(true) || pos.halfmoves >= 100 {
        Some(Terminal::Draw)
    } else {
        None
    }
}

pub fn terminal(pos: &Position) -> (r: Option<Terminal>)
    requires
        pos.wf(),
    ensures
        r == spec_terminal(pos@),
{
    let no_moves = legal_move_total(pos.fen.as_str()) == 0;
    let check = is_check(pos);
    if no_moves && check {
        Some(Terminal::Checkmate)
    } else if no_moves {
        Some(Terminal::Stalemate)
    } else if insufficient_material(pos.fen.as_str()) == Some(true) || pos.halfmoves >= 100 {
        Some(Terminal::Draw)
    } else {
        None
    }
}

/// A FEN without its move counters: its first four fields, single-spaced.
pub open spec fn spec_normalize_fen(fen: Seq<char>) -> Seq<char> {
    let t = crate::uci::tokens(fen);
    crate::text::join_with(t.take(if t.len() < 4 { t.len() as int } else { 4 }), " "@)
}

/// Normalising a normalised FEN changes nothing.
pub proof fn lemma_normalize_fen_idempotent(fen: Seq<char>)
    ensures
        spec_normalize_fen(spec_normalize_fen(fen)) == spec_normalize_fen(fen),
{
    let t = crate::uci::tokens(fen);
    let n: int = if t.len() < 4 { t.len() as int } else { 4 };
    let first = t.take(n);
    crate::uci::lemma_tokens_are_words(fen);
    assert forall|i: int| 0 <= i < first.len() implies crate::uci::is_word(#[trigger] first[i]) by {
        assert(first[i] == t[i]);
    }
    crate::uci::lemma_tokens_of_joined(first);
    assert(first.take(first.len() as int) =~= first);
}

/// A FEN without the halfmove clock and fullmove number, as used for cache
/// keys and opening lookups.
pub fn normalize_fen(fen: &str) -> (r: String)
    ensures
        r@ == spec_normalize_fen(fen@),
{
    let fields = crate::uci::split_whitespace(fen);
    crate::text::join_first(&fields, 4, " ")
}

} // verus!

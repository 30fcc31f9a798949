//! Static positional features of a position, and what changed between two
//! positions. Every number here is counted off the board: nothing is
//! estimated.

use vstd::prelude::*;
use crate::board::{
    Board, Color, Piece, Role, attackers, attacks, attacks_to, file, file_of, forward, king_step, occupancy,
    occupied, other, piece_attacks, rank, rank_of, sq, squares_where, abs,
};
use crate::motif::{names_of, role_name, role_str, square_names};
use crate::position::{
    Position, PositionView, fen_swapped, king_of, king_square, legal_move_list, move_count, square_name,
    square_string, swapped_move_count,
};
use crate::see::{see_square, spec_see_square};
use crate::text::{insert_sorted, strictly_sorted, strings_view};

verus! {

/// One value per colour.
#[derive(Debug, Clone, Copy, PartialEq, Eq)]
pub struct ColorPair<T> {
    pub white: T,
    pub black: T,
}

impl<T: Copy> ColorPair<T> {
    /// The entry for `color`.
    pub fn pick(&self, color: Color) -> (r: T)
        ensures
            r == pick_of(*self, color),
    {
        match color {
            Color::White => self.white,
            Color::Black => self.black,
        }
    }
}

pub open spec fn pick_of<T>(pair: ColorPair<T>, color: Color) -> T {
    match color {
        Color::White => pair.white,
        Color::Black => pair.black,
    }
}

/// A piece whose exchange on its own square loses material for its owner.
#[derive(Debug, Clone, PartialEq, Eq)]
pub struct HangingPiece {
    pub square: String,
    pub role: String,
    pub color: String,
    /// The exchange balance in centipawns (negative).
    pub see: i32,
}

pub struct HangingView {
    pub square: Seq<char>,
    pub role: Seq<char>,
    pub color: Seq<char>,
    pub see: i32,
}

impl View for HangingPiece {
    type V = HangingView;

    open spec fn view(&self) -> HangingView {
        HangingView { square: self.square@, role: self.role@, color: self.color@, see: self.see }
    }
}

pub open spec fn hanging_views(v: Seq<HangingPiece>) -> Seq<HangingView> {
    v.map_values(|h: HangingPiece| h@)
}

/// Pressure on a king and the state of its pawn shield.
#[derive(Debug, Clone, Copy, PartialEq, Eq, Structural)]
pub struct KingSafety {
    /// Enemy attacks landing on the squares around the king.
    pub attackers: u32,
    /// Files of the king's block with no shield pawn in front of it.
    pub missing_shield_pawns: u32,
    pub king_square: Option<u8>,
}

/// Pawn weaknesses and strengths of one colour, as sorted square names.
#[derive(Debug, Clone, PartialEq, Eq)]
pub struct PawnStructure {
    pub isolated: Vec<String>,
    pub doubled: Vec<String>,
    pub passed: Vec<String>,
}

/// A file without pawns of at least one colour.
#[derive(Debug, Clone, PartialEq, Eq)]
pub struct OpenFile {
    /// "a" to "h".
    pub file: String,
    /// No pawns of either colour, as opposed to half-open.
    pub fully_open: bool,
    /// Squares of the rooks and queens on the file.
    pub occupied_by: Vec<String>,
}

pub struct OpenFileView {
    pub file: Seq<char>,
    pub fully_open: bool,
    pub occupied_by: Seq<Seq<char>>,
}

impl View for OpenFile {
    type V = OpenFileView;

    open spec fn view(&self) -> OpenFileView {
        OpenFileView { file: self.file@, fully_open: self.fully_open, occupied_by: strings_view(self.occupied_by@) }
    }
}

pub open spec fn open_file_views(v: Seq<OpenFile>) -> Seq<OpenFileView> {
    v.map_values(|f: OpenFile| f@)
}

/// The features of one position, per colour where they have a side.
#[derive(Debug, Clone, PartialEq, Eq)]
pub struct Features {
    /// Material balance in centipawns, white minus black.
    pub material: i32,
    /// Pieces whose exchange on their own square loses material.
    pub hanging: Vec<HangingPiece>,
    /// Attacks on d4, e4, d5 and e5.
    pub center_control: ColorPair<u32>,
    pub king_safety: ColorPair<KingSafety>,
    pub pawn_structure: ColorPair<PawnStructure>,
    /// Half-open and open files.
    pub open_files: Vec<OpenFile>,
    /// Legal move counts.
    pub mobility: ColorPair<u32>,
}

// ---------------------------------------------------------------------------
// Material
// ---------------------------------------------------------------------------

/// Material values for the balance figure (P=1, N=B=3, R=5, Q=9 pawns, in
/// centipawns); kings weigh nothing.
pub open spec fn material_value(r: Role) -> int {
    match r {
        Role::Pawn => 100,
        Role::Knight => 300,
        Role::Bishop => 300,
        Role::Rook => 500,
        Role::Queen => 900,
        Role::King => 0,
    }
}

fn material_value_of(r: Role) -> (v: i32)
    ensures
        v == material_value(r),
{
    match r {
        Role::Pawn => 100,
        Role::Knight => 300,
        Role::Bishop => 300,
        Role::Rook => 500,
        Role::Queen => 900,
        Role::King => 0,
    }
}

/// What the occupant of a square adds to the white-minus-black balance.
pub open spec fn signed_material(c: Option<Piece>) -> int {
    match c {
        None => 0,
        Some(p) => if p.color == Color::White {
            material_value(p.role)
        } else {
            -material_value(p.role)
        },
    }
}

/// The balance over the squares below `n`.
pub open spec fn material_sum(b: Seq<Option<Piece>>, n: int) -> int
    decreases n,
{
    if n <= 0 {
        0
    } else {
        material_sum(b, n - 1) + signed_material(b[n - 1])
    }
}

proof fn lemma_material_sum_update(b: Seq<Option<Piece>>, s: int, x: Option<Piece>, n: int)
    requires
        0 <= s < b.len(),
        n <= b.len(),
    ensures
        material_sum(b.update(s, x), n) == material_sum(b, n) + if 0 <= s < n {
            signed_material(x) - signed_material(b[s])
        } else {
            0
        },
    decreases n,
{
    if n > 0 {
        lemma_material_sum_update(b, s, x, n - 1);
    }
}

/// The balance weighs each piece by its conventional value, white counting
/// for and black against: putting a piece on an empty square moves the
/// balance by 100 for a pawn, 300 for a knight or a bishop, 500 for a rook,
/// 900 for a queen and nothing for a king.
pub proof fn lemma_material_counts_each_piece(b: Seq<Option<Piece>>, s: int, piece: Piece)
    requires
        b.len() == 64,
        0 <= s < 64,
        b[s] is None,
    ensures
        material_sum(b.update(s, Some(piece)), 64) == material_sum(b, 64) + (if piece.color == Color::White { 1int } else { -1int }) * (
        match piece.role {
            Role::Pawn => 100int,
            Role::Knight => 300int,
            Role::Bishop => 300int,
            Role::Rook => 500int,
            Role::Queen => 900int,
            Role::King => 0int,
        }),
{
    lemma_material_sum_update(b, s, Some(piece), 64);
}

/// An empty board is balanced.
pub proof fn lemma_material_of_empty_board(b: Seq<Option<Piece>>, n: int)
    requires
        n <= b.len(),
        forall|i: int| 0 <= i < b.len() ==> #[trigger] b[i] is None,
    ensures
        material_sum(b, n) == 0,
    decreases n,
{
    if n > 0 {
        lemma_material_of_empty_board(b, n - 1);
    }
}

/// Material balance in centipawns, white minus black.
pub fn material(pos: &Position) -> (r: i32)
    requires
        pos.wf(),
    ensures
        r == material_sum(pos@.board, 64),
        -57600 <= r <= 57600,
{
    let b = &pos.board;
    let mut total: i32 = 0;
    let mut s: usize = 0;
    while s < 64
        invariant
            b.wf(),
            b@ == pos@.board,
            s <= 64,
            total == material_sum(b@, s as int),
            -900 * s <= total <= 900 * s,
        decreases 64 - s,
    {
        match b.cells[s] {
            None => {},
            Some(p) => {
                let v = material_value_of(p.role);
                if matches!(p.color, Color::White) {
                    total = total + v;
                } else {
                    total = total - v;
                }
            },
        }
        s += 1;
    }
    total
}

// ---------------------------------------------------------------------------
// Hanging pieces
// ---------------------------------------------------------------------------

pub open spec fn color_name(c: Color) -> Seq<char> {
    match c {
        Color::White => "white"@,
        Color::Black => "black"@,
    }
}

pub fn color_str(c: Color) -> (s: &'static str)
    ensures
        s@ == color_name(c),
{
    match c {
        Color::White => "white",
        Color::Black => "black",
    }
}

/// The hanging pieces on the squares below `n`, in square order: every piece
/// but a king whose exchange on its own square settles below zero.
pub open spec fn hanging_upto(b: Seq<Option<Piece>>, n: int) -> Seq<HangingView>
    decreases n,
{
    if n <= 0 {
        seq![]
    } else {
        let prev = hanging_upto(b, n - 1);
        match b[n - 1] {
            None => prev,
            Some(p) => if p.role == Role::King || spec_see_square(b, n - 1) >= 0 {
                prev
            } else {
                prev.push(
                    HangingView {
                        square: square_name(n - 1),
                        role: role_name(p.role),
                        color: color_name(p.color),
                        see: spec_see_square(b, n - 1) as i32,
                    },
                )
            },
        }
    }
}

/// Every piece whose exchange on its own square is negative for its owner,
/// kings excepted.
pub fn hanging(pos: &Position) -> (r: Vec<HangingPiece>)
    requires
        pos.wf(),
    ensures
        hanging_views(r@) == hanging_upto(pos@.board, 64),
        r@.len() <= 64,
{
    let b = &pos.board;
    let mut out: Vec<HangingPiece> = Vec::new();
    let mut s: usize = 0;
    while s < 64
        invariant
            b.wf(),
            b@ == pos@.board,
            s <= 64,
            hanging_views(out@) == hanging_upto(b@, s as int),
            out@.len() <= s,
        decreases 64 - s,
    {
        match b.cells[s] {
            None => {},
            Some(p) => {
                if !matches!(p.role, Role::King) {
                    let value = see_square(b, s);
                    if value < 0 {
                        let ghost before = out@;
                        out.push(
                            HangingPiece {
                                square: square_string(s),
                                role: role_str(p.role).to_owned(),
                                color: color_str(p.color).to_owned(),
                                see: value,
                            },
                        );
                        assert(hanging_views(out@) =~= hanging_views(before).push(out@.last()@));
                    }
                }
            },
        }
        s += 1;
    }
    out
}

// ---------------------------------------------------------------------------
// Centre and king
// ---------------------------------------------------------------------------

/// The attacks of `color` on d4, e4, d5 and e5, summed over the squares: a
/// piece eyeing two of them counts twice.
pub open spec fn center_attacks(b: Seq<Option<Piece>>, color: Color) -> int {
    let occ = occupancy(b);
    (attackers(b, 27, color, occ).len() + attackers(b, 28, color, occ).len() + attackers(b, 35, color, occ).len()
        + attackers(b, 36, color, occ).len()) as int
}

fn attack_count(b: &Board, t: usize, color: Color, occ: &Vec<bool>) -> (r: u32)
    requires
        b.wf(),
        occ@ == occupancy(b@),
        t < 64,
    ensures
        r == attackers(b@, t as int, color, occ@).len(),
        r <= 64,
{
    let v = attacks_to(b, t, color, occ);
    proof {
        crate::board::lemma_squares_where_bounded(|s: int| crate::board::attacker_at(b@, s, t as int, color, occ@), 64);
    }
    v.len() as u32
}

/// Attacks on the four central squares, per colour.
pub fn center_control(pos: &Position) -> (r: ColorPair<u32>)
    requires
        pos.wf(),
    ensures
        r.white == center_attacks(pos@.board, Color::White),
        r.black == center_attacks(pos@.board, Color::Black),
        r.white <= 256,
        r.black <= 256,
{
    let b = &pos.board;
    let occ = occupied(b);
    let w = attack_count(b, 27, Color::White, &occ) + attack_count(b, 28, Color::White, &occ) + attack_count(
        b,
        35,
        Color::White,
        &occ,
    ) + attack_count(b, 36, Color::White, &occ);
    let k = attack_count(b, 27, Color::Black, &occ) + attack_count(b, 28, Color::Black, &occ) + attack_count(
        b,
        35,
        Color::Black,
        &occ,
    ) + attack_count(b, 36, Color::Black, &occ);
    ColorPair { white: w, black: k }
}

/// Attacks of `enemy` on the king ring of `k`, squares below `n`.
pub open spec fn ring_pressure(b: Seq<Option<Piece>>, k: int, enemy: Color, n: int) -> int
    decreases n,
{
    if n <= 0 {
        0
    } else {
        ring_pressure(b, k, enemy, n - 1) + if king_step(k, n - 1) {
            attackers(b, n - 1, enemy, occupancy(b)).len() as int
        } else {
            0
        }
    }
}

/// A pawn of `color` on file `f`, rank `r` (both on the board).
pub open spec fn pawn_on(b: Seq<Option<Piece>>, color: Color, f: int, r: int) -> bool {
    0 <= f < 8 && 0 <= r < 8 && b[sq(f, r)] == Some(Piece { color, role: Role::Pawn })
}

/// A shield pawn on the file `fd` away from the king's, one or two ranks in
/// front of it.
pub open spec fn shielded(b: Seq<Option<Piece>>, color: Color, king: int, fd: int) -> bool {
    let f = file_of(king) + fd;
    pawn_on(b, color, f, rank_of(king) + forward(color)) || pawn_on(b, color, f, rank_of(king) + 2 * forward(color))
}

/// The rank counted from `color`'s own side.
pub open spec fn relative_rank(color: Color, r: int) -> int {
    match color {
        Color::White => r,
        Color::Black => 7 - r,
    }
}

/// Files of the three-file block around the king (those on the board) with
/// no friendly pawn on the two ranks in front of it; counted only while the
/// king is on its own first three ranks.
pub open spec fn missing_shield(b: Seq<Option<Piece>>, color: Color, king: int) -> int {
    if relative_rank(color, rank_of(king)) > 2 {
        0
    } else {
        (if file_of(king) >= 1 && !shielded(b, color, king, -1) { 1int } else { 0int })
            + (if !shielded(b, color, king, 0) { 1int } else { 0int })
            + (if file_of(king) <= 6 && !shielded(b, color, king, 1) { 1int } else { 0int })
    }
}

pub open spec fn spec_king_safety(b: Seq<Option<Piece>>, color: Color) -> KingSafety {
    match king_square(b, color) {
        None => KingSafety { attackers: 0, missing_shield_pawns: 0, king_square: None },
        Some(k) => KingSafety {
            attackers: ring_pressure(b, k, other(color), 64) as u32,
            missing_shield_pawns: missing_shield(b, color, k) as u32,
            king_square: Some(k as u8),
        },
    }
}

fn pawn_at(b: &Board, color: Color, f: i32, r: i32) -> (res: bool)
    requires
        b.wf(),
    ensures
        res == pawn_on(b@, color, f as int, r as int),
{
    if f < 0 || f >= 8 || r < 0 || r >= 8 {
        return false;
    }
    let s = (r * 8 + f) as usize;
    match b.cells[s] {
        Some(p) => p.color == color && matches!(p.role, Role::Pawn),
        None => false,
    }
}

fn missing_shield_pawns(b: &Board, color: Color, king: usize) -> (r: u32)
    requires
        b.wf(),
        king < 64,
    ensures
        r == missing_shield(b@, color, king as int),
{
    let kf = file(king) as i32;
    let kr = rank(king) as i32;
    let rel = match color {
        Color::White => kr,
        Color::Black => 7 - kr,
    };
    if rel > 2 {
        return 0;
    }
    let fwd: i32 = match color {
        Color::White => 1,
        Color::Black => -1,
    };
    let mut missing: u32 = 0;
    if kf >= 1 && !(pawn_at(b, color, kf - 1, kr + fwd) || pawn_at(b, color, kf - 1, kr + 2 * fwd)) {
        missing += 1;
    }
    if !(pawn_at(b, color, kf, kr + fwd) || pawn_at(b, color, kf, kr + 2 * fwd)) {
        missing += 1;
    }
    if kf <= 6 && !(pawn_at(b, color, kf + 1, kr + fwd) || pawn_at(b, color, kf + 1, kr + 2 * fwd)) {
        missing += 1;
    }
    missing
}

/// King safety of one colour; all zero when that king is not on the board
/// exactly once.
pub fn king_safety_of(pos: &Position, color: Color) -> (r: KingSafety)
    requires
        pos.wf(),
    ensures
        r == spec_king_safety(pos@.board, color),
        r.attackers <= 4096,
        r.king_square matches Some(k) ==> k < 64,
{
    let b = &pos.board;
    let king = match king_of(b, color) {
        None => return KingSafety { attackers: 0, missing_shield_pawns: 0, king_square: None },
        Some(k) => k,
    };
    let occ = occupied(b);
    let enemy = color.other();
    let ring = Piece { color, role: Role::King };
    let mut total: u32 = 0;
    let mut t: usize = 0;
    while t < 64
        invariant
            b.wf(),
            b@ == pos@.board,
            occ@ == occupancy(b@),
            king < 64,
            enemy == other(color),
            ring == (Piece { color, role: Role::King }),
            t <= 64,
            total == ring_pressure(b@, king as int, enemy, t as int),
            total <= 64 * t,
        decreases 64 - t,
    {
        if attacks(ring, king, t, &occ) {
            total = total + attack_count(b, t, enemy, &occ);
        }
        t += 1;
    }
    KingSafety {
        attackers: total,
        missing_shield_pawns: missing_shield_pawns(b, color, king),
        king_square: Some(king as u8),
    }
}

/// King safety of both colours.
pub fn king_safety(pos: &Position) -> (r: ColorPair<KingSafety>)
    requires
        pos.wf(),
    ensures
        r.white == spec_king_safety(pos@.board, Color::White),
        r.black == spec_king_safety(pos@.board, Color::Black),
        r.white.attackers <= 4096,
        r.black.attackers <= 4096,
        r.white.king_square matches Some(k) ==> k < 64,
        r.black.king_square matches Some(k) ==> k < 64,
{
    ColorPair { white: king_safety_of(pos, Color::White), black: king_safety_of(pos, Color::Black) }
}

// ---------------------------------------------------------------------------
// Mobility
// ---------------------------------------------------------------------------

/// Legal move counts: the side to move directly, the other side through a
/// null move, which is 0 when the null move is illegal (the side to move is
/// in check).
pub open spec fn spec_mobility(pos: PositionView) -> ColorPair<u32> {
    let to_move = move_count(pos.fen) as u32;
    let waiting = match fen_swapped(pos.fen) {
        Some(f) => move_count(f) as u32,
        None => 0u32,
    };
    match pos.turn {
        Color::White => ColorPair { white: to_move, black: waiting },
        Color::Black => ColorPair { white: waiting, black: to_move },
    }
}

/// Legal move count for each colour.
pub fn mobility(pos: &Position) -> (r: ColorPair<u32>)
    ensures
        r == spec_mobility(pos@),
        r.white <= 256,
        r.black <= 256,
{
    let to_move = crate::position::legal_move_total(pos.fen.as_str()) as u32;
    let waiting = swapped_move_count(pos.fen.as_str());
    match pos.turn {
        Color::White => ColorPair { white: to_move, black: waiting },
        Color::Black => ColorPair { white: waiting, black: to_move },
    }
}


// ---------------------------------------------------------------------------
// Pawn structure
// ---------------------------------------------------------------------------

/// The names of the squares below `n` satisfying `p`.
pub open spec fn named_below(p: spec_fn(int) -> bool, n: int) -> Set<Seq<char>> {
    Set::new(|x: Seq<char>| exists|s: int| 0 <= s < n && #[trigger] p(s) && square_name(s) == x)
}

/// A list holds exactly the names of the squares satisfying `p`, in string
/// order.
pub open spec fn lists_squares(v: Seq<Seq<char>>, p: spec_fn(int) -> bool) -> bool {
    &&& strictly_sorted(v)
    &&& forall|x: Seq<char>| v.contains(x) <==> named_below(p, 64).contains(x)
}

/// Add the name of square `s` to a sorted list when it satisfies `p`.
fn collect_square(v: &mut Vec<String>, hit: bool, s: usize, Ghost(p): Ghost<spec_fn(int) -> bool>)
    requires
        s < 64,
        hit == p(s as int),
        strictly_sorted(strings_view(old(v)@)),
        forall|x: Seq<char>| strings_view(old(v)@).contains(x) <==> named_below(p, s as int).contains(x),
    ensures
        strictly_sorted(strings_view(final(v)@)),
        forall|x: Seq<char>| strings_view(final(v)@).contains(x) <==> named_below(p, s as int + 1).contains(x),
{
    let ghost before = strings_view(v@);
    if hit {
        let name = square_string(s);
        let ghost nm = name@;
        insert_sorted(v, name);
        assert forall|x: Seq<char>| strings_view(v@).contains(x) <==> named_below(p, s as int + 1).contains(x) by {
            if strings_view(v@).contains(x) {
                if x == nm {
                    assert(p(s as int) && square_name(s as int) == x);
                } else {
                    assert(named_below(p, s as int).contains(x));
                    let w = choose|w: int| 0 <= w < s && #[trigger] p(w) && square_name(w) == x;
                    assert(0 <= w < s + 1 && p(w) && square_name(w) == x);
                }
            }
            if named_below(p, s as int + 1).contains(x) {
                let w = choose|w: int| 0 <= w < s + 1 && #[trigger] p(w) && square_name(w) == x;
                if w < s {
                    assert(named_below(p, s as int).contains(x));
                }
            }
        }
    } else {
        assert forall|x: Seq<char>| strings_view(v@).contains(x) <==> named_below(p, s as int + 1).contains(x) by {
            if strings_view(v@).contains(x) {
                assert(before.contains(x));
                assert(named_below(p, s as int).contains(x));
                let w = choose|w: int| 0 <= w < s && #[trigger] p(w) && square_name(w) == x;
                assert(0 <= w < s + 1 && p(w) && square_name(w) == x);
            }
            if named_below(p, s as int + 1).contains(x) {
                let w = choose|w: int| 0 <= w < s + 1 && #[trigger] p(w) && square_name(w) == x;
                assert(w != s);
                assert(named_below(p, s as int).contains(x));
            }
        }
    }
}

pub open spec fn own_pawn(b: Seq<Option<Piece>>, color: Color, s: int) -> bool {
    b[s] == Some(Piece { color, role: Role::Pawn })
}

/// No friendly pawn on either neighbouring file.
pub open spec fn isolated_pawn(b: Seq<Option<Piece>>, color: Color, s: int) -> bool {
    own_pawn(b, color, s) && !exists|t: int|
        0 <= t < 64 && #[trigger] own_pawn(b, color, t) && abs(file_of(t) - file_of(s)) == 1
}

/// Another friendly pawn on the same file.
pub open spec fn doubled_pawn(b: Seq<Option<Piece>>, color: Color, s: int) -> bool {
    own_pawn(b, color, s) && exists|t: int|
        0 <= t < 64 && t != s && #[trigger] own_pawn(b, color, t) && file_of(t) == file_of(s)
}

/// Rank `r2` lies strictly ahead of rank `r` for `color`.
pub open spec fn ahead(color: Color, r: int, r2: int) -> bool {
    match color {
        Color::White => r2 > r,
        Color::Black => r2 < r,
    }
}

/// No enemy pawn ahead of it on its own file or a neighbouring one. A pawn
/// blocked by a friendly pawn still counts.
pub open spec fn passed_pawn(b: Seq<Option<Piece>>, color: Color, s: int) -> bool {
    own_pawn(b, color, s) && !exists|t: int|
        0 <= t < 64 && #[trigger] own_pawn(b, other(color), t) && abs(file_of(t) - file_of(s)) <= 1 && ahead(
            color,
            rank_of(s),
            rank_of(t),
        )
}

fn own_pawn_of(b: &Board, color: Color, s: usize) -> (r: bool)
    requires
        b.wf(),
        s < 64,
    ensures
        r == own_pawn(b@, color, s as int),
{
    match b.cells[s] {
        Some(p) => p.color == color && matches!(p.role, Role::Pawn),
        None => false,
    }
}

/// Isolated, doubled and passed, for the pawn of `color` on `s`.
fn pawn_traits(b: &Board, color: Color, s: usize) -> (r: (bool, bool, bool))
    requires
        b.wf(),
        s < 64,
        own_pawn(b@, color, s as int),
    ensures
        r.0 == isolated_pawn(b@, color, s as int),
        r.1 == doubled_pawn(b@, color, s as int),
        r.2 == passed_pawn(b@, color, s as int),
{
    let enemy = color.other();
    let f = file(s) as i32;
    let r = rank(s) as i32;
    let mut neighbour = false;
    let mut twin = false;
    let mut blocker = false;
    let mut t: usize = 0;
    while t < 64
        invariant
            b.wf(),
            s < 64,
            enemy == other(color),
            f == file_of(s as int),
            r == rank_of(s as int),
            t <= 64,
            neighbour == exists|u: int| 0 <= u < t && #[trigger] own_pawn(b@, color, u) && abs(file_of(u) - file_of(s as int)) == 1,
            twin == exists|u: int| 0 <= u < t && u != s && #[trigger] own_pawn(b@, color, u) && file_of(u) == file_of(s as int),
            blocker == exists|u: int|
                0 <= u < t && #[trigger] own_pawn(b@, enemy, u) && abs(file_of(u) - file_of(s as int)) <= 1 && ahead(
                    color,
                    rank_of(s as int),
                    rank_of(u),
                ),
        decreases 64 - t,
    {
        let tf = file(t) as i32;
        let tr = rank(t) as i32;
        let df = if tf > f { tf - f } else { f - tf };
        let mine = own_pawn_of(b, color, t);
        let theirs = own_pawn_of(b, enemy, t);
        let in_front = match color {
            Color::White => tr > r,
            Color::Black => tr < r,
        };
        if mine && df == 1 {
            neighbour = true;
        }
        if mine && t != s && df == 0 {
            twin = true;
        }
        if theirs && df <= 1 && in_front {
            blocker = true;
        }
        proof {
            if mine && df == 1 {
                assert(0 <= t < t + 1 && own_pawn(b@, color, t as int));
            }
            if mine && t != s && df == 0 {
                assert(0 <= t < t + 1 && own_pawn(b@, color, t as int));
            }
            if theirs && df <= 1 && in_front {
                assert(0 <= t < t + 1 && own_pawn(b@, enemy, t as int));
            }
        }
        t += 1;
    }
    (!neighbour, twin, !blocker)
}

/// The pawn structure of one colour: isolated, doubled and passed pawns,
/// each as square names in string order.
pub fn pawn_structure_of(pos: &Position, color: Color) -> (r: PawnStructure)
    requires
        pos.wf(),
    ensures
        lists_squares(strings_view(r.isolated@), |s: int| isolated_pawn(pos@.board, color, s)),
        lists_squares(strings_view(r.doubled@), |s: int| doubled_pawn(pos@.board, color, s)),
        lists_squares(strings_view(r.passed@), |s: int| passed_pawn(pos@.board, color, s)),
{
    let b = &pos.board;
    let ghost pi = |s: int| isolated_pawn(b@, color, s);
    let ghost pd = |s: int| doubled_pawn(b@, color, s);
    let ghost pp = |s: int| passed_pawn(b@, color, s);
    let mut isolated: Vec<String> = Vec::new();
    let mut doubled: Vec<String> = Vec::new();
    let mut passed: Vec<String> = Vec::new();
    let mut s: usize = 0;
    while s < 64
        invariant
            b.wf(),
            b@ == pos@.board,
            s <= 64,
            pi == (|x: int| isolated_pawn(b@, color, x)),
            pd == (|x: int| doubled_pawn(b@, color, x)),
            pp == (|x: int| passed_pawn(b@, color, x)),
            strictly_sorted(strings_view(isolated@)),
            strictly_sorted(strings_view(doubled@)),
            strictly_sorted(strings_view(passed@)),
            forall|x: Seq<char>| strings_view(isolated@).contains(x) <==> named_below(pi, s as int).contains(x),
            forall|x: Seq<char>| strings_view(doubled@).contains(x) <==> named_below(pd, s as int).contains(x),
            forall|x: Seq<char>| strings_view(passed@).contains(x) <==> named_below(pp, s as int).contains(x),
        decreases 64 - s,
    {
        let (i, d, p) = if own_pawn_of(b, color, s) {
            pawn_traits(b, color, s)
        } else {
            (false, false, false)
        };
        collect_square(&mut isolated, i, s, Ghost(pi));
        collect_square(&mut doubled, d, s, Ghost(pd));
        collect_square(&mut passed, p, s, Ghost(pp));
        s += 1;
    }
    PawnStructure { isolated, doubled, passed }
}

// ---------------------------------------------------------------------------
// Open files
// ---------------------------------------------------------------------------

/// A rook or a queen, of either colour.
pub open spec fn heavy(c: Option<Piece>) -> bool {
    c matches Some(p) && (p.role == Role::Rook || p.role == Role::Queen)
}

pub open spec fn file_has_pawn(b: Seq<Option<Piece>>, color: Color, f: int) -> bool {
    exists|r: int| 0 <= r < 8 && #[trigger] pawn_on(b, color, f, r)
}

/// The rooks and queens on file `f`, from the first rank up.
pub open spec fn heavy_on_file(b: Seq<Option<Piece>>, f: int) -> Seq<usize> {
    squares_where(|s: int| file_of(s) == f && heavy(b[s]), 64)
}

/// The entry for file `f`, unless it holds pawns of both colours.
pub open spec fn open_file_entry(b: Seq<Option<Piece>>, f: int) -> Option<OpenFileView> {
    let w = file_has_pawn(b, Color::White, f);
    let k = file_has_pawn(b, Color::Black, f);
    if w && k {
        None
    } else {
        Some(
            OpenFileView {
                file: seq![crate::position::file_char(f)],
                fully_open: !w && !k,
                occupied_by: names_of(heavy_on_file(b, f)),
            },
        )
    }
}

/// The open and half-open files among the first `n`, from the a-file on.
pub open spec fn open_files_upto(b: Seq<Option<Piece>>, n: int) -> Seq<OpenFileView>
    decreases n,
{
    if n <= 0 {
        seq![]
    } else {
        match open_file_entry(b, n - 1) {
            Some(e) => open_files_upto(b, n - 1).push(e),
            None => open_files_upto(b, n - 1),
        }
    }
}

fn file_pawns(b: &Board, color: Color, f: usize) -> (r: bool)
    requires
        b.wf(),
        f < 8,
    ensures
        r == file_has_pawn(b@, color, f as int),
{
    let mut r: usize = 0;
    while r < 8
        invariant
            b.wf(),
            f < 8,
            r <= 8,
            forall|q: int| 0 <= q < r ==> !pawn_on(b@, color, f as int, q),
        decreases 8 - r,
    {
        if pawn_at(b, color, f as i32, r as i32) {
            return true;
        }
        r += 1;
    }
    false
}

fn heavy_squares(b: &Board, f: usize) -> (r: Vec<usize>)
    requires
        b.wf(),
        f < 8,
    ensures
        r@ == heavy_on_file(b@, f as int),
{
    let ghost p = |s: int| file_of(s) == f && heavy(b@[s]);
    let mut out: Vec<usize> = Vec::new();
    let mut s: usize = 0;
    while s < 64
        invariant
            b.wf(),
            s <= 64,
            p == (|x: int| file_of(x) == f && heavy(b@[x])),
            out@ == squares_where(p, s as int),
        decreases 64 - s,
    {
        let hit = file(s) == f && match b.cells[s] {
            Some(pc) => matches!(pc.role, Role::Rook) || matches!(pc.role, Role::Queen),
            None => false,
        };
        assert(hit == p(s as int));
        if hit {
            out.push(s);
        }
        assert(squares_where(p, s as int + 1) == if p(s as int) {
            squares_where(p, s as int).push(s)
        } else {
            squares_where(p, s as int)
        });
        s += 1;
    }
    out
}

/// Files with no pawn of at least one colour, with the rooks and queens on
/// them.
pub fn open_files(pos: &Position) -> (r: Vec<OpenFile>)
    requires
        pos.wf(),
    ensures
        open_file_views(r@) == open_files_upto(pos@.board, 8),
{
    let b = &pos.board;
    let mut out: Vec<OpenFile> = Vec::new();
    let mut f: usize = 0;
    while f < 8
        invariant
            b.wf(),
            b@ == pos@.board,
            f <= 8,
            open_file_views(out@) == open_files_upto(b@, f as int),
        decreases 8 - f,
    {
        let w = file_pawns(b, Color::White, f);
        let k = file_pawns(b, Color::Black, f);
        if !(w && k) {
            let mut name: Vec<char> = Vec::new();
            name.push(crate::position::file_letter(f));
            let entry = OpenFile {
                file: crate::text::string_from_chars(&name),
                fully_open: !w && !k,
                occupied_by: square_names(&heavy_squares(b, f)),
            };
            let ghost before = out@;
            out.push(entry);
            assert(name@ =~= seq![crate::position::file_char(f as int)]);
            assert(open_file_views(out@) =~= open_file_views(before).push(out@.last()@));
        }
        f += 1;
    }
    out
}


// ---------------------------------------------------------------------------
// Extraction
// ---------------------------------------------------------------------------

/// `f` holds the features of the position `pos`.
pub open spec fn extracted(pos: PositionView, f: Features) -> bool {
    let b = pos.board;
    &&& f.material == material_sum(b, 64)
    &&& hanging_views(f.hanging@) == hanging_upto(b, 64)
    &&& f.center_control.white == center_attacks(b, Color::White)
    &&& f.center_control.black == center_attacks(b, Color::Black)
    &&& f.king_safety.white == spec_king_safety(b, Color::White)
    &&& f.king_safety.black == spec_king_safety(b, Color::Black)
    &&& lists_squares(strings_view(f.pawn_structure.white.isolated@), |s: int| isolated_pawn(b, Color::White, s))
    &&& lists_squares(strings_view(f.pawn_structure.white.doubled@), |s: int| doubled_pawn(b, Color::White, s))
    &&& lists_squares(strings_view(f.pawn_structure.white.passed@), |s: int| passed_pawn(b, Color::White, s))
    &&& lists_squares(strings_view(f.pawn_structure.black.isolated@), |s: int| isolated_pawn(b, Color::Black, s))
    &&& lists_squares(strings_view(f.pawn_structure.black.doubled@), |s: int| doubled_pawn(b, Color::Black, s))
    &&& lists_squares(strings_view(f.pawn_structure.black.passed@), |s: int| passed_pawn(b, Color::Black, s))
    &&& open_file_views(f.open_files@) == open_files_upto(b, 8)
    &&& f.mobility == spec_mobility(pos)
}

/// The ranges that features of a real position stay in.
pub open spec fn features_bounded(f: Features) -> bool {
    &&& -57600 <= f.material <= 57600
    &&& f.hanging@.len() <= 64
    &&& f.center_control.white <= 256
    &&& f.center_control.black <= 256
    &&& f.king_safety.white.attackers <= 4096
    &&& f.king_safety.black.attackers <= 4096
    &&& f.king_safety.white.king_square matches Some(k) ==> k < 64
    &&& f.king_safety.black.king_square matches Some(k) ==> k < 64
    &&& f.mobility.white <= 256
    &&& f.mobility.black <= 256
}

/// Pawn structures of both colours.
pub fn pawn_structure(pos: &Position) -> (r: ColorPair<PawnStructure>)
    requires
        pos.wf(),
    ensures
        lists_squares(strings_view(r.white.isolated@), |s: int| isolated_pawn(pos@.board, Color::White, s)),
        lists_squares(strings_view(r.white.doubled@), |s: int| doubled_pawn(pos@.board, Color::White, s)),
        lists_squares(strings_view(r.white.passed@), |s: int| passed_pawn(pos@.board, Color::White, s)),
        lists_squares(strings_view(r.black.isolated@), |s: int| isolated_pawn(pos@.board, Color::Black, s)),
        lists_squares(strings_view(r.black.doubled@), |s: int| doubled_pawn(pos@.board, Color::Black, s)),
        lists_squares(strings_view(r.black.passed@), |s: int| passed_pawn(pos@.board, Color::Black, s)),
{
    ColorPair { white: pawn_structure_of(pos, Color::White), black: pawn_structure_of(pos, Color::Black) }
}

/// All the features of a position.
pub fn extract(pos: &Position) -> (r: Features)
    requires
        pos.wf(),
    ensures
        extracted(pos@, r),
        features_bounded(r),
{
    Features {
        material: material(pos),
        hanging: hanging(pos),
        center_control: center_control(pos),
        king_safety: king_safety(pos),
        pawn_structure: pawn_structure(pos),
        open_files: open_files(pos),
        mobility: mobility(pos),
    }
}

// ---------------------------------------------------------------------------
// Diff
// ---------------------------------------------------------------------------

/// Any material change at all (values are multiples of a pawn).
pub const MATERIAL_THRESHOLD: i32 = 100;
/// Two attackers more or fewer on the centre is a real change in the grip on it.
pub const CENTER_CONTROL_THRESHOLD: i32 = 2;
/// One attacker appearing next to a king is routine, two is the start of something.
pub const KING_ATTACKER_THRESHOLD: i32 = 2;
/// A single piece move routinely swings the legal move count by a few.
pub const MOBILITY_THRESHOLD: i32 = 5;

/// A change between two positions. Only what moved is listed.
#[derive(Debug, Clone, PartialEq, Eq)]
pub struct FeatureChange {
    /// "material", "hanging", "center_control", "king_safety",
    /// "pawn_structure", "mobility" or "open_files".
    pub kind: String,
    /// "white", "black" or "both".
    pub side: String,
    /// The numeric change, where it has a direction.
    pub delta: Option<i64>,
    /// The squares involved.
    pub squares: Vec<String>,
}

/// The features of two positions and what changed between them.
#[derive(Debug, Clone, PartialEq, Eq)]
pub struct StaticDiff {
    pub before: Features,
    pub after: Features,
    pub changes: Vec<FeatureChange>,
}

/// How the squares of a change are listed: exactly as given, or as the
/// members of a set in string order.
pub enum Listing {
    Exactly(Seq<Seq<char>>),
    Sorted(Set<Seq<char>>),
}

/// What a change must hold.
pub struct ChangeSpec {
    pub kind: Seq<char>,
    pub side: Seq<char>,
    pub delta: Option<i64>,
    pub squares: Listing,
}

pub open spec fn realizes(c: FeatureChange, t: ChangeSpec) -> bool {
    &&& c.kind@ == t.kind
    &&& c.side@ == t.side
    &&& c.delta == t.delta
    &&& match t.squares {
        Listing::Exactly(v) => strings_view(c.squares@) == v,
        Listing::Sorted(set) => strictly_sorted(strings_view(c.squares@)) && forall|x: Seq<char>|
            strings_view(c.squares@).contains(x) <==> set.contains(x),
    }
}

pub open spec fn realizes_all(cs: Seq<FeatureChange>, ts: Seq<ChangeSpec>) -> bool {
    &&& cs.len() == ts.len()
    &&& forall|i: int| 0 <= i < cs.len() ==> #[trigger] realizes(cs[i], ts[i])
}

/// The strings of a list, as a set.
pub open spec fn members(v: Seq<Seq<char>>) -> Set<Seq<char>> {
    Set::new(|x: Seq<char>| v.contains(x))
}

/// Strings in exactly one of two sets.
pub open spec fn sym_diff(a: Set<Seq<char>>, b: Set<Seq<char>>) -> Set<Seq<char>> {
    a.difference(b).union(b.difference(a))
}

/// Symmetric difference of two square lists, sorted and without repeats.
pub fn set_difference(before: &Vec<String>, after: &Vec<String>) -> (r: Vec<String>)
    ensures
        strictly_sorted(strings_view(r@)),
        forall|x: Seq<char>|
            strings_view(r@).contains(x) <==> sym_diff(
                members(strings_view(before@)),
                members(strings_view(after@)),
            ).contains(x),
{
    let ghost bv = strings_view(before@);
    let ghost av = strings_view(after@);
    let mut out: Vec<String> = Vec::new();
    let mut i: usize = 0;
    while i < before.len()
        invariant
            i <= before@.len(),
            bv == strings_view(before@),
            av == strings_view(after@),
            strictly_sorted(strings_view(out@)),
            forall|x: Seq<char>|
                #[trigger] strings_view(out@).contains(x) <==> (bv.subrange(0, i as int).contains(x) && !av.contains(x)),
        decreases before.len() - i,
    {
        let ghost prev = strings_view(out@);
        assert(bv[i as int] == before@[i as int]@);
        let present = crate::text::contains_str(after, before[i].as_str());
        if !present {
            insert_sorted(&mut out, before[i].clone());
        }
        let ghost sub0 = bv.subrange(0, i as int);
        let ghost sub1 = bv.subrange(0, i as int + 1);
        assert(sub1 =~= sub0.push(bv[i as int]));
        assert forall|x: Seq<char>|
            strings_view(out@).contains(x) <==> (sub1.contains(x) && !av.contains(x)) by {
            if present {
                assert(strings_view(out@) == prev);
                assert(av.contains(bv[i as int]));
            } else {
                assert(strings_view(out@).contains(x) <==> (prev.contains(x) || x == bv[i as int]));
            }
            assert(prev.contains(x) <==> (sub0.contains(x) && !av.contains(x)));
            if sub1.contains(x) {
                let k = choose|k: int| 0 <= k < sub1.len() && #[trigger] sub1[k] == x;
                if k < i {
                    assert(sub0[k] == x);
                }
            }
            if sub0.contains(x) {
                let k = choose|k: int| 0 <= k < sub0.len() && #[trigger] sub0[k] == x;
                assert(sub1[k] == x);
            }
            if x == bv[i as int] {
                assert(sub1[i as int] == x);
            }
        }
        i += 1;
    }
    assert(bv.subrange(0, before@.len() as int) =~= bv);
    assert(av.subrange(0, 0) =~= Seq::<Seq<char>>::empty());
    let mut j: usize = 0;
    while j < after.len()
        invariant
            j <= after@.len(),
            bv == strings_view(before@),
            av == strings_view(after@),
            strictly_sorted(strings_view(out@)),
            forall|x: Seq<char>|
                #[trigger] strings_view(out@).contains(x) <==> ((bv.contains(x) && !av.contains(x)) || (av.subrange(
                    0,
                    j as int,
                ).contains(x) && !bv.contains(x))),
        decreases after.len() - j,
    {
        let ghost prev = strings_view(out@);
        assert(av[j as int] == after@[j as int]@);
        let present = crate::text::contains_str(before, after[j].as_str());
        if !present {
            insert_sorted(&mut out, after[j].clone());
        }
        let ghost sub0 = av.subrange(0, j as int);
        let ghost sub1 = av.subrange(0, j as int + 1);
        assert(sub1 =~= sub0.push(av[j as int]));
        assert forall|x: Seq<char>|
            strings_view(out@).contains(x) <==> ((bv.contains(x) && !av.contains(x)) || (sub1.contains(x)
                && !bv.contains(x))) by {
            if present {
                assert(strings_view(out@) == prev);
                assert(bv.contains(av[j as int]));
            } else {
                assert(strings_view(out@).contains(x) <==> (prev.contains(x) || x == av[j as int]));
            }
            assert(prev.contains(x) <==> ((bv.contains(x) && !av.contains(x)) || (sub0.contains(x) && !bv.contains(x))));
            if sub1.contains(x) {
                let k = choose|k: int| 0 <= k < sub1.len() && #[trigger] sub1[k] == x;
                if k < j {
                    assert(sub0[k] == x);
                }
            }
            if sub0.contains(x) {
                let k = choose|k: int| 0 <= k < sub0.len() && #[trigger] sub0[k] == x;
                assert(sub1[k] == x);
            }
            if x == av[j as int] {
                assert(sub1[j as int] == x);
            }
        }
        j += 1;
    }
    assert(av.subrange(0, after@.len() as int) =~= av);
    out
}

/// The squares of a list of hanging pieces.
pub open spec fn hanging_square_list(hs: Seq<HangingPiece>) -> Seq<Seq<char>> {
    hs.map_values(|h: HangingPiece| h.square@)
}

fn hanging_squares_of(hs: &Vec<HangingPiece>) -> (r: Vec<String>)
    ensures
        strings_view(r@) == hanging_square_list(hs@),
{
    let mut out: Vec<String> = Vec::new();
    let mut i: usize = 0;
    while i < hs.len()
        invariant
            i <= hs@.len(),
            strings_view(out@) == hanging_square_list(hs@.subrange(0, i as int)),
        decreases hs.len() - i,
    {
        out.push(hs[i].square.clone());
        assert(hanging_square_list(hs@.subrange(0, i as int + 1)) =~= hanging_square_list(
            hs@.subrange(0, i as int),
        ).push(hs@[i as int].square@));
        assert(strings_view(out@) =~= hanging_square_list(hs@.subrange(0, i as int + 1)));
        i += 1;
    }
    assert(hs@.subrange(0, hs@.len() as int) =~= hs@);
    out
}

/// The colour of the first hanging piece at or after `i` standing on `x`.
pub open spec fn owner_in(hs: Seq<HangingPiece>, x: Seq<char>, i: int) -> Option<Seq<char>>
    decreases hs.len() - i,
{
    if i < 0 || i >= hs.len() {
        None
    } else if hs[i].square@ == x {
        Some(hs[i].color@)
    } else {
        owner_in(hs, x, i + 1)
    }
}

/// Whose piece on `x` changed status: looked up after the move, then before.
pub open spec fn owner(before: Features, after: Features, x: Seq<char>) -> Option<Seq<char>> {
    match owner_in(after.hanging@, x, 0) {
        Some(c) => Some(c),
        None => owner_in(before.hanging@, x, 0),
    }
}

/// Every owner found among `squares` is `c`, and one is found.
pub open spec fn sole_owner(before: Features, after: Features, squares: Set<Seq<char>>, c: Seq<char>) -> bool {
    &&& exists|x: Seq<char>| squares.contains(x) && owner(before, after, x) == Some(c)
    &&& forall|x: Seq<char>| squares.contains(x) ==> (owner(before, after, x) is None || owner(before, after, x) == Some(c))
}

/// The colour owning the pieces whose hanging status changed, "both" when
/// that is not a single colour.
pub open spec fn hanging_side(before: Features, after: Features, squares: Set<Seq<char>>) -> Seq<char> {
    if exists|c: Seq<char>| sole_owner(before, after, squares, c) {
        choose|c: Seq<char>| sole_owner(before, after, squares, c)
    } else {
        "both"@
    }
}

fn owner_of(hs: &Vec<HangingPiece>, x: &str) -> (r: Option<String>)
    ensures
        (match r {
            Some(c) => Some(c@),
            None => None::<Seq<char>>,
        }) == owner_in(hs@, x@, 0),
{
    let mut i: usize = 0;
    while i < hs.len()
        invariant
            i <= hs@.len(),
            owner_in(hs@, x@, 0) == owner_in(hs@, x@, i as int),
        decreases hs.len() - i,
    {
        if crate::text::str_eq(hs[i].square.as_str(), x) {
            return Some(hs[i].color.clone());
        }
        i += 1;
    }
    None
}

/// Which colour owns the pieces whose hanging status changed.
fn side_of_hanging(before: &Features, after: &Features, squares: &Vec<String>) -> (r: String)
    ensures
        r@ == hanging_side(*before, *after, members(strings_view(squares@))),
{
    let ghost sv = strings_view(squares@);
    let ghost set = members(sv);
    let mut colors: Vec<String> = Vec::new();
    let mut i: usize = 0;
    while i < squares.len()
        invariant
            i <= squares@.len(),
            sv == strings_view(squares@),
            strings_view(colors@).no_duplicates(),
            forall|c: Seq<char>|
                #[trigger] strings_view(colors@).contains(c) <==> exists|k: int|
                    0 <= k < i && owner(*before, *after, #[trigger] sv[k]) == Some(c),
        decreases squares.len() - i,
    {
        let found = match owner_of(&after.hanging, squares[i].as_str()) {
            Some(c) => Some(c),
            None => owner_of(&before.hanging, squares[i].as_str()),
        };
        let ghost prev = strings_view(colors@);
        assert(sv[i as int] == squares@[i as int]@);
        assert(found matches Some(c) ==> owner(*before, *after, sv[i as int]) == Some(c@));
        assert(found is None ==> owner(*before, *after, sv[i as int]) is None);
        let ghost fv = match &found {
            Some(c) => Some(c@),
            None => None::<Seq<char>>,
        };
        match found {
            Some(c) => {
                if !crate::text::contains_str(&colors, c.as_str()) {
                    colors.push(c);
                    assert(strings_view(colors@) =~= prev.push(colors@.last()@));
                }
            },
            None => {},
        }
        assert forall|c: Seq<char>|
            strings_view(colors@).contains(c) <==> exists|k: int|
                0 <= k < i + 1 && owner(*before, *after, #[trigger] sv[k]) == Some(c) by {
            assert(prev.contains(c) <==> exists|k: int| 0 <= k < i && owner(*before, *after, #[trigger] sv[k]) == Some(c));
            if fv == Some(c) {
                assert(strings_view(colors@).contains(c)) by {
                    if !prev.contains(c) {
                        assert(strings_view(colors@).last() == c);
                    } else {
                        let q = choose|q: int| 0 <= q < prev.len() && prev[q] == c;
                        assert(strings_view(colors@)[q] == c);
                    }
                }
            }
            if strings_view(colors@).contains(c) {
                let q = choose|q: int| 0 <= q < strings_view(colors@).len() && strings_view(colors@)[q] == c;
                if q < prev.len() {
                    assert(prev[q] == c);
                    assert(prev.contains(c));
                } else {
                    assert(fv == Some(c));
                }
            }
            if prev.contains(c) {
                let q = choose|q: int| 0 <= q < prev.len() && prev[q] == c;
                assert(strings_view(colors@)[q] == c);
            }
            if exists|k: int| 0 <= k < i + 1 && owner(*before, *after, #[trigger] sv[k]) == Some(c) {
                let k = choose|k: int| 0 <= k < i + 1 && owner(*before, *after, #[trigger] sv[k]) == Some(c);
                if k < i {
                    assert(prev.contains(c));
                } else {
                    assert(fv == Some(c));
                }
            }
            if prev.contains(c) {
                let k = choose|k: int| 0 <= k < i && owner(*before, *after, #[trigger] sv[k]) == Some(c);
                assert(0 <= k < i + 1);
            }
        }
        i += 1;
    }
    let ghost cv = strings_view(colors@);
    if colors.len() == 1 {
        proof {
            let c0 = cv[0];
            assert(cv.contains(c0));
            let k0 = choose|k: int| 0 <= k < sv.len() && owner(*before, *after, #[trigger] sv[k]) == Some(c0);
            assert(set.contains(sv[k0]));
            assert forall|x: Seq<char>| set.contains(x) implies (owner(*before, *after, x) is None || owner(
                *before,
                *after,
                x,
            ) == Some(c0)) by {
                let k = choose|k: int| 0 <= k < sv.len() && sv[k] == x;
                if let Some(c) = owner(*before, *after, x) {
                    assert(owner(*before, *after, sv[k]) == Some(c));
                    assert(cv.contains(c));
                }
            }
            assert(sole_owner(*before, *after, set, c0));
            let ch = choose|c: Seq<char>| sole_owner(*before, *after, set, c);
            let x = choose|x: Seq<char>| set.contains(x) && owner(*before, *after, x) == Some(ch);
            assert(owner(*before, *after, x) == Some(c0));
        }
        return colors[0].clone();
    }
    proof {
        if exists|c: Seq<char>| sole_owner(*before, *after, set, c) {
            let ch = choose|c: Seq<char>| sole_owner(*before, *after, set, c);
            let x = choose|x: Seq<char>| set.contains(x) && owner(*before, *after, x) == Some(ch);
            let k = choose|k: int| 0 <= k < sv.len() && sv[k] == x;
            assert(owner(*before, *after, sv[k]) == Some(ch));
            assert(cv.contains(ch));
            if cv.len() >= 2 {
                let other_c = if cv[0] == ch { cv[1] } else { cv[0] };
                assert(cv.contains(other_c));
                let k2 = choose|k: int| 0 <= k < sv.len() && owner(*before, *after, #[trigger] sv[k]) == Some(other_c);
                assert(set.contains(sv[k2]));
                assert(false);
            }
        }
    }
    "both".to_owned()
}


/// A difference that fits the `i32` arithmetic of the diff, absolute value
/// included.
pub open spec fn fits_delta(d: int) -> bool {
    i32::MIN < d <= i32::MAX
}

pub open spec fn king_reported(before: Features, after: Features, c: Color) -> bool {
    let ksb = pick_of(before.king_safety, c);
    let ksa = pick_of(after.king_safety, c);
    let ad = (ksa.attackers as i32) - (ksb.attackers as i32);
    ad >= 2 || ad <= -2 || ksa.missing_shield_pawns != ksb.missing_shield_pawns
}

/// What the diff of one colour needs: differences that fit `i32`, and a
/// king square on the board wherever one is reported.
pub open spec fn color_defined(before: Features, after: Features, c: Color) -> bool {
    &&& fits_delta((pick_of(after.center_control, c) as i32) - (pick_of(before.center_control, c) as i32))
    &&& fits_delta((pick_of(after.king_safety, c).attackers as i32) - (pick_of(before.king_safety, c).attackers as i32))
    &&& fits_delta((pick_of(after.mobility, c) as i32) - (pick_of(before.mobility, c) as i32))
    &&& king_reported(before, after, c) ==> (pick_of(after.king_safety, c).king_square matches Some(k) ==> k < 64)
}

/// The inputs on which the diff is defined (the arithmetic does not
/// overflow and no square index is out of range).
pub open spec fn changes_defined(before: Features, after: Features) -> bool {
    &&& fits_delta(after.material - before.material)
    &&& before.hanging@.len() <= i64::MAX
    &&& after.hanging@.len() <= i64::MAX
    &&& color_defined(before, after, Color::White)
    &&& color_defined(before, after, Color::Black)
}

pub open spec fn center_names() -> Seq<Seq<char>> {
    seq!["d4"@, "e4"@, "d5"@, "e5"@]
}

pub open spec fn material_changes(before: Features, after: Features) -> Seq<ChangeSpec> {
    let d = after.material - before.material;
    if d >= 100 || d <= -100 {
        seq![ChangeSpec { kind: "material"@, side: "both"@, delta: Some(d as i64), squares: Listing::Exactly(seq![]) }]
    } else {
        seq![]
    }
}

pub open spec fn hanging_set(before: Features, after: Features) -> Set<Seq<char>> {
    sym_diff(members(hanging_square_list(before.hanging@)), members(hanging_square_list(after.hanging@)))
}

pub open spec fn hanging_changes(before: Features, after: Features) -> Seq<ChangeSpec> {
    let set = hanging_set(before, after);
    if exists|x: Seq<char>| set.contains(x) {
        seq![
            ChangeSpec {
                kind: "hanging"@,
                side: hanging_side(before, after, set),
                delta: Some((after.hanging@.len() - before.hanging@.len()) as i64),
                squares: Listing::Sorted(set),
            },
        ]
    } else {
        seq![]
    }
}

pub open spec fn pawn_set(psb: PawnStructure, psa: PawnStructure) -> Set<Seq<char>> {
    sym_diff(members(strings_view(psb.isolated@)), members(strings_view(psa.isolated@))).union(
        sym_diff(members(strings_view(psb.doubled@)), members(strings_view(psa.doubled@))),
    ).union(sym_diff(members(strings_view(psb.passed@)), members(strings_view(psa.passed@))))
}

/// The changes of one colour: centre, king, pawns, mobility, in that order.
pub open spec fn color_changes(before: Features, after: Features, c: Color) -> Seq<ChangeSpec> {
    let name = color_name(c);
    let cd = (pick_of(after.center_control, c) as i32) - (pick_of(before.center_control, c) as i32);
    let center = if cd >= 2 || cd <= -2 {
        seq![ChangeSpec { kind: "center_control"@, side: name, delta: Some(cd as i64), squares: Listing::Exactly(center_names()) }]
    } else {
        seq![]
    };
    let ksb = pick_of(before.king_safety, c);
    let ksa = pick_of(after.king_safety, c);
    let ad = (ksa.attackers as i32) - (ksb.attackers as i32);
    let king = if king_reported(before, after, c) {
        seq![
            ChangeSpec {
                kind: "king_safety"@,
                side: name,
                delta: Some(ad as i64),
                squares: Listing::Exactly(
                    match ksa.king_square {
                        Some(k) => seq![square_name(k as int)],
                        None => seq![],
                    },
                ),
            },
        ]
    } else {
        seq![]
    };
    let pawns = pawn_set(pick_of(before.pawn_structure, c), pick_of(after.pawn_structure, c));
    let pawn = if exists|x: Seq<char>| pawns.contains(x) {
        seq![ChangeSpec { kind: "pawn_structure"@, side: name, delta: None, squares: Listing::Sorted(pawns) }]
    } else {
        seq![]
    };
    let md = (pick_of(after.mobility, c) as i32) - (pick_of(before.mobility, c) as i32);
    let mob = if md >= 5 || md <= -5 {
        seq![ChangeSpec { kind: "mobility"@, side: name, delta: Some(md as i64), squares: Listing::Exactly(seq![]) }]
    } else {
        seq![]
    };
    center + king + pawn + mob
}

/// The index of the first entry at or after `i` for the file named `name`.
pub open spec fn find_file(files: Seq<OpenFile>, name: Seq<char>, i: int) -> Option<int>
    decreases files.len() - i,
{
    if i < 0 || i >= files.len() {
        None
    } else if files[i].file@ == name {
        Some(i)
    } else {
        find_file(files, name, i + 1)
    }
}

pub open spec fn file_entry(files: Seq<OpenFile>, name: Seq<char>) -> Option<OpenFileView> {
    match find_file(files, name, 0) {
        Some(i) => Some(files[i]@),
        None => None,
    }
}

/// `v` with the first `n` strings of `xs` appended, each unless already there.
pub open spec fn push_new(v: Seq<Seq<char>>, xs: Seq<Seq<char>>, n: int) -> Seq<Seq<char>>
    decreases n,
{
    if n <= 0 {
        v
    } else {
        let prev = push_new(v, xs, n - 1);
        if prev.contains(xs[n - 1]) {
            prev
        } else {
            prev.push(xs[n - 1])
        }
    }
}

/// For the first `n` files, from the a-file on: each file whose entry
/// changed, followed by the rooks and queens now claiming it.
pub open spec fn file_changes(before: Seq<OpenFile>, after: Seq<OpenFile>, n: int) -> Seq<Seq<char>>
    decreases n,
{
    if n <= 0 {
        seq![]
    } else {
        let prev = file_changes(before, after, n - 1);
        let name = seq![crate::position::file_char(n - 1)];
        let b = file_entry(before, name);
        let a = file_entry(after, name);
        if b == a {
            prev
        } else {
            match a {
                Some(e) => push_new(prev.push(name), e.occupied_by, e.occupied_by.len() as int),
                None => prev.push(name),
            }
        }
    }
}

pub open spec fn open_file_changes(before: Features, after: Features) -> Seq<ChangeSpec> {
    let sq = file_changes(before.open_files@, after.open_files@, 8);
    if sq.len() > 0 {
        seq![ChangeSpec { kind: "open_files"@, side: "both"@, delta: None, squares: Listing::Exactly(sq) }]
    } else {
        seq![]
    }
}

/// Everything that changed between two feature sets, in report order:
/// material, hanging pieces, then per colour (white first) centre, king,
/// pawns and mobility, then open files. Unchanged features are left out.
pub open spec fn spec_changes(before: Features, after: Features) -> Seq<ChangeSpec> {
    material_changes(before, after) + hanging_changes(before, after) + color_changes(before, after, Color::White)
        + color_changes(before, after, Color::Black) + open_file_changes(before, after)
}

fn push_change(out: &mut Vec<FeatureChange>, c: FeatureChange, Ghost(done): Ghost<Seq<ChangeSpec>>, Ghost(t): Ghost<ChangeSpec>)
    requires
        realizes_all(old(out)@, done),
        realizes(c, t),
    ensures
        realizes_all(final(out)@, done.push(t)),
{
    out.push(c);
    assert forall|i: int| 0 <= i < out@.len() implies #[trigger] realizes(out@[i], done.push(t)[i]) by {
        if i < done.len() {
            assert(realizes(out@[i], done[i]));
        }
    }
}

fn string_list_eq(a: &Vec<String>, b: &Vec<String>) -> (r: bool)
    ensures
        r == (strings_view(a@) == strings_view(b@)),
{
    if a.len() != b.len() {
        return false;
    }
    let mut i: usize = 0;
    while i < a.len()
        invariant
            a@.len() == b@.len(),
            i <= a@.len(),
            forall|k: int| 0 <= k < i ==> a@[k]@ == b@[k]@,
        decreases a.len() - i,
    {
        if !crate::text::str_eq(a[i].as_str(), b[i].as_str()) {
            assert(strings_view(a@)[i as int] != strings_view(b@)[i as int]);
            return false;
        }
        i += 1;
    }
    assert(strings_view(a@) =~= strings_view(b@));
    true
}

fn open_file_eq(a: &OpenFile, b: &OpenFile) -> (r: bool)
    ensures
        r == (a@ == b@),
{
    crate::text::str_eq(a.file.as_str(), b.file.as_str()) && a.fully_open == b.fully_open && string_list_eq(
        &a.occupied_by,
        &b.occupied_by,
    )
}

fn find_file_of(files: &Vec<OpenFile>, name: &str) -> (r: Option<usize>)
    ensures
        (match r {
            Some(i) => Some(i as int),
            None => None::<int>,
        }) == find_file(files@, name@, 0),
        r matches Some(i) ==> i < files@.len(),
{
    let mut i: usize = 0;
    while i < files.len()
        invariant
            i <= files@.len(),
            find_file(files@, name@, 0) == find_file(files@, name@, i as int),
        decreases files.len() - i,
    {
        if crate::text::str_eq(files[i].file.as_str(), name) {
            return Some(i);
        }
        i += 1;
    }
    None
}

fn push_new_all(v: &mut Vec<String>, xs: &Vec<String>)
    ensures
        strings_view(final(v)@) == push_new(strings_view(old(v)@), strings_view(xs@), xs@.len() as int),
{
    let ghost start = strings_view(v@);
    let mut i: usize = 0;
    while i < xs.len()
        invariant
            i <= xs@.len(),
            strings_view(v@) == push_new(start, strings_view(xs@), i as int),
        decreases xs.len() - i,
    {
        assert(strings_view(xs@)[i as int] == xs@[i as int]@);
        if !crate::text::contains_str(v, xs[i].as_str()) {
            let ghost before = strings_view(v@);
            v.push(xs[i].clone());
            assert(strings_view(v@) =~= before.push(xs@[i as int]@));
        }
        i += 1;
    }
}

fn file_squares_of(before: &Features, after: &Features) -> (r: Vec<String>)
    ensures
        strings_view(r@) == file_changes(before.open_files@, after.open_files@, 8),
{
    let mut out: Vec<String> = Vec::new();
    let mut f: usize = 0;
    while f < 8
        invariant
            f <= 8,
            strings_view(out@) == file_changes(before.open_files@, after.open_files@, f as int),
        decreases 8 - f,
    {
        let mut letter: Vec<char> = Vec::new();
        letter.push(crate::position::file_letter(f));
        let name = crate::text::string_from_chars(&letter);
        let ghost nm = seq![crate::position::file_char(f as int)];
        assert(name@ =~= nm);
        let bi = find_file_of(&before.open_files, name.as_str());
        let ai = find_file_of(&after.open_files, name.as_str());
        let same = match (bi, ai) {
            (None, None) => true,
            (Some(i), Some(j)) => open_file_eq(&before.open_files[i], &after.open_files[j]),
            _ => false,
        };
        assert(same == (file_entry(before.open_files@, nm) == file_entry(after.open_files@, nm)));
        if !same {
            let ghost prev = strings_view(out@);
            out.push(name);
            assert(strings_view(out@) =~= prev.push(nm));
            match ai {
                Some(j) => {
                    push_new_all(&mut out, &after.open_files[j].occupied_by);
                },
                None => {},
            }
        }
        f += 1;
    }
    out
}

/// Everything that changed between two feature sets, in report order.
pub fn collect_changes(before: &Features, after: &Features) -> (r: Vec<FeatureChange>)
    requires
        changes_defined(*before, *after),
    ensures
        realizes_all(r@, spec_changes(*before, *after)),
{
    let mut out: Vec<FeatureChange> = Vec::new();
    let ghost mut done: Seq<ChangeSpec> = seq![];

    let md = after.material - before.material;
    if md >= MATERIAL_THRESHOLD || md <= -MATERIAL_THRESHOLD {
        let ghost t = ChangeSpec { kind: "material"@, side: "both"@, delta: Some(md as i64), squares: Listing::Exactly(seq![]) };
        let c = FeatureChange { kind: "material".to_owned(), side: "both".to_owned(), delta: Some(md as i64), squares: Vec::new() };
        assert(strings_view(c.squares@) =~= seq![]);
        push_change(&mut out, c, Ghost(done), Ghost(t));
        proof { done = done.push(t); }
    }
    assert(done =~= material_changes(*before, *after));

    let bs = hanging_squares_of(&before.hanging);
    let as_ = hanging_squares_of(&after.hanging);
    let changed = set_difference(&bs, &as_);
    let ghost set = hanging_set(*before, *after);
    assert forall|x: Seq<char>| strings_view(changed@).contains(x) <==> set.contains(x) by {}
    if changed.len() > 0 {
        assert(set.contains(strings_view(changed@)[0]));
        assert(members(strings_view(changed@)) =~= set);
        let side = side_of_hanging(before, after, &changed);
        let delta = after.hanging.len() as i64 - before.hanging.len() as i64;
        let ghost t = ChangeSpec {
            kind: "hanging"@,
            side: hanging_side(*before, *after, set),
            delta: Some((after.hanging@.len() - before.hanging@.len()) as i64),
            squares: Listing::Sorted(set),
        };
        let c = FeatureChange { kind: "hanging".to_owned(), side, delta: Some(delta), squares: changed };
        push_change(&mut out, c, Ghost(done), Ghost(t));
        proof { done = done.push(t); }
        assert(done =~= material_changes(*before, *after) + hanging_changes(*before, *after));
    } else {
        assert(!exists|x: Seq<char>| set.contains(x)) by {
            if exists|x: Seq<char>| set.contains(x) {
                let x = choose|x: Seq<char>| set.contains(x);
                assert(strings_view(changed@).contains(x));
            }
        }
        assert(done =~= material_changes(*before, *after) + hanging_changes(*before, *after));
    }

    color_changes_of(before, after, Color::White, &mut out, Ghost(done));
    proof { done = done + color_changes(*before, *after, Color::White); }
    color_changes_of(before, after, Color::Black, &mut out, Ghost(done));
    proof { done = done + color_changes(*before, *after, Color::Black); }

    let squares = file_squares_of(before, after);
    if squares.len() > 0 {
        let ghost t = ChangeSpec {
            kind: "open_files"@,
            side: "both"@,
            delta: None,
            squares: Listing::Exactly(file_changes(before.open_files@, after.open_files@, 8)),
        };
        let c = FeatureChange { kind: "open_files".to_owned(), side: "both".to_owned(), delta: None, squares };
        push_change(&mut out, c, Ghost(done), Ghost(t));
        proof { done = done.push(t); }
        assert(done =~= spec_changes(*before, *after));
    } else {
        assert(done =~= spec_changes(*before, *after));
    }
    out
}

fn color_changes_of(
    before: &Features,
    after: &Features,
    color: Color,
    out: &mut Vec<FeatureChange>,
    Ghost(done): Ghost<Seq<ChangeSpec>>,
)
    requires
        color_defined(*before, *after, color),
        realizes_all(old(out)@, done),
    ensures
        realizes_all(final(out)@, done + color_changes(*before, *after, color)),
{
    let ghost mut acc = done;
    let name = color_str(color);
    let cd = after.center_control.pick(color) as i32 - before.center_control.pick(color) as i32;
    if cd >= CENTER_CONTROL_THRESHOLD || cd <= -CENTER_CONTROL_THRESHOLD {
        let mut squares: Vec<String> = Vec::new();
        squares.push("d4".to_owned());
        squares.push("e4".to_owned());
        squares.push("d5".to_owned());
        squares.push("e5".to_owned());
        assert(strings_view(squares@) =~= center_names());
        let ghost t = ChangeSpec {
            kind: "center_control"@,
            side: color_name(color),
            delta: Some(cd as i64),
            squares: Listing::Exactly(center_names()),
        };
        let c = FeatureChange { kind: "center_control".to_owned(), side: name.to_owned(), delta: Some(cd as i64), squares };
        push_change(out, c, Ghost(acc), Ghost(t));
        proof { acc = acc.push(t); }
    }
    let ghost after_center = acc;

    let ksb = before.king_safety.pick(color);
    let ksa = after.king_safety.pick(color);
    let ad = ksa.attackers as i32 - ksb.attackers as i32;
    if ad >= KING_ATTACKER_THRESHOLD || ad <= -KING_ATTACKER_THRESHOLD || ksa.missing_shield_pawns
        != ksb.missing_shield_pawns {
        let mut squares: Vec<String> = Vec::new();
        match ksa.king_square {
            Some(k) => {
                squares.push(square_string(k as usize));
            },
            None => {},
        }
        let ghost t = ChangeSpec {
            kind: "king_safety"@,
            side: color_name(color),
            delta: Some(ad as i64),
            squares: Listing::Exactly(
                match ksa.king_square {
                    Some(k) => seq![square_name(k as int)],
                    None => seq![],
                },
            ),
        };
        assert(strings_view(squares@) =~= match ksa.king_square {
            Some(k) => seq![square_name(k as int)],
            None => seq![],
        });
        let c = FeatureChange { kind: "king_safety".to_owned(), side: name.to_owned(), delta: Some(ad as i64), squares };
        push_change(out, c, Ghost(acc), Ghost(t));
        proof { acc = acc.push(t); }
    }
    let ghost after_king = acc;

    let (psb, psa) = match color {
        Color::White => (&before.pawn_structure.white, &after.pawn_structure.white),
        Color::Black => (&before.pawn_structure.black, &after.pawn_structure.black),
    };
    let ghost pawns = pawn_set(*psb, *psa);
    let mut pawn_squares: Vec<String> = Vec::new();
    let d1 = set_difference(&psb.isolated, &psa.isolated);
    let d2 = set_difference(&psb.doubled, &psa.doubled);
    let d3 = set_difference(&psb.passed, &psa.passed);
    insert_all(&mut pawn_squares, &d1);
    insert_all(&mut pawn_squares, &d2);
    insert_all(&mut pawn_squares, &d3);
    assert forall|x: Seq<char>| strings_view(pawn_squares@).contains(x) <==> pawns.contains(x) by {}
    if pawn_squares.len() > 0 {
        assert(pawns.contains(strings_view(pawn_squares@)[0]));
        let ghost t = ChangeSpec { kind: "pawn_structure"@, side: color_name(color), delta: None, squares: Listing::Sorted(pawns) };
        let c = FeatureChange { kind: "pawn_structure".to_owned(), side: name.to_owned(), delta: None, squares: pawn_squares };
        push_change(out, c, Ghost(acc), Ghost(t));
        proof { acc = acc.push(t); }
    } else {
        assert(!exists|x: Seq<char>| pawns.contains(x)) by {
            if exists|x: Seq<char>| pawns.contains(x) {
                let x = choose|x: Seq<char>| pawns.contains(x);
                assert(strings_view(pawn_squares@).contains(x));
            }
        }
    }
    let ghost after_pawn = acc;

    let mobility_delta = after.mobility.pick(color) as i32 - before.mobility.pick(color) as i32;
    if mobility_delta >= MOBILITY_THRESHOLD || mobility_delta <= -MOBILITY_THRESHOLD {
        let ghost t = ChangeSpec {
            kind: "mobility"@,
            side: color_name(color),
            delta: Some(mobility_delta as i64),
            squares: Listing::Exactly(seq![]),
        };
        let c = FeatureChange { kind: "mobility".to_owned(), side: name.to_owned(), delta: Some(mobility_delta as i64), squares: Vec::new() };
        assert(strings_view(c.squares@) =~= seq![]);
        push_change(out, c, Ghost(acc), Ghost(t));
        proof { acc = acc.push(t); }
    }
    assert(acc =~= done + color_changes(*before, *after, color));
}

/// Insert every string of `xs` into a strictly sorted list.
fn insert_all(v: &mut Vec<String>, xs: &Vec<String>)
    requires
        strictly_sorted(strings_view(old(v)@)),
    ensures
        strictly_sorted(strings_view(final(v)@)),
        forall|s: Seq<char>|
            #[trigger] strings_view(final(v)@).contains(s) <==> (strings_view(old(v)@).contains(s) || strings_view(
                xs@,
            ).contains(s)),
{
    let ghost start = strings_view(v@);
    let ghost xv = strings_view(xs@);
    let mut i: usize = 0;
    while i < xs.len()
        invariant
            i <= xs@.len(),
            xv == strings_view(xs@),
            strictly_sorted(strings_view(v@)),
            forall|s: Seq<char>|
                #[trigger] strings_view(v@).contains(s) <==> (start.contains(s) || xv.subrange(0, i as int).contains(s)),
        decreases xs.len() - i,
    {
        let ghost prev = strings_view(v@);
        let ghost sub0 = xv.subrange(0, i as int);
        let ghost sub1 = xv.subrange(0, i as int + 1);
        assert(sub1 =~= sub0.push(xv[i as int]));
        insert_sorted(v, xs[i].clone());
        assert forall|s: Seq<char>|
            strings_view(v@).contains(s) <==> (start.contains(s) || sub1.contains(s)) by {
            assert(prev.contains(s) <==> (start.contains(s) || sub0.contains(s)));
            if sub1.contains(s) {
                let k = choose|k: int| 0 <= k < sub1.len() && #[trigger] sub1[k] == s;
                if k < i {
                    assert(sub0[k] == s);
                }
            }
            if sub0.contains(s) {
                let k = choose|k: int| 0 <= k < sub0.len() && #[trigger] sub0[k] == s;
                assert(sub1[k] == s);
            }
            if s == xv[i as int] {
                assert(sub1[i as int] == s);
            }
        }
        i += 1;
    }
    assert(xv.subrange(0, xs@.len() as int) =~= xv);
}

/// Features of real positions always admit a diff.
pub proof fn lemma_bounded_features_diff(before: Features, after: Features)
    requires
        features_bounded(before),
        features_bounded(after),
    ensures
        changes_defined(before, after),
{
}

/// The features of two positions and what changed between them.
pub fn diff(before: &Position, after: &Position) -> (r: StaticDiff)
    requires
        before.wf(),
        after.wf(),
    ensures
        extracted(before@, r.before),
        extracted(after@, r.after),
        realizes_all(r.changes@, spec_changes(r.before, r.after)),
{
    let a = extract(before);
    let b = extract(after);
    proof {
        lemma_bounded_features_diff(a, b);
    }
    let changes = collect_changes(&a, &b);
    StaticDiff { before: a, after: b, changes }
}

proof fn lemma_file_changes_same(files: Seq<OpenFile>, n: int)
    ensures
        file_changes(files, files, n) == Seq::<Seq<char>>::empty(),
    decreases n,
{
    if n > 0 {
        lemma_file_changes_same(files, n - 1);
    }
}

/// A feature set compared with itself shows no change: the diff is empty,
/// and it is defined wherever the hanging list can be counted.
pub proof fn lemma_no_change_against_itself(f: Features)
    ensures
        spec_changes(f, f) == Seq::<ChangeSpec>::empty(),
        f.hanging@.len() <= i64::MAX ==> changes_defined(f, f),
{
    assert(hanging_set(f, f) =~= Set::<Seq<char>>::empty());
    assert(hanging_changes(f, f) == Seq::<ChangeSpec>::empty());
    assert forall|c: Color| #[trigger] color_changes(f, f, c) == Seq::<ChangeSpec>::empty() by {
        let p = pick_of(f.pawn_structure, c);
        assert(pawn_set(p, p) =~= Set::<Seq<char>>::empty());
        assert(!king_reported(f, f, c));
        assert(Seq::<ChangeSpec>::empty() + Seq::<ChangeSpec>::empty() + Seq::<ChangeSpec>::empty()
            + Seq::<ChangeSpec>::empty() =~= Seq::<ChangeSpec>::empty());
    }
    assert(color_changes(f, f, Color::White) == Seq::<ChangeSpec>::empty());
    assert(color_changes(f, f, Color::Black) == Seq::<ChangeSpec>::empty());
    lemma_file_changes_same(f.open_files@, 8);
    assert(material_changes(f, f) == Seq::<ChangeSpec>::empty());
    assert(spec_changes(f, f) =~= Seq::<ChangeSpec>::empty());
    assert(!king_reported(f, f, Color::White) && !king_reported(f, f, Color::Black));
}

} // verus!

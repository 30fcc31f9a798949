//! The board as plain values: 64 cells, indexed `rank * 8 + file` (a1 = 0,
//! h8 = 63), and the attack geometry of every piece on it.

use vstd::prelude::*;

verus! {

#[derive(Debug, Clone, Copy, PartialEq, Eq, Structural)]
pub enum Color {
    White,
    Black,
}

#[derive(Debug, Clone, Copy, PartialEq, Eq, Structural)]
pub enum Role {
    Pawn,
    Knight,
    Bishop,
    Rook,
    Queen,
    King,
}

#[derive(Debug, Clone, Copy, PartialEq, Eq, Structural)]
pub struct Piece {
    pub color: Color,
    pub role: Role,
}

pub open spec fn other(c: Color) -> Color {
    match c {
        Color::White => Color::Black,
        Color::Black => Color::White,
    }
}

impl Color {
    pub fn other(self) -> (r: Color)
        ensures
            r == other(self),
    {
        match self {
            Color::White => Color::Black,
            Color::Black => Color::White,
        }
    }
}

#[derive(Debug, Clone, Copy, PartialEq, Eq, Structural)]
pub enum MoveKind {
    Normal,
    EnPassant,
    /// Castling; `from` is the king's square and `to` the rook's.
    Castle,
}

/// A move, as plain values. For castling `to` is the rook's square.
#[derive(Debug, Clone, Copy, PartialEq, Eq, Structural)]
pub struct ChessMove {
    pub kind: MoveKind,
    /// The moving piece (the king for castling).
    pub role: Role,
    pub from: usize,
    pub to: usize,
    /// The role taken, if any (a pawn for en passant).
    pub capture: Option<Role>,
    pub promotion: Option<Role>,
}

impl ChessMove {
    pub open spec fn wf(&self) -> bool {
        self.from < 64 && self.to < 64
    }
}

/// A board position: what stands on each of the 64 squares.
pub struct Board {
    pub cells: Vec<Option<Piece>>,
}

impl Board {
    pub open spec fn wf(&self) -> bool {
        self.cells@.len() == 64
    }

    pub open spec fn view(&self) -> Seq<Option<Piece>> {
        self.cells@
    }
}

pub open spec fn file_of(s: int) -> int {
    s % 8
}

pub open spec fn rank_of(s: int) -> int {
    s / 8
}

pub open spec fn sq(f: int, r: int) -> int {
    r * 8 + f
}

pub open spec fn abs(x: int) -> int {
    if x < 0 { -x } else { x }
}

pub open spec fn sgn(x: int) -> int {
    if x < 0 { -1 } else if x > 0 { 1 } else { 0 }
}

pub open spec fn max(a: int, b: int) -> int {
    if a < b { b } else { a }
}

pub open spec fn forward(c: Color) -> int {
    match c {
        Color::White => 1,
        Color::Black => -1,
    }
}

/// No square strictly between `(f, r)` and the square `n` steps of
/// `(sf, sr)` away from it is occupied.
pub open spec fn ray_clear(occ: Seq<bool>, f: int, r: int, sf: int, sr: int, n: int) -> bool
    decreases n,
{
    if n <= 1 {
        true
    } else {
        !occ[sq(f + sf, r + sr)] && ray_clear(occ, f + sf, r + sr, sf, sr, n - 1)
    }
}

/// A slider on `s` reaches `t`: the two are on one line of the allowed kind
/// and nothing stands strictly between them.
pub open spec fn slides(occ: Seq<bool>, s: int, t: int, ortho: bool, diag: bool) -> bool {
    let df = file_of(t) - file_of(s);
    let dr = rank_of(t) - rank_of(s);
    &&& s != t
    &&& (ortho && (df == 0 || dr == 0)) || (diag && abs(df) == abs(dr))
    &&& ray_clear(occ, file_of(s), rank_of(s), sgn(df), sgn(dr), max(abs(df), abs(dr)))
}

pub open spec fn knight_hop(s: int, t: int) -> bool {
    let df = abs(file_of(t) - file_of(s));
    let dr = abs(rank_of(t) - rank_of(s));
    (df == 1 && dr == 2) || (df == 2 && dr == 1)
}

pub open spec fn king_step(s: int, t: int) -> bool {
    s != t && abs(file_of(t) - file_of(s)) <= 1 && abs(rank_of(t) - rank_of(s)) <= 1
}

pub open spec fn pawn_hit(c: Color, s: int, t: int) -> bool {
    abs(file_of(t) - file_of(s)) == 1 && rank_of(t) - rank_of(s) == forward(c)
}

/// Whether a piece on `s` attacks `t` when the occupied squares are `occ`.
pub open spec fn piece_attacks(p: Piece, s: int, t: int, occ: Seq<bool>) -> bool {
    match p.role {
        Role::Pawn => pawn_hit(p.color, s, t),
        Role::Knight => knight_hop(s, t),
        Role::Bishop => slides(occ, s, t, false, true),
        Role::Rook => slides(occ, s, t, true, false),
        Role::Queen => slides(occ, s, t, true, true),
        Role::King => king_step(s, t),
    }
}

/// A piece of `color` stands on `s` and attacks `t`.
pub open spec fn attacker_at(b: Seq<Option<Piece>>, s: int, t: int, color: Color, occ: Seq<bool>) -> bool {
    &&& b[s] is Some
    &&& b[s]->0.color == color
    &&& piece_attacks(b[s]->0, s, t, occ)
}

/// The squares below `n` satisfying `p`, in ascending order.
pub open spec fn squares_where(p: spec_fn(int) -> bool, n: int) -> Seq<usize>
    decreases n,
{
    if n <= 0 {
        seq![]
    } else if p(n - 1) {
        squares_where(p, n - 1).push((n - 1) as usize)
    } else {
        squares_where(p, n - 1)
    }
}

/// The squares holding a piece of `color` that attacks `t`.
pub open spec fn attackers(b: Seq<Option<Piece>>, t: int, color: Color, occ: Seq<bool>) -> Seq<usize> {
    squares_where(|s: int| attacker_at(b, s, t, color, occ), 64)
}

/// The squares a piece on `s` attacks.
pub open spec fn attack_set(p: Piece, s: int, occ: Seq<bool>) -> Seq<usize> {
    squares_where(|t: int| piece_attacks(p, s, t, occ), 64)
}

/// The occupancy of a board: which squares hold a piece.
pub open spec fn occupancy(b: Seq<Option<Piece>>) -> Seq<bool> {
    Seq::new(64, |i: int| b[i] is Some)
}

pub proof fn lemma_squares_where_bounded(p: spec_fn(int) -> bool, n: int)
    requires
        n <= 64,
    ensures
        forall|i: int| 0 <= i < squares_where(p, n).len() ==> squares_where(p, n)[i] < n && p(
            squares_where(p, n)[i] as int,
        ),
        squares_where(p, n).len() <= if n < 0 { 0 } else { n },
    decreases n,
{
    if n > 0 {
        lemma_squares_where_bounded(p, n - 1);
    }
}

pub proof fn lemma_squares_where_complete(p: spec_fn(int) -> bool, n: int, s: int)
    requires
        0 <= s < n,
        p(s),
    ensures
        squares_where(p, n).contains(s as usize),
    decreases n,
{
    if s < n - 1 {
        lemma_squares_where_complete(p, n - 1, s);
        let prev = squares_where(p, n - 1);
        let k = choose|k: int| 0 <= k < prev.len() && prev[k] == s as usize;
        if p(n - 1) {
            assert(squares_where(p, n)[k] == s as usize);
        }
    } else {
        assert(squares_where(p, n) == squares_where(p, n - 1).push(s as usize));
        assert(squares_where(p, n)[squares_where(p, n - 1).len() as int] == s as usize);
    }
}

/// Whether `s` and `t` lie on one rank, file or diagonal, and are distinct.
pub fn file(s: usize) -> (r: usize)
    ensures
        r == file_of(s as int),
{
    s % 8
}

pub fn rank(s: usize) -> (r: usize)
    ensures
        r == rank_of(s as int),
{
    s / 8
}

fn ray_is_clear(occ: &Vec<bool>, f: i32, r: i32, sf: i32, sr: i32, n: i32) -> (res: bool)
    requires
        occ@.len() == 64,
        0 <= f < 8,
        0 <= r < 8,
        -1 <= sf <= 1,
        -1 <= sr <= 1,
        0 <= n <= 8,
        0 <= f + n * sf < 8,
        0 <= r + n * sr < 8,
    ensures
        res == ray_clear(occ@, f as int, r as int, sf as int, sr as int, n as int),
{
    let mut cf = f;
    let mut cr = r;
    let mut k = n;
    assert(0 <= f + n * sf < 8 ==> (sf == 1 ==> f + n < 8) && (sf == -1 ==> f - n >= 0)) by (nonlinear_arith)
        requires -1 <= sf <= 1;
    assert(0 <= r + n * sr < 8 ==> (sr == 1 ==> r + n < 8) && (sr == -1 ==> r - n >= 0)) by (nonlinear_arith)
        requires -1 <= sr <= 1;
    while k > 1
        invariant
            occ@.len() == 64,
            -1 <= sf <= 1,
            -1 <= sr <= 1,
            0 <= cf < 8,
            0 <= cr < 8,
            0 <= k <= 8,
            sf == 1 ==> cf + k < 8,
            sf == -1 ==> cf - k >= 0,
            sr == 1 ==> cr + k < 8,
            sr == -1 ==> cr - k >= 0,
            ray_clear(occ@, f as int, r as int, sf as int, sr as int, n as int) == ray_clear(
                occ@,
                cf as int,
                cr as int,
                sf as int,
                sr as int,
                k as int,
            ),
        decreases k,
    {
        let nf = cf + sf;
        let nr = cr + sr;
        let idx = (nr * 8 + nf) as usize;
        if occ[idx] {
            return false;
        }
        cf = nf;
        cr = nr;
        k -= 1;
    }
    true
}

/// Whether a slider on `s` reaches `t`.
pub fn slider_reaches(occ: &Vec<bool>, s: usize, t: usize, ortho: bool, diag: bool) -> (res: bool)
    requires
        occ@.len() == 64,
        s < 64,
        t < 64,
    ensures
        res == slides(occ@, s as int, t as int, ortho, diag),
{
    if s == t {
        return false;
    }
    let f = (s % 8) as i32;
    let r = (s / 8) as i32;
    let df = (t % 8) as i32 - f;
    let dr = (t / 8) as i32 - r;
    let adf = if df < 0 { -df } else { df };
    let adr = if dr < 0 { -dr } else { dr };
    let lined = (ortho && (df == 0 || dr == 0)) || (diag && adf == adr);
    if !lined {
        return false;
    }
    let sf: i32 = if df < 0 { -1 } else if df > 0 { 1 } else { 0 };
    let sr: i32 = if dr < 0 { -1 } else if dr > 0 { 1 } else { 0 };
    let n = if adf < adr { adr } else { adf };
    assert(f + n * sf == (t % 8) as i32) by (nonlinear_arith)
        requires
            n == max(abs(df as int), abs(dr as int)),
            (df == 0 || dr == 0 || abs(df as int) == abs(dr as int)),
            sf == sgn(df as int),
            df == (t % 8) as i32 - f;
    assert(r + n * sr == (t / 8) as i32) by (nonlinear_arith)
        requires
            n == max(abs(df as int), abs(dr as int)),
            (df == 0 || dr == 0 || abs(df as int) == abs(dr as int)),
            sr == sgn(dr as int),
            dr == (t / 8) as i32 - r;
    ray_is_clear(occ, f, r, sf, sr, n)
}

/// Whether a piece on `s` attacks `t` when the occupied squares are `occ`.
pub fn attacks(p: Piece, s: usize, t: usize, occ: &Vec<bool>) -> (res: bool)
    requires
        occ@.len() == 64,
        s < 64,
        t < 64,
    ensures
        res == piece_attacks(p, s as int, t as int, occ@),
{
    let df = (t % 8) as i32 - (s % 8) as i32;
    let dr = (t / 8) as i32 - (s / 8) as i32;
    let adf = if df < 0 { -df } else { df };
    let adr = if dr < 0 { -dr } else { dr };
    match p.role {
        Role::Pawn => {
            let fwd: i32 = match p.color {
                Color::White => 1,
                Color::Black => -1,
            };
            adf == 1 && dr == fwd
        },
        Role::Knight => (adf == 1 && adr == 2) || (adf == 2 && adr == 1),
        Role::Bishop => slider_reaches(occ, s, t, false, true),
        Role::Rook => slider_reaches(occ, s, t, true, false),
        Role::Queen => slider_reaches(occ, s, t, true, true),
        Role::King => s != t && adf <= 1 && adr <= 1,
    }
}

/// Whether a piece of `color` on `s` attacks `t`.
pub fn attacks_from(b: &Board, s: usize, t: usize, color: Color, occ: &Vec<bool>) -> (res: bool)
    requires
        b.wf(),
        occ@.len() == 64,
        s < 64,
        t < 64,
    ensures
        res == attacker_at(b@, s as int, t as int, color, occ@),
{
    match b.cells[s] {
        Some(p) => p.color == color && attacks(p, s, t, occ),
        None => false,
    }
}

/// The squares holding a piece of `color` that attacks `t`, ascending.
pub fn attacks_to(b: &Board, t: usize, color: Color, occ: &Vec<bool>) -> (res: Vec<usize>)
    requires
        b.wf(),
        occ@.len() == 64,
        t < 64,
    ensures
        res@ == attackers(b@, t as int, color, occ@),
{
    let ghost p = |s: int| attacker_at(b@, s, t as int, color, occ@);
    let mut out: Vec<usize> = Vec::new();
    let mut s: usize = 0;
    while s < 64
        invariant
            b.wf(),
            occ@.len() == 64,
            t < 64,
            s <= 64,
            out@ == squares_where(p, s as int),
            forall|x: int| p(x) == attacker_at(b@, x, t as int, color, occ@),
        decreases 64 - s,
    {
        let hit = attacks_from(b, s, t, color, occ);
        assert(p(s as int) == hit);
        if hit {
            out.push(s);
        }
        assert(squares_where(p, s as int + 1) == if p(s as int) {
            squares_where(p, s as int).push(s)
        } else {
            squares_where(p, s as int)
        });
        s += 1;
    }
    assert(p =~= |x: int| attacker_at(b@, x, t as int, color, occ@));
    out
}

/// The squares a piece on `s` attacks, ascending.
pub fn attacks_of(p: Piece, s: usize, occ: &Vec<bool>) -> (res: Vec<usize>)
    requires
        occ@.len() == 64,
        s < 64,
    ensures
        res@ == attack_set(p, s as int, occ@),
{
    let ghost pr = |t: int| piece_attacks(p, s as int, t, occ@);
    let mut out: Vec<usize> = Vec::new();
    let mut t: usize = 0;
    while t < 64
        invariant
            occ@.len() == 64,
            s < 64,
            t <= 64,
            out@ == squares_where(pr, t as int),
            forall|x: int| pr(x) == piece_attacks(p, s as int, x, occ@),
        decreases 64 - t,
    {
        let hit = attacks(p, s, t, occ);
        assert(pr(t as int) == hit);
        if hit {
            out.push(t);
        }
        assert(squares_where(pr, t as int + 1) == if pr(t as int) {
            squares_where(pr, t as int).push(t)
        } else {
            squares_where(pr, t as int)
        });
        t += 1;
    }
    assert(pr =~= |x: int| piece_attacks(p, s as int, x, occ@));
    out
}

/// Which squares of the board hold a piece.
pub fn occupied(b: &Board) -> (res: Vec<bool>)
    requires
        b.wf(),
    ensures
        res@ == occupancy(b@),
{
    let mut out: Vec<bool> = Vec::new();
    let mut s: usize = 0;
    while s < 64
        invariant
            b.wf(),
            s <= 64,
            out@.len() == s,
            forall|i: int| 0 <= i < s ==> out@[i] == (b@[i] is Some),
        decreases 64 - s,
    {
        out.push(b.cells[s].is_some());
        s += 1;
    }
    assert(out@ =~= occupancy(b@));
    out
}

} // verus!

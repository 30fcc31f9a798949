//! Tactical motif detection: what a move creates on the board, read off the
//! attack geometry. Precision over recall: every rule takes the stricter
//! reading, because a reported motif becomes a confident sentence.

use vstd::prelude::*;
use crate::board::{
    Board, ChessMove, Color, MoveKind, Piece, Role, attack_set, attacker_at, attackers, attacks_from,
    attacks_of, attacks_to, file_of, occupancy, occupied, other, piece_attacks, rank_of, sgn, abs,
    max, sq, squares_where,
};
use crate::position::{
    Position, PositionView, king_of, king_square, legal_moves, legal_moves_of, play, spec_checkers,
    spec_play, square_name, square_string, checkers,
};
use crate::see::{piece_value, piece_value_of, see, see_square, spec_see, spec_see_square};
use crate::position::{parse_move, spec_parse_move};
use crate::text::{contains_str, copy_strings, push_all, push_str, string_from_chars, strings_view};

verus! {

#[derive(Debug, Clone, PartialEq, Eq)]
pub enum Motif {
    /// The moved piece attacks two or more higher-valued pieces, or a king, at once.
    Fork { from: String, attacker: String, targets: Vec<String> },
    /// An enemy piece stands on the attacker's line in front of a more valuable one.
    Pin { attacker: String, pinned: String, behind: String },
    /// Same line, reversed order: the valuable piece is in front.
    Skewer { attacker: String, front: String, behind: String },
    /// Moving a piece opens a line for a friendly piece behind it.
    DiscoveredAttack { moved_from: String, revealed: String, targets: Vec<String> },
    /// A piece with negative SEE is actually captured.
    Hanging { square: String, role: String, see: i32 },
    /// A rook or queen gives check on the back rank of a king that cannot move.
    BackRank { attacker: String, king: String },
}

pub enum MotifView {
    Fork { from: Seq<char>, attacker: Seq<char>, targets: Seq<Seq<char>> },
    Pin { attacker: Seq<char>, pinned: Seq<char>, behind: Seq<char> },
    Skewer { attacker: Seq<char>, front: Seq<char>, behind: Seq<char> },
    DiscoveredAttack { moved_from: Seq<char>, revealed: Seq<char>, targets: Seq<Seq<char>> },
    Hanging { square: Seq<char>, role: Seq<char>, see: i32 },
    BackRank { attacker: Seq<char>, king: Seq<char> },
}

pub open spec fn motif_views(v: Seq<Motif>) -> Seq<MotifView> {
    v.map_values(|m: Motif| m@)
}

impl View for Motif {
    type V = MotifView;

    open spec fn view(&self) -> MotifView {
        match self {
            Motif::Fork { from, attacker, targets } => MotifView::Fork {
                from: from@,
                attacker: attacker@,
                targets: strings_view(targets@),
            },
            Motif::Pin { attacker, pinned, behind } => MotifView::Pin {
                attacker: attacker@,
                pinned: pinned@,
                behind: behind@,
            },
            Motif::Skewer { attacker, front, behind } => MotifView::Skewer {
                attacker: attacker@,
                front: front@,
                behind: behind@,
            },
            Motif::DiscoveredAttack { moved_from, revealed, targets } => MotifView::DiscoveredAttack {
                moved_from: moved_from@,
                revealed: revealed@,
                targets: strings_view(targets@),
            },
            Motif::Hanging { square, role, see } => MotifView::Hanging {
                square: square@,
                role: role@,
                see: *see,
            },
            Motif::BackRank { attacker, king } => MotifView::BackRank {
                attacker: attacker@,
                king: king@,
            },
        }
    }
}

pub open spec fn spec_key(m: MotifView) -> Seq<char> {
    match m {
        MotifView::Fork { .. } => "fork"@,
        MotifView::Pin { .. } => "pin"@,
        MotifView::Skewer { .. } => "skewer"@,
        MotifView::DiscoveredAttack { .. } => "discovered_attack"@,
        MotifView::Hanging { .. } => "hanging"@,
        MotifView::BackRank { .. } => "back_rank"@,
    }
}

impl Motif {
    /// Stable identifier, also the glossary key for other languages.
    pub fn key(&self) -> (r: &'static str)
        ensures
            r@ == spec_key(self@),
    {
        match self {
            Motif::Fork { .. } => "fork",
            Motif::Pin { .. } => "pin",
            Motif::Skewer { .. } => "skewer",
            Motif::DiscoveredAttack { .. } => "discovered_attack",
            Motif::Hanging { .. } => "hanging",
            Motif::BackRank { .. } => "back_rank",
        }
    }
}

pub open spec fn role_name(r: Role) -> Seq<char> {
    match r {
        Role::Pawn => "pawn"@,
        Role::Knight => "knight"@,
        Role::Bishop => "bishop"@,
        Role::Rook => "rook"@,
        Role::Queen => "queen"@,
        Role::King => "king"@,
    }
}

pub fn role_str(r: Role) -> (s: &'static str)
    ensures
        s@ == role_name(r),
{
    match r {
        Role::Pawn => "pawn",
        Role::Knight => "knight",
        Role::Bishop => "bishop",
        Role::Rook => "rook",
        Role::Queen => "queen",
        Role::King => "king",
    }
}

pub open spec fn names_of(squares: Seq<usize>) -> Seq<Seq<char>> {
    squares.map_values(|s: usize| square_name(s as int))
}

pub fn square_names(squares: &Vec<usize>) -> (r: Vec<String>)
    ensures
        strings_view(r@) == names_of(squares@),
{
    let mut out: Vec<String> = Vec::new();
    let mut i: usize = 0;
    while i < squares.len()
        invariant
            i <= squares@.len(),
            out@.len() == i,
            forall|k: int| 0 <= k < i ==> #[trigger] out@[k]@ == square_name(squares@[k] as int),
        decreases squares.len() - i,
    {
        out.push(square_string(squares[i]));
        i += 1;
    }
    assert(strings_view(out@) =~= names_of(squares@));
    out
}

// ---------------------------------------------------------------------------
// Geometry
// ---------------------------------------------------------------------------

/// `c` is one of the squares strictly between `(f, r)` and the square `n`
/// steps of `(sf, sr)` away.
pub open spec fn on_segment(f: int, r: int, sf: int, sr: int, n: int, c: int) -> bool
    decreases n,
{
    if n <= 1 {
        false
    } else {
        sq(f + sf, r + sr) == c || on_segment(f + sf, r + sr, sf, sr, n - 1, c)
    }
}

/// `c` lies strictly between `a` and `b` on a shared rank, file or diagonal.
pub open spec fn strictly_between(a: int, b: int, c: int) -> bool {
    let df = file_of(b) - file_of(a);
    let dr = rank_of(b) - rank_of(a);
    &&& a != b
    &&& df == 0 || dr == 0 || abs(df) == abs(dr)
    &&& on_segment(file_of(a), rank_of(a), sgn(df), sgn(dr), max(abs(df), abs(dr)), c)
}

/// The first occupied square among the next `n` squares of the ray that
/// leaves `(f, r)` in direction `(sf, sr)`.
pub open spec fn first_occupied(occ: Seq<bool>, f: int, r: int, sf: int, sr: int, n: int) -> Option<int>
    decreases n,
{
    let nf = f + sf;
    let nr = r + sr;
    if n <= 0 || nf < 0 || nf >= 8 || nr < 0 || nr >= 8 {
        None
    } else if occ[sq(nf, nr)] {
        Some(sq(nf, nr))
    } else {
        first_occupied(occ, nf, nr, sf, sr, n - 1)
    }
}

/// The first occupied square beyond `through`, looking out from `from`
/// along their shared line (a ray never holds more than seven squares).
pub open spec fn first_behind(from: int, through: int, occ: Seq<bool>) -> Option<int> {
    let sf = sgn(file_of(through) - file_of(from));
    let sr = sgn(rank_of(through) - rank_of(from));
    first_occupied(occ, file_of(through), rank_of(through), sf, sr, 7)
}

fn sign_of(x: i32) -> (r: i32)
    ensures
        r == sgn(x as int),
{
    if x < 0 { -1 } else if x > 0 { 1 } else { 0 }
}

proof fn lemma_first_occupied_range(occ: Seq<bool>, f: int, r: int, sf: int, sr: int, n: int)
    ensures
        first_occupied(occ, f, r, sf, sr, n) matches Some(s) ==> 0 <= s < 64,
    decreases n,
{
    let nf = f + sf;
    let nr = r + sr;
    if !(n <= 0 || nf < 0 || nf >= 8 || nr < 0 || nr >= 8) && !occ[sq(nf, nr)] {
        lemma_first_occupied_range(occ, nf, nr, sf, sr, n - 1);
    }
}

fn first_behind_of(from: usize, through: usize, occ: &Vec<bool>) -> (r: Option<usize>)
    requires
        from < 64,
        through < 64,
        occ@.len() == 64,
    ensures
        first_behind(from as int, through as int, occ@) matches Some(s) ==> 0 <= s < 64,
        r == (match first_behind(from as int, through as int, occ@) {
            Some(s) => Some(s as usize),
            None => None::<usize>,
        }),
        r matches Some(s) ==> s < 64,
{
    let sf = sign_of((through % 8) as i32 - (from % 8) as i32);
    let sr = sign_of((through / 8) as i32 - (from / 8) as i32);
    proof {
        lemma_first_occupied_range(occ@, (through % 8) as int, (through / 8) as int, sf as int, sr as int, 7);
    }
    let mut f = (through % 8) as i32;
    let mut r = (through / 8) as i32;
    let mut n: i32 = 7;
    while n > 0
        invariant
            occ@.len() == 64,
            0 <= f < 8,
            0 <= r < 8,
            0 <= n <= 7,
            -1 <= sf <= 1,
            -1 <= sr <= 1,
            first_behind(from as int, through as int, occ@) == first_occupied(
                occ@,
                f as int,
                r as int,
                sf as int,
                sr as int,
                n as int,
            ),
        decreases n,
    {
        let nf = f + sf;
        let nr = r + sr;
        if nf < 0 || nf >= 8 || nr < 0 || nr >= 8 {
            return None;
        }
        let idx = (nr * 8 + nf) as usize;
        if occ[idx] {
            return Some(idx);
        }
        f = nf;
        r = nr;
        n -= 1;
    }
    None
}

#[verifier::loop_isolation(false)]
fn between_contains(a: usize, b: usize, c: usize) -> (res: bool)
    requires
        a < 64,
        b < 64,
    ensures
        res == strictly_between(a as int, b as int, c as int),
{
    if a == b {
        return false;
    }
    let fa = (a % 8) as i32;
    let ra = (a / 8) as i32;
    let df = (b % 8) as i32 - fa;
    let dr = (b / 8) as i32 - ra;
    let adf = if df < 0 { -df } else { df };
    let adr = if dr < 0 { -dr } else { dr };
    if !(df == 0 || dr == 0 || adf == adr) {
        return false;
    }
    let sf = sign_of(df);
    let sr = sign_of(dr);
    let n0 = if adf < adr { adr } else { adf };
    let mut f = fa;
    let mut r = ra;
    let mut n = n0;
    assert(fa + n0 * sf == (b % 8) as i32) by (nonlinear_arith)
        requires
            n0 == max(abs(df as int), abs(dr as int)),
            (df == 0 || dr == 0 || abs(df as int) == abs(dr as int)),
            sf == sgn(df as int),
            df == (b % 8) as i32 - fa;
    assert(ra + n0 * sr == (b / 8) as i32) by (nonlinear_arith)
        requires
            n0 == max(abs(df as int), abs(dr as int)),
            (df == 0 || dr == 0 || abs(df as int) == abs(dr as int)),
            sr == sgn(dr as int),
            dr == (b / 8) as i32 - ra;
    assert(0 <= fa + n0 * sf < 8 ==> (sf == 1 ==> fa + n0 < 8) && (sf == -1 ==> fa - n0 >= 0)) by (nonlinear_arith)
        requires -1 <= sf <= 1;
    assert(0 <= ra + n0 * sr < 8 ==> (sr == 1 ==> ra + n0 < 8) && (sr == -1 ==> ra - n0 >= 0)) by (nonlinear_arith)
        requires -1 <= sr <= 1;
    while n > 1
        invariant
            -1 <= sf <= 1,
            -1 <= sr <= 1,
            0 <= f < 8,
            0 <= r < 8,
            0 <= n <= 8,
            sf == 1 ==> f + n < 8,
            sf == -1 ==> f - n >= 0,
            sr == 1 ==> r + n < 8,
            sr == -1 ==> r - n >= 0,
            on_segment(fa as int, ra as int, sf as int, sr as int, n0 as int, c as int) == on_segment(
                f as int,
                r as int,
                sf as int,
                sr as int,
                n as int,
                c as int,
            ),
        decreases n,
    {
        let nf = f + sf;
        let nr = r + sr;
        assert(0 <= nf < 8 && 0 <= nr < 8);
        if (nr * 8 + nf) as usize == c {
            assert(on_segment(f as int, r as int, sf as int, sr as int, n as int, c as int));
            return true;
        }
        f = nf;
        r = nr;
        n -= 1;
    }
    false
}

// ---------------------------------------------------------------------------
// Rules
// ---------------------------------------------------------------------------

/// An enemy of `mover` stands on `t`.
pub open spec fn enemy_on(b: Seq<Option<Piece>>, t: int, mover: Color) -> bool {
    b[t] is Some && b[t]->0.color == other(mover)
}

/// A piece on `dest` is not simply losable: unattacked, or attacked only by
/// pieces at least as valuable while defended.
pub open spec fn spec_stands_safely(b: Seq<Option<Piece>>, mover: Color, dest: int, piece: Piece) -> bool {
    let occ = occupancy(b);
    let hostile = attackers(b, dest, other(mover), occ);
    hostile.len() == 0 || (!(exists|i: int| 0 <= i < hostile.len() && piece_value(b[hostile[i] as int]->0.role)
        < piece_value(piece.role)) && attackers(b, dest, mover, occ).len() > 0)
}

/// Whether `t` is a fork target of `piece` on `dest`: an enemy king, or an
/// enemy piece strictly more valuable than the forking piece, under attack.
pub open spec fn fork_target(b: Seq<Option<Piece>>, mover: Color, dest: int, piece: Piece) -> spec_fn(int) -> bool {
    |t: int| piece_attacks(piece, dest, t, occupancy(b)) && enemy_on(b, t, mover) && (b[t]->0.role
        == Role::King || piece_value(b[t]->0.role) > piece_value(piece.role))
}

pub open spec fn fork_targets(b: Seq<Option<Piece>>, mover: Color, dest: int, piece: Piece) -> Seq<usize> {
    squares_where(fork_target(b, mover, dest, piece), 64)
}

pub open spec fn spec_fork(b: Seq<Option<Piece>>, mover: Color, from: int, dest: int, piece: Piece) -> Option<MotifView> {
    let targets = fork_targets(b, mover, dest, piece);
    if targets.len() < 2 || !spec_stands_safely(b, mover, dest, piece) {
        None
    } else {
        Some(MotifView::Fork { from: square_name(from), attacker: square_name(dest), targets: names_of(targets) })
    }
}

fn stands_safely(b: &Board, mover: Color, dest: usize, piece: Piece) -> (r: bool)
    requires
        b.wf(),
        dest < 64,
    ensures
        r == spec_stands_safely(b@, mover, dest as int, piece),
{
    let occ = occupied(b);
    let hostile = attacks_to(b, dest, mover.other(), &occ);
    proof {
        crate::board::lemma_squares_where_bounded(|s: int| attacker_at(b@, s, dest as int, other(mover), occ@), 64);
    }
    if hostile.len() == 0 {
        return true;
    }
    assert forall|k: int| 0 <= k < hostile@.len() implies hostile@[k] < 64 && b@[hostile@[k] as int] is Some by {
        assert((|s: int| attacker_at(b@, s, dest as int, other(mover), occ@))(hostile@[k] as int));
    }
    let value = piece_value_of(piece.role);
    let mut i: usize = 0;
    while i < hostile.len()
        invariant
            b.wf(),
            hostile@ == attackers(b@, dest as int, other(mover), occ@),
            forall|k: int| 0 <= k < hostile@.len() ==> hostile@[k] < 64 && b@[hostile@[k] as int] is Some,
            occ@ == occupancy(b@),
            hostile@.len() > 0,
            value == piece_value(piece.role),
            i <= hostile@.len(),
            forall|k: int| 0 <= k < i ==> !(piece_value(b@[hostile@[k] as int]->0.role) < piece_value(piece.role)),
        decreases hostile.len() - i,
    {
        let cheaper = match b.cells[hostile[i]] {
            Some(p) => piece_value_of(p.role) < value,
            None => piece_value_of(Role::Pawn) < value,
        };
        assert(cheaper == (piece_value(b@[hostile@[i as int] as int]->0.role) < piece_value(piece.role)));
        if cheaper {
            assert(0 <= i < hostile@.len() && piece_value(b@[hostile@[i as int] as int]->0.role) < piece_value(piece.role));
            return false;
        }
        i += 1;
    }
    let friends = attacks_to(b, dest, mover, &occ);
    friends.len() > 0
}

fn fork(b: &Board, mover: Color, from: usize, dest: usize, piece: Piece) -> (r: Option<Motif>)
    requires
        b.wf(),
        from < 64,
        dest < 64,
    ensures
        (match r {
            Some(m) => Some(m@),
            None => None::<MotifView>,
        }) == spec_fork(b@, mover, from as int, dest as int, piece),
{
    let occ = occupied(b);
    let ghost p = fork_target(b@, mover, dest as int, piece);
    let attacker_value = piece_value_of(piece.role);
    let mut targets: Vec<usize> = Vec::new();
    let mut t: usize = 0;
    while t < 64
        invariant
            b.wf(),
            dest < 64,
            occ@ == occupancy(b@),
            attacker_value == piece_value(piece.role),
            t <= 64,
            p == fork_target(b@, mover, dest as int, piece),
            targets@ == squares_where(p, t as int),
        decreases 64 - t,
    {
        let hit = attacks(piece, dest, t, &occ) && match b.cells[t] {
            Some(q) => q.color == mover.other() && (matches!(q.role, Role::King) || piece_value_of(q.role)
                > attacker_value),
            None => false,
        };
        assert(hit == p(t as int));
        if hit {
            targets.push(t);
        }
        assert(squares_where(p, t as int + 1) == if p(t as int) {
            squares_where(p, t as int).push(t)
        } else {
            squares_where(p, t as int)
        });
        t += 1;
    }
    if targets.len() < 2 || !stands_safely(b, mover, dest, piece) {
        return None;
    }
    Some(Motif::Fork { from: square_string(from), attacker: square_string(dest), targets: square_names(&targets) })
}

use crate::board::attacks;

/// Pin or skewer through `front` for a slider on `dest`: the next piece
/// behind `front` is an enemy of a different value, and breaking through
/// wins something (it outvalues the slider or is undefended).
pub open spec fn line_motif_at(b: Seq<Option<Piece>>, mover: Color, dest: int, piece: Piece, front: int) -> Option<MotifView> {
    let occ = occupancy(b);
    match first_behind(dest, front, occ) {
        None => None,
        Some(behind) => {
            if !enemy_on(b, behind, mover) || !enemy_on(b, front, mover) {
                None
            } else {
                let front_value = piece_value(b[front]->0.role);
                let behind_value = piece_value(b[behind]->0.role);
                let worth = behind_value > piece_value(piece.role) || attackers(b, behind, other(mover), occ).len() == 0;
                if !worth {
                    None
                } else if behind_value > front_value {
                    Some(MotifView::Pin { attacker: square_name(dest), pinned: square_name(front), behind: square_name(behind) })
                } else if front_value > behind_value {
                    Some(MotifView::Skewer { attacker: square_name(dest), front: square_name(front), behind: square_name(behind) })
                } else {
                    None
                }
            }
        },
    }
}

/// Line motifs through the attacked enemy pieces on squares below `n`, in order.
pub open spec fn line_motifs_upto(b: Seq<Option<Piece>>, mover: Color, dest: int, piece: Piece, n: int) -> Seq<MotifView>
    decreases n,
{
    if n <= 0 {
        seq![]
    } else {
        let prev = line_motifs_upto(b, mover, dest, piece, n - 1);
        let front = n - 1;
        if piece_attacks(piece, dest, front, occupancy(b)) && enemy_on(b, front, mover) {
            match line_motif_at(b, mover, dest, piece, front) {
                Some(m) => prev.push(m),
                None => prev,
            }
        } else {
            prev
        }
    }
}

pub open spec fn is_slider(r: Role) -> bool {
    r == Role::Bishop || r == Role::Rook || r == Role::Queen
}

/// Pins and skewers created by a slider arriving on `dest`; nothing unless
/// the slider stands safely there.
pub open spec fn spec_line_motifs(b: Seq<Option<Piece>>, mover: Color, dest: int, piece: Piece) -> Seq<MotifView> {
    if !is_slider(piece.role) || !spec_stands_safely(b, mover, dest, piece) {
        seq![]
    } else {
        line_motifs_upto(b, mover, dest, piece, 64)
    }
}

fn enemy_role(b: &Board, t: usize, mover: Color) -> (r: Option<Role>)
    requires
        b.wf(),
        t < 64,
    ensures
        r is Some == enemy_on(b@, t as int, mover),
        r matches Some(role) ==> role == b@[t as int]->0.role,
{
    match b.cells[t] {
        Some(p) => if p.color == mover.other() { Some(p.role) } else { None },
        None => None,
    }
}

fn line_motif_at_of(b: &Board, occ: &Vec<bool>, mover: Color, dest: usize, piece: Piece, front: usize) -> (r: Option<Motif>)
    requires
        b.wf(),
        occ@ == occupancy(b@),
        dest < 64,
        front < 64,
    ensures
        (match r {
            Some(m) => Some(m@),
            None => None::<MotifView>,
        }) == line_motif_at(b@, mover, dest as int, piece, front as int),
{
    let behind = match first_behind_of(dest, front, occ) {
        Some(x) => x,
        None => return None,
    };
    let behind_role = match enemy_role(b, behind, mover) {
        Some(r) => r,
        None => return None,
    };
    let front_role = match enemy_role(b, front, mover) {
        Some(r) => r,
        None => return None,
    };
    let front_value = piece_value_of(front_role);
    let behind_value = piece_value_of(behind_role);
    let worth = behind_value > piece_value_of(piece.role) || attacks_to(b, behind, mover.other(), occ).len() == 0;
    if !worth {
        None
    } else if behind_value > front_value {
        Some(Motif::Pin { attacker: square_string(dest), pinned: square_string(front), behind: square_string(behind) })
    } else if front_value > behind_value {
        Some(Motif::Skewer { attacker: square_string(dest), front: square_string(front), behind: square_string(behind) })
    } else {
        None
    }
}

fn line_motifs(b: &Board, mover: Color, dest: usize, piece: Piece) -> (r: Vec<Motif>)
    requires
        b.wf(),
        dest < 64,
    ensures
        r@.map_values(|m: Motif| m@) == spec_line_motifs(b@, mover, dest as int, piece),
{
    let mut out: Vec<Motif> = Vec::new();
    if !matches!(piece.role, Role::Bishop | Role::Rook | Role::Queen) {
        assert(out@.map_values(|m: Motif| m@) =~= seq![]);
        return out;
    }
    if !stands_safely(b, mover, dest, piece) {
        assert(out@.map_values(|m: Motif| m@) =~= seq![]);
        return out;
    }
    let occ = occupied(b);
    let mut t: usize = 0;
    while t < 64
        invariant
            b.wf(),
            dest < 64,
            occ@ == occupancy(b@),
            t <= 64,
            out@.map_values(|m: Motif| m@) == line_motifs_upto(b@, mover, dest as int, piece, t as int),
        decreases 64 - t,
    {
        let ghost before = out@;
        if attacks(piece, dest, t, &occ) && enemy_role(b, t, mover).is_some() {
            match line_motif_at_of(b, &occ, mover, dest, piece, t) {
                Some(m) => {
                    out.push(m);
                    assert(out@.map_values(|m: Motif| m@) =~= before.map_values(|m: Motif| m@).push(m@));
                },
                None => {},
            }
        }
        t += 1;
    }
    out
}

/// The enemy targets a slider of `mover` on `s` newly attacks because the
/// piece on `from` moved off the line between them: enemy kings, pieces
/// worth more than the slider, and undefended pieces.
pub open spec fn revealed_target(b0: Seq<Option<Piece>>, b1: Seq<Option<Piece>>, mover: Color, from: int, s: int) -> spec_fn(int) -> bool {
    |t: int| {
        let slider = b1[s]->0;
        &&& piece_attacks(slider, s, t, occupancy(b1))
        &&& !piece_attacks(slider, s, t, occupancy(b0))
        &&& enemy_on(b1, t, mover)
        &&& strictly_between(s, t, from)
        &&& (b1[t]->0.role == Role::King || piece_value(b1[t]->0.role) > piece_value(slider.role) || attackers(
            b1,
            t,
            other(mover),
            occupancy(b1),
        ).len() == 0)
    }
}

pub open spec fn revealed_targets(b0: Seq<Option<Piece>>, b1: Seq<Option<Piece>>, mover: Color, from: int, s: int) -> Seq<usize> {
    squares_where(revealed_target(b0, b1, mover, from, s), 64)
}

/// A slider of `mover` (not the moved piece) that the move uncovered onto a
/// worthwhile target.
pub open spec fn revealing_slider(b0: Seq<Option<Piece>>, b1: Seq<Option<Piece>>, mover: Color, from: int, dest: int) -> spec_fn(int) -> bool {
    |s: int| {
        &&& s != dest
        &&& s != from
        &&& b1[s] is Some
        &&& b1[s]->0.color == mover
        &&& is_slider(b1[s]->0.role)
        &&& revealed_targets(b0, b1, mover, from, s).len() > 0
    }
}

pub open spec fn spec_discovered_attack(b0: Seq<Option<Piece>>, b1: Seq<Option<Piece>>, mover: Color, from: int, dest: int) -> Option<MotifView> {
    match crate::see::first_where(revealing_slider(b0, b1, mover, from, dest), 0) {
        Some(s) => Some(
            MotifView::DiscoveredAttack {
                moved_from: square_name(from),
                revealed: square_name(s),
                targets: names_of(revealed_targets(b0, b1, mover, from, s)),
            },
        ),
        None => None,
    }
}

fn revealed_targets_of(b0: &Board, b1: &Board, occ0: &Vec<bool>, occ1: &Vec<bool>, mover: Color, from: usize, s: usize, slider: Piece) -> (r: Vec<usize>)
    requires
        b0.wf(),
        b1.wf(),
        occ0@ == occupancy(b0@),
        occ1@ == occupancy(b1@),
        from < 64,
        s < 64,
        b1@[s as int] == Some(slider),
    ensures
        r@ == revealed_targets(b0@, b1@, mover, from as int, s as int),
{
    let ghost p = revealed_target(b0@, b1@, mover, from as int, s as int);
    let slider_value = piece_value_of(slider.role);
    let mut out: Vec<usize> = Vec::new();
    let mut t: usize = 0;
    while t < 64
        invariant
            b0.wf(),
            b1.wf(),
            occ0@ == occupancy(b0@),
            occ1@ == occupancy(b1@),
            from < 64,
            s < 64,
            b1@[s as int] == Some(slider),
            slider_value == piece_value(slider.role),
            t <= 64,
            p == revealed_target(b0@, b1@, mover, from as int, s as int),
            out@ == squares_where(p, t as int),
        decreases 64 - t,
    {
        let mut hit = attacks(slider, s, t, occ1) && !attacks(slider, s, t, occ0);
        if hit {
            hit = match enemy_role(b1, t, mover) {
                Some(role) => between_contains(s, t, from) && (matches!(role, Role::King) || piece_value_of(role) > slider_value
                    || attacks_to(b1, t, mover.other(), occ1).len() == 0),
                None => false,
            };
        }
        assert(hit == p(t as int));
        if hit {
            out.push(t);
        }
        assert(squares_where(p, t as int + 1) == if p(t as int) {
            squares_where(p, t as int).push(t)
        } else {
            squares_where(p, t as int)
        });
        t += 1;
    }
    out
}

fn discovered_attack(b0: &Board, b1: &Board, mover: Color, from: usize, dest: usize) -> (r: Option<Motif>)
    requires
        b0.wf(),
        b1.wf(),
        from < 64,
        dest < 64,
    ensures
        (match r {
            Some(m) => Some(m@),
            None => None::<MotifView>,
        }) == spec_discovered_attack(b0@, b1@, mover, from as int, dest as int),
{
    let occ0 = occupied(b0);
    let occ1 = occupied(b1);
    let ghost p = revealing_slider(b0@, b1@, mover, from as int, dest as int);
    let mut s: usize = 0;
    while s < 64
        invariant
            b0.wf(),
            b1.wf(),
            occ0@ == occupancy(b0@),
            occ1@ == occupancy(b1@),
            from < 64,
            dest < 64,
            s <= 64,
            p == revealing_slider(b0@, b1@, mover, from as int, dest as int),
            crate::see::first_where(p, 0) == crate::see::first_where(p, s as int),
        decreases 64 - s,
    {
        if s != dest && s != from {
            match b1.cells[s] {
                Some(slider) => {
                    if slider.color == mover && matches!(slider.role, Role::Bishop | Role::Rook | Role::Queen) {
                        let targets = revealed_targets_of(b0, b1, &occ0, &occ1, mover, from, s, slider);
                        if targets.len() > 0 {
                            assert(p(s as int));
                            return Some(Motif::DiscoveredAttack {
                                moved_from: square_string(from),
                                revealed: square_string(s),
                                targets: square_names(&targets),
                            });
                        }
                        assert(!p(s as int));
                    } else {
                        assert(!p(s as int));
                    }
                },
                None => {
                    assert(!p(s as int));
                },
            }
        } else {
            assert(!p(s as int));
        }
        s += 1;
    }
    None
}

pub open spec fn back_rank_of(c: Color) -> int {
    match c {
        Color::White => 0,
        Color::Black => 7,
    }
}

/// A rook or queen arrives on the defender's back rank, where the defender's
/// king stands, gives check itself, and the king has no legal move at all
/// (castling included).
pub open spec fn spec_back_rank(after: PositionView, mover: Color, dest: int, piece: Piece) -> Option<MotifView> {
    let defender = other(mover);
    if !(piece.role == Role::Rook || piece.role == Role::Queen) {
        None
    } else {
        match king_square(after.board, defender) {
            None => None,
            Some(king) => {
                if rank_of(king) != back_rank_of(defender) || rank_of(dest) != back_rank_of(defender) {
                    None
                } else if spec_checkers(after).len() == 0 {
                    None
                } else if !attackers(after.board, king, mover, occupancy(after.board)).contains(dest as usize) {
                    None
                } else if exists|i: int| 0 <= i < legal_moves_of(after.fen).len() && (legal_moves_of(after.fen)[i].role
                    == Role::King || legal_moves_of(after.fen)[i].kind == MoveKind::Castle) {
                    None
                } else {
                    Some(MotifView::BackRank { attacker: square_name(dest), king: square_name(king) })
                }
            },
        }
    }
}

fn contains_square(v: &Vec<usize>, x: usize) -> (r: bool)
    ensures
        r == v@.contains(x),
{
    let mut i: usize = 0;
    while i < v.len()
        invariant
            i <= v@.len(),
            forall|k: int| 0 <= k < i ==> v@[k] != x,
        decreases v.len() - i,
    {
        if v[i] == x {
            return true;
        }
        i += 1;
    }
    false
}

#[verifier::loop_isolation(false)]
fn back_rank(after: &Position, mover: Color, dest: usize, piece: Piece) -> (r: Option<Motif>)
    requires
        after.wf(),
        dest < 64,
    ensures
        (match r {
            Some(m) => Some(m@),
            None => None::<MotifView>,
        }) == spec_back_rank(after@, mover, dest as int, piece),
{
    if !matches!(piece.role, Role::Rook | Role::Queen) {
        return None;
    }
    let defender = mover.other();
    let king = match king_of(&after.board, defender) {
        Some(k) => k,
        None => return None,
    };
    let home: usize = match defender {
        Color::White => 0,
        Color::Black => 7,
    };
    if king / 8 != home || dest / 8 != home {
        return None;
    }
    if checkers(after).len() == 0 {
        return None;
    }
    let occ = occupied(&after.board);
    let hitting = attacks_to(&after.board, king, mover, &occ);
    if !contains_square(&hitting, dest) {
        return None;
    }
    let moves = legal_moves(after);
    let mut i: usize = 0;
    while i < moves.len()
        invariant
            i <= moves@.len(),
            moves@ == legal_moves_of(after.fen@),
            forall|k: int| 0 <= k < i ==> !(moves@[k].role == Role::King || moves@[k].kind == MoveKind::Castle),
        decreases moves.len() - i,
    {
        if matches!(moves[i].role, Role::King) || matches!(moves[i].kind, MoveKind::Castle) {
            return None;
        }
        i += 1;
    }
    Some(Motif::BackRank { attacker: square_string(dest), king: square_string(king) })
}

/// A capture of a piece with negative SEE on its own square before it was
/// taken. Only an ordinary move captures this way: en passant takes a pawn
/// off another square, and castling captures nothing.
pub open spec fn spec_hanging(b: Seq<Option<Piece>>, mv: ChessMove) -> Option<MotifView> {
    if mv.capture is None || mv.kind != MoveKind::Normal || b[mv.to as int] is None {
        None
    } else {
        let value = spec_see_square(b, mv.to as int);
        if value >= 0 {
            None
        } else {
            Some(MotifView::Hanging { square: square_name(mv.to as int), role: role_name(b[mv.to as int]->0.role), see: value as i32 })
        }
    }
}

fn hanging(b: &Board, mv: &ChessMove) -> (r: Option<Motif>)
    requires
        b.wf(),
        mv.wf(),
    ensures
        (match r {
            Some(m) => Some(m@),
            None => None::<MotifView>,
        }) == spec_hanging(b@, *mv),
{
    if mv.capture.is_none() || !matches!(mv.kind, MoveKind::Normal) {
        return None;
    }
    let role = match b.cells[mv.to] {
        Some(p) => p.role,
        None => return None,
    };
    let value = see_square(b, mv.to);
    if value >= 0 {
        return None;
    }
    Some(Motif::Hanging { square: square_string(mv.to), role: role_str(role).to_owned(), see: value })
}

/// Motifs created by playing `mv` in `pos`, in rule order: hanging (read
/// before the move), then fork, pins and skewers, discovered attack and back
/// rank (read after it). Nothing for a move that is not legal, and nothing
/// for castling.
pub open spec fn spec_detect(pos: PositionView, mv: ChessMove) -> Seq<MotifView> {
    if !legal_moves_of(pos.fen).contains(mv) {
        seq![]
    } else {
        match spec_play(pos, mv) {
            None => seq![],
            Some(after) => {
                let h = match spec_hanging(pos.board, mv) {
                    Some(m) => seq![m],
                    None => seq![],
                };
                if mv.kind == MoveKind::Castle || after.board[mv.to as int] is None {
                    h
                } else {
                    let piece = after.board[mv.to as int]->0;
                    let mover = pos.turn;
                    let f = match spec_fork(after.board, mover, mv.from as int, mv.to as int, piece) {
                        Some(m) => seq![m],
                        None => seq![],
                    };
                    let d = match spec_discovered_attack(pos.board, after.board, mover, mv.from as int, mv.to as int) {
                        Some(m) => seq![m],
                        None => seq![],
                    };
                    let k = match spec_back_rank(after, mover, mv.to as int, piece) {
                        Some(m) => seq![m],
                        None => seq![],
                    };
                    h + f + spec_line_motifs(after.board, mover, mv.to as int, piece) + d + k
                }
            },
        }
    }
}

fn is_legal(pos: &Position, mv: &ChessMove) -> (r: bool)
    ensures
        r == legal_moves_of(pos.fen@).contains(*mv),
{
    let moves = legal_moves(pos);
    let mut i: usize = 0;
    while i < moves.len()
        invariant
            i <= moves@.len(),
            moves@ == legal_moves_of(pos.fen@),
            forall|k: int| 0 <= k < i ==> moves@[k] != *mv,
        decreases moves.len() - i,
    {
        if moves[i] == *mv {
            return true;
        }
        i += 1;
    }
    false
}

fn push_opt(out: &mut Vec<Motif>, m: Option<Motif>)
    ensures
        final(out)@.map_values(|x: Motif| x@) == old(out)@.map_values(|x: Motif| x@) + match m {
            Some(x) => seq![x@],
            None => seq![],
        },
{
    match m {
        Some(x) => {
            let ghost before = out@;
            out.push(x);
            assert(out@.map_values(|y: Motif| y@) =~= before.map_values(|y: Motif| y@) + seq![x@]);
        },
        None => {
            assert(out@.map_values(|y: Motif| y@) =~= out@.map_values(|y: Motif| y@) + seq![]);
        },
    }
}

fn append_motifs(out: &mut Vec<Motif>, more: Vec<Motif>)
    ensures
        final(out)@.map_values(|x: Motif| x@) == old(out)@.map_values(|x: Motif| x@) + more@.map_values(|x: Motif| x@),
{
    let ghost start = out@;
    let ghost extra = more@;
    let mut more = more;
    out.append(&mut more);
    assert(out@.map_values(|x: Motif| x@) =~= start.map_values(|x: Motif| x@) + extra.map_values(|x: Motif| x@));
}

/// Motifs created by playing `mv` in `pos`.
pub fn detect(pos: &Position, mv: &ChessMove) -> (r: Vec<Motif>)
    requires
        pos.wf(),
        mv.wf(),
    ensures
        r@.map_values(|m: Motif| m@) == spec_detect(pos@, *mv),
{
    let mut out: Vec<Motif> = Vec::new();
    if !is_legal(pos, mv) {
        assert(out@.map_values(|m: Motif| m@) =~= seq![]);
        return out;
    }
    let after = match play(pos, mv) {
        Some(a) => a,
        None => {
            assert(out@.map_values(|m: Motif| m@) =~= seq![]);
            return out;
        },
    };
    assert(out@.map_values(|m: Motif| m@) =~= seq![]);
    push_opt(&mut out, hanging(&pos.board, mv));
    if matches!(mv.kind, MoveKind::Castle) {
        return out;
    }
    let piece = match after.board.cells[mv.to] {
        Some(p) => p,
        None => return out,
    };
    let mover = pos.turn;
    push_opt(&mut out, fork(&after.board, mover, mv.from, mv.to, piece));
    append_motifs(&mut out, line_motifs(&after.board, mover, mv.to, piece));
    push_opt(&mut out, discovered_attack(&pos.board, &after.board, mover, mv.from, mv.to));
    push_opt(&mut out, back_rank(&after, mover, mv.to, piece));
    out
}


/// No motif is read off a move that is not legal, nor off castling, which
/// moves two pieces and captures nothing.
pub proof fn lemma_no_motif_for_illegal_or_castling(pos: PositionView, mv: ChessMove)
    requires
        !legal_moves_of(pos.fen).contains(mv) || mv.kind == MoveKind::Castle,
    ensures
        spec_detect(pos, mv) == Seq::<MotifView>::empty(),
{
    if legal_moves_of(pos.fen).contains(mv) {
        match spec_play(pos, mv) {
            None => {},
            Some(after) => {
                assert(spec_hanging(pos.board, mv) is None);
            },
        }
    }
}

proof fn lemma_line_motifs_are_pins_or_skewers(b: Seq<Option<Piece>>, mover: Color, dest: int, piece: Piece, n: int)
    ensures
        forall|i: int| 0 <= i < line_motifs_upto(b, mover, dest, piece, n).len() ==> !(#[trigger] line_motifs_upto(
            b,
            mover,
            dest,
            piece,
            n,
        )[i] is BackRank),
    decreases n,
{
    if n > 0 {
        lemma_line_motifs_are_pins_or_skewers(b, mover, dest, piece, n - 1);
        let prev = line_motifs_upto(b, mover, dest, piece, n - 1);
        let cur = line_motifs_upto(b, mover, dest, piece, n);
        assert forall|i: int| 0 <= i < cur.len() implies !(#[trigger] cur[i] is BackRank) by {
            if i < prev.len() {
                assert(cur[i] == prev[i]);
            }
        }
    }
}

/// What holds of every back-rank motif of `k` holds of every one of
/// `h + f + l + d + k` when the first four hold none.
proof fn lemma_back_rank_only_from_last(
    h: Seq<MotifView>,
    f: Seq<MotifView>,
    l: Seq<MotifView>,
    d: Seq<MotifView>,
    k: Seq<MotifView>,
    p: spec_fn(MotifView) -> bool,
)
    requires
        forall|i: int| 0 <= i < h.len() ==> !(#[trigger] h[i] is BackRank),
        forall|i: int| 0 <= i < f.len() ==> !(#[trigger] f[i] is BackRank),
        forall|i: int| 0 <= i < l.len() ==> !(#[trigger] l[i] is BackRank),
        forall|i: int| 0 <= i < d.len() ==> !(#[trigger] d[i] is BackRank),
        forall|i: int| 0 <= i < k.len() ==> (#[trigger] k[i] is BackRank ==> p(k[i])),
    ensures
        forall|i: int| 0 <= i < (h + f + l + d + k).len() ==> (#[trigger] (h + f + l + d + k)[i] is BackRank ==> p(
            (h + f + l + d + k)[i],
        )),
{
    let r = h + f + l + d + k;
    assert forall|i: int| 0 <= i < r.len() implies (#[trigger] r[i] is BackRank ==> p(r[i])) by {
        let n1 = h.len() as int;
        let n2 = n1 + f.len();
        let n3 = n2 + l.len();
        let n4 = n3 + d.len();
        if i < n1 {
            assert(r[i] == h[i]);
        } else if i < n2 {
            assert(r[i] == f[i - n1]);
        } else if i < n3 {
            assert(r[i] == l[i - n2]);
        } else if i < n4 {
            assert(r[i] == d[i - n3]);
        } else {
            assert(r[i] == k[i - n4]);
        }
    }
}

/// What a reported back-rank motif rests on: the piece that moved to `mv.to`
/// is a rook or a queen standing on the defender's back rank (rank 8 when
/// White moves, rank 1 when Black moves) and named as the attacker; the
/// defender's king stands on that rank too and is named; the move gives
/// check; and the king has no legal move at all, nor any castling.
pub open spec fn back_rank_grounded(pos: PositionView, mv: ChessMove, m: MotifView) -> bool {
    let rank_ch = if pos.turn == Color::White { '8' } else { '1' };
    m matches MotifView::BackRank { attacker, king } ==> {
        &&& attacker == square_name(mv.to as int)
        &&& attacker.len() == 2 && attacker[1] == rank_ch
        &&& king.len() == 2 && king[1] == rank_ch
        &&& spec_play(pos, mv) matches Some(after)
        &&& after.board[mv.to as int] matches Some(pc)
        &&& pc.role == Role::Rook || pc.role == Role::Queen
        &&& king_square(after.board, other(pos.turn)) matches Some(ks)
        &&& king == square_name(ks)
        &&& spec_checkers(after).len() > 0
        &&& forall|j: int| 0 <= j < legal_moves_of(after.fen).len() ==> (#[trigger] legal_moves_of(after.fen)[j]).role
            != Role::King && legal_moves_of(after.fen)[j].kind != MoveKind::Castle
    }
}

/// A back-rank motif is only reported when it is one: every `BackRank` that
/// `detect` returns names the rook or queen that just moved onto the
/// defender's back rank, and the defender's king on that same rank, in check
/// and without a single legal king move (see `back_rank_grounded`).
#[verifier::spinoff_prover]
pub proof fn lemma_back_rank_lies_on_the_back_rank(pos: PositionView, mv: ChessMove)
    ensures
        forall|i: int| 0 <= i < spec_detect(pos, mv).len() ==> back_rank_grounded(pos, mv, #[trigger] spec_detect(pos, mv)[i]),
{
    let r = spec_detect(pos, mv);
    let p = |m: MotifView| back_rank_grounded(pos, mv, m);
    if legal_moves_of(pos.fen).contains(mv) {
        match spec_play(pos, mv) {
            None => {},
            Some(after) => {
                let h = match spec_hanging(pos.board, mv) {
                    Some(m) => seq![m],
                    None => seq![],
                };
                if mv.kind == MoveKind::Castle || after.board[mv.to as int] is None {
                    assert forall|i: int| 0 <= i < r.len() implies back_rank_grounded(pos, mv, #[trigger] r[i]) by {
                        assert(r == h);
                    }
                } else {
                    let piece = after.board[mv.to as int]->0;
                    let mover = pos.turn;
                    let f = match spec_fork(after.board, mover, mv.from as int, mv.to as int, piece) {
                        Some(m) => seq![m],
                        None => seq![],
                    };
                    let l = spec_line_motifs(after.board, mover, mv.to as int, piece);
                    let d = match spec_discovered_attack(pos.board, after.board, mover, mv.from as int, mv.to as int) {
                        Some(m) => seq![m],
                        None => seq![],
                    };
                    let k = match spec_back_rank(after, mover, mv.to as int, piece) {
                        Some(m) => seq![m],
                        None => seq![],
                    };
                    lemma_line_motifs_are_pins_or_skewers(after.board, mover, mv.to as int, piece, 64);
                    assert forall|i: int| 0 <= i < l.len() implies !(#[trigger] l[i] is BackRank) by {
                        if l.len() > 0 {
                            assert(l == line_motifs_upto(after.board, mover, mv.to as int, piece, 64));
                        }
                    }
                    assert(r == h + f + l + d + k);
                    assert forall|i: int| 0 <= i < k.len() implies (#[trigger] k[i] is BackRank ==> p(k[i])) by {
                        let m = spec_back_rank(after, mover, mv.to as int, piece)->Some_0;
                        assert(k[i] == m);
                        assert(back_rank_grounded(pos, mv, m));
                    }
                    lemma_back_rank_only_from_last(h, f, l, d, k, p);
                }
            },
        }
    }
}

/// And a back-rank mate pattern is never passed over: when a legal move
/// (other than castling) puts a rook or queen on the defender's back rank,
/// checking the defender's king on that rank directly, and the king has no
/// legal move and no castling left, `detect` ends with that `BackRank`.
#[verifier::spinoff_prover]
pub proof fn lemma_back_rank_is_reported(pos: PositionView, mv: ChessMove, after: PositionView, pc: Piece, ks: int)
    requires
        legal_moves_of(pos.fen).contains(mv),
        mv.kind != MoveKind::Castle,
        spec_play(pos, mv) == Some(after),
        after.board[mv.to as int] == Some(pc),
        pc.role == Role::Rook || pc.role == Role::Queen,
        king_square(after.board, other(pos.turn)) == Some(ks),
        rank_of(ks) == back_rank_of(other(pos.turn)),
        rank_of(mv.to as int) == back_rank_of(other(pos.turn)),
        spec_checkers(after).len() > 0,
        attackers(after.board, ks, pos.turn, occupancy(after.board)).contains(mv.to),
        forall|j: int| 0 <= j < legal_moves_of(after.fen).len() ==> (#[trigger] legal_moves_of(after.fen)[j]).role
            != Role::King && legal_moves_of(after.fen)[j].kind != MoveKind::Castle,
    ensures
        spec_detect(pos, mv).len() > 0,
        spec_detect(pos, mv).last() == (MotifView::BackRank { attacker: square_name(mv.to as int), king: square_name(ks) }),
{
    let m = MotifView::BackRank { attacker: square_name(mv.to as int), king: square_name(ks) };
    assert(spec_back_rank(after, pos.turn, mv.to as int, pc) == Some(m));
    let r = spec_detect(pos, mv);
    let h = match spec_hanging(pos.board, mv) {
        Some(x) => seq![x],
        None => seq![],
    };
    let f = match spec_fork(after.board, pos.turn, mv.from as int, mv.to as int, pc) {
        Some(x) => seq![x],
        None => seq![],
    };
    let l = spec_line_motifs(after.board, pos.turn, mv.to as int, pc);
    let d = match spec_discovered_attack(pos.board, after.board, pos.turn, mv.from as int, mv.to as int) {
        Some(x) => seq![x],
        None => seq![],
    };
    assert(r == h + f + l + d + seq![m]);
}

// ---------------------------------------------------------------------------
// Aggregation over a line
// ---------------------------------------------------------------------------

/// Plies of a line read for motifs.
pub const MOTIF_PLY_HORIZON: usize = 6;
/// Charged against a motif's severity for every ply it is buried under.
pub const PLY_DISCOUNT: i32 = 50;
/// A motif has to clear this, after the ply discount, to be worth a sentence.
pub const MOTIF_SCORE_FLOOR: i32 = 150;
/// At most this many motifs are reported for one line.
pub const MAX_MOTIFS_PER_LINE: usize = 3;

/// How much of an explanation a motif could carry, in centipawn-like units.
pub open spec fn spec_severity(m: MotifView) -> int {
    match m {
        MotifView::BackRank { .. } => 900,
        MotifView::Fork { targets, .. } => 500 + 100 * (targets.len() - 2),
        MotifView::Skewer { .. } => 450,
        MotifView::Pin { .. } => 400,
        MotifView::DiscoveredAttack { .. } => 400,
        MotifView::Hanging { see, .. } => if abs(see as int) < 800 { abs(see as int) } else { 800 },
    }
}

/// A motif whose severity fits machine arithmetic: a fork names at most one
/// target per square.
pub open spec fn severity_bounded(m: MotifView) -> bool {
    m matches MotifView::Fork { targets, .. } ==> targets.len() <= 64
}

fn severity(m: &Motif) -> (r: i32)
    requires
        severity_bounded(m@),
    ensures
        r == spec_severity(m@),
{
    match m {
        Motif::BackRank { .. } => 900,
        Motif::Fork { targets, .. } => 500 + 100 * (targets.len() as i32 - 2),
        Motif::Skewer { .. } => 450,
        Motif::Pin { .. } => 400,
        Motif::DiscoveredAttack { .. } => 400,
        Motif::Hanging { see, .. } => {
            let wide: i64 = *see as i64;
            let a: i64 = if wide < 0 { -wide } else { wide };
            if a < 800 { a as i32 } else { 800 }
        },
    }
}

proof fn lemma_line_motifs_bounded(b: Seq<Option<Piece>>, mover: Color, dest: int, piece: Piece, n: int)
    ensures
        forall|i: int|
            0 <= i < line_motifs_upto(b, mover, dest, piece, n).len() ==> severity_bounded(
                #[trigger] line_motifs_upto(b, mover, dest, piece, n)[i],
            ),
    decreases n,
{
    if n > 0 {
        lemma_line_motifs_bounded(b, mover, dest, piece, n - 1);
        let prev = line_motifs_upto(b, mover, dest, piece, n - 1);
        let cur = line_motifs_upto(b, mover, dest, piece, n);
        if let Some(m) = line_motif_at(b, mover, dest, piece, n - 1) {
            assert(!(m is Fork));
        }
        assert forall|i: int| 0 <= i < cur.len() implies severity_bounded(#[trigger] cur[i]) by {
            if i < prev.len() {
                assert(cur[i] == prev[i]);
            }
        }
    }
}

proof fn lemma_detect_bounded(pos: PositionView, mv: ChessMove)
    ensures
        forall|i: int| 0 <= i < spec_detect(pos, mv).len() ==> severity_bounded(#[trigger] spec_detect(pos, mv)[i]),
{
    if legal_moves_of(pos.fen).contains(mv) {
        match spec_play(pos, mv) {
            None => {},
            Some(after) => {
                let h = match spec_hanging(pos.board, mv) {
                    Some(m) => seq![m],
                    None => seq![],
                };
                if !(mv.kind == MoveKind::Castle || after.board[mv.to as int] is None) {
                    let piece = after.board[mv.to as int]->0;
                    let mover = pos.turn;
                    crate::board::lemma_squares_where_bounded(fork_target(after.board, mover, mv.to as int, piece), 64);
                    lemma_line_motifs_bounded(after.board, mover, mv.to as int, piece, 64);
                    let f = match spec_fork(after.board, mover, mv.from as int, mv.to as int, piece) {
                        Some(m) => seq![m],
                        None => seq![],
                    };
                    let l = spec_line_motifs(after.board, mover, mv.to as int, piece);
                    let d = match spec_discovered_attack(pos.board, after.board, mover, mv.from as int, mv.to as int) {
                        Some(m) => seq![m],
                        None => seq![],
                    };
                    let k = match spec_back_rank(after, mover, mv.to as int, piece) {
                        Some(m) => seq![m],
                        None => seq![],
                    };
                    let all = h + f + l + d + k;
                    assert(spec_detect(pos, mv) == all);
                    assert forall|i: int| 0 <= i < all.len() implies severity_bounded(#[trigger] all[i]) by {
                        if i < h.len() {
                        } else if i < h.len() + f.len() {
                            assert(all[i] == f[i - h.len()]);
                        } else if i < h.len() + f.len() + l.len() {
                            assert(all[i] == l[i - h.len() - f.len()]);
                        } else if i < h.len() + f.len() + l.len() + d.len() {
                        } else {
                        }
                    }
                } else {
                    assert(spec_detect(pos, mv) == h);
                }
            },
        }
    }
}

/// Strings joined with commas.
pub open spec fn join_commas(xs: Seq<Seq<char>>) -> Seq<char>
    decreases xs.len(),
{
    if xs.len() == 0 {
        seq![]
    } else if xs.len() == 1 {
        xs[0]
    } else {
        join_commas(xs.drop_last()) + seq![','] + xs.last()
    }
}

/// Identity of the idea behind a motif, so that one idea occurring on several
/// plies is reported once: keyed on what the motif is about.
pub open spec fn spec_subject(m: MotifView) -> Seq<char> {
    match m {
        MotifView::Fork { attacker, targets, .. } => "fork:"@ + attacker + seq![':'] + join_commas(targets),
        MotifView::Pin { pinned, behind, .. } => "pin:"@ + pinned + seq![':'] + behind,
        MotifView::Skewer { front, behind, .. } => "skewer:"@ + front + seq![':'] + behind,
        MotifView::DiscoveredAttack { revealed, targets, .. } => "discovered_attack:"@ + revealed + seq![':']
            + join_commas(targets),
        MotifView::Hanging { square, role, .. } => "hanging:"@ + square + seq![':'] + role,
        MotifView::BackRank { king, .. } => "back_rank:"@ + king,
    }
}

fn push_joined(out: &mut Vec<char>, xs: &Vec<String>)
    ensures
        final(out)@ == old(out)@ + join_commas(strings_view(xs@)),
{
    let ghost start = out@;
    let mut i: usize = 0;
    while i < xs.len()
        invariant
            i <= xs@.len(),
            out@ == start + join_commas(strings_view(xs@).subrange(0, i as int)),
        decreases xs.len() - i,
    {
        let ghost before = out@;
        if i > 0 {
            out.push(',');
        }
        push_str(out, xs[i].as_str());
        let ghost sub = strings_view(xs@).subrange(0, i as int + 1);
        assert(sub.drop_last() =~= strings_view(xs@).subrange(0, i as int));
        assert(sub.last() == xs@[i as int]@);
        if i == 0 {
            assert(sub =~= seq![xs@[0]@]);
        }
        i += 1;
    }
    assert(strings_view(xs@).subrange(0, xs@.len() as int) =~= strings_view(xs@));
}

fn subject(m: &Motif) -> (r: String)
    ensures
        r@ == spec_subject(m@),
{
    let mut out: Vec<char> = Vec::new();
    match m {
        Motif::Fork { attacker, targets, .. } => {
            push_str(&mut out, "fork:");
            push_str(&mut out, attacker.as_str());
            out.push(':');
            push_joined(&mut out, targets);
        },
        Motif::Pin { pinned, behind, .. } => {
            push_str(&mut out, "pin:");
            push_str(&mut out, pinned.as_str());
            out.push(':');
            push_str(&mut out, behind.as_str());
        },
        Motif::Skewer { front, behind, .. } => {
            push_str(&mut out, "skewer:");
            push_str(&mut out, front.as_str());
            out.push(':');
            push_str(&mut out, behind.as_str());
        },
        Motif::DiscoveredAttack { revealed, targets, .. } => {
            push_str(&mut out, "discovered_attack:");
            push_str(&mut out, revealed.as_str());
            out.push(':');
            push_joined(&mut out, targets);
        },
        Motif::Hanging { square, role, .. } => {
            push_str(&mut out, "hanging:");
            push_str(&mut out, square.as_str());
            out.push(':');
            push_str(&mut out, role.as_str());
        },
        Motif::BackRank { king, .. } => {
            push_str(&mut out, "back_rank:");
            push_str(&mut out, king.as_str());
        },
    }
    string_from_chars(&out)
}

/// Whether a capture inside a line really wins the piece it takes, rather
/// than being one link of an exchange: not a recapture on the square the
/// previous ply captured on, not the removal of a checking piece, and a
/// positive exchange balance.
pub open spec fn spec_loses_outright(pos: PositionView, mv: ChessMove, contested: Option<usize>) -> bool {
    contested != Some(mv.to) && !crate::position::spec_checkers(pos).contains(mv.to) && spec_see(pos.board, pos.turn, mv) > 0
}

fn loses_material_outright(pos: &Position, mv: &ChessMove, contested: Option<usize>) -> (r: bool)
    requires
        pos.wf(),
        mv.wf(),
    ensures
        r == spec_loses_outright(pos@, *mv, contested),
{
    if contested == Some(mv.to) {
        return false;
    }
    let check = checkers(pos);
    if contains_square(&check, mv.to) {
        return false;
    }
    see(&pos.board, pos.turn, *mv) > 0
}

/// A motif kept for a line, with the ply it was found at and its score.
pub open spec fn ranked_entry(m: MotifView, ply: int, score: int) -> (MotifView, int, int) {
    (m, ply, score)
}

/// The motifs of one move, taken in order into `found`: hanging pieces that
/// are only part of an exchange are dropped, so are motifs scoring below the
/// floor after the ply discount, and ideas already reported.
pub open spec fn absorb(
    ms: Seq<MotifView>,
    n: int,
    pos: PositionView,
    mv: ChessMove,
    contested: Option<usize>,
    ply: int,
    found: (Seq<(MotifView, int, int)>, Seq<Seq<char>>),
) -> (Seq<(MotifView, int, int)>, Seq<Seq<char>>)
    decreases n,
{
    if n <= 0 {
        found
    } else {
        let prev = absorb(ms, n - 1, pos, mv, contested, ply, found);
        let m = ms[n - 1];
        let score = spec_severity(m) - ply * 50;
        if (m is Hanging && !spec_loses_outright(pos, mv, contested)) || score < 150 || prev.1.contains(
            spec_subject(m),
        ) {
            prev
        } else {
            (prev.0.push((m, ply, score)), prev.1.push(spec_subject(m)))
        }
    }
}

/// Where the replay of a line stands after `k` plies: the position (none once
/// a move failed to read or play), the square the last capture landed on,
/// and what has been collected.
pub open spec fn scan(start: PositionView, pv: Seq<Seq<char>>, k: int) -> (Option<PositionView>, Option<usize>, (Seq<(MotifView, int, int)>, Seq<Seq<char>>))
    decreases k,
{
    if k <= 0 {
        (Some(start), None, (seq![], seq![]))
    } else {
        let prev = scan(start, pv, k - 1);
        match prev.0 {
            None => prev,
            Some(pos) => match spec_parse_move(pos, pv[k - 1], true) {
                None => (None, prev.1, prev.2),
                Some(mv) => {
                    let ms = spec_detect(pos, mv);
                    let found = absorb(ms, ms.len() as int, pos, mv, prev.1, k - 1, prev.2);
                    (spec_play(pos, mv), if mv.capture is Some { Some(mv.to) } else { None }, found)
                },
            },
        }
    }
}

/// Entry `j` ranks before entry `i`: higher score, then earlier ply, then
/// earlier in the line.
pub open spec fn outranks(r: Seq<(MotifView, int, int)>, j: int, i: int) -> bool {
    r[j].2 > r[i].2 || (r[j].2 == r[i].2 && r[j].1 < r[i].1) || (r[j].2 == r[i].2 && r[j].1 == r[i].1 && j < i)
}

/// How many of the first `n` entries outrank entry `i`.
pub open spec fn outranked_by(r: Seq<(MotifView, int, int)>, i: int, n: int) -> nat
    decreases n,
{
    if n <= 0 {
        0
    } else {
        outranked_by(r, i, n - 1) + if outranks(r, n - 1, i) { 1nat } else { 0nat }
    }
}

/// Entry `i` is among the three best of the line.
pub open spec fn kept(r: Seq<(MotifView, int, int)>, i: int) -> bool {
    0 <= i < r.len() && outranked_by(r, i, r.len() as int) < 3
}

/// Reading order of the reported motifs: by ply, then by score (higher
/// first), then by position in the line.
pub open spec fn reads_before(r: Seq<(MotifView, int, int)>, a: int, b: int) -> bool {
    r[a].1 < r[b].1 || (r[a].1 == r[b].1 && r[a].2 > r[b].2) || (r[a].1 == r[b].1 && r[a].2 == r[b].2 && a < b)
}

/// The motifs collected along a line, before the cut.
pub open spec fn line_ranked(start: PositionView, pv: Seq<Seq<char>>) -> Seq<(MotifView, int, int)> {
    let k = if pv.len() < 6 { pv.len() as int } else { 6 };
    scan(start, pv, k).2.0
}

/// `out` is the three best entries of `r`, in reading order: the entries at
/// `idx`, which are exactly the kept ones, listed in `reads_before` order.
pub open spec fn reported(r: Seq<(MotifView, int, int)>, out: Seq<MotifView>, idx: Seq<int>) -> bool {
    &&& out.len() == idx.len()
    &&& forall|k: int| 0 <= k < idx.len() ==> 0 <= #[trigger] idx[k] < r.len() && out[k] == r[idx[k]].0
    &&& forall|a: int, b: int| 0 <= a < b < idx.len() ==> reads_before(r, #[trigger] idx[a], #[trigger] idx[b])
    &&& forall|i: int| kept(r, i) <==> idx.contains(i)
}

struct Ranked {
    motif: Motif,
    ply: usize,
    score: i32,
}

fn copy_motif(m: &Motif) -> (r: Motif)
    ensures
        r@ == m@,
{
    match m {
        Motif::Fork { from, attacker, targets } => Motif::Fork {
            from: from.clone(),
            attacker: attacker.clone(),
            targets: copy_strings(targets),
        },
        Motif::Pin { attacker, pinned, behind } => Motif::Pin {
            attacker: attacker.clone(),
            pinned: pinned.clone(),
            behind: behind.clone(),
        },
        Motif::Skewer { attacker, front, behind } => Motif::Skewer {
            attacker: attacker.clone(),
            front: front.clone(),
            behind: behind.clone(),
        },
        Motif::DiscoveredAttack { moved_from, revealed, targets } => Motif::DiscoveredAttack {
            moved_from: moved_from.clone(),
            revealed: revealed.clone(),
            targets: copy_strings(targets),
        },
        Motif::Hanging { square, role, see } => Motif::Hanging { square: square.clone(), role: role.clone(), see: *see },
        Motif::BackRank { attacker, king } => Motif::BackRank { attacker: attacker.clone(), king: king.clone() },
    }
}

spec fn ranked_view(v: Seq<Ranked>) -> Seq<(MotifView, int, int)> {
    v.map_values(|r: Ranked| (r.motif@, r.ply as int, r.score as int))
}

/// Once the replay of a line has stopped, reading further changes nothing.
proof fn lemma_scan_stopped(start: PositionView, pv: Seq<Seq<char>>, k: int, j: int)
    requires
        0 <= k <= j,
        scan(start, pv, k).0 is None,
    ensures
        scan(start, pv, j) == scan(start, pv, k),
    decreases j - k,
{
    if j > k {
        lemma_scan_stopped(start, pv, k, j - 1);
    }
}

/// How many of the first `m` entries are kept and not yet placed.
spec fn pending(keep: Seq<bool>, used: Seq<bool>, m: int) -> nat
    decreases m,
{
    if m <= 0 {
        0
    } else {
        pending(keep, used, m - 1) + if keep[m - 1] && !used[m - 1] { 1nat } else { 0nat }
    }
}

proof fn lemma_pending_take(keep: Seq<bool>, used: Seq<bool>, b: int, m: int)
    requires
        0 <= b < used.len(),
        keep[b],
        !used[b],
        m <= used.len(),
    ensures
        pending(keep, used.update(b, true), m) + (if b < m { 1int } else { 0int }) == pending(keep, used, m),
    decreases m,
{
    if m > 0 {
        lemma_pending_take(keep, used, b, m - 1);
    }
}

fn outranks_at(ranked: &Vec<Ranked>, j: usize, i: usize) -> (r: bool)
    requires
        j < ranked@.len(),
        i < ranked@.len(),
    ensures
        r == outranks(ranked_view(ranked@), j as int, i as int),
{
    let a = &ranked[j];
    let b = &ranked[i];
    a.score > b.score || (a.score == b.score && a.ply < b.ply) || (a.score == b.score && a.ply == b.ply && j < i)
}

fn reads_before_at(ranked: &Vec<Ranked>, a: usize, b: usize) -> (r: bool)
    requires
        a < ranked@.len(),
        b < ranked@.len(),
    ensures
        r == reads_before(ranked_view(ranked@), a as int, b as int),
{
    let x = &ranked[a];
    let y = &ranked[b];
    x.ply < y.ply || (x.ply == y.ply && x.score > y.score) || (x.ply == y.ply && x.score == y.score && a < b)
}

/// Which entries are among the three best.
fn kept_flags(ranked: &Vec<Ranked>) -> (keep: Vec<bool>)
    ensures
        keep@.len() == ranked@.len(),
        forall|k: int| 0 <= k < keep@.len() ==> keep@[k] == kept(ranked_view(ranked@), k),
{
    let ghost rv = ranked_view(ranked@);
    let n = ranked.len();
    let mut keep: Vec<bool> = Vec::new();
    let mut i: usize = 0;
    while i < n
        invariant
            n == ranked@.len(),
            rv == ranked_view(ranked@),
            rv.len() == n,
            i <= n,
            keep@.len() == i,
            forall|k: int| 0 <= k < i ==> keep@[k] == kept(rv, k),
        decreases n - i,
    {
        let mut count: usize = 0;
        let mut j: usize = 0;
        while j < n
            invariant
                n == ranked@.len(),
                rv == ranked_view(ranked@),
                i < n,
                j <= n,
                count == outranked_by(rv, i as int, j as int),
                count <= j,
            decreases n - j,
        {
            if outranks_at(ranked, j, i) {
                count += 1;
            }
            j += 1;
        }
        keep.push(count < MAX_MOTIFS_PER_LINE);
        i += 1;
    }
    keep
}

/// Indices of the kept entries, in reading order.
fn reading_order(ranked: &Vec<Ranked>, keep: &Vec<bool>) -> (order: Vec<usize>)
    requires
        keep@.len() == ranked@.len(),
    ensures
        forall|k: int| 0 <= k < order@.len() ==> order@[k] < ranked@.len() && keep@[order@[k] as int],
        forall|i: int| 0 <= i < keep@.len() && keep@[i] ==> order@.contains(i as usize),
        forall|a: int, b: int|
            0 <= a < b < order@.len() ==> reads_before(ranked_view(ranked@), #[trigger] order@[a] as int, #[trigger] order@[b] as int),
{
    let ghost rv = ranked_view(ranked@);
    let n = ranked.len();
    let mut used: Vec<bool> = Vec::new();
    let mut i: usize = 0;
    while i < n
        invariant
            i <= n,
            used@.len() == i,
            forall|k: int| 0 <= k < i ==> !used@[k],
        decreases n - i,
    {
        used.push(false);
        i += 1;
    }
    let mut order: Vec<usize> = Vec::new();
    loop
        invariant
            n == ranked@.len(),
            n == keep@.len(),
            rv == ranked_view(ranked@),
            used@.len() == n,
            forall|k: int| 0 <= k < order@.len() ==> order@[k] < n && keep@[order@[k] as int] && used@[order@[k] as int],
            forall|x: int| 0 <= x < n && used@[x] ==> order@.contains(x as usize),
            forall|a: int, b: int|
                0 <= a < b < order@.len() ==> reads_before(rv, #[trigger] order@[a] as int, #[trigger] order@[b] as int),
            forall|k: int, x: int|
                0 <= k < order@.len() && 0 <= x < n && keep@[x] && !used@[x] ==> #[trigger] reads_before(
                    rv,
                    order@[k] as int,
                    x,
                ),
        ensures
            forall|k: int| 0 <= k < order@.len() ==> order@[k] < n && keep@[order@[k] as int],
            forall|x: int| 0 <= x < n && keep@[x] ==> order@.contains(x as usize),
            forall|a: int, b: int|
                0 <= a < b < order@.len() ==> reads_before(rv, #[trigger] order@[a] as int, #[trigger] order@[b] as int),
        decreases pending(keep@, used@, n as int),
    {
        let mut best: Option<usize> = None;
        let mut c: usize = 0;
        while c < n
            invariant
                n == ranked@.len(),
                n == keep@.len(),
                n == used@.len(),
                rv == ranked_view(ranked@),
                c <= n,
                match best {
                    Some(b) => b < c && keep@[b as int] && !used@[b as int] && forall|x: int|
                        0 <= x < c && keep@[x] && !used@[x] && x != b ==> reads_before(rv, b as int, x),
                    None => forall|x: int| 0 <= x < c ==> !(keep@[x] && !used@[x]),
                },
            decreases n - c,
        {
            if keep[c] && !used[c] {
                match best {
                    None => {
                        best = Some(c);
                    },
                    Some(b) => {
                        if reads_before_at(ranked, c, b) {
                            best = Some(c);
                        }
                    },
                }
            }
            c += 1;
        }
        match best {
            None => {
                break;
            },
            Some(b) => {
                proof {
                    lemma_pending_take(keep@, used@, b as int, n as int);
                }
                let ghost old_order = order@;
                let ghost old_used = used@;
                order.push(b);
                used.set(b, true);
                assert forall|x: int| 0 <= x < n && used@[x] implies order@.contains(x as usize) by {
                    if x == b as int {
                        assert(order@[order@.len() - 1] == b);
                    } else {
                        assert(old_used[x]);
                        assert(old_order.contains(x as usize));
                        let q = choose|q: int| 0 <= q < old_order.len() && old_order[q] == x as usize;
                        assert(order@[q] == x as usize);
                    }
                }
            },
        }
    }
    order
}

/// The motifs worth naming along a line of SAN moves from `start`: each move
/// is read with `detect` for at most six plies, stopping at the first move
/// that does not read or play. Hanging pieces that are only part of an
/// exchange, motifs scoring under the floor after the ply discount, and
/// ideas already collected are dropped; the three best (by score, then ply)
/// are reported in the order of the line.
pub fn detect_in_line(start: &Position, pv: &Vec<String>) -> (r: Vec<Motif>)
    requires
        start.wf(),
    ensures
        exists|idx: Seq<int>|
            #[trigger] reported(line_ranked(start@, strings_view(pv@)), motif_views(r@), idx),
{
    let ghost pvs = strings_view(pv@);
    let limit: usize = if pv.len() < MOTIF_PLY_HORIZON { pv.len() } else { MOTIF_PLY_HORIZON };
    let mut pos = start.copy();
    let mut ranked: Vec<Ranked> = Vec::new();
    let mut seen: Vec<String> = Vec::new();
    let mut contested: Option<usize> = None;
    let mut done = false;
    let mut ply: usize = 0;
    assert(ranked_view(ranked@) =~= seq![]);
    assert(strings_view(seen@) =~= seq![]);
    while ply < limit && !done
        invariant
            ply <= limit,
            limit <= 6,
            limit as int == (if pvs.len() < 6 { pvs.len() as int } else { 6 }),
            limit <= pv@.len(),
            pvs == strings_view(pv@),
            pos.wf(),
            scan(start@, pvs, ply as int).1 == contested,
            scan(start@, pvs, ply as int).2 == (ranked_view(ranked@), strings_view(seen@)),
            !done ==> scan(start@, pvs, ply as int).0 == Some(pos@),
            done ==> scan(start@, pvs, ply as int).0 is None,
        decreases limit - ply,
    {
        let parsed = parse_move(&pos, pv[ply].as_str(), true);
        assert(pvs[ply as int] == pv@[ply as int]@);
        match parsed {
            None => {
                done = true;
            },
            Some(mv) => {
                let ms = detect(&pos, &mv);
                proof {
                    lemma_detect_bounded(pos@, mv);
                }
                let ghost msv = ms@.map_values(|m: Motif| m@);
                let ghost found0 = (ranked_view(ranked@), strings_view(seen@));
                let mut j: usize = 0;
                while j < ms.len()
                    invariant
                        j <= ms@.len(),
                        msv == ms@.map_values(|m: Motif| m@),
                        msv == spec_detect(pos@, mv),
                        forall|i: int| 0 <= i < msv.len() ==> severity_bounded(#[trigger] msv[i]),
                        pos.wf(),
                        mv.wf(),
                        ply < 6,
                        (ranked_view(ranked@), strings_view(seen@)) == absorb(
                            msv,
                            j as int,
                            pos@,
                            mv,
                            contested,
                            ply as int,
                            found0,
                        ),
                    decreases ms.len() - j,
                {
                    let m = &ms[j];
                    assert(m@ == msv[j as int]);
                    let is_hanging = matches!(m, Motif::Hanging { .. });
                    let exchange = is_hanging && !loses_material_outright(&pos, &mv, contested);
                    if !exchange {
                        let score = severity(m) - (ply as i32) * PLY_DISCOUNT;
                        if score >= MOTIF_SCORE_FLOOR {
                            let key = subject(m);
                            if !contains_str(&seen, key.as_str()) {
                                let ghost before_r = ranked@;
                                let ghost before_s = seen@;
                                let entry = Ranked { motif: copy_motif(m), ply, score };
                                seen.push(key);
                                ranked.push(entry);
                                assert(ranked_view(ranked@) =~= ranked_view(before_r).push(
                                    (msv[j as int], ply as int, score as int),
                                ));
                                assert(strings_view(seen@) =~= strings_view(before_s).push(spec_subject(msv[j as int])));
                            }
                        }
                    }
                    j += 1;
                }
                assert(msv.len() == ms@.len());
                let next_contested = if mv.capture.is_some() { Some(mv.to) } else { None };
                contested = next_contested;
                match play(&pos, &mv) {
                    Some(next) => {
                        pos = next;
                    },
                    None => {
                        done = true;
                    },
                }
            },
        }
        ply += 1;
    }
    proof {
        if done {
            lemma_scan_stopped(start@, pvs, ply as int, limit as int);
        }
    }
    let ghost rv = ranked_view(ranked@);
    assert(rv == line_ranked(start@, pvs));
    let keep = kept_flags(&ranked);
    let order = reading_order(&ranked, &keep);
    let total = ranked.len();
    let mut out: Vec<Motif> = Vec::new();
    let mut k: usize = 0;
    while k < order.len()
        invariant
            k <= order@.len(),
            rv == ranked_view(ranked@),
            forall|q: int| 0 <= q < order@.len() ==> order@[q] < ranked@.len(),
            out@.len() == k,
            forall|q: int| 0 <= q < k ==> #[trigger] out@[q]@ == rv[order@[q] as int].0,
        decreases order.len() - k,
    {
        let m = copy_motif(&ranked[order[k]].motif);
        out.push(m);
        k += 1;
    }
    proof {
        let idx = order@.map_values(|x: usize| x as int);
        let outv = motif_views(out@);
        assert forall|x: int| kept(rv, x) <==> idx.contains(x) by {
            if kept(rv, x) {
                assert(rv.len() == ranked@.len());
                assert(0 <= x < ranked@.len());
                assert(total == ranked@.len());
                assert((x as usize) as int == x);
                assert(keep@[x]);
                assert(order@.contains(x as usize));
                let q = choose|q: int| 0 <= q < order@.len() && order@[q] == x as usize;
                assert(0 <= q < idx.len());
                assert(idx[q] == order@[q] as int);
                assert(idx[q] == x);
            }
            if idx.contains(x) {
                let q = choose|q: int| 0 <= q < idx.len() && idx[q] == x;
                assert(order@[q] as int == x);
            }
        }
        assert(reported(rv, outv, idx));
    }
    out
}

} // verus!

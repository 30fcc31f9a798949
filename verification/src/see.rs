//! Static Exchange Evaluation: the material swing, in centipawns, of settling
//! a capture sequence on one square, each side taking with its cheapest piece
//! and free to stop whenever continuing would lose.

use vstd::prelude::*;
use crate::board::{
    Board, ChessMove, Color, MoveKind, Piece, Role, attacker_at, attacks_from, file_of, occupancy, occupied,
    other, rank_of, sq,
};

verus! {

/// Exchange values in centipawns; this table only has to order captures.
pub open spec fn piece_value(role: Role) -> int {
    match role {
        Role::Pawn => 100,
        Role::Knight => 320,
        Role::Bishop => 330,
        Role::Rook => 500,
        Role::Queen => 900,
        Role::King => 20000,
    }
}

pub fn piece_value_of(role: Role) -> (v: i32)
    ensures
        v == piece_value(role),
        100 <= v <= 20000,
{
    match role {
        Role::Pawn => 100,
        Role::Knight => 320,
        Role::Bishop => 330,
        Role::Rook => 500,
        Role::Queen => 900,
        Role::King => 20000,
    }
}

/// Roles by exchange value, cheapest first.
pub open spec fn role_by_value(i: int) -> Role {
    if i <= 0 { Role::Pawn }
    else if i == 1 { Role::Knight }
    else if i == 2 { Role::Bishop }
    else if i == 3 { Role::Rook }
    else if i == 4 { Role::Queen }
    else { Role::King }
}

fn role_by_value_of(i: usize) -> (r: Role)
    ensures
        r == role_by_value(i as int),
{
    if i == 0 { Role::Pawn }
    else if i == 1 { Role::Knight }
    else if i == 2 { Role::Bishop }
    else if i == 3 { Role::Rook }
    else if i == 4 { Role::Queen }
    else { Role::King }
}

/// A piece of `side` on `s`, still on the board (`occ`), attacking `t`.
pub open spec fn live_attacker(b: Seq<Option<Piece>>, s: int, t: int, side: Color, occ: Seq<bool>) -> bool {
    occ[s] && attacker_at(b, s, t, side, occ)
}

/// Pieces of `role` that are live attackers of `t` for `side`.
pub open spec fn role_attacker(b: Seq<Option<Piece>>, t: int, side: Color, occ: Seq<bool>, role: Role) -> spec_fn(int) -> bool {
    |s: int| live_attacker(b, s, t, side, occ) && b[s]->0.role == role
}

/// The lowest square at or above `from` satisfying `p`.
pub open spec fn first_where(p: spec_fn(int) -> bool, from: int) -> Option<int>
    decreases 64 - from,
{
    if from >= 64 || from < 0 {
        None
    } else if p(from) {
        Some(from)
    } else {
        first_where(p, from + 1)
    }
}

/// The cheapest live attacker of `t` for `side`, trying roles from index `i`
/// on; among pieces of one role the lowest square.
pub open spec fn least_valuable(b: Seq<Option<Piece>>, t: int, side: Color, occ: Seq<bool>, i: int) -> Option<int>
    decreases 6 - i,
{
    if i >= 6 {
        None
    } else {
        match first_where(role_attacker(b, t, side, occ, role_by_value(i)), 0) {
            Some(s) => Some(s),
            None => least_valuable(b, t, side, occ, i + 1),
        }
    }
}

/// Whether `side` has any live attacker of `t`.
pub open spec fn has_live_attacker(b: Seq<Option<Piece>>, t: int, side: Color, occ: Seq<bool>) -> bool {
    exists|s: int| 0 <= s < 64 && live_attacker(b, s, t, side, occ)
}

/// Number of occupied squares.
pub open spec fn occ_count(occ: Seq<bool>) -> nat
    decreases occ.len(),
{
    if occ.len() == 0 {
        0
    } else {
        occ_count(occ.drop_last()) + if occ.last() { 1nat } else { 0nat }
    }
}

pub proof fn lemma_occ_count_clear(occ: Seq<bool>, i: int)
    requires
        0 <= i < occ.len(),
        occ[i],
    ensures
        occ_count(occ.update(i, false)) + 1 == occ_count(occ),
    decreases occ.len(),
{
    if i == occ.len() - 1 {
        assert(occ.update(i, false).drop_last() =~= occ.drop_last());
    } else {
        lemma_occ_count_clear(occ.drop_last(), i);
        assert(occ.update(i, false).drop_last() =~= occ.drop_last().update(i, false));
    }
}

pub proof fn lemma_first_where_sound(p: spec_fn(int) -> bool, from: int)
    ensures
        first_where(p, from) matches Some(s) ==> from <= s < 64 && p(s),
    decreases 64 - from,
{
    if 0 <= from < 64 && !p(from) {
        lemma_first_where_sound(p, from + 1);
    }
}

proof fn lemma_least_valuable_sound(b: Seq<Option<Piece>>, t: int, side: Color, occ: Seq<bool>, i: int)
    ensures
        least_valuable(b, t, side, occ, i) matches Some(s) ==> 0 <= s < 64 && live_attacker(
            b,
            s,
            t,
            side,
            occ,
        ),
    decreases 6 - i,
{
    if i < 6 {
        lemma_first_where_sound(role_attacker(b, t, side, occ, role_by_value(i)), 0);
        lemma_least_valuable_sound(b, t, side, occ, i + 1);
    }
}

proof fn lemma_first_where_none(p: spec_fn(int) -> bool, from: int)
    requires
        0 <= from,
        first_where(p, from) is None,
    ensures
        forall|s: int| #![trigger p(s)] from <= s < 64 ==> !p(s),
    decreases 64 - from,
{
    if from < 64 {
        lemma_first_where_none(p, from + 1);
    }
}

/// The position of each role in value order, cheapest first.
spec fn value_rank(r: Role) -> int {
    match r {
        Role::Pawn => 0,
        Role::Knight => 1,
        Role::Bishop => 2,
        Role::Rook => 3,
        Role::Queen => 4,
        Role::King => 5,
    }
}

proof fn lemma_least_valuable_least(b: Seq<Option<Piece>>, t: int, side: Color, occ: Seq<bool>, i: int)
    requires
        0 <= i <= 6,
    ensures
        least_valuable(b, t, side, occ, i) matches Some(s) ==> forall|s2: int|
            0 <= s2 < 64 && #[trigger] live_attacker(b, s2, t, side, occ) && (forall|k: int| 0 <= k < i ==> b[s2]->0.role
                != role_by_value(k)) ==> piece_value(b[least_valuable(b, t, side, occ, i)->Some_0]->0.role) <= piece_value(
                b[s2]->0.role,
            ),
    decreases 6 - i,
{
    if i < 6 {
        let p = role_attacker(b, t, side, occ, role_by_value(i));
        lemma_first_where_sound(p, 0);
        lemma_least_valuable_least(b, t, side, occ, i + 1);
        match first_where(p, 0) {
            Some(s) => {
                assert(b[s]->0.role == role_by_value(i));
                assert forall|s2: int|
                    0 <= s2 < 64 && #[trigger] live_attacker(b, s2, t, side, occ) && (forall|k: int| 0 <= k < i ==> b[s2]->0.role
                        != role_by_value(k)) implies piece_value(b[s]->0.role) <= piece_value(b[s2]->0.role) by {
                    let r2 = b[s2]->0.role;
                    // Every role has its place in the order; the ones before `i` are excluded.
                    assert(r2 == role_by_value(value_rank(r2)));
                    if value_rank(r2) < i {
                        assert(r2 != role_by_value(value_rank(r2)));
                    }
                }
            },
            None => {
                lemma_first_where_none(p, 0);
                assert forall|s2: int|
                    0 <= s2 < 64 && #[trigger] live_attacker(b, s2, t, side, occ) && (forall|k: int| 0 <= k < i ==> b[s2]->0.role
                        != role_by_value(k)) implies (forall|k: int| 0 <= k < i + 1 ==> b[s2]->0.role != role_by_value(k)) by {
                    assert(!p(s2));
                }
            },
        }
    }
}

/// Each side recaptures with its cheapest piece: the attacker chosen is worth
/// no more than any other piece of that side still attacking the square, by
/// the exchange values pawn < knight < bishop < rook < queen < king.
pub proof fn lemma_least_valuable_is_cheapest(b: Seq<Option<Piece>>, t: int, side: Color, occ: Seq<bool>)
    ensures
        least_valuable(b, t, side, occ, 0) matches Some(s) ==> 0 <= s < 64 && live_attacker(b, s, t, side, occ) && forall|
            s2: int,
        |
            0 <= s2 < 64 && #[trigger] live_attacker(b, s2, t, side, occ) ==> piece_value(b[s]->0.role) <= piece_value(
                b[s2]->0.role,
            ),
        least_valuable(b, t, side, occ, 0) is None ==> forall|s2: int| 0 <= s2 < 64 ==> !#[trigger] live_attacker(b, s2, t, side, occ),
{
    lemma_least_valuable_least(b, t, side, occ, 0);
    lemma_least_valuable_sound(b, t, side, occ, 0);
    lemma_least_valuable_none(b, t, side, occ, 0);
}

proof fn lemma_least_valuable_none(b: Seq<Option<Piece>>, t: int, side: Color, occ: Seq<bool>, i: int)
    requires
        0 <= i <= 6,
    ensures
        least_valuable(b, t, side, occ, i) is None ==> forall|s2: int|
            0 <= s2 < 64 && #[trigger] live_attacker(b, s2, t, side, occ) ==> exists|k: int| 0 <= k < i && b[s2]->0.role
                == role_by_value(k),
    decreases 6 - i,
{
    if i < 6 {
        let p = role_attacker(b, t, side, occ, role_by_value(i));
        lemma_least_valuable_none(b, t, side, occ, i + 1);
        if first_where(p, 0) is None && least_valuable(b, t, side, occ, i) is None {
            lemma_first_where_none(p, 0);
            assert(least_valuable(b, t, side, occ, i + 1) is None);
            assert forall|s2: int| 0 <= s2 < 64 && #[trigger] live_attacker(b, s2, t, side, occ) implies exists|k: int|
                0 <= k < i && b[s2]->0.role == role_by_value(k) by {
                assert(!p(s2));
                assert(b[s2]->0.role != role_by_value(i));
                let k = choose|k: int| 0 <= k < i + 1 && b[s2]->0.role == role_by_value(k);
                assert(k != i);
            }
        }
    } else {
        assert forall|s2: int| 0 <= s2 < 64 && #[trigger] live_attacker(b, s2, t, side, occ) implies exists|k: int|
            0 <= k < i && b[s2]->0.role == role_by_value(k) by {
            let r2 = b[s2]->0.role;
            assert(r2 == role_by_value(value_rank(r2)));
        }
    }
}

/// Value, for `side` who captures next on `t`, of continuing the exchange.
/// The piece standing on `t` is worth `victim`; `occ` is the live occupancy,
/// with pieces already spent removed, which lets sliders behind them join in.
/// Never negative: the side to move may always decline. A king only captures
/// when nothing of the opponent's still defends the square.
pub open spec fn exchange_gain(b: Seq<Option<Piece>>, t: int, side: Color, occ: Seq<bool>, victim: int) -> int
    decreases occ_count(occ),
{
    match least_valuable(b, t, side, occ, 0) {
        None => 0,
        Some(from) => {
            if !(0 <= from < occ.len() && occ[from]) {
                0
            } else {
                let next = occ.update(from, false);
                let role = b[from]->0.role;
                if role == Role::King && has_live_attacker(b, t, other(side), next) {
                    0
                } else {
                    proof {
                        lemma_occ_count_clear(occ, from);
                    }
                    let g = victim - exchange_gain(b, t, other(side), next, piece_value(role));
                    if g > 0 { g } else { 0 }
                }
            }
        },
    }
}

fn first_live_attacker_of_role(b: &Board, t: usize, side: Color, occ: &Vec<bool>, role: Role) -> (r: Option<usize>)
    requires
        b.wf(),
        occ@.len() == 64,
        t < 64,
    ensures
        r == (match first_where(role_attacker(b@, t as int, side, occ@, role), 0) {
            Some(s) => Some(s as usize),
            None => None::<usize>,
        }),
        r matches Some(s) ==> s < 64,
{
    let mut s: usize = 0;
    while s < 64
        invariant
            b.wf(),
            occ@.len() == 64,
            t < 64,
            s <= 64,
            first_where(role_attacker(b@, t as int, side, occ@, role), 0) == first_where(
                role_attacker(b@, t as int, side, occ@, role),
                s as int,
            ),
        decreases 64 - s,
    {
        let live = occ[s] && attacks_from(b, s, t, side, occ);
        let hit = live && match b.cells[s] {
            Some(piece) => piece.role == role,
            None => false,
        };
        assert(hit == role_attacker(b@, t as int, side, occ@, role)(s as int));
        if hit {
            return Some(s);
        }
        s += 1;
    }
    None
}

/// The cheapest live attacker of `t` for `side`, lowest square among equals.
pub fn least_valuable_attacker(b: &Board, t: usize, side: Color, occ: &Vec<bool>) -> (r: Option<usize>)
    requires
        b.wf(),
        occ@.len() == 64,
        t < 64,
    ensures
        r == (match least_valuable(b@, t as int, side, occ@, 0) {
            Some(s) => Some(s as usize),
            None => None::<usize>,
        }),
        r matches Some(s) ==> s < 64 && live_attacker(b@, s as int, t as int, side, occ@),
        r matches Some(s) ==> least_valuable(b@, t as int, side, occ@, 0) == Some(s as int),
{
    proof {
        lemma_least_valuable_sound(b@, t as int, side, occ@, 0);
    }
    let mut i: usize = 0;
    while i < 6
        invariant
            b.wf(),
            occ@.len() == 64,
            t < 64,
            i <= 6,
            least_valuable(b@, t as int, side, occ@, 0) == least_valuable(b@, t as int, side, occ@, i as int),
        decreases 6 - i,
    {
        let role = role_by_value_of(i);
        match first_live_attacker_of_role(b, t, side, occ, role) {
            Some(s) => {
                proof {
                    lemma_least_valuable_sound(b@, t as int, side, occ@, 0);
                }
                return Some(s);
            },
            None => {},
        }
        i += 1;
    }
    None
}

/// Whether `side` has any live attacker of `t`.
pub fn any_live_attacker(b: &Board, t: usize, side: Color, occ: &Vec<bool>) -> (r: bool)
    requires
        b.wf(),
        occ@.len() == 64,
        t < 64,
    ensures
        r == has_live_attacker(b@, t as int, side, occ@),
{
    let mut s: usize = 0;
    while s < 64
        invariant
            b.wf(),
            occ@.len() == 64,
            t < 64,
            s <= 64,
            forall|x: int| 0 <= x < s ==> !live_attacker(b@, x, t as int, side, occ@),
        decreases 64 - s,
    {
        if occ[s] && attacks_from(b, s, t, side, occ) {
            assert(live_attacker(b@, s as int, t as int, side, occ@));
            return true;
        }
        s += 1;
    }
    false
}

fn copy_without(occ: &Vec<bool>, i: usize) -> (r: Vec<bool>)
    requires
        i < occ@.len(),
    ensures
        r@ == occ@.update(i as int, false),
{
    let mut out: Vec<bool> = Vec::new();
    let mut k: usize = 0;
    while k < occ.len()
        invariant
            i < occ@.len(),
            k <= occ@.len(),
            out@.len() == k,
            forall|j: int| 0 <= j < k ==> out@[j] == occ@.update(i as int, false)[j],
        decreases occ.len() - k,
    {
        if k == i {
            out.push(false);
        } else {
            out.push(occ[k]);
        }
        k += 1;
    }
    assert(out@ =~= occ@.update(i as int, false));
    out
}

/// Value of continuing the exchange on `t` for `side`, who captures next.
pub fn exchange_gain_of(b: &Board, t: usize, side: Color, occ: &Vec<bool>, victim: i32) -> (r: i32)
    requires
        b.wf(),
        occ@.len() == 64,
        t < 64,
        0 <= victim <= 20000,
    ensures
        r == exchange_gain(b@, t as int, side, occ@, victim as int),
        0 <= r <= victim,
    decreases occ_count(occ@),
{
    match least_valuable_attacker(b, t, side, occ) {
        None => 0,
        Some(from) => {
            let next = copy_without(occ, from);
            let role = match b.cells[from] {
                Some(p) => p.role,
                None => Role::Pawn,
            };
            if matches!(role, Role::King) && any_live_attacker(b, t, side.other(), &next) {
                return 0;
            }
            proof {
                lemma_occ_count_clear(occ@, from as int);
            }
            let inner = exchange_gain_of(b, t, side.other(), &next, piece_value_of(role));
            let g = victim - inner;
            assert(least_valuable(b@, t as int, side, occ@, 0) == Some(from as int));
            assert(0 <= from < occ@.len() && occ@[from as int]);
            assert(role == b@[from as int]->0.role);
            assert(next@ == occ@.update(from as int, false));
            if g > 0 { g } else { 0 }
        },
    }
}

/// Settlement value for the piece standing on `t` if the opponent starts an
/// exchange there, from its owner's point of view. Zero for an empty square or
/// a king.
pub open spec fn spec_see_square(b: Seq<Option<Piece>>, t: int) -> int {
    match b[t] {
        None => 0,
        Some(p) => if p.role == Role::King {
            0
        } else {
            -exchange_gain(b, t, other(p.color), occupancy(b), piece_value(p.role))
        },
    }
}

pub fn see_square(b: &Board, t: usize) -> (r: i32)
    requires
        b.wf(),
        t < 64,
    ensures
        r == spec_see_square(b@, t as int),
        r <= 0,
{
    match b.cells[t] {
        None => 0,
        Some(p) => {
            if matches!(p.role, Role::King) {
                0
            } else {
                let occ = occupied(b);
                -exchange_gain_of(b, t, p.color.other(), &occ, piece_value_of(p.role))
            }
        },
    }
}

/// Material swing of the exchange on `mv`'s destination after `mv` is played
/// by `us` on board `b`. Negative means losing material; castling is neutral.
pub open spec fn spec_see(b: Seq<Option<Piece>>, us: Color, mv: ChessMove) -> int {
    if mv.kind == MoveKind::Castle {
        0
    } else {
        let occ0 = occupancy(b).update(mv.from as int, false);
        let occ1 = if mv.kind == MoveKind::EnPassant {
            occ0.update(sq(file_of(mv.to as int), rank_of(mv.from as int)), false)
        } else {
            occ0
        };
        let occ = occ1.update(mv.to as int, true);
        let taken = match mv.capture {
            Some(role) => piece_value(role),
            None => 0,
        };
        let captured = match mv.promotion {
            Some(p) => taken + piece_value(p) - 100,
            None => taken,
        };
        let standing = match mv.promotion {
            Some(p) => piece_value(p),
            None => piece_value(mv.role),
        };
        captured - exchange_gain(b, mv.to as int, other(us), occ, standing)
    }
}

fn set_occ(occ: &mut Vec<bool>, i: usize, v: bool)
    requires
        i < old(occ)@.len(),
    ensures
        final(occ)@ == old(occ)@.update(i as int, v),
{
    occ.set(i, v);
}

pub fn see(b: &Board, us: Color, mv: ChessMove) -> (r: i32)
    requires
        b.wf(),
        mv.wf(),
    ensures
        r == spec_see(b@, us, mv),
{
    if matches!(mv.kind, MoveKind::Castle) {
        return 0;
    }
    let mut occ = occupied(b);
    set_occ(&mut occ, mv.from, false);
    let mut captured: i32 = match mv.capture {
        Some(role) => piece_value_of(role),
        None => 0,
    };
    if matches!(mv.kind, MoveKind::EnPassant) {
        let idx = (mv.from / 8) * 8 + mv.to % 8;
        set_occ(&mut occ, idx, false);
    }
    let mut standing = piece_value_of(mv.role);
    match mv.promotion {
        Some(p) => {
            captured = captured + piece_value_of(p) - 100;
            standing = piece_value_of(p);
        },
        None => {},
    }
    set_occ(&mut occ, mv.to, true);
    captured - exchange_gain_of(b, mv.to, us.other(), &occ, standing)
}

/// Whatever the position, being attacked cannot make a piece gain material.
pub proof fn lemma_see_square_never_gains(b: Seq<Option<Piece>>, t: int)
    ensures
        spec_see_square(b, t) <= 0,
{
    match b[t] {
        None => {},
        Some(p) => {
            if p.role != Role::King {
                lemma_exchange_gain_bounds(b, t, other(p.color), occupancy(b), piece_value(p.role));
            }
        },
    }
}

/// The value of continuing an exchange lies between nothing and the piece on the square.
pub proof fn lemma_exchange_gain_bounds(b: Seq<Option<Piece>>, t: int, side: Color, occ: Seq<bool>, victim: int)
    requires
        victim >= 0,
    ensures
        0 <= exchange_gain(b, t, side, occ, victim) <= victim,
    decreases occ_count(occ),
{
    match least_valuable(b, t, side, occ, 0) {
        None => {},
        Some(from) => {
            if 0 <= from < occ.len() && occ[from] {
                let next = occ.update(from, false);
                lemma_occ_count_clear(occ, from);
                lemma_exchange_gain_bounds(b, t, other(side), next, piece_value(b[from]->0.role));
            }
        },
    }
}

/// A move to a square that nothing of the other side can then take on wins
/// exactly what it takes plus what it promotes to, less the pawn: a capture
/// takes 100 for a pawn, 320 for a knight, 330 for a bishop, 500 for a rook,
/// 900 for a queen; a promotion adds 220 for a knight, 230 for a bishop, 400
/// for a rook, 800 for a queen; a quiet move to a safe square wins nothing.
pub proof fn lemma_undefended_capture_wins_its_value(b: Seq<Option<Piece>>, us: Color, mv: ChessMove)
    requires
        mv.kind == MoveKind::Normal,
        forall|s: int| 0 <= s < 64 ==> !#[trigger] live_attacker(
            b,
            s,
            mv.to as int,
            other(us),
            occupancy(b).update(mv.from as int, false).update(mv.to as int, true),
        ),
    ensures
        spec_see(b, us, mv) == (match mv.capture {
            None => 0int,
            Some(Role::Pawn) => 100int,
            Some(Role::Knight) => 320int,
            Some(Role::Bishop) => 330int,
            Some(Role::Rook) => 500int,
            Some(Role::Queen) => 900int,
            Some(Role::King) => 20000int,
        }) + (match mv.promotion {
            None => 0int,
            Some(Role::Pawn) => 0int,
            Some(Role::Knight) => 220int,
            Some(Role::Bishop) => 230int,
            Some(Role::Rook) => 400int,
            Some(Role::Queen) => 800int,
            Some(Role::King) => 19900int,
        }),
{
    let occ = occupancy(b).update(mv.from as int, false).update(mv.to as int, true);
    lemma_least_valuable_sound(b, mv.to as int, other(us), occ, 0);
}

/// A piece that lands where the other side can take it, with nothing of its
/// own side able to retake afterwards, is simply lost: the exchange is worth
/// what the move took (and promoted to, less the pawn) minus the value of the
/// piece now standing on the square.
pub proof fn lemma_unsupported_piece_is_lost(b: Seq<Option<Piece>>, us: Color, mv: ChessMove)
    requires
        mv.wf(),
        mv.kind == MoveKind::Normal,
        exists|s: int| 0 <= s < 64 && #[trigger] live_attacker(
            b,
            s,
            mv.to as int,
            other(us),
            occupancy(b).update(mv.from as int, false).update(mv.to as int, true),
        ),
        forall|s: int, s2: int| 0 <= s < 64 && 0 <= s2 < 64 && #[trigger] live_attacker(
            b,
            s,
            mv.to as int,
            other(us),
            occupancy(b).update(mv.from as int, false).update(mv.to as int, true),
        ) ==> !#[trigger] live_attacker(
            b,
            s2,
            mv.to as int,
            us,
            occupancy(b).update(mv.from as int, false).update(mv.to as int, true).update(s, false),
        ),
    ensures
        spec_see(b, us, mv) == (match mv.capture {
            Some(role) => piece_value(role),
            None => 0,
        }) + (match mv.promotion {
            Some(p) => piece_value(p) - 100,
            None => 0,
        }) - (match mv.promotion {
            Some(p) => piece_value(p),
            None => piece_value(mv.role),
        }),
{
    let t = mv.to as int;
    let them = other(us);
    let occ = occupancy(b).update(mv.from as int, false).update(t, true);
    let standing = match mv.promotion {
        Some(p) => piece_value(p),
        None => piece_value(mv.role),
    };
    lemma_least_valuable_is_cheapest(b, t, them, occ);
    let w = choose|s: int| 0 <= s < 64 && #[trigger] live_attacker(b, s, t, them, occ);
    assert(live_attacker(b, w, t, them, occ));
    let from = least_valuable(b, t, them, occ, 0)->Some_0;
    assert(0 <= from < 64 && live_attacker(b, from, t, them, occ));
    assert(occ.len() == 64);
    let next = occ.update(from, false);
    lemma_least_valuable_is_cheapest(b, t, us, next);
    assert forall|s2: int| 0 <= s2 < 64 implies !#[trigger] live_attacker(b, s2, t, us, next) by {
        assert(live_attacker(b, from, t, them, occ));
    }
    if least_valuable(b, t, us, next, 0) is Some {
        let s3 = least_valuable(b, t, us, next, 0)->Some_0;
        assert(live_attacker(b, s3, t, us, next));
    }
    assert(!has_live_attacker(b, t, us, next));
    lemma_occ_count_clear(occ, from);
    assert(exchange_gain(b, t, us, next, piece_value(b[from]->0.role)) == 0);
    assert(exchange_gain(b, t, them, occ, standing) == standing);
}

} // verus!

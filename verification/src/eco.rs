//! Offline ECO opening names: tables of `eco<TAB>name<TAB>pgn` rows are
//! replayed into a position -> opening map, keyed by the FEN without its move
//! counters, so a position can be named without the network.
//!
//! Names only: a hit says "this position has a name", never "this move is
//! still theory".

use vstd::prelude::*;
use crate::position::{
    Position, PositionView, normalize_fen, parse_fen, parse_move, play, position_of_fen, spec_normalize_fen,
    spec_parse_move, spec_play,
};
use crate::text::{chars_eq, chars_of, decimal, push_all, push_decimal, push_str, string_from_chars, trim_end};
use crate::types::OpeningInfo;
use crate::uci::{split_whitespace, tokens};

verus! {

/// A handful of rows of the ECO classification, one table per volume, in
/// the `eco<TAB>name<TAB>pgn` layout with a header row.
pub const VOLUME_A: &'static str = "eco\tname\tpgn\nA00\tPolish Opening\t1. b4\nA04\tZukertort Opening\t1. Nf3\nA10\tEnglish Opening\t1. c4\nA40\tQueen's Pawn Game\t1. d4\n";
pub const VOLUME_B: &'static str = "eco\tname\tpgn\nB00\tKing's Pawn Game\t1. e4\nB10\tCaro-Kann Defense\t1. e4 c6\nB20\tSicilian Defense\t1. e4 c5\nB50\tSicilian Defense\t1. e4 c5 2. Nf3 d6\n";
pub const VOLUME_C: &'static str = "eco\tname\tpgn\nC00\tFrench Defense\t1. e4 e6\nC20\tKing's Pawn Game\t1. e4 e5\nC30\tKing's Gambit\t1. e4 e5 2. f4\nC33\tKing's Gambit Accepted\t1. e4 e5 2. f4 exf4\nC40\tKing's Knight Opening\t1. e4 e5 2. Nf3\nC50\tItalian Game\t1. e4 e5 2. Nf3 Nc6 3. Bc4\nC60\tRuy Lopez\t1. e4 e5 2. Nf3 Nc6 3. Bb5\nC65\tRuy Lopez: Berlin Defense\t1. e4 e5 2. Nf3 Nc6 3. Bb5 Nf6\nC97\tRuy Lopez: Closed, Chigorin Defense\t1. e4 e5 2. Nf3 Nc6 3. Bb5 a6 4. Ba4 Nf6 5. O-O Be7 6. Re1 b5 7. Bb3 d6 8. c3 O-O 9. h3 Na5 10. Bc2 c5 11. d4 Qc7\n";
pub const VOLUME_D: &'static str = "eco\tname\tpgn\nD00\tQueen's Pawn Game\t1. d4 d5\nD06\tQueen's Gambit\t1. d4 d5 2. c4\n";

/// The standard starting position.
pub const START_FEN: &'static str = "rnbqkbnr/pppppppp/8/8/8/8/PPPPPPPP/RNBQKBNR w KQkq - 0 1";

/// A named opening: its ECO code and the name of the line.
#[derive(Debug, Clone, PartialEq, Eq)]
pub struct Opening {
    /// ECO code, e.g. `"C65"`.
    pub eco: String,
    /// Full name, e.g. `"Ruy Lopez: Berlin Defense"`.
    pub name: String,
}

impl Opening {
    /// The wire form; `matched_plies` is a property of the game, supplied by
    /// the caller.
    pub fn into_info(self, matched_plies: u32) -> (r: OpeningInfo)
        ensures
            r.eco@ == self.eco@,
            r.name@ == self.name@,
            r.matched_plies == matched_plies,
    {
        OpeningInfo { eco: self.eco, name: self.name, matched_plies }
    }
}

// ---------------------------------------------------------------------------
// Text
// ---------------------------------------------------------------------------

/// The pieces of `s` between occurrences of `c` (`str::split` with a char):
/// one more piece than there are separators.
pub open spec fn split_on(s: Seq<char>, c: char) -> Seq<Seq<char>>
    decreases s.len(),
{
    if s.len() == 0 {
        seq![seq![]]
    } else {
        let prev = split_on(s.drop_last(), c);
        if s.last() == c {
            prev.push(seq![])
        } else {
            prev.update(prev.len() - 1, prev.last().push(s.last()))
        }
    }
}

proof fn lemma_split_nonempty(s: Seq<char>, c: char)
    ensures
        split_on(s, c).len() >= 1,
    decreases s.len(),
{
    if s.len() > 0 {
        lemma_split_nonempty(s.drop_last(), c);
    }
}

/// The lines of a text (`str::lines`): pieces between newlines, without an
/// empty piece after a final newline. Carriage returns are left in place;
/// every use trims trailing whitespace anyway.
pub open spec fn text_lines(s: Seq<char>) -> Seq<Seq<char>> {
    let p = split_on(s, '\n');
    if p.last().len() == 0 {
        p.drop_last()
    } else {
        p
    }
}

pub open spec fn char_rows(v: Seq<Vec<char>>) -> Seq<Seq<char>> {
    v.map_values(|x: Vec<char>| x@)
}

fn split_chars(s: &Vec<char>, c: char) -> (r: Vec<Vec<char>>)
    ensures
        char_rows(r@) == split_on(s@, c),
{
    let mut out: Vec<Vec<char>> = Vec::new();
    let mut cur: Vec<char> = Vec::new();
    let mut i: usize = 0;
    assert(s@.subrange(0, 0) =~= Seq::<char>::empty());
    assert(char_rows(out@).push(cur@) =~= seq![seq![]]);
    while i < s.len()
        invariant
            i <= s@.len(),
            split_on(s@.subrange(0, i as int), c) == char_rows(out@).push(cur@),
        decreases s.len() - i,
    {
        let x = s[i];
        let ghost next = s@.subrange(0, i as int + 1);
        assert(next.drop_last() =~= s@.subrange(0, i as int));
        assert(next.last() == x);
        let ghost rows = char_rows(out@);
        if x == c {
            let done = cur;
            out.push(done);
            cur = Vec::new();
            assert(char_rows(out@) =~= rows.push(done@));
            assert(char_rows(out@).push(cur@) =~= rows.push(done@).push(seq![]));
        } else {
            let ghost before = cur@;
            cur.push(x);
            assert(rows.push(before).update(rows.len() as int, before.push(x)) =~= rows.push(cur@));
        }
        i += 1;
    }
    assert(s@.subrange(0, s@.len() as int) =~= s@);
    let ghost rows = char_rows(out@);
    out.push(cur);
    assert(char_rows(out@) =~= rows.push(out@.last()@));
    out
}

pub(crate) fn lines_of(text: &str) -> (r: Vec<Vec<char>>)
    ensures
        char_rows(r@) == text_lines(text@),
{
    let cs = chars_of(text);
    let mut parts = split_chars(&cs, '\n');
    proof {
        lemma_split_nonempty(text@, '\n');
    }
    let n = parts.len();
    if parts[n - 1].len() == 0 {
        let ghost before = char_rows(parts@);
        parts.pop();
        assert(char_rows(parts@) =~= before.drop_last());
    }
    parts
}

/// Whether `c` is part of a move number: an ASCII digit or a dot.
pub open spec fn numbering(c: char) -> bool {
    ('0' <= c <= '9') || c == '.'
}

/// The first position at or after `k` that is not part of a move number.
pub open spec fn after_number(t: Seq<char>, k: int) -> int
    decreases t.len() - k,
{
    if k < 0 || k >= t.len() {
        t.len() as int
    } else if numbering(t[k]) {
        after_number(t, k + 1)
    } else {
        k
    }
}

/// A token without its leading move number (`1.` alone, or `1.e4`). A token
/// that is all number is empty afterwards; `1-0` is left alone.
pub open spec fn strip_number(t: Seq<char>) -> Seq<char> {
    let i = after_number(t, 0);
    if i >= t.len() {
        seq![]
    } else if i == 0 || t[i] == '-' {
        t
    } else {
        t.skip(i)
    }
}

proof fn lemma_after_number_range(t: Seq<char>, k: int)
    requires
        0 <= k,
    ensures
        k <= after_number(t, k) <= t.len() || (k > t.len() && after_number(t, k) == t.len()),
    decreases t.len() - k,
{
    if k < t.len() && numbering(t[k]) {
        lemma_after_number_range(t, k + 1);
    }
}

fn strip_move_number(t: &Vec<char>) -> (r: Vec<char>)
    ensures
        r@ == strip_number(t@),
{
    let mut i: usize = 0;
    while i < t.len() && (('0' <= t[i] && t[i] <= '9') || t[i] == '.')
        invariant
            i <= t@.len(),
            after_number(t@, 0) == after_number(t@, i as int),
        decreases t.len() - i,
    {
        i += 1;
    }
    if i >= t.len() {
        return Vec::new();
    }
    if i == 0 || t[i] == '-' {
        let mut out: Vec<char> = Vec::new();
        push_all(&mut out, t);
        return out;
    }
    let mut out: Vec<char> = Vec::new();
    let mut k: usize = i;
    while k < t.len()
        invariant
            i <= k <= t@.len(),
            out@ == t@.subrange(i as int, k as int),
        decreases t.len() - k,
    {
        out.push(t[k]);
        k += 1;
    }
    out
}

// ---------------------------------------------------------------------------
// Replaying a line
// ---------------------------------------------------------------------------

/// The position and ply count after reading the first `n` tokens of a line
/// from `start`; move numbers are skipped, and the line fails at the first
/// move that does not read as SAN or is not legal.
pub open spec fn replay_steps(start: PositionView, toks: Seq<Seq<char>>, n: int) -> Option<(PositionView, nat)>
    decreases n,
{
    if n <= 0 {
        Some((start, 0))
    } else {
        match replay_steps(start, toks, n - 1) {
            None => None,
            Some(st) => {
                let t = strip_number(toks[n - 1]);
                if t.len() == 0 {
                    Some(st)
                } else {
                    match spec_parse_move(st.0, t, true) {
                        None => None,
                        Some(mv) => match spec_play(st.0, mv) {
                            None => None,
                            Some(q) => Some((q, st.1 + 1)),
                        },
                    }
                }
            },
        }
    }
}

/// A `pgn` column replayed from the starting position: the key of the
/// position it reaches and its number of plies. None for a line that does
/// not replay, and for a line without moves (no moves is not an opening).
pub open spec fn spec_replay(pgn: Seq<char>) -> Option<(Seq<char>, nat)> {
    match position_of_fen(START_FEN@) {
        None => None,
        Some(start) => {
            let toks = tokens(pgn);
            match replay_steps(start, toks, toks.len() as int) {
                Some(st) => if st.1 > 0 {
                    Some((spec_normalize_fen(st.0.fen), st.1))
                } else {
                    None
                },
                None => None,
            }
        },
    }
}

proof fn lemma_replay_stops(start: PositionView, toks: Seq<Seq<char>>, k: int, j: int)
    requires
        0 <= k <= j,
        replay_steps(start, toks, k) is None,
    ensures
        replay_steps(start, toks, j) is None,
    decreases j - k,
{
    if j > k {
        lemma_replay_stops(start, toks, k, j - 1);
    }
}

pub fn replay(pgn: &str) -> (r: Option<(String, usize)>)
    ensures
        (match r {
            Some(x) => Some((x.0@, x.1 as nat)),
            None => None::<(Seq<char>, nat)>,
        }) == spec_replay(pgn@),
{
    let start = match parse_fen(START_FEN) {
        Ok(p) => p,
        Err(_) => {
            return None;
        },
    };
    let ghost sv = start@;
    let toks = split_whitespace(pgn);
    let ghost tv = crate::text::strings_view(toks@);
    let mut pos = start;
    let mut plies: usize = 0;
    let mut i: usize = 0;
    while i < toks.len()
        invariant
            tv == crate::text::strings_view(toks@),
            tv == tokens(pgn@),
            position_of_fen(START_FEN@) == Some(sv),
            i <= toks@.len(),
            pos.wf(),
            plies <= i,
            replay_steps(sv, tv, i as int) == Some((pos@, plies as nat)),
        decreases toks.len() - i,
    {
        let raw = chars_of(toks[i].as_str());
        assert(tv[i as int] == toks@[i as int]@);
        let t = strip_move_number(&raw);
        if t.len() > 0 {
            let text = string_from_chars(&t);
            assert(text@ == strip_number(tv[i as int]));
            match parse_move(&pos, text.as_str(), true) {
                None => {
                    assert(replay_steps(sv, tv, i as int + 1) is None);
                    proof {
                        lemma_replay_stops(sv, tv, i as int + 1, tv.len() as int);
                    }
                    return None;
                },
                Some(mv) => match play(&pos, &mv) {
                    None => {
                        proof {
                            lemma_replay_stops(sv, tv, i as int + 1, tv.len() as int);
                        }
                        return None;
                    },
                    Some(q) => {
                        pos = q;
                        plies = plies + 1;
                    },
                },
            }
        }
        i += 1;
    }
    if plies > 0 {
        Some((normalize_fen(pos.fen.as_str()), plies))
    } else {
        None
    }
}

// ---------------------------------------------------------------------------
// The table
// ---------------------------------------------------------------------------

/// An opening stored under a position key, with the length of the line that
/// claimed it.
#[derive(Debug, Clone, PartialEq, Eq)]
pub struct EcoEntry {
    pub epd: String,
    pub opening: Opening,
    pub plies: usize,
}

/// The position -> opening table, with what building it reported.
#[derive(Debug, Clone, PartialEq, Eq)]
pub struct EcoTable {
    pub entries: Vec<EcoEntry>,
    /// Data rows read (header rows excluded).
    pub rows: usize,
    /// Rows that could not be read or replayed, as `"file:line: ..."`.
    pub failed: Vec<String>,
    /// Keys claimed by more than one row: `(key, kept name, dropped name)`.
    pub collisions: Vec<(String, String, String)>,
}

/// An entry as key, ECO code, name and plies.
pub type EntryView = (Seq<char>, Seq<char>, Seq<char>, nat);

pub struct TableView {
    pub entries: Seq<EntryView>,
    pub rows: nat,
    pub failed: Seq<Seq<char>>,
    pub collisions: Seq<(Seq<char>, Seq<char>, Seq<char>)>,
}

pub open spec fn entry_view(e: EcoEntry) -> EntryView {
    (e.epd@, e.opening.eco@, e.opening.name@, e.plies as nat)
}

impl View for EcoTable {
    type V = TableView;

    open spec fn view(&self) -> TableView {
        TableView {
            entries: self.entries@.map_values(|e: EcoEntry| entry_view(e)),
            rows: self.rows as nat,
            failed: crate::text::strings_view(self.failed@),
            collisions: self.collisions@.map_values(|c: (String, String, String)| (c.0@, c.1@, c.2@)),
        }
    }
}

pub open spec fn empty_table() -> TableView {
    TableView { entries: seq![], rows: 0, failed: seq![], collisions: seq![] }
}

/// The first entry at or after `i` under `key`.
pub open spec fn find_key(entries: Seq<EntryView>, key: Seq<char>, i: int) -> Option<int>
    decreases entries.len() - i,
{
    if i < 0 || i >= entries.len() {
        None
    } else if entries[i].0 == key {
        Some(i)
    } else {
        find_key(entries, key, i + 1)
    }
}

/// Storing a replayed row. Collision policy: the longer line wins; on a tie
/// the entry already there (the earlier row) keeps its place. Every
/// collision is recorded with the kept and the dropped name.
pub open spec fn store(t: TableView, key: Seq<char>, eco: Seq<char>, name: Seq<char>, plies: nat) -> TableView {
    match find_key(t.entries, key, 0) {
        None => TableView { entries: t.entries.push((key, eco, name, plies)), ..t },
        Some(i) => {
            let old = t.entries[i];
            let new_wins = plies > old.3;
            TableView {
                entries: if new_wins {
                    t.entries.update(i, (key, eco, name, plies))
                } else {
                    t.entries
                },
                collisions: t.collisions.push(
                    if new_wins {
                        (key, name, old.2)
                    } else {
                        (key, old.2, name)
                    },
                ),
                ..t
            }
        },
    }
}

/// `file:line` of a row, for the failure list.
pub open spec fn row_label(file: Seq<char>, index: int) -> Seq<char> {
    file + ":"@ + decimal((index + 1) as nat)
}

/// Reading line `index` of `file`: the header line and blank lines are
/// skipped; a row needs three tab-separated fields; a row whose line does
/// not replay is recorded as failed; the rest are stored.
pub open spec fn take_line(t: TableView, file: Seq<char>, index: int, raw: Seq<char>) -> TableView {
    let line = trim_end(raw);
    if index == 0 || line.len() == 0 {
        t
    } else {
        let fields = split_on(line, '\t');
        if fields.len() < 3 {
            TableView { failed: t.failed.push(row_label(file, index) + ": malformed row"@), ..t }
        } else {
            let t1 = TableView { rows: t.rows + 1, ..t };
            match spec_replay(fields[2]) {
                None => TableView { failed: t1.failed.push(row_label(file, index) + ": "@ + fields[0] + " "@ + fields[1]), ..t1 },
                Some(hit) => store(t1, hit.0, fields[0], fields[1], hit.1),
            }
        }
    }
}

/// The first `n` lines of a volume read into `t`.
pub open spec fn take_lines(t: TableView, file: Seq<char>, lines: Seq<Seq<char>>, n: int) -> TableView
    decreases n,
{
    if n <= 0 {
        t
    } else {
        take_line(take_lines(t, file, lines, n - 1), file, n - 1, lines[n - 1])
    }
}

/// The first `n` volumes read, in order.
pub open spec fn take_volumes(vols: Seq<(Seq<char>, Seq<char>)>, n: int) -> TableView
    decreases n,
{
    if n <= 0 {
        empty_table()
    } else {
        let v = vols[n - 1];
        let ls = text_lines(v.1);
        take_lines(take_volumes(vols, n - 1), v.0, ls, ls.len() as int)
    }
}

/// Lines in the first `n` volumes.
pub open spec fn line_total(vols: Seq<(Seq<char>, Seq<char>)>, n: int) -> nat
    decreases n,
{
    if n <= 0 {
        0
    } else {
        line_total(vols, n - 1) + text_lines(vols[n - 1].1).len()
    }
}

pub open spec fn volume_views(vols: Seq<(String, String)>) -> Seq<(Seq<char>, Seq<char>)> {
    vols.map_values(|v: (String, String)| (v.0@, v.1@))
}

/// Keys are unique.
pub open spec fn keys_unique(entries: Seq<EntryView>) -> bool {
    forall|i: int, j: int| 0 <= i < j < entries.len() ==> #[trigger] entries[i].0 != #[trigger] entries[j].0
}

proof fn lemma_find_key(entries: Seq<EntryView>, key: Seq<char>, i: int)
    requires
        0 <= i,
    ensures
        find_key(entries, key, i) matches Some(k) ==> i <= k < entries.len() && entries[k].0 == key,
        find_key(entries, key, i) is None ==> forall|k: int| i <= k < entries.len() ==> #[trigger] entries[k].0 != key,
    decreases entries.len() - i,
{
    if i < entries.len() && entries[i].0 != key {
        lemma_find_key(entries, key, i + 1);
    }
}

proof fn lemma_store_unique(t: TableView, key: Seq<char>, eco: Seq<char>, name: Seq<char>, plies: nat)
    requires
        keys_unique(t.entries),
    ensures
        keys_unique(store(t, key, eco, name, plies).entries),
{
    lemma_find_key(t.entries, key, 0);
    let e = store(t, key, eco, name, plies).entries;
    match find_key(t.entries, key, 0) {
        None => {
            assert forall|i: int, j: int| 0 <= i < j < e.len() implies #[trigger] e[i].0 != #[trigger] e[j].0 by {
                if j == t.entries.len() {
                    assert(e[i] == t.entries[i]);
                }
            }
        },
        Some(k) => {},
    }
}

proof fn lemma_take_line_unique(t: TableView, file: Seq<char>, index: int, raw: Seq<char>)
    requires
        keys_unique(t.entries),
    ensures
        keys_unique(take_line(t, file, index, raw).entries),
        take_line(t, file, index, raw).rows <= t.rows + 1,
{
    let line = trim_end(raw);
    if !(index == 0 || line.len() == 0) {
        let fields = split_on(line, '\t');
        if fields.len() >= 3 {
            let t1 = TableView { rows: t.rows + 1, ..t };
            if let Some(hit) = spec_replay(fields[2]) {
                lemma_store_unique(t1, hit.0, fields[0], fields[1], hit.1);
            }
        }
    }
}

impl EcoTable {
    fn empty() -> (r: EcoTable)
        ensures
            r@ == empty_table(),
    {
        let r = EcoTable { entries: Vec::new(), rows: 0, failed: Vec::new(), collisions: Vec::new() };
        assert(r@.entries =~= Seq::<EntryView>::empty());
        assert(r@.failed =~= Seq::<Seq<char>>::empty());
        assert(r@.collisions =~= Seq::<(Seq<char>, Seq<char>, Seq<char>)>::empty());
        r
    }

    fn find(&self, key: &str) -> (r: Option<usize>)
        ensures
            (match r {
                Some(i) => Some(i as int),
                None => None::<int>,
            }) == find_key(self@.entries, key@, 0),
            r matches Some(i) ==> i < self.entries@.len(),
    {
        let mut i: usize = 0;
        while i < self.entries.len()
            invariant
                i <= self.entries@.len(),
                find_key(self@.entries, key@, 0) == find_key(self@.entries, key@, i as int),
            decreases self.entries.len() - i,
        {
            assert(self@.entries[i as int].0 == self.entries@[i as int].epd@);
            if crate::text::str_eq(self.entries[i].epd.as_str(), key) {
                return Some(i);
            }
            i += 1;
        }
        None
    }

    fn store_row(&mut self, key: String, eco: String, name: String, plies: usize)
        ensures
            final(self)@ == store(old(self)@, key@, eco@, name@, plies as nat),
    {
        let ghost before = self@;
        match self.find(key.as_str()) {
            None => {
                self.entries.push(EcoEntry { epd: key, opening: Opening { eco, name }, plies });
                assert(self@.entries =~= before.entries.push((key@, eco@, name@, plies as nat)));
            },
            Some(i) => {
                let new_wins = plies > self.entries[i].plies;
                let old_name = self.entries[i].opening.name.clone();
                let ghost old = before.entries[i as int];
                assert(old.2 == old_name@);
                let ghost kv = key@;
                let ghost nv = name@;
                if new_wins {
                    self.collisions.push((key.clone(), name.clone(), old_name));
                    self.entries.set(i, EcoEntry { epd: key, opening: Opening { eco, name }, plies });
                } else {
                    self.collisions.push((key, name.clone(), old_name));
                    let last = self.collisions.len() - 1;
                    let (k0, n0, o0) = self.collisions.pop().unwrap();
                    self.collisions.push((k0, o0, n0));
                }
                assert(self@.entries =~= store(before, key@, eco@, name@, plies as nat).entries);
                assert(self@.collisions =~= store(before, kv, eco@, nv, plies as nat).collisions);
            },
        }
    }

    /// Read one line of a volume.
    fn take_row(&mut self, file: &str, index: usize, raw: &Vec<char>)
        requires
            old(self)@.rows < usize::MAX,
            index < usize::MAX,
        ensures
            final(self)@ == take_line(old(self)@, file@, index as int, raw@),
    {
        let line = crate::text::trim_end_chars(raw);
        if index == 0 || line.len() == 0 {
            return;
        }
        let fields = split_chars(&line, '\t');
        let mut label: Vec<char> = Vec::new();
        push_str(&mut label, file);
        push_str(&mut label, ":");
        push_decimal(&mut label, (index as u64) + 1);
        assert(label@ =~= row_label(file@, index as int));
        if fields.len() < 3 {
            push_str(&mut label, ": malformed row");
            let ghost before = self@.failed;
            self.failed.push(string_from_chars(&label));
            assert(self@.failed =~= before.push(label@));
            return;
        }
        self.rows = self.rows + 1;
        assert(char_rows(fields@)[2] == fields@[2]@);
        let pgn = string_from_chars(&fields[2]);
        let eco = string_from_chars(&fields[0]);
        let name = string_from_chars(&fields[1]);
        assert(eco@ == char_rows(fields@)[0]);
        assert(name@ == char_rows(fields@)[1]);
        match replay(pgn.as_str()) {
            None => {
                push_str(&mut label, ": ");
                push_str(&mut label, eco.as_str());
                push_str(&mut label, " ");
                push_str(&mut label, name.as_str());
                let ghost before = self@.failed;
                self.failed.push(string_from_chars(&label));
                assert(self@.failed =~= before.push(label@));
            },
            Some(hit) => {
                self.store_row(hit.0, eco, name, hit.1);
            },
        }
    }

    /// The opening of a position, by its key (a FEN without move counters).
    pub fn get(&self, key: &str) -> (r: Option<Opening>)
        ensures
            (match r {
                Some(o) => Some((o.eco@, o.name@)),
                None => None::<(Seq<char>, Seq<char>)>,
            }) == (match find_key(self@.entries, key@, 0) {
                Some(i) => Some((self@.entries[i].1, self@.entries[i].2)),
                None => None::<(Seq<char>, Seq<char>)>,
            }),
    {
        match self.find(key) {
            Some(i) => Some(Opening { eco: self.entries[i].opening.eco.clone(), name: self.entries[i].opening.name.clone() }),
            None => None,
        }
    }

    /// The named opening of a position given as a FEN or a bare key; the move
    /// counters are ignored.
    pub fn lookup(&self, fen: &str) -> (r: Option<Opening>)
        ensures
            (match r {
                Some(o) => Some((o.eco@, o.name@)),
                None => None::<(Seq<char>, Seq<char>)>,
            }) == (match find_key(self@.entries, spec_normalize_fen(fen@), 0) {
                Some(i) => Some((self@.entries[i].1, self@.entries[i].2)),
                None => None::<(Seq<char>, Seq<char>)>,
            }),
    {
        let key = normalize_fen(fen);
        self.get(key.as_str())
    }
}

/// Build the table from `(file name, TSV text)` volumes, read in order.
pub fn build_from(volumes: &Vec<(String, String)>) -> (r: EcoTable)
    requires
        line_total(volume_views(volumes@), volumes@.len() as int) < usize::MAX,
    ensures
        r@ == take_volumes(volume_views(volumes@), volumes@.len() as int),
        keys_unique(r@.entries),
{
    let ghost vv = volume_views(volumes@);
    let mut table = EcoTable::empty();
    let mut v: usize = 0;
    while v < volumes.len()
        invariant
            vv == volume_views(volumes@),
            v <= volumes@.len(),
            line_total(vv, volumes@.len() as int) < usize::MAX,
            table@ == take_volumes(vv, v as int),
            keys_unique(table@.entries),
            table@.rows <= line_total(vv, v as int),
        decreases volumes.len() - v,
    {
        let file = volumes[v].0.as_str();
        let lines = lines_of(volumes[v].1.as_str());
        let ghost ls = text_lines(vv[v as int].1);
        assert(char_rows(lines@) == ls);
        proof {
            lemma_line_total_grows(vv, v as int + 1, volumes@.len() as int);
        }
        let ghost start = table@;
        let mut k: usize = 0;
        while k < lines.len()
            invariant
                vv == volume_views(volumes@),
                v < volumes@.len(),
                file@ == vv[v as int].0,
                char_rows(lines@) == ls,
                ls == text_lines(vv[v as int].1),
                k <= lines@.len(),
                table@ == take_lines(start, file@, ls, k as int),
                keys_unique(table@.entries),
                table@.rows <= start.rows + k,
                start.rows <= line_total(vv, v as int),
                line_total(vv, v as int + 1) < usize::MAX,
            decreases lines.len() - k,
        {
            proof {
                lemma_take_line_unique(table@, file@, k as int, ls[k as int]);
            }
            assert(ls[k as int] == lines@[k as int]@);
            table.take_row(file, k, &lines[k]);
            k += 1;
        }
        v += 1;
    }
    table
}

proof fn lemma_line_total_grows(vols: Seq<(Seq<char>, Seq<char>)>, a: int, b: int)
    requires
        a <= b,
    ensures
        line_total(vols, a) <= line_total(vols, b),
    decreases b - a,
{
    if a < b {
        lemma_line_total_grows(vols, a, b - 1);
    }
}

/// The built-in volumes, in ECO order.
pub fn volumes() -> (r: Vec<(String, String)>)
    ensures
        volume_views(r@) == seq![
            ("a.tsv"@, VOLUME_A@),
            ("b.tsv"@, VOLUME_B@),
            ("c.tsv"@, VOLUME_C@),
            ("d.tsv"@, VOLUME_D@),
        ],
{
    let mut v: Vec<(String, String)> = Vec::new();
    v.push(("a.tsv".to_owned(), VOLUME_A.to_owned()));
    v.push(("b.tsv".to_owned(), VOLUME_B.to_owned()));
    v.push(("c.tsv".to_owned(), VOLUME_C.to_owned()));
    v.push(("d.tsv".to_owned(), VOLUME_D.to_owned()));
    assert(volume_views(v@) =~= seq![
        ("a.tsv"@, VOLUME_A@),
        ("b.tsv"@, VOLUME_B@),
        ("c.tsv"@, VOLUME_C@),
        ("d.tsv"@, VOLUME_D@),
    ]);
    v
}

/// The number of lines of the first `n` volumes, when it fits a `usize`.
fn count_lines(volumes: &Vec<(String, String)>) -> (r: Option<usize>)
    ensures
        r matches Some(n) ==> n == line_total(volume_views(volumes@), volumes@.len() as int),
        r is None ==> line_total(volume_views(volumes@), volumes@.len() as int) > usize::MAX,
{
    let ghost vv = volume_views(volumes@);
    let mut total: usize = 0;
    let mut v: usize = 0;
    while v < volumes.len()
        invariant
            vv == volume_views(volumes@),
            v <= volumes@.len(),
            total == line_total(vv, v as int),
        decreases volumes.len() - v,
    {
        let lines = lines_of(volumes[v].1.as_str());
        assert(char_rows(lines@) == text_lines(vv[v as int].1));
        if total > usize::MAX - lines.len() {
            proof {
                lemma_line_total_grows(vv, v as int + 1, volumes@.len() as int);
            }
            return None;
        }
        total = total + lines.len();
        v += 1;
    }
    Some(total)
}

/// The table of the built-in volumes.
pub open spec fn builtin_table() -> TableView {
    let vols = seq![("a.tsv"@, VOLUME_A@), ("b.tsv"@, VOLUME_B@), ("c.tsv"@, VOLUME_C@), ("d.tsv"@, VOLUME_D@)];
    if line_total(vols, 4) < usize::MAX {
        take_volumes(vols, 4)
    } else {
        empty_table()
    }
}

/// Build the table of the built-in volumes.
pub fn build() -> (r: EcoTable)
    ensures
        r@ == builtin_table(),
{
    let vols = volumes();
    let ghost lit = seq![("a.tsv"@, VOLUME_A@), ("b.tsv"@, VOLUME_B@), ("c.tsv"@, VOLUME_C@), ("d.tsv"@, VOLUME_D@)];
    assert(volume_views(vols@) == lit);
    assert(volume_views(vols@).len() == vols@.len());
    assert(lit.len() == 4);
    match count_lines(&vols) {
        Some(n) => {
            if n < usize::MAX {
                build_from(&vols)
            } else {
                EcoTable::empty()
            }
        },
        None => EcoTable::empty(),
    }
}

/// The named opening of a position, by FEN or bare key; `None` when the
/// position has no name. The move counters are ignored.
pub fn lookup(fen: &str) -> (r: Option<Opening>)
    ensures
        (match r {
            Some(o) => Some((o.eco@, o.name@)),
            None => None::<(Seq<char>, Seq<char>)>,
        }) == (match find_key(builtin_table().entries, spec_normalize_fen(fen@), 0) {
            Some(i) => Some((builtin_table().entries[i].1, builtin_table().entries[i].2)),
            None => None::<(Seq<char>, Seq<char>)>,
        }),
{
    build().lookup(fen)
}

/// The number of distinct positions in the built-in table.
pub fn position_count() -> (r: usize)
    ensures
        r == builtin_table().entries.len(),
{
    build().entries.len()
}

/// Positions that differ only in their move counters get the same name.
pub proof fn lemma_lookup_ignores_counters(t: TableView, a: Seq<char>, b: Seq<char>)
    requires
        spec_normalize_fen(a) == spec_normalize_fen(b),
    ensures
        find_key(t.entries, spec_normalize_fen(a), 0) == find_key(t.entries, spec_normalize_fen(b), 0),
{
}

/// The table `u` holds `e`'s position with a line at least as long: a longer
/// one, or `e` itself.
pub open spec fn holds_at_least(u: TableView, e: EntryView) -> bool {
    exists|j: int| 0 <= j < u.entries.len() && (#[trigger] u.entries[j]).0 == e.0 && (u.entries[j].3 > e.3 || u.entries[j] == e)
}

/// Every entry of `t` is held at least as well by `u`.
pub open spec fn dominated(t: TableView, u: TableView) -> bool {
    forall|i: int| 0 <= i < t.entries.len() ==> holds_at_least(u, #[trigger] t.entries[i])
}

proof fn lemma_dominated_refl(t: TableView)
    ensures
        dominated(t, t),
{
    assert forall|i: int| 0 <= i < t.entries.len() implies holds_at_least(t, #[trigger] t.entries[i]) by {
        assert(t.entries[i] == t.entries[i]);
    }
}

proof fn lemma_dominated_trans(t: TableView, u: TableView, w: TableView)
    requires
        dominated(t, u),
        dominated(u, w),
    ensures
        dominated(t, w),
{
    assert forall|i: int| 0 <= i < t.entries.len() implies holds_at_least(w, #[trigger] t.entries[i]) by {
        assert(holds_at_least(u, t.entries[i]));
        let j = choose|j: int| 0 <= j < u.entries.len() && (#[trigger] u.entries[j]).0 == t.entries[i].0 && (
        u.entries[j].3 > t.entries[i].3 || u.entries[j] == t.entries[i]);
        assert(holds_at_least(w, u.entries[j]));
        let m = choose|m: int| 0 <= m < w.entries.len() && (#[trigger] w.entries[m]).0 == u.entries[j].0 && (
        w.entries[m].3 > u.entries[j].3 || w.entries[m] == u.entries[j]);
        assert(w.entries[m].0 == t.entries[i].0);
    }
}

proof fn lemma_store_dominates(t: TableView, key: Seq<char>, eco: Seq<char>, name: Seq<char>, plies: nat)
    requires
        keys_unique(t.entries),
    ensures
        dominated(t, store(t, key, eco, name, plies)),
{
    lemma_find_key(t.entries, key, 0);
    let u = store(t, key, eco, name, plies);
    assert forall|i: int| 0 <= i < t.entries.len() implies holds_at_least(u, #[trigger] t.entries[i]) by {
        match find_key(t.entries, key, 0) {
            None => {
                assert(u.entries[i] == t.entries[i]);
            },
            Some(k) => {
                if i != k {
                    assert(u.entries[i] == t.entries[i]);
                } else {
                    assert(u.entries[i].0 == t.entries[i].0);
                }
            },
        }
    }
}

/// A row that replays into the table: either the table then holds the row's
/// line (or a longer one for the same position), or an earlier row of the
/// same length already held the position and keeps it, the table unchanged.
pub proof fn lemma_store_keeps_longest_first(t: TableView, key: Seq<char>, eco: Seq<char>, name: Seq<char>, plies: nat)
    requires
        keys_unique(t.entries),
    ensures
        holds_at_least(store(t, key, eco, name, plies), (key, eco, name, plies)) || (find_key(t.entries, key, 0) matches Some(
            i,
        ) && t.entries[i].3 == plies && store(t, key, eco, name, plies).entries == t.entries),
{
    lemma_find_key(t.entries, key, 0);
    let u = store(t, key, eco, name, plies);
    match find_key(t.entries, key, 0) {
        None => {
            assert(u.entries[t.entries.len() as int] == (key, eco, name, plies));
        },
        Some(i) => {
            if plies > t.entries[i].3 {
                assert(u.entries[i] == (key, eco, name, plies));
            } else if t.entries[i].3 > plies {
                assert(u.entries[i] == t.entries[i]);
            }
        },
    }
}

proof fn lemma_take_line_dominates(t: TableView, file: Seq<char>, index: int, raw: Seq<char>)
    requires
        keys_unique(t.entries),
    ensures
        dominated(t, take_line(t, file, index, raw)),
        keys_unique(take_line(t, file, index, raw).entries),
{
    lemma_take_line_unique(t, file, index, raw);
    lemma_dominated_refl(t);
    let line = trim_end(raw);
    if !(index == 0 || line.len() == 0) {
        let fields = split_on(line, '\t');
        if fields.len() >= 3 {
            let t1 = TableView { rows: t.rows + 1, ..t };
            lemma_dominated_refl(t1);
            if let Some(hit) = spec_replay(fields[2]) {
                lemma_store_dominates(t1, hit.0, fields[0], fields[1], hit.1);
            }
            assert(dominated(t, t1));
        }
    }
}

proof fn lemma_take_lines_dominate(t: TableView, file: Seq<char>, ls: Seq<Seq<char>>, m: int, n: int)
    requires
        keys_unique(t.entries),
        0 <= m <= n,
    ensures
        dominated(take_lines(t, file, ls, m), take_lines(t, file, ls, n)),
        keys_unique(take_lines(t, file, ls, n).entries),
    decreases n,
{
    if n == 0 {
        lemma_dominated_refl(t);
    } else if m == n {
        lemma_take_lines_dominate(t, file, ls, m - 1, n - 1);
        lemma_take_line_dominates(take_lines(t, file, ls, n - 1), file, n - 1, ls[n - 1]);
        lemma_dominated_refl(take_lines(t, file, ls, n));
    } else {
        lemma_take_lines_dominate(t, file, ls, m, n - 1);
        lemma_take_line_dominates(take_lines(t, file, ls, n - 1), file, n - 1, ls[n - 1]);
        lemma_dominated_trans(take_lines(t, file, ls, m), take_lines(t, file, ls, n - 1), take_lines(t, file, ls, n));
    }
}

proof fn lemma_take_volumes_dominate(vols: Seq<(Seq<char>, Seq<char>)>, m: int, n: int)
    requires
        0 <= m <= n,
    ensures
        dominated(take_volumes(vols, m), take_volumes(vols, n)),
        keys_unique(take_volumes(vols, n).entries),
    decreases n,
{
    if n == 0 {
        lemma_dominated_refl(take_volumes(vols, 0));
    } else {
        let v = vols[n - 1];
        let ls = text_lines(v.1);
        let before = take_volumes(vols, n - 1);
        if m == n {
            lemma_take_volumes_dominate(vols, m - 1, n - 1);
            lemma_take_lines_dominate(before, v.0, ls, 0, ls.len() as int);
            lemma_dominated_refl(take_volumes(vols, n));
        } else {
            lemma_take_volumes_dominate(vols, m, n - 1);
            lemma_take_lines_dominate(before, v.0, ls, 0, ls.len() as int);
            assert(take_lines(before, v.0, ls, 0) == before);
            lemma_dominated_trans(take_volumes(vols, m), before, take_volumes(vols, n));
        }
    }
}

/// The longest line wins, and on a tie the first row keeps its place: what
/// the table holds right after any row is read (line `i` of volume `v`) is
/// held at least as well by the finished table. With
/// `lemma_store_keeps_longest_first` for the row itself, every row's position
/// ends up named by a line at least as long, and a later row of the same
/// length never displaces an earlier one.
pub proof fn lemma_build_keeps_longest_first(vols: Seq<(Seq<char>, Seq<char>)>, v: int, i: int)
    requires
        0 <= v < vols.len(),
        0 <= i < text_lines(vols[v].1).len(),
    ensures
        dominated(
            take_lines(take_volumes(vols, v), vols[v].0, text_lines(vols[v].1), i + 1),
            take_volumes(vols, vols.len() as int),
        ),
{
    let ls = text_lines(vols[v].1);
    let before = take_volumes(vols, v);
    lemma_take_volumes_dominate(vols, v, v);
    lemma_take_lines_dominate(before, vols[v].0, ls, i + 1, ls.len() as int);
    lemma_take_volumes_dominate(vols, v + 1, vols.len() as int);
    assert(take_volumes(vols, v + 1) == take_lines(before, vols[v].0, ls, ls.len() as int));
    lemma_dominated_trans(
        take_lines(before, vols[v].0, ls, i + 1),
        take_volumes(vols, v + 1),
        take_volumes(vols, vols.len() as int),
    );
}

/// Whether line `index` of a volume is a data row with fewer than three
/// fields.
pub open spec fn is_malformed(index: int, raw: Seq<char>) -> bool {
    let line = trim_end(raw);
    !(index == 0 || line.len() == 0) && split_on(line, '\t').len() < 3
}

/// Malformed rows among the first `n` lines of a volume.
pub open spec fn malformed_lines(lines: Seq<Seq<char>>, n: int) -> nat
    decreases n,
{
    if n <= 0 {
        0
    } else {
        malformed_lines(lines, n - 1) + if is_malformed(n - 1, lines[n - 1]) { 1nat } else { 0nat }
    }
}

/// Malformed rows in the first `n` volumes.
pub open spec fn malformed_total(vols: Seq<(Seq<char>, Seq<char>)>, n: int) -> nat
    decreases n,
{
    if n <= 0 {
        0
    } else {
        malformed_total(vols, n - 1) + malformed_lines(text_lines(vols[n - 1].1), text_lines(vols[n - 1].1).len() as int)
    }
}

/// The count a table keeps: every entry and collision came from a row read,
/// and every failure from a row read or a malformed one.
pub open spec fn counts_balance(t: TableView, malformed: nat) -> bool {
    t.entries.len() + t.collisions.len() + t.failed.len() == t.rows + malformed
}

proof fn lemma_take_lines_count(t: TableView, file: Seq<char>, ls: Seq<Seq<char>>, n: int, m: nat)
    requires
        counts_balance(t, m),
        0 <= n,
    ensures
        counts_balance(take_lines(t, file, ls, n), m + malformed_lines(ls, n)),
    decreases n,
{
    if n > 0 {
        lemma_take_lines_count(t, file, ls, n - 1, m);
        let before = take_lines(t, file, ls, n - 1);
        let raw = ls[n - 1];
        let line = trim_end(raw);
        if !(n - 1 == 0 || line.len() == 0) {
            let fields = split_on(line, '\t');
            if fields.len() >= 3 {
                let t1 = TableView { rows: before.rows + 1, ..before };
                if let Some(hit) = spec_replay(fields[2]) {
                    let u = store(t1, hit.0, fields[0], fields[1], hit.1);
                    lemma_find_key(t1.entries, hit.0, 0);
                    assert(u.entries.len() + u.collisions.len() == t1.entries.len() + t1.collisions.len() + 1);
                }
            }
        }
    }
}

/// Every entry, collision and failure of the finished table is accounted for:
/// entries plus collisions plus failures equal the data rows read plus the
/// malformed rows (which are failures without being read). So, where no row
/// is malformed, the entries are the rows minus the collisions minus the
/// failed rows.
pub proof fn lemma_build_counts(vols: Seq<(Seq<char>, Seq<char>)>, n: int)
    requires
        0 <= n,
    ensures
        counts_balance(take_volumes(vols, n), malformed_total(vols, n)),
        malformed_total(vols, n) == 0 ==> take_volumes(vols, n).entries.len() == take_volumes(vols, n).rows
            - take_volumes(vols, n).collisions.len() - take_volumes(vols, n).failed.len(),
    decreases n,
{
    if n > 0 {
        lemma_build_counts(vols, n - 1);
        let v = vols[n - 1];
        let ls = text_lines(v.1);
        lemma_take_lines_count(take_volumes(vols, n - 1), v.0, ls, ls.len() as int, malformed_total(vols, n - 1));
    }
}

/// One row of the build, line `i` of volume `v`, replaying to `key` in
/// `plies` plies: the finished table names that position with this row's
/// line or a longer one; or, when an earlier row already held the position
/// with a line of the same length, with that earlier row's line or a longer
/// one. The longest line wins and the first row keeps a tie.
pub proof fn lemma_build_row(vols: Seq<(Seq<char>, Seq<char>)>, v: int, i: int, key: Seq<char>, plies: nat)
    requires
        0 <= v < vols.len(),
        0 < i < text_lines(vols[v].1).len(),
        trim_end(text_lines(vols[v].1)[i]).len() > 0,
        split_on(trim_end(text_lines(vols[v].1)[i]), '\t').len() >= 3,
        spec_replay(split_on(trim_end(text_lines(vols[v].1)[i]), '\t')[2]) == Some((key, plies)),
    ensures
        ({
            let fields = split_on(trim_end(text_lines(vols[v].1)[i]), '\t');
            let before = take_lines(take_volumes(vols, v), vols[v].0, text_lines(vols[v].1), i);
            let done = take_volumes(vols, vols.len() as int);
            holds_at_least(done, (key, fields[0], fields[1], plies)) || (find_key(before.entries, key, 0) matches Some(j)
                && before.entries[j].3 == plies && holds_at_least(done, before.entries[j]))
        }),
{
    let ls = text_lines(vols[v].1);
    let fields = split_on(trim_end(ls[i]), '\t');
    let start = take_volumes(vols, v);
    let before = take_lines(start, vols[v].0, ls, i);
    let after = take_lines(start, vols[v].0, ls, i + 1);
    let done = take_volumes(vols, vols.len() as int);
    lemma_take_volumes_dominate(vols, v, v);
    lemma_take_lines_dominate(start, vols[v].0, ls, i, i);
    let t1 = TableView { rows: before.rows + 1, ..before };
    assert(after == store(t1, key, fields[0], fields[1], plies));
    lemma_store_keeps_longest_first(t1, key, fields[0], fields[1], plies);
    lemma_build_keeps_longest_first(vols, v, i);
    let e = (key, fields[0], fields[1], plies);
    if holds_at_least(after, e) {
        let j = choose|j: int| 0 <= j < after.entries.len() && (#[trigger] after.entries[j]).0 == e.0 && (after.entries[j].3
            > e.3 || after.entries[j] == e);
        assert(holds_at_least(done, after.entries[j]));
        let m = choose|m: int| 0 <= m < done.entries.len() && (#[trigger] done.entries[m]).0 == after.entries[j].0 && (
        done.entries[m].3 > after.entries[j].3 || done.entries[m] == after.entries[j]);
        assert(done.entries[m].0 == e.0);
    } else {
        lemma_find_key(before.entries, key, 0);
        let j = find_key(before.entries, key, 0)->Some_0;
        assert(after.entries == before.entries);
        assert(holds_at_least(done, after.entries[j]));
    }
}

} // verus!

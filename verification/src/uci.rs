//! Reading the text a UCI engine prints: whitespace tokens, decimal numbers,
//! `info` lines and `bestmove` lines.

use vstd::prelude::*;
use crate::score::Score;
use crate::text::{chars_of, str_eq, string_from_chars, strings_view};

verus! {

/// `char::is_whitespace`: the Unicode White_Space property.
pub open spec fn is_ws(c: char) -> bool {
    let u = c as int;
    (0x9 <= u <= 0xd) || u == 0x20 || u == 0x85 || u == 0xa0 || u == 0x1680 || (0x2000 <= u <= 0x200a)
        || u == 0x2028 || u == 0x2029 || u == 0x202f || u == 0x205f || u == 0x3000
}

pub fn is_ws_char(c: char) -> (r: bool)
    ensures
        r == is_ws(c),
{
    let u = c as u32;
    (0x9 <= u && u <= 0xd) || u == 0x20 || u == 0x85 || u == 0xa0 || u == 0x1680 || (0x2000 <= u && u <= 0x200a)
        || u == 0x2028 || u == 0x2029 || u == 0x202f || u == 0x205f || u == 0x3000
}

/// The maximal runs of non-whitespace characters, in order (`split_whitespace`).
pub open spec fn tokens(s: Seq<char>) -> Seq<Seq<char>>
    decreases s.len(),
{
    if s.len() == 0 {
        seq![]
    } else if is_ws(s.last()) {
        tokens(s.drop_last())
    } else if s.len() >= 2 && !is_ws(s[s.len() - 2]) {
        let t = tokens(s.drop_last());
        t.update(t.len() - 1, t.last().push(s.last()))
    } else {
        tokens(s.drop_last()).push(seq![s.last()])
    }
}

proof fn lemma_tokens_nonempty(s: Seq<char>)
    ensures
        s.len() > 0 && !is_ws(s.last()) ==> tokens(s).len() > 0,
        forall|i: int| 0 <= i < tokens(s).len() ==> #[trigger] tokens(s)[i].len() > 0,
    decreases s.len(),
{
    if s.len() > 0 {
        lemma_tokens_nonempty(s.drop_last());
        if !is_ws(s.last()) && s.len() >= 2 && !is_ws(s[s.len() - 2]) {
            assert(s.drop_last().last() == s[s.len() - 2]);
        }
    }
}

/// A word: not empty, and no whitespace in it.
pub open spec fn is_word(w: Seq<char>) -> bool {
    w.len() > 0 && forall|k: int| 0 <= k < w.len() ==> !is_ws(#[trigger] w[k])
}

/// What splitting at whitespace gives are words.
pub proof fn lemma_tokens_are_words(s: Seq<char>)
    ensures
        forall|i: int| 0 <= i < tokens(s).len() ==> is_word(#[trigger] tokens(s)[i]),
    decreases s.len(),
{
    lemma_tokens_nonempty(s);
    if s.len() > 0 {
        lemma_tokens_are_words(s.drop_last());
        let t = tokens(s.drop_last());
        if !is_ws(s.last()) && s.len() >= 2 && !is_ws(s[s.len() - 2]) {
            assert(s.drop_last().last() == s[s.len() - 2]);
            lemma_tokens_nonempty(s.drop_last());
            let w = t.last().push(s.last());
            assert(is_word(t[t.len() - 1]));
            assert forall|k: int| 0 <= k < w.len() implies !is_ws(#[trigger] w[k]) by {
                if k < w.len() - 1 {
                    assert(w[k] == t[t.len() - 1][k]);
                }
            }
            assert forall|i: int| 0 <= i < tokens(s).len() implies is_word(#[trigger] tokens(s)[i]) by {
                if i < t.len() - 1 {
                    assert(tokens(s)[i] == t[i]);
                }
            }
        }
    }
}

/// A word after text that ends in whitespace (or after nothing) is one more
/// token.
proof fn lemma_tokens_append_word(p: Seq<char>, w: Seq<char>)
    requires
        p.len() == 0 || is_ws(p.last()),
        is_word(w),
    ensures
        tokens(p + w) == tokens(p).push(w),
    decreases w.len(),
{
    let s = p + w;
    assert(s.last() == w.last());
    assert(s.drop_last() =~= p + w.drop_last());
    if w.len() == 1 {
        assert(w.drop_last() =~= Seq::<char>::empty());
        assert(p + Seq::<char>::empty() =~= p);
        if s.len() >= 2 {
            assert(s[s.len() - 2] == p.last());
        }
        assert(seq![s.last()] =~= w);
    } else {
        let w2 = w.drop_last();
        assert forall|k: int| 0 <= k < w2.len() implies !is_ws(#[trigger] w2[k]) by {
            assert(w2[k] == w[k]);
        }
        lemma_tokens_append_word(p, w2);
        assert(s[s.len() - 2] == w[w.len() - 2]);
        let t = tokens(p + w2);
        assert(t == tokens(p).push(w2));
        assert(t.last() == w2);
        assert(w2.push(w.last()) =~= w);
        assert(t.update(t.len() - 1, t.last().push(s.last())) =~= tokens(p).push(w));
    }
}

/// Splitting words joined by single spaces gives the words back.
pub proof fn lemma_tokens_of_joined(ws: Seq<Seq<char>>)
    requires
        forall|i: int| 0 <= i < ws.len() ==> is_word(#[trigger] ws[i]),
    ensures
        tokens(crate::text::join_with(ws, " "@)) == ws,
    decreases ws.len(),
{
    reveal_strlit(" ");
    if ws.len() == 0 {
    } else if ws.len() == 1 {
        lemma_tokens_append_word(seq![], ws[0]);
        assert(Seq::<char>::empty() + ws[0] =~= ws[0]);
        assert(Seq::<Seq<char>>::empty().push(ws[0]) =~= ws);
    } else {
        let dl = ws.drop_last();
        assert forall|i: int| 0 <= i < dl.len() implies is_word(#[trigger] dl[i]) by {
            assert(dl[i] == ws[i]);
        }
        lemma_tokens_of_joined(dl);
        let j = crate::text::join_with(dl, " "@);
        let p = j + " "@;
        assert(p.last() == ' ');
        assert(p.drop_last() =~= j);
        assert(tokens(p) == tokens(j));
        lemma_tokens_append_word(p, ws.last());
        assert(crate::text::join_with(ws, " "@) == p + ws.last());
        assert(dl.push(ws.last()) =~= ws);
    }
}

/// Split a string at whitespace.
pub fn split_whitespace(line: &str) -> (r: Vec<String>)
    ensures
        strings_view(r@) == tokens(line@),
{
    let cs = chars_of(line);
    let mut out: Vec<String> = Vec::new();
    let mut cur: Vec<char> = Vec::new();
    let mut i: usize = 0;
    while i < cs.len()
        invariant
            cs@ == line@,
            i <= cs@.len(),
            (cur@.len() > 0) == (i > 0 && !is_ws(cs@[i - 1])),
            tokens(cs@.subrange(0, i as int)) == if cur@.len() > 0 {
                strings_view(out@).push(cur@)
            } else {
                strings_view(out@)
            },
        decreases cs.len() - i,
    {
        let c = cs[i];
        let ghost pre = cs@.subrange(0, i as int);
        let ghost next = cs@.subrange(0, i as int + 1);
        assert(next.drop_last() =~= pre);
        assert(next.last() == c);
        if is_ws_char(c) {
            if cur.len() > 0 {
                let ghost before = strings_view(out@);
                out.push(string_from_chars(&cur));
                assert(strings_view(out@) =~= before.push(cur@));
                cur = Vec::new();
            }
        } else {
            if cur.len() > 0 {
                assert(next[next.len() - 2] == cs@[i - 1]);
                let ghost before = strings_view(out@);
                cur.push(c);
                assert(tokens(next) =~= strings_view(out@).push(cur@));
            } else {
                cur.push(c);
                assert(cur@ =~= seq![c]);
            }
        }
        i += 1;
    }
    if cur.len() > 0 {
        out.push(string_from_chars(&cur));
    }
    assert(cs@.subrange(0, cs@.len() as int) =~= line@);
    assert(strings_view(out@) =~= tokens(line@));
    out
}

/// Whether a string holds only ASCII digits.
pub open spec fn all_digits(d: Seq<char>) -> bool {
    forall|i: int| 0 <= i < d.len() ==> '0' <= #[trigger] d[i] <= '9'
}

/// The value of a string of decimal digits.
pub open spec fn digits_value(d: Seq<char>) -> nat
    decreases d.len(),
{
    if d.len() == 0 {
        0
    } else {
        digits_value(d.drop_last()) * 10 + ((d.last() as int) - ('0' as int)) as nat
    }
}

/// The integer a token spells for Rust's `FromStr` on integers: an optional
/// `+` (or `-` for a signed type) followed by at least one ASCII digit.
pub open spec fn int_text(t: Seq<char>, signed: bool) -> Option<int> {
    if t.len() == 0 {
        None
    } else if t[0] == '+' || (t[0] == '-' && signed) {
        let d = t.drop_first();
        if d.len() == 0 || !all_digits(d) {
            None
        } else if t[0] == '-' {
            Some(-(digits_value(d) as int))
        } else {
            Some(digits_value(d) as int)
        }
    } else if all_digits(t) {
        Some(digits_value(t) as int)
    } else {
        None
    }
}

/// A token read as an integer in `[lo, hi]`, as `str::parse` does for the
/// integer type with that range.
pub open spec fn parse_in(t: Seq<char>, signed: bool, lo: int, hi: int) -> Option<int> {
    match int_text(t, signed) {
        Some(v) => if lo <= v <= hi {
            Some(v)
        } else {
            None
        },
        None => None,
    }
}

/// Appending digits never lowers the value.
proof fn lemma_digits_grow(d: Seq<char>, k: int)
    requires
        0 <= k <= d.len(),
    ensures
        digits_value(d.subrange(0, k)) <= digits_value(d),
    decreases d.len(),
{
    if k < d.len() {
        assert(d.drop_last().subrange(0, k) =~= d.subrange(0, k));
        lemma_digits_grow(d.drop_last(), k);
    } else {
        assert(d.subrange(0, k) =~= d);
    }
}

/// The value of the digits of `d` from `start` on, when they are all digits
/// and the value is at most `bound`.
fn digits_up_to(d: &Vec<char>, start: usize, bound: u64) -> (r: Option<u64>)
    requires
        start <= d@.len(),
    ensures
        r == (if all_digits(d@.skip(start as int)) && digits_value(d@.skip(start as int)) <= bound {
            Some(digits_value(d@.skip(start as int)) as u64)
        } else {
            None::<u64>
        }),
{
    let ghost ds = d@.skip(start as int);
    let mut acc: u64 = 0;
    let mut i: usize = start;
    assert(ds.subrange(0, 0) =~= Seq::<char>::empty());
    while i < d.len()
        invariant
            start <= i <= d@.len(),
            ds == d@.skip(start as int),
            all_digits(ds.subrange(0, i - start)),
            acc == digits_value(ds.subrange(0, i - start)),
            acc <= bound,
        decreases d.len() - i,
    {
        let c = d[i];
        let ghost pre = ds.subrange(0, i - start);
        let ghost next = ds.subrange(0, i - start + 1);
        assert(next.drop_last() =~= pre);
        assert(ds[i - start] == c);
        assert(next.last() == c);
        if !('0' <= c && c <= '9') {
            return None;
        }
        let digit = (c as u64) - ('0' as u64);
        assert(digits_value(next) == acc * 10 + digit);
        if digit > bound || acc > (bound - digit) / 10 {
            proof {
                assert(acc * 10 + digit > bound) by (nonlinear_arith)
                    requires
                        digit > bound || acc > (bound - digit) / 10,
                        digit <= 9,
                ;
                if all_digits(ds) {
                    lemma_digits_grow(ds, i - start + 1);
                }
            }
            return None;
        }
        assert(acc * 10 + digit <= bound) by (nonlinear_arith)
            requires
                digit <= bound,
                acc <= (bound - digit) / 10,
        ;
        acc = acc * 10 + digit;
        assert(all_digits(next));
        i += 1;
    }
    assert(ds.subrange(0, d@.len() - start) =~= ds);
    Some(acc)
}

/// A token read as an unsigned integer no larger than `bound`.
pub fn parse_unsigned(t: &str, bound: u64) -> (r: Option<u64>)
    ensures
        r == (match parse_in(t@, false, 0, bound as int) {
            Some(v) => Some(v as u64),
            None => None::<u64>,
        }),
{
    let d = chars_of(t);
    if d.len() == 0 {
        return None;
    }
    if d[0] == '+' {
        if d.len() == 1 {
            return None;
        }
        assert(d@.skip(1) =~= t@.drop_first());
        return digits_up_to(&d, 1, bound);
    }
    assert(d@.skip(0) =~= t@);
    digits_up_to(&d, 0, bound)
}

/// A token read as an `i32`.
pub fn parse_i32(t: &str) -> (r: Option<i32>)
    ensures
        r == (match parse_in(t@, true, i32::MIN as int, i32::MAX as int) {
            Some(v) => Some(v as i32),
            None => None::<i32>,
        }),
{
    let d = chars_of(t);
    if d.len() == 0 {
        return None;
    }
    if d[0] == '-' || d[0] == '+' {
        if d.len() == 1 {
            return None;
        }
        assert(d@.skip(1) =~= t@.drop_first());
        if d[0] == '-' {
            return match digits_up_to(&d, 1, 2147483648) {
                Some(m) => Some((0i64 - m as i64) as i32),
                None => None,
            };
        }
        return match digits_up_to(&d, 1, 2147483647) {
            Some(m) => Some(m as i32),
            None => None,
        };
    }
    assert(d@.skip(0) =~= t@);
    match digits_up_to(&d, 0, 2147483647) {
        Some(m) => Some(m as i32),
        None => None,
    }
}

/// A search depth: a `u32` token, saturated to `u8`.
pub open spec fn spec_parse_depth(t: Seq<char>) -> Option<u8> {
    match parse_in(t, false, 0, u32::MAX as int) {
        Some(v) => Some(if v > 255 { 255u8 } else { v as u8 }),
        None => None,
    }
}

/// Depths above `u8::MAX` are not something an engine reaches, but they
/// saturate rather than throw the line away.
pub fn parse_depth(t: &str) -> (r: Option<u8>)
    ensures
        r == spec_parse_depth(t@),
{
    match parse_unsigned(t, 4294967295) {
        Some(v) => Some(if v > 255 { 255u8 } else { v as u8 }),
        None => None,
    }
}


/// `info depth 20 seldepth 28 multipv 1 score cp 34 ... pv e2e4 e7e5 ...`
#[derive(Debug, Clone, PartialEq, Eq)]
pub struct InfoLine {
    pub depth: u8,
    pub multipv: usize,
    pub score: Score,
    /// Moves in UCI notation.
    pub pv: Vec<String>,
    pub nodes: Option<u64>,
    pub nps: Option<u64>,
}

pub struct InfoView {
    pub depth: u8,
    pub multipv: usize,
    pub score: Score,
    pub pv: Seq<Seq<char>>,
    pub nodes: Option<u64>,
    pub nps: Option<u64>,
}

impl View for InfoLine {
    type V = InfoView;

    open spec fn view(&self) -> InfoView {
        InfoView {
            depth: self.depth,
            multipv: self.multipv,
            score: self.score,
            pv: strings_view(self.pv@),
            nodes: self.nodes,
            nps: self.nps,
        }
    }
}

/// The fields read so far from an `info` line.
pub struct InfoFields {
    pub depth: Option<u8>,
    pub multipv: Option<usize>,
    pub score: Option<Score>,
    pub pv: Option<Seq<Seq<char>>>,
    pub nodes: Option<u64>,
    pub nps: Option<u64>,
}

pub open spec fn as_u64(v: Option<int>) -> Option<u64> {
    match v {
        Some(x) => Some(x as u64),
        None => None,
    }
}

/// Reading the tokens of an `info` line from `i` on, with the fields `f`
/// read before. `None` when the line is to be rejected: free-form `string`
/// text, a score that is only a bound or of an unknown kind, a keyword with
/// its value missing, or an unreadable `multipv` or score value. An
/// unreadable `depth`, `nodes` or `nps` value only leaves that field unset.
/// `pv` takes every remaining token.
pub open spec fn read_fields(toks: Seq<Seq<char>>, i: int, f: InfoFields) -> Option<InfoFields>
    decreases toks.len() - i,
{
    if i < 0 || i >= toks.len() {
        Some(f)
    } else {
        let t = toks[i];
        let has_value = i + 1 < toks.len();
        if t == "string"@ || t == "lowerbound"@ || t == "upperbound"@ {
            None
        } else if t == "depth"@ {
            if !has_value {
                None
            } else {
                read_fields(toks, i + 2, InfoFields { depth: spec_parse_depth(toks[i + 1]), ..f })
            }
        } else if t == "multipv"@ {
            if !has_value {
                None
            } else {
                match parse_in(toks[i + 1], false, 0, usize::MAX as int) {
                    Some(v) => read_fields(toks, i + 2, InfoFields { multipv: Some(v as usize), ..f }),
                    None => None,
                }
            }
        } else if t == "nodes"@ {
            if !has_value {
                None
            } else {
                read_fields(toks, i + 2, InfoFields { nodes: as_u64(parse_in(toks[i + 1], false, 0, u64::MAX as int)), ..f })
            }
        } else if t == "nps"@ {
            if !has_value {
                None
            } else {
                read_fields(toks, i + 2, InfoFields { nps: as_u64(parse_in(toks[i + 1], false, 0, u64::MAX as int)), ..f })
            }
        } else if t == "score"@ {
            if !has_value || i + 2 >= toks.len() || !(toks[i + 1] == "cp"@ || toks[i + 1] == "mate"@) {
                None
            } else {
                match parse_in(toks[i + 2], true, i32::MIN as int, i32::MAX as int) {
                    Some(v) => read_fields(
                        toks,
                        i + 3,
                        InfoFields {
                            score: Some(if toks[i + 1] == "cp"@ { Score::Cp(v as i32) } else { Score::Mate(v as i32) }),
                            ..f
                        },
                    ),
                    None => None,
                }
            }
        } else if t == "pv"@ {
            Some(InfoFields { pv: Some(toks.subrange(i + 1, toks.len() as int)), ..f })
        } else {
            read_fields(toks, i + 1, f)
        }
    }
}

pub open spec fn no_fields() -> InfoFields {
    InfoFields { depth: None, multipv: None, score: None, pv: None, nodes: None, nps: None }
}

/// An `info` line carrying a depth, a score and a non-empty PV; the MultiPV
/// rank defaults to 1. Every other line reads as `None`.
pub open spec fn spec_parse_info(line: Seq<char>) -> Option<InfoView> {
    let toks = tokens(line);
    if toks.len() == 0 || toks[0] != "info"@ {
        None
    } else {
        match read_fields(toks, 1, no_fields()) {
            None => None,
            Some(f) => match (f.depth, f.score, f.pv) {
                (Some(d), Some(sc), Some(pv)) => if pv.len() > 0 {
                    Some(
                        InfoView {
                            depth: d,
                            multipv: match f.multipv {
                                Some(m) => m,
                                None => 1,
                            },
                            score: sc,
                            pv,
                            nodes: f.nodes,
                            nps: f.nps,
                        },
                    )
                } else {
                    None
                },
                _ => None,
            },
        }
    }
}

fn copy_strings_from(v: &Vec<String>, from: usize) -> (r: Vec<String>)
    requires
        from <= v@.len(),
    ensures
        strings_view(r@) == strings_view(v@).subrange(from as int, v@.len() as int),
{
    let mut out: Vec<String> = Vec::new();
    let mut i: usize = from;
    while i < v.len()
        invariant
            from <= i <= v@.len(),
            strings_view(out@) == strings_view(v@).subrange(from as int, i as int),
        decreases v.len() - i,
    {
        let ghost before = strings_view(out@);
        out.push(v[i].clone());
        assert(strings_view(out@) =~= before.push(v@[i as int]@));
        assert(strings_view(v@).subrange(from as int, i as int + 1) =~= strings_view(v@).subrange(from as int, i as int).push(v@[i as int]@));
        i += 1;
    }
    out
}

/// Parse an `info` line. Lines carrying neither a score nor a PV, free-form
/// `info string` lines and lines whose score is only a bound (`lowerbound`,
/// `upperbound`) read as `None`. The score is from the point of view of the
/// side to move.
pub fn parse_info(line: &str) -> (r: Option<InfoLine>)
    ensures
        (match r {
            Some(x) => Some(x@),
            None => None::<InfoView>,
        }) == spec_parse_info(line@),
{
    let toks = split_whitespace(line);
    let ghost tv = strings_view(toks@);
    if toks.len() == 0 || !str_eq(toks[0].as_str(), "info") {
        return None;
    }
    let mut depth: Option<u8> = None;
    let mut multipv: Option<usize> = None;
    let mut score: Option<Score> = None;
    let mut pv: Option<Vec<String>> = None;
    let mut nodes: Option<u64> = None;
    let mut nps: Option<u64> = None;
    let n = toks.len();
    let mut i: usize = 1;
    while i < n
        invariant_except_break
            pv is None,
            read_fields(tv, 1, no_fields()) == read_fields(
                tv,
                i as int,
                InfoFields { depth, multipv, score, pv: None, nodes, nps },
            ),
        invariant
            n == toks@.len(),
            tv == strings_view(toks@),
            tv == tokens(line@),
            1 <= i,
        ensures
            read_fields(tv, 1, no_fields()) == Some(
                InfoFields {
                    depth,
                    multipv,
                    score,
                    pv: match pv {
                        Some(p) => Some(strings_view(p@)),
                        None => None::<Seq<Seq<char>>>,
                    },
                    nodes,
                    nps,
                },
            ),
        decreases n - i,
    {
        let t = toks[i].as_str();
        assert(tv[i as int] == t@);
        let has_value = i + 1 < n;
        if has_value {
            assert(tv[i as int + 1] == toks@[i as int + 1]@);
        }
        if str_eq(t, "string") || str_eq(t, "lowerbound") || str_eq(t, "upperbound") {
            return None;
        } else if str_eq(t, "depth") {
            if !has_value {
                return None;
            }
            depth = parse_depth(toks[i + 1].as_str());
            i += 2;
        } else if str_eq(t, "multipv") {
            if !has_value {
                return None;
            }
            match parse_unsigned(toks[i + 1].as_str(), usize::MAX as u64) {
                Some(v) => {
                    multipv = Some(v as usize);
                },
                None => {
                    return None;
                },
            }
            i += 2;
        } else if str_eq(t, "nodes") {
            if !has_value {
                return None;
            }
            nodes = parse_unsigned(toks[i + 1].as_str(), u64::MAX);
            i += 2;
        } else if str_eq(t, "nps") {
            if !has_value {
                return None;
            }
            nps = parse_unsigned(toks[i + 1].as_str(), u64::MAX);
            i += 2;
        } else if str_eq(t, "score") {
            if !has_value || i + 2 >= n {
                return None;
            }
            assert(tv[i as int + 2] == toks@[i as int + 2]@);
            let kind = toks[i + 1].as_str();
            let is_cp = str_eq(kind, "cp");
            let is_mate = str_eq(kind, "mate");
            if !is_cp && !is_mate {
                return None;
            }
            match parse_i32(toks[i + 2].as_str()) {
                Some(v) => {
                    score = Some(if is_cp { Score::Cp(v) } else { Score::Mate(v) });
                },
                None => {
                    return None;
                },
            }
            i += 3;
        } else if str_eq(t, "pv") {
            pv = Some(copy_strings_from(&toks, i + 1));
            break;
        } else {
            i += 1;
        }
    }
    let pv = match pv {
        Some(p) => p,
        None => {
            return None;
        },
    };
    if pv.len() == 0 {
        return None;
    }
    match (depth, score) {
        (Some(d), Some(sc)) => Some(
            InfoLine {
                depth: d,
                multipv: match multipv {
                    Some(m) => m,
                    None => 1,
                },
                score: sc,
                pv,
                nodes,
                nps,
            },
        ),
        _ => None,
    }
}

/// The move of a `bestmove` line; `None` for any other line and for an
/// engine that has no move (`(none)`, `none` or `0000`).
pub open spec fn spec_parse_bestmove(line: Seq<char>) -> Option<Seq<char>> {
    let toks = tokens(line);
    if toks.len() < 2 || toks[0] != "bestmove"@ || toks[1] == "(none)"@ || toks[1] == "none"@ || toks[1] == "0000"@ {
        None
    } else {
        Some(toks[1])
    }
}

/// `bestmove e2e4 ponder e7e5` gives `Some("e2e4")`; `bestmove (none)` gives `None`.
pub fn parse_bestmove(line: &str) -> (r: Option<String>)
    ensures
        (match r {
            Some(m) => Some(m@),
            None => None::<Seq<char>>,
        }) == spec_parse_bestmove(line@),
{
    let toks = split_whitespace(line);
    if toks.len() < 2 || !str_eq(toks[0].as_str(), "bestmove") {
        return None;
    }
    let m = toks[1].as_str();
    assert(strings_view(toks@)[1] == m@);
    if str_eq(m, "(none)") || str_eq(m, "none") || str_eq(m, "0000") {
        return None;
    }
    Some(toks[1].clone())
}

/// Whether a line is a `bestmove` line at all, with or without a move: the
/// end of a search.
pub fn is_bestmove(line: &str) -> (r: bool)
    ensures
        r == (tokens(line@).len() > 0 && tokens(line@)[0] == "bestmove"@),
{
    let toks = split_whitespace(line);
    toks.len() > 0 && str_eq(toks[0].as_str(), "bestmove")
}

/// A field-by-field copy of an `info` line.
pub fn copy_info(i: &InfoLine) -> (r: InfoLine)
    ensures
        r@ == i@,
{
    InfoLine {
        depth: i.depth,
        multipv: i.multipv,
        score: i.score,
        pv: crate::text::copy_strings(&i.pv),
        nodes: i.nodes,
        nps: i.nps,
    }
}

} // verus!

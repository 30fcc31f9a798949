//! PGN: writing a variation tree with its tags (the first child is the main
//! line, the others become bracketed variations), and building a tree from
//! what a PGN reader reports: tags, moves, the opening and closing of
//! variations, and the result.

use vstd::prelude::*;
use crate::opening::{annotate, named, new_tree, opening_view};
use crate::position::{
    initial_position, normalize_fen, parse_fen, parse_move, position_of_fen, san_of_uci, san_text, spec_normalize_fen,
    spec_parse_move, Position, INITIAL_FEN,
};
use crate::report::header_value;
use crate::text::{
    chars_of, decimal, lemma_sorted_unique, push_decimal, push_str, str_eq, string_from_chars, strictly_sorted,
    strings_view,
};
use crate::tree::{spec_play_tree, GameTree, NodeView};
use crate::uci::{parse_in, split_whitespace, tokens};

verus! {

/// Soft wrap column of the movetext.
pub const WRAP_COLUMN: usize = 80;

/// The Seven Tag Roster, in order, with the value written when a game does
/// not carry the tag.
pub open spec fn roster() -> Seq<(Seq<char>, Seq<char>)> {
    seq![
        ("Event"@, "?"@),
        ("Site"@, "?"@),
        ("Date"@, "????.??.??"@),
        ("Round"@, "?"@),
        ("White"@, "?"@),
        ("Black"@, "?"@),
        ("Result"@, "*"@),
    ]
}

fn roster_entry(i: usize) -> (r: (&'static str, &'static str))
    requires
        i < 7,
    ensures
        (r.0@, r.1@) == roster()[i as int],
{
    if i == 0 { ("Event", "?") }
    else if i == 1 { ("Site", "?") }
    else if i == 2 { ("Date", "????.??.??") }
    else if i == 3 { ("Round", "?") }
    else if i == 4 { ("White", "?") }
    else if i == 5 { ("Black", "?") }
    else { ("Result", "*") }
}

pub open spec fn escape_char(c: char) -> Seq<char> {
    if c == '\\' {
        seq!['\\', '\\']
    } else if c == '"' {
        seq!['\\', '"']
    } else {
        seq![c]
    }
}

/// A tag value with backslashes and quotes escaped by a backslash.
pub open spec fn spec_escape(s: Seq<char>) -> Seq<char>
    decreases s.len(),
{
    if s.len() == 0 { seq![] } else { spec_escape(s.drop_last()) + escape_char(s.last()) }
}

fn push_escaped(out: &mut Vec<char>, value: &str)
    ensures
        final(out)@ == old(out)@ + spec_escape(value@),
{
    let cs = chars_of(value);
    let ghost start = out@;
    let mut i: usize = 0;
    while i < cs.len()
        invariant
            i <= cs@.len(),
            cs@ == value@,
            out@ == start + spec_escape(cs@.take(i as int)),
        decreases cs.len() - i,
    {
        let c = cs[i];
        if c == '\\' {
            out.push('\\');
            out.push('\\');
        } else if c == '"' {
            out.push('\\');
            out.push('"');
        } else {
            out.push(c);
        }
        assert(cs@.take(i as int + 1).drop_last() =~= cs@.take(i as int));
        assert(out@ =~= start + spec_escape(cs@.take(i as int + 1)));
        i += 1;
    }
    assert(cs@.take(cs@.len() as int) =~= cs@);
}

/// A tag value escaped for PGN.
pub fn escape_tag(value: &str) -> (r: String)
    ensures
        r@ == spec_escape(value@),
{
    let mut out: Vec<char> = Vec::new();
    push_escaped(&mut out, value);
    string_from_chars(&out)
}

/// A tag pair line.
pub open spec fn tag_line(name: Seq<char>, value: Seq<char>) -> Seq<char> {
    "["@ + name + " \""@ + spec_escape(value) + "\"]\n"@
}

fn push_tag(out: &mut Vec<char>, name: &str, value: &str)
    ensures
        final(out)@ == old(out)@ + tag_line(name@, value@),
{
    let ghost start = out@;
    push_str(out, "[");
    push_str(out, name);
    push_str(out, " \"");
    push_escaped(out, value);
    push_str(out, "\"]\n");
    assert(out@ =~= start + tag_line(name@, value@));
}

/// The roster's tag lines, each with the game's value or the default.
pub open spec fn roster_text(h: Seq<(String, String)>, n: int) -> Seq<char>
    decreases n,
{
    if n <= 0 {
        seq![]
    } else {
        roster_text(h, n - 1) + tag_line(roster()[n - 1].0, header_value(h, roster()[n - 1].0, roster()[n - 1].1, 0))
    }
}

/// The value of the first header called `name`, if there is one.
fn header_of<'a>(headers: &'a Vec<(String, String)>, name: &str) -> (r: Option<&'a String>)
    ensures
        match r {
            Some(v) => header_value(headers@, name@, seq![], 0) == v@ && exists|k: int|
                0 <= k < headers@.len() && #[trigger] headers@[k].0@ == name@,
            None => forall|k: int| 0 <= k < headers@.len() ==> #[trigger] headers@[k].0@ != name@,
        },
        forall|d: Seq<char>| #![auto] header_value(headers@, name@, d, 0) == (match r {
            Some(v) => v@,
            None => d,
        }),
{
    let mut k: usize = 0;
    while k < headers.len()
        invariant
            k <= headers@.len(),
            forall|j: int| 0 <= j < k ==> #[trigger] headers@[j].0@ != name@,
            forall|d: Seq<char>| #![auto] header_value(headers@, name@, d, 0) == header_value(headers@, name@, d, k as int),
        decreases headers.len() - k,
    {
        if str_eq(headers[k].0.as_str(), name) {
            return Some(&headers[k].1);
        }
        k += 1;
    }
    None
}

/// Whether a tag is written after the roster: not a roster tag, nor the
/// set-up tags, which are written from the tree's start.
pub open spec fn extra_tag(k: Seq<char>) -> bool {
    &&& forall|i: int| 0 <= i < 7 ==> roster()[i].0 != k
    &&& k != "SetUp"@
    &&& k != "FEN"@
}

pub open spec fn header_keys(h: Seq<(String, String)>) -> Seq<Seq<char>> {
    h.map_values(|p: (String, String)| p.0@)
}

/// The extra tags in string order, each once.
pub open spec fn lists_extras(ks: Seq<Seq<char>>, h: Seq<(String, String)>) -> bool {
    &&& strictly_sorted(ks)
    &&& forall|s: Seq<char>|
        #![trigger ks.contains(s)]
        #![trigger header_keys(h).contains(s)]
        ks.contains(s) <==> (header_keys(h).contains(s) && extra_tag(s))
}

pub open spec fn extra_keys(h: Seq<(String, String)>) -> Seq<Seq<char>> {
    choose|ks: Seq<Seq<char>>| lists_extras(ks, h)
}

pub open spec fn extras_text(h: Seq<(String, String)>, ks: Seq<Seq<char>>, n: int) -> Seq<char>
    decreases n,
{
    if n <= 0 { seq![] } else { extras_text(h, ks, n - 1) + tag_line(ks[n - 1], header_value(h, ks[n - 1], seq![], 0)) }
}

/// The tags written before the roster-less extras: the set-up pair when the
/// tree does not start from the standard position.
pub open spec fn setup_text(fen: Seq<char>) -> Seq<char> {
    if spec_normalize_fen(fen) != spec_normalize_fen(INITIAL_FEN@) {
        "[SetUp \"1\"]\n"@ + tag_line("FEN"@, fen)
    } else {
        seq![]
    }
}

fn is_extra(name: &str) -> (r: bool)
    ensures
        r == extra_tag(name@),
{
    let mut i: usize = 0;
    while i < 7
        invariant
            i <= 7,
            forall|j: int| 0 <= j < i ==> roster()[j].0 != name@,
        decreases 7 - i,
    {
        let (n, _) = roster_entry(i);
        if str_eq(n, name) {
            return false;
        }
        i += 1;
    }
    !str_eq(name, "SetUp") && !str_eq(name, "FEN")
}

/// Push the tag lines of the header block: roster, set-up, extras.
fn push_tags(out: &mut Vec<char>, headers: &Vec<(String, String)>, start_fen: &str)
    ensures
        final(out)@ == old(out)@ + roster_text(headers@, 7) + setup_text(start_fen@) + extras_text(
            headers@,
            extra_keys(headers@),
            extra_keys(headers@).len() as int,
        ),
{
    let ghost start = out@;
    let mut i: usize = 0;
    while i < 7
        invariant
            i <= 7,
            out@ == start + roster_text(headers@, i as int),
        decreases 7 - i,
    {
        let (name, dflt) = roster_entry(i);
        let value = match header_of(headers, name) {
            Some(v) => v.as_str(),
            None => dflt,
        };
        push_tag(out, name, value);
        i += 1;
    }
    let ghost after_roster = out@;
    let norm = normalize_fen(start_fen);
    let standard = normalize_fen(INITIAL_FEN);
    if !str_eq(norm.as_str(), standard.as_str()) {
        push_str(out, "[SetUp \"1\"]\n");
        push_tag(out, "FEN", start_fen);
    }
    assert(out@ =~= after_roster + setup_text(start_fen@));
    let mut keys: Vec<String> = Vec::new();
    let mut k: usize = 0;
    while k < headers.len()
        invariant
            k <= headers@.len(),
            strictly_sorted(strings_view(keys@)),
            forall|s: Seq<char>|
                #![trigger strings_view(keys@).contains(s)]
                #![trigger header_keys(headers@).take(k as int).contains(s)]
                strings_view(keys@).contains(s) <==> (header_keys(headers@).take(k as int).contains(s) && extra_tag(s)),
        decreases headers.len() - k,
    {
        let ghost before = strings_view(keys@);
        let ghost prev = header_keys(headers@).take(k as int);
        let ghost next = header_keys(headers@).take(k as int + 1);
        let ghost key = headers@[k as int].0@;
        assert(next =~= prev.push(key));
        assert forall|s: Seq<char>| next.contains(s) <==> (prev.contains(s) || s == key) by {
            if next.contains(s) {
                let i = choose|i: int| 0 <= i < next.len() && next[i] == s;
                if i < prev.len() {
                    assert(prev[i] == s);
                }
            }
            if prev.contains(s) {
                let i = choose|i: int| 0 <= i < prev.len() && prev[i] == s;
                assert(next[i] == s);
            }
            if s == key {
                assert(next[k as int] == s);
            }
        }
        let extra = is_extra(headers[k].0.as_str());
        if extra {
            let name = headers[k].0.clone();
            crate::text::insert_sorted(&mut keys, name);
        }
        assert forall|s: Seq<char>| strings_view(keys@).contains(s) <==> (next.contains(s) && extra_tag(s)) by {
            assert(before.contains(s) <==> (prev.contains(s) && extra_tag(s)));
            assert(next.contains(s) <==> (prev.contains(s) || s == key));
            if extra {
                assert(strings_view(keys@).contains(s) <==> (before.contains(s) || s == key));
            }
        }
        k += 1;
    }
    assert(header_keys(headers@).take(headers@.len() as int) =~= header_keys(headers@));
    let ghost ks = strings_view(keys@);
    proof {
        assert(lists_extras(ks, headers@));
        let chosen = extra_keys(headers@);
        assert(lists_extras(chosen, headers@));
        assert forall|s: Seq<char>| ks.contains(s) <==> chosen.contains(s) by {
            assert(chosen.contains(s) <==> (header_keys(headers@).contains(s) && extra_tag(s)));
        }
        lemma_sorted_unique(ks, chosen);
    }
    let ghost before_extras = out@;
    let mut j: usize = 0;
    while j < keys.len()
        invariant
            j <= keys@.len(),
            ks == strings_view(keys@),
            out@ == before_extras + extras_text(headers@, ks, j as int),
        decreases keys.len() - j,
    {
        let value = match header_of(headers, keys[j].as_str()) {
            Some(v) => v.as_str(),
            None => "",
        };
        proof {
            reveal_strlit("");
        }
        push_tag(out, keys[j].as_str(), value);
        j += 1;
    }
}

/// Side to move and fullmove number read off a FEN's fields: white unless
/// the second field is `b`; the sixth field as a number, or 1.
pub open spec fn fen_turn_number(fen: Seq<char>) -> (bool, u32) {
    let f = tokens(fen);
    let white = !(f.len() > 1 && f[1] == "b"@);
    let n = if f.len() > 5 {
        match parse_in(f[5], false, 0, u32::MAX as int) {
            Some(v) => v as u32,
            None => 1u32,
        }
    } else {
        1u32
    };
    (white, n)
}

fn fen_turn_and_number(fen: &str) -> (r: (bool, u32))
    ensures
        r == fen_turn_number(fen@),
{
    let fields = split_whitespace(fen);
    let white = !(fields.len() > 1 && str_eq(fields[1].as_str(), "b"));
    let n = if fields.len() > 5 {
        match crate::uci::parse_unsigned(fields[5].as_str(), 4294967295u64) {
            Some(v) => v as u32,
            None => 1u32,
        }
    } else {
        1u32
    };
    (white, n)
}

/// The SAN written for the move into `child`: recovered from the parent's
/// position, so that it carries its check or mate mark, else the stored
/// SAN, else `--`.
pub open spec fn written_san(t: Seq<NodeView>, parent: int, child: int) -> Seq<char> {
    let recovered = match t[child].uci {
        Some(u) => san_text(t[parent].fen, u, true),
        None => None,
    };
    match recovered {
        Some(s) => s,
        None => match t[child].san {
            Some(s) => s,
            None => "--"@,
        },
    }
}

/// A move as written: with its number before a white move, and before a
/// black move that starts a line or follows a variation.
pub open spec fn move_token(t: Seq<NodeView>, parent: int, child: int, need_number: bool) -> Seq<char> {
    let (white, n) = fen_turn_number(t[parent].fen);
    if white {
        decimal(n as nat) + ". "@ + written_san(t, parent, child)
    } else if need_number {
        decimal(n as nat) + "... "@ + written_san(t, parent, child)
    } else {
        written_san(t, parent, child)
    }
}

/// The tokens of the line from `parent`: its first child's move, the other
/// children as bracketed variations, then the line continued from the first
/// child (numbered again after a variation).
pub open spec fn line_tokens(t: Seq<NodeView>, parent: int, need_number: bool) -> Seq<Seq<char>>
    decreases t.len() - parent, 1int, 0int,
{
    if parent < 0 || parent >= t.len() || t[parent].children.len() == 0 {
        seq![]
    } else {
        let ch = t[parent].children;
        let main = ch[0] as int;
        if !(parent < main < t.len()) {
            seq![]
        } else {
            seq![move_token(t, parent, main, need_number)] + variation_tokens(t, parent, 1)
                + line_tokens(t, main, ch.len() > 1)
        }
    }
}

/// The bracketed variations of `parent` from its `k`-th child on.
pub open spec fn variation_tokens(t: Seq<NodeView>, parent: int, k: int) -> Seq<Seq<char>>
    decreases t.len() - parent, 0int, t[parent].children.len() - k,
{
    if parent < 0 || parent >= t.len() || k < 1 || k >= t[parent].children.len() {
        seq![]
    } else {
        let v = t[parent].children[k] as int;
        if !(parent < v < t.len()) {
            seq![]
        } else {
            seq!["("@, move_token(t, parent, v, true)] + line_tokens(t, v, false) + seq![")"@]
                + variation_tokens(t, parent, k + 1)
        }
    }
}

fn token_of<A>(tree: &GameTree<A>, parent: usize, child: usize, need_number: bool) -> (r: String)
    requires
        parent < tree.nodes@.len(),
        child < tree.nodes@.len(),
    ensures
        r@ == move_token(tree.view_nodes(), parent as int, child as int, need_number),
{
    let ghost t = tree.view_nodes();
    let recovered = match &tree.nodes[child].uci {
        Some(u) => san_of_uci(tree.nodes[parent].fen.as_str(), u.as_str(), true),
        None => None,
    };
    let (white, n) = fen_turn_and_number(tree.nodes[parent].fen.as_str());
    let mut out: Vec<char> = Vec::new();
    if white {
        push_decimal(&mut out, n as u64);
        push_str(&mut out, ". ");
    } else if need_number {
        push_decimal(&mut out, n as u64);
        push_str(&mut out, "... ");
    }
    match &recovered {
        Some(s) => push_str(&mut out, s.as_str()),
        None => match &tree.nodes[child].san {
            Some(s) => push_str(&mut out, s.as_str()),
            None => push_str(&mut out, "--"),
        },
    }
    let r = string_from_chars(&out);
    assert(r@ =~= move_token(t, parent as int, child as int, need_number));
    r
}

fn render_line<A>(tree: &GameTree<A>, parent: usize, need_number: bool, tokens: &mut Vec<String>)
    requires
        tree.wf(),
        parent < tree.nodes@.len(),
    ensures
        strings_view(final(tokens)@) == strings_view(old(tokens)@) + line_tokens(tree.view_nodes(), parent as int, need_number),
    decreases tree.nodes@.len() - parent, 1int, 0int,
{
    let ghost t = tree.view_nodes();
    let ghost start = strings_view(tokens@);
    if tree.nodes[parent].children.len() == 0 {
        assert(strings_view(tokens@) =~= start + line_tokens(t, parent as int, need_number));
        return;
    }
    let main = tree.nodes[parent].children[0];
    assert(t[parent as int].children[0] == main);
    assert(parent < main < t.len());
    let tok = token_of(tree, parent, main, need_number);
    tokens.push(tok);
    assert(strings_view(tokens@) =~= start + seq![move_token(t, parent as int, main as int, need_number)]);
    render_variations(tree, parent, 1, tokens);
    let more = tree.nodes[parent].children.len() > 1;
    render_line(tree, main, more, tokens);
    assert(strings_view(tokens@) =~= start + line_tokens(t, parent as int, need_number));
}

fn render_variations<A>(tree: &GameTree<A>, parent: usize, k: usize, tokens: &mut Vec<String>)
    requires
        tree.wf(),
        parent < tree.nodes@.len(),
        1 <= k,
    ensures
        strings_view(final(tokens)@) == strings_view(old(tokens)@) + variation_tokens(tree.view_nodes(), parent as int, k as int),
    decreases tree.nodes@.len() - parent, 0int, tree.view_nodes()[parent as int].children.len() - k,
{
    let ghost t = tree.view_nodes();
    let ghost start = strings_view(tokens@);
    if k >= tree.nodes[parent].children.len() {
        assert(strings_view(tokens@) =~= start + variation_tokens(t, parent as int, k as int));
        return;
    }
    let v = tree.nodes[parent].children[k];
    assert(t[parent as int].children[k as int] == v);
    assert(parent < v < t.len());
    let open = "(".to_owned();
    let tok = token_of(tree, parent, v, true);
    tokens.push(open);
    tokens.push(tok);
    let ghost a = strings_view(tokens@);
    assert(a =~= start + seq!["("@, move_token(t, parent as int, v as int, true)]);
    render_line(tree, v, false, tokens);
    let ghost b = strings_view(tokens@);
    let close = ")".to_owned();
    tokens.push(close);
    assert(strings_view(tokens@) =~= b + seq![")"@]);
    let ghost c = strings_view(tokens@);
    render_variations(tree, parent, k + 1, tokens);
    assert(strings_view(tokens@) == c + variation_tokens(t, parent as int, k as int + 1));
    assert(strings_view(tokens@) =~= start + variation_tokens(t, parent as int, k as int));
}

/// The length in bytes of a text's UTF-8 encoding.
pub open spec fn utf8_len(s: Seq<char>) -> int
    decreases s.len(),
{
    if s.len() == 0 {
        0
    } else {
        let c = s.last() as u32;
        utf8_len(s.drop_last()) + if c < 0x80 { 1int } else if c < 0x800 { 2int } else if c < 0x10000 { 3int } else { 4int }
    }
}

/// Wrapping the first `n` tokens: the finished lines and the line being
/// filled. A token is glued to the line (no space) when the line is empty,
/// the token is `)`, or the line ends with `(`; otherwise it goes on the
/// line after a space, or starts a new line when it would pass the width.
pub open spec fn wrap_state(toks: Seq<Seq<char>>, width: int, n: int) -> (Seq<char>, Seq<char>)
    decreases n,
{
    if n <= 0 {
        (seq![], seq![])
    } else {
        let (out, line) = wrap_state(toks, width, n - 1);
        let tok = toks[n - 1];
        let glued = line.len() == 0 || tok == ")"@ || line.last() == '(';
        if !glued && utf8_len(line) + 1 + utf8_len(tok) > width {
            (out + line + "\n"@, tok)
        } else if !glued {
            (out, line + " "@ + tok)
        } else {
            (out, line + tok)
        }
    }
}

pub open spec fn wrap_text(toks: Seq<Seq<char>>, width: int) -> Seq<char> {
    let (out, line) = wrap_state(toks, width, toks.len() as int);
    out + line
}

fn utf8_len_of(cs: &Vec<char>) -> (r: usize)
    ensures
        r as int == if utf8_len(cs@) < usize::MAX { utf8_len(cs@) } else { usize::MAX as int },
{
    let mut n: usize = 0;
    let mut i: usize = 0;
    while i < cs.len()
        invariant
            i <= cs@.len(),
            n as int == if utf8_len(cs@.take(i as int)) < usize::MAX { utf8_len(cs@.take(i as int)) } else { usize::MAX as int },
        decreases cs.len() - i,
    {
        let c = cs[i] as u32;
        let w: usize = if c < 0x80 { 1 } else if c < 0x800 { 2 } else if c < 0x10000 { 3 } else { 4 };
        assert(cs@.take(i as int + 1).drop_last() =~= cs@.take(i as int));
        assert(cs@.take(i as int + 1).last() as u32 == c);
        proof {
            lemma_utf8_nonneg(cs@.take(i as int));
        }
        n = n.saturating_add(w);
        i += 1;
    }
    assert(cs@.take(cs@.len() as int) =~= cs@);
    n
}

proof fn lemma_utf8_nonneg(s: Seq<char>)
    ensures
        utf8_len(s) >= 0,
    decreases s.len(),
{
    if s.len() > 0 {
        lemma_utf8_nonneg(s.drop_last());
    }
}

/// Wrap tokens into lines of at most `width` bytes where they allow it.
pub fn wrap(toks: &Vec<String>, width: usize) -> (r: String)
    requires
        width < usize::MAX,
    ensures
        r@ == wrap_text(strings_view(toks@), width as int),
{
    let ghost tv = strings_view(toks@);
    let mut out: Vec<char> = Vec::new();
    let mut line: Vec<char> = Vec::new();
    let mut i: usize = 0;
    while i < toks.len()
        invariant
            i <= toks@.len(),
            width < usize::MAX,
            tv == strings_view(toks@),
            (out@, line@) == wrap_state(tv, width as int, i as int),
        decreases toks.len() - i,
    {
        let tok = chars_of(toks[i].as_str());
        assert(tok@ == tv[i as int]);
        let closing = str_eq(toks[i].as_str(), ")");
        let glued = line.len() == 0 || closing || line[line.len() - 1] == '(';
        let line_len = utf8_len_of(&line);
        let tok_len = utf8_len_of(&tok);
        proof {
            lemma_utf8_nonneg(line@);
            lemma_utf8_nonneg(tok@);
        }
        let too_long = line_len >= width || tok_len > width - line_len - 1;
        assert(too_long == (utf8_len(line@) + 1 + utf8_len(tok@) > width));
        if !glued && too_long {
            let mut k: usize = 0;
            let ghost before = out@;
            while k < line.len()
                invariant
                    k <= line@.len(),
                    out@ == before + line@.take(k as int),
                decreases line.len() - k,
            {
                out.push(line[k]);
                assert(line@.take(k as int + 1) =~= line@.take(k as int).push(line@[k as int]));
                k += 1;
            }
            assert(line@.take(line@.len() as int) =~= line@);
            push_str(&mut out, "\n");
            line = tok;
        } else {
            if !glued {
                line.push(' ');
            }
            let mut k: usize = 0;
            let ghost before = line@;
            while k < tok.len()
                invariant
                    k <= tok@.len(),
                    line@ == before + tok@.take(k as int),
                decreases tok.len() - k,
            {
                line.push(tok[k]);
                assert(tok@.take(k as int + 1) =~= tok@.take(k as int).push(tok@[k as int]));
                k += 1;
            }
            assert(tok@.take(tok@.len() as int) =~= tok@);
            proof {
                reveal_strlit(" ");
            }
        }
        i += 1;
    }
    let mut k: usize = 0;
    let ghost before = out@;
    while k < line.len()
        invariant
            k <= line@.len(),
            out@ == before + line@.take(k as int),
        decreases line.len() - k,
    {
        out.push(line[k]);
        assert(line@.take(k as int + 1) =~= line@.take(k as int).push(line@[k as int]));
        k += 1;
    }
    assert(line@.take(line@.len() as int) =~= line@);
    string_from_chars(&out)
}

/// The whole PGN of a tree: tags, a blank line, and the movetext (the main
/// line with its variations, then the result) wrapped at the wrap column.
pub open spec fn spec_export(t: Seq<NodeView>, h: Seq<(String, String)>) -> Seq<char> {
    roster_text(h, 7) + setup_text(t[0].fen) + extras_text(h, extra_keys(h), extra_keys(h).len() as int) + "\n"@
        + wrap_text(line_tokens(t, 0, true) + seq![header_value(h, "Result"@, "*"@, 0)], WRAP_COLUMN as int) + "\n"@
}

/// Write a tree and its tags as PGN.
pub fn export<A>(tree: &GameTree<A>, headers: &Vec<(String, String)>) -> (r: String)
    requires
        tree.wf(),
    ensures
        r@ == spec_export(tree.view_nodes(), headers@),
{
    let mut out: Vec<char> = Vec::new();
    push_tags(&mut out, headers, tree.nodes[tree.root].fen.as_str());
    push_str(&mut out, "\n");
    let mut toks: Vec<String> = Vec::new();
    render_line(tree, tree.root, true, &mut toks);
    let result = match header_of(headers, "Result") {
        Some(v) => v.clone(),
        None => "*".to_owned(),
    };
    let ghost before = strings_view(toks@);
    toks.push(result);
    assert(strings_view(toks@) =~= before + seq![header_value(headers@, "Result"@, "*"@, 0)]);
    let text = wrap(&toks, WRAP_COLUMN);
    push_str(&mut out, text.as_str());
    push_str(&mut out, "\n");
    let r = string_from_chars(&out);
    assert(r@ =~= spec_export(tree.view_nodes(), headers@));
    r
}

/// What can go wrong reading a PGN.
#[derive(Debug, Clone, PartialEq, Eq)]
pub enum PgnError {
    /// The text holds no game.
    Empty,
    /// The move at a ply (counted from the start of the game text) is not
    /// legal where it is played.
    IllegalMove(usize, String),
    Parse(String),
}

impl PgnError {
    /// The error as a sentence.
    pub fn message(&self) -> (r: String)
        ensures
            r@ == (match *self {
                PgnError::Empty => "no game found in PGN"@,
                PgnError::IllegalMove(ply, san) => "invalid move at ply "@ + decimal(ply as nat) + ": "@ + san@,
                PgnError::Parse(d) => "parse error: "@ + d@,
            }),
    {
        let mut out: Vec<char> = Vec::new();
        match self {
            PgnError::Empty => push_str(&mut out, "no game found in PGN"),
            PgnError::IllegalMove(ply, san) => {
                push_str(&mut out, "invalid move at ply ");
                push_decimal(&mut out, *ply as u64);
                push_str(&mut out, ": ");
                push_str(&mut out, san.as_str());
            },
            PgnError::Parse(d) => {
                push_str(&mut out, "parse error: ");
                push_str(&mut out, d.as_str());
            },
        }
        string_from_chars(&out)
    }
}

/// No two headers share a name.
pub open spec fn keys_unique(h: Seq<(String, String)>) -> bool {
    forall|i: int, j: int| 0 <= i < j < h.len() ==> #[trigger] h[i].0@ != #[trigger] h[j].0@
}

/// Set a header: its value replaced when the name is there, else added.
pub fn set_header(headers: &mut Vec<(String, String)>, name: String, value: String)
    requires
        keys_unique(old(headers)@),
    ensures
        keys_unique(final(headers)@),
        forall|n: Seq<char>, d: Seq<char>| #[trigger] header_value(final(headers)@, n, d, 0) == if n == name@ {
            value@
        } else {
            header_value(old(headers)@, n, d, 0)
        },
        forall|s: Seq<char>|
            #![trigger header_keys(final(headers)@).contains(s)]
            #![trigger header_keys(old(headers)@).contains(s)]
            header_keys(final(headers)@).contains(s) <==> (header_keys(old(headers)@).contains(s) || s == name@),
{
    let ghost h = headers@;
    let mut k: usize = 0;
    while k < headers.len()
        invariant
            k <= headers@.len(),
            headers@ == h,
            h == old(headers)@,
            keys_unique(h),
            forall|j: int| 0 <= j < k ==> #[trigger] h[j].0@ != name@,
        decreases headers.len() - k,
    {
        if str_eq(headers[k].0.as_str(), name.as_str()) {
            let ghost nk = name@;
            let ghost nv = value@;
            headers.set(k, (name, value));
            assert(headers@[k as int].0@ == h[k as int].0@);
            assert forall|n: Seq<char>, d: Seq<char>| #[trigger] header_value(headers@, n, d, 0) == if n == nk {
                nv
            } else {
                header_value(h, n, d, 0)
            } by {
                lemma_header_set(h, headers@, k as int, n, d, 0);
            }
            assert forall|s: Seq<char>|
                #![trigger header_keys(headers@).contains(s)]
                #![trigger header_keys(h).contains(s)]
                header_keys(headers@).contains(s) <==> (header_keys(h).contains(s) || s == h[k as int].0@) by {
                if header_keys(headers@).contains(s) {
                    let i = choose|i: int| 0 <= i < header_keys(headers@).len() && header_keys(headers@)[i] == s;
                    assert(header_keys(h)[i] == s);
                }
                if header_keys(h).contains(s) {
                    let i = choose|i: int| 0 <= i < header_keys(h).len() && header_keys(h)[i] == s;
                    assert(header_keys(headers@)[i] == s);
                }
                if s == h[k as int].0@ {
                    assert(header_keys(h)[k as int] == s);
                }
            }
            return;
        }
        k += 1;
    }
    let ghost nk = name@;
    let ghost nv = value@;
    headers.push((name, value));
    assert forall|n: Seq<char>, d: Seq<char>| #[trigger] header_value(headers@, n, d, 0) == if n == nk {
        nv
    } else {
        header_value(h, n, d, 0)
    } by {
        lemma_header_push(h, headers@, n, d, 0);
    }
    assert forall|s: Seq<char>|
        #![trigger header_keys(headers@).contains(s)]
        #![trigger header_keys(h).contains(s)]
        header_keys(headers@).contains(s) <==> (header_keys(h).contains(s) || s == nk) by {
        if header_keys(headers@).contains(s) {
            let i = choose|i: int| 0 <= i < header_keys(headers@).len() && header_keys(headers@)[i] == s;
            if i < h.len() {
                assert(header_keys(h)[i] == s);
            }
        }
        if header_keys(h).contains(s) {
            let i = choose|i: int| 0 <= i < header_keys(h).len() && header_keys(h)[i] == s;
            assert(header_keys(headers@)[i] == s);
        }
        if s == nk {
            assert(header_keys(headers@)[h.len() as int] == s);
        }
    }
}

proof fn lemma_header_set(h: Seq<(String, String)>, h2: Seq<(String, String)>, k: int, n: Seq<char>, d: Seq<char>, i: int)
    requires
        keys_unique(h),
        0 <= k < h.len(),
        h2.len() == h.len(),
        h2[k].0@ == h[k].0@,
        forall|j: int| 0 <= j < h.len() && j != k ==> h2[j] == h[j],
        0 <= i <= k,
        forall|j: int| 0 <= j < k ==> #[trigger] h[j].0@ != h[k].0@,
    ensures
        header_value(h2, n, d, i) == if n == h[k].0@ { h2[k].1@ } else { header_value(h, n, d, i) },
    decreases h.len() - i,
{
    if i < k {
        lemma_header_set(h, h2, k, n, d, i + 1);
    } else {
        if n != h[k].0@ {
            lemma_header_tail_same(h, h2, k, n, d, k + 1);
        }
    }
}

proof fn lemma_header_tail_same(h: Seq<(String, String)>, h2: Seq<(String, String)>, k: int, n: Seq<char>, d: Seq<char>, i: int)
    requires
        h2.len() == h.len(),
        forall|j: int| 0 <= j < h.len() && j != k ==> h2[j] == h[j],
        k < i,
    ensures
        header_value(h2, n, d, i) == header_value(h, n, d, i),
    decreases h.len() - i,
{
    if i < h.len() {
        lemma_header_tail_same(h, h2, k, n, d, i + 1);
    }
}

proof fn lemma_header_push(h: Seq<(String, String)>, h2: Seq<(String, String)>, n: Seq<char>, d: Seq<char>, i: int)
    requires
        h2.len() == h.len() + 1,
        forall|j: int| 0 <= j < h.len() ==> h2[j] == h[j],
        forall|j: int| 0 <= j < h.len() ==> #[trigger] h[j].0@ != h2[h.len() as int].0@,
        0 <= i <= h.len(),
    ensures
        header_value(h2, n, d, i) == if n == h2[h.len() as int].0@ { h2[h.len() as int].1@ } else { header_value(h, n, d, i) },
    decreases h.len() - i,
{
    if i < h.len() {
        assert(h2[i] == h[i]);
        assert(h[i].0@ != h2[h.len() as int].0@);
        lemma_header_push(h, h2, n, d, i + 1);
    } else {
        assert(header_value(h2, n, d, i + 1) == d);
        assert(header_value(h, n, d, i) == d);
    }
}

/// What the tags of a game have said so far: the headers, the starting
/// position of a `FEN` tag, and the error of a `FEN` tag that does not read.
pub struct TagReader {
    pub headers: Vec<(String, String)>,
    pub start: Option<Position>,
    pub error: Option<PgnError>,
}

impl TagReader {
    pub open spec fn wf(&self) -> bool {
        &&& keys_unique(self.headers@)
        &&& (self.start matches Some(p) ==> p.wf())
    }

    pub fn new() -> (r: TagReader)
        ensures
            r.wf(),
            r.headers@.len() == 0,
            r.start is None,
            r.error is None,
    {
        TagReader { headers: Vec::new(), start: None, error: None }
    }

    /// Take a tag. A `FEN` tag sets the starting position, or the error when
    /// it does not read; every tag is kept as a header, a later one
    /// replacing an earlier one of the same name.
    pub fn tag(&mut self, name: String, value: String)
        requires
            old(self).wf(),
        ensures
            final(self).wf(),
            forall|n: Seq<char>, d: Seq<char>| #[trigger] header_value(final(self).headers@, n, d, 0) == if n == name@ {
                value@
            } else {
                header_value(old(self).headers@, n, d, 0)
            },
            name@ == "FEN"@ ==> match position_of_fen(value@) {
                Some(v) => final(self).start matches Some(p) && p@ == v && final(self).error == old(self).error,
                None => final(self).start == old(self).start && (final(self).error matches Some(PgnError::Parse(m))
                    && m@ == "invalid FEN tag: "@ + value@),
            },
            name@ != "FEN"@ ==> final(self).start == old(self).start && final(self).error == old(self).error,
    {
        if str_eq(name.as_str(), "FEN") {
            match parse_fen(value.as_str()) {
                Ok(p) => {
                    self.start = Some(p);
                },
                Err(_) => {
                    let mut out: Vec<char> = Vec::new();
                    push_str(&mut out, "invalid FEN tag: ");
                    push_str(&mut out, value.as_str());
                    self.error = Some(PgnError::Parse(string_from_chars(&out)));
                },
            }
        }
        set_header(&mut self.headers, name, value);
    }

    /// The tags are over: fail with a `FEN` tag's error, else start the tree
    /// from the tagged position or the standard one.
    pub fn begin_movetext<A>(self) -> (r: Result<GameBuilder<A>, PgnError>)
        requires
            self.wf(),
        ensures
            match self.error {
                Some(e) => r == Err::<GameBuilder<A>, PgnError>(e),
                None => r matches Ok(b) && b.wf() && b.headers@ == self.headers@ && b.cursor == 0 && b.stack@.len() == 0
                    && b.ply == 0 && b.tree.view_nodes().len() == 1 && b.tree.view_nodes()[0].fen == (match self.start {
                    Some(p) => p.fen@,
                    None => position_of_fen(INITIAL_FEN@)->0.fen,
                }) && opening_view(b.tree.nodes@[0].opening) == named(b.tree.view_nodes(), 0),
            },
    {
        if let Some(e) = self.error {
            return Err(e);
        }
        let start = match self.start {
            Some(p) => p,
            None => initial_position(),
        };
        let tree = new_tree(&start);
        Ok(GameBuilder { tree, headers: self.headers, cursor: 0, stack: Vec::new(), ply: 0 })
    }
}

/// A game being built from its moves: the tree, the headers, the node the
/// next move is played from, the nodes to return to when variations close,
/// and how many moves were read.
pub struct GameBuilder<A> {
    pub tree: GameTree<A>,
    pub headers: Vec<(String, String)>,
    pub cursor: usize,
    pub stack: Vec<usize>,
    pub ply: usize,
}

/// A game read from PGN.
pub struct ImportedGame<A> {
    pub tree: GameTree<A>,
    pub headers: Vec<(String, String)>,
}

impl<A> GameBuilder<A> {
    pub open spec fn wf(&self) -> bool {
        &&& self.tree.wf()
        &&& self.cursor < self.tree.nodes@.len()
        &&& forall|i: int| 0 <= i < self.stack@.len() ==> #[trigger] self.stack@[i] < self.tree.nodes@.len()
        &&& keys_unique(self.headers@)
    }

    /// A move in SAN, played from the cursor; the cursor moves to it and
    /// its position is named. An existing child with the same move is
    /// followed rather than duplicated.
    pub fn san(&mut self, san: &str) -> (r: Result<(), PgnError>)
        requires
            old(self).wf(),
            old(self).tree.nodes@.len() < usize::MAX,
            old(self).ply < usize::MAX,
        ensures
            final(self).wf(),
            final(self).headers@ == old(self).headers@,
            final(self).stack@ == old(self).stack@,
            ({
                let t = old(self).tree.view_nodes();
                let at = old(self).cursor as int;
                match position_of_fen(t[at].fen) {
                    None => r matches Err(PgnError::Parse(m)) && m@ == "invalid FEN: "@ + t[at].fen
                        && final(self).tree.view_nodes() == t && final(self).cursor == old(self).cursor,
                    Some(pos) => match spec_parse_move(pos, san@, true) {
                        None => r matches Err(PgnError::IllegalMove(p, s)) && p == old(self).ply && s@ == san@
                            && final(self).tree.view_nodes() == t && final(self).cursor == old(self).cursor,
                        Some(mv) => match spec_play_tree(t, at, mv) {
                            (Ok(id), t2) => r is Ok && final(self).tree.view_nodes() == t2 && final(self).cursor == id
                                && final(self).ply == old(self).ply + 1
                                && opening_view(final(self).tree.nodes@[id as int].opening) == named(t2, id as int),
                            (Err(_), t2) => r matches Err(PgnError::IllegalMove(p, s)) && p == old(self).ply && s@ == san@
                                && final(self).tree.view_nodes() == t2 && final(self).cursor == old(self).cursor,
                        },
                    },
                }
            }),
    {
        let pos = match self.tree.position(self.cursor) {
            Ok(p) => p,
            Err(e) => {
                return Err(PgnError::Parse(e.message()));
            },
        };
        let mv = match parse_move(&pos, san, true) {
            Some(m) => m,
            None => {
                return Err(PgnError::IllegalMove(self.ply, san.to_owned()));
            },
        };
        let ghost before = self.tree.nodes@.len();
        match self.tree.play(self.cursor, &mv) {
            Ok(id) => {
                let ghost t2 = self.tree.view_nodes();
                annotate(&mut self.tree, id);
                assert(self.tree.view_nodes().len() == self.tree.nodes@.len());
                assert(t2.len() == self.tree.nodes@.len());
                self.cursor = id;
                self.ply = self.ply + 1;
                Ok(())
            },
            Err(_) => Err(PgnError::IllegalMove(self.ply, san.to_owned())),
        }
    }

    /// A variation opens: it is an alternative to the move just read, so
    /// it branches off that move's parent (the root at the root).
    pub fn begin_variation(&mut self)
        requires
            old(self).wf(),
        ensures
            final(self).wf(),
            final(self).tree == old(self).tree,
            final(self).headers@ == old(self).headers@,
            final(self).ply == old(self).ply,
            final(self).stack@ == old(self).stack@.push(old(self).cursor),
            final(self).cursor == (match old(self).tree.view_nodes()[old(self).cursor as int].parent {
                Some(p) => p,
                None => 0,
            }),
    {
        self.stack.push(self.cursor);
        let ghost t = self.tree.view_nodes();
        let next = match self.tree.nodes[self.cursor].parent {
            Some(p) => p,
            None => 0,
        };
        assert(t[self.cursor as int].parent == self.tree.nodes@[self.cursor as int].parent);
        self.cursor = next;
    }

    /// A variation closes: the cursor returns to where it was when the
    /// variation opened.
    pub fn end_variation(&mut self)
        requires
            old(self).wf(),
        ensures
            final(self).wf(),
            final(self).tree == old(self).tree,
            final(self).headers@ == old(self).headers@,
            final(self).ply == old(self).ply,
            old(self).stack@.len() == 0 ==> final(self).cursor == old(self).cursor && final(self).stack@.len() == 0,
            old(self).stack@.len() > 0 ==> final(self).cursor == old(self).stack@.last() && final(self).stack@
                == old(self).stack@.drop_last(),
    {
        match self.stack.pop() {
            Some(saved) => {
                self.cursor = saved;
            },
            None => {},
        }
    }

    /// The game's result: recorded as the `Result` header unless the tags
    /// already gave one (`*` when the result is not known).
    pub fn outcome(&mut self, result: Option<String>)
        requires
            old(self).wf(),
        ensures
            final(self).wf(),
            final(self).tree == old(self).tree,
            final(self).cursor == old(self).cursor,
            final(self).ply == old(self).ply,
            final(self).stack@ == old(self).stack@,
            header_keys(old(self).headers@).contains("Result"@) ==> final(self).headers@ == old(self).headers@,
            !header_keys(old(self).headers@).contains("Result"@) ==> forall|n: Seq<char>, d: Seq<char>|
                #[trigger] header_value(final(self).headers@, n, d, 0) == if n == "Result"@ {
                    match result {
                        Some(x) => x@,
                        None => "*"@,
                    }
                } else {
                    header_value(old(self).headers@, n, d, 0)
                },
    {
        let mut k: usize = 0;
        while k < self.headers.len()
            invariant
                self.wf(),
                k <= self.headers@.len(),
                forall|j: int| 0 <= j < k ==> #[trigger] header_keys(self.headers@)[j] != "Result"@,
            decreases self.headers.len() - k,
        {
            if str_eq(self.headers[k].0.as_str(), "Result") {
                assert(header_keys(self.headers@)[k as int] == "Result"@);
                return;
            }
            k += 1;
        }
        let value = match result {
            Some(x) => x,
            None => "*".to_owned(),
        };
        set_header(&mut self.headers, "Result".to_owned(), value);
    }

    /// The game, once every move is read.
    pub fn end_game(self) -> (r: ImportedGame<A>)
        ensures
            r.tree == self.tree,
            r.headers@ == self.headers@,
    {
        ImportedGame { tree: self.tree, headers: self.headers }
    }
}

} // verus!

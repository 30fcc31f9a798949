//! A game's analysis as a Markdown report. Pure formatting: it reads what
//! the analysis produced and decides nothing of its own. The caller writes
//! the win-probability line of each move, which is made of fractions.

use vstd::prelude::*;
use crate::classify::{label, spec_glyph, spec_label, Classification};
use crate::eco::{char_rows, lines_of, text_lines};
use crate::motif::{motif_views, spec_key, Motif, MotifView};
use crate::score::Score;
use crate::text::{decimal, join_with, push_decimal, push_str, string_from_chars, strings_view, trim, trim_str};
use crate::types::{Counterfactual, CounterfactualKind, OpeningInfo};

verus! {

/// The order classifications are listed in the summary table: best first.
pub open spec fn summary_order() -> Seq<Classification> {
    seq![
        Classification::Book,
        Classification::Great,
        Classification::Best,
        Classification::Excellent,
        Classification::Good,
        Classification::Inaccuracy,
        Classification::Mistake,
        Classification::Blunder,
        Classification::Miss,
    ]
}

fn summary_class(i: usize) -> (r: Classification)
    requires
        i < 9,
    ensures
        r == summary_order()[i as int],
{
    if i == 0 { Classification::Book }
    else if i == 1 { Classification::Great }
    else if i == 2 { Classification::Best }
    else if i == 3 { Classification::Excellent }
    else if i == 4 { Classification::Good }
    else if i == 5 { Classification::Inaccuracy }
    else if i == 6 { Classification::Mistake }
    else if i == 7 { Classification::Blunder }
    else { Classification::Miss }
}

/// An integer with a minus sign when negative.
pub open spec fn signed_decimal(n: int) -> Seq<char> {
    if n < 0 { seq!['-'] + decimal((-n) as nat) } else { decimal(n as nat) }
}

/// A score as printed: pawns with a sign and two decimals, or `#` and the
/// mate distance.
pub open spec fn spec_score_text(s: Score) -> Seq<char> {
    match s {
        Score::Cp(cp) => {
            let a = if cp < 0 { -(cp as int) } else { cp as int };
            let frac = a % 100;
            (if cp < 0 { seq!['-'] } else { seq!['+'] }) + decimal((a / 100) as nat) + seq!['.']
                + (if frac < 10 { seq!['0'] } else { seq![] }) + decimal(frac as nat)
        },
        Score::Mate(m) => seq!['#'] + signed_decimal(m as int),
    }
}

fn push_signed(out: &mut Vec<char>, n: i32)
    ensures
        final(out)@ == old(out)@ + signed_decimal(n as int),
{
    if n < 0 {
        out.push('-');
        let a: i64 = -(n as i64);
        push_decimal(out, a as u64);
        assert(old(out)@ + signed_decimal(n as int) =~= old(out)@.push('-') + decimal((-(n as int)) as nat));
    } else {
        push_decimal(out, n as u64);
    }
}

fn push_score(out: &mut Vec<char>, s: Score)
    ensures
        final(out)@ == old(out)@ + spec_score_text(s),
{
    match s {
        Score::Cp(cp) => {
            let a: i64 = if cp < 0 { -(cp as i64) } else { cp as i64 };
            let ghost start = out@;
            out.push(if cp < 0 { '-' } else { '+' });
            push_decimal(out, (a / 100) as u64);
            out.push('.');
            let frac = a % 100;
            if frac < 10 {
                out.push('0');
            }
            push_decimal(out, frac as u64);
            assert(out@ =~= start + spec_score_text(s));
        },
        Score::Mate(m) => {
            let ghost start = out@;
            out.push('#');
            push_signed(out, m);
            assert(out@ =~= start + spec_score_text(s));
        },
    }
}

/// A score as printed.
pub fn score_text(score: &Score) -> (r: String)
    ensures
        r@ == spec_score_text(*score),
{
    let mut out: Vec<char> = Vec::new();
    push_score(&mut out, *score);
    string_from_chars(&out)
}

/// The move number as printed before a move: `12.` for white, `12...` for
/// black.
pub open spec fn spec_move_number(fullmove: u32, side_to_move: Seq<char>) -> Seq<char> {
    decimal(fullmove as nat) + (if side_to_move == "black"@ { "..."@ } else { "."@ })
}

pub fn move_number(fullmove: u32, side_to_move: &str) -> (r: String)
    ensures
        r@ == spec_move_number(fullmove, side_to_move@),
{
    let mut out: Vec<char> = Vec::new();
    push_decimal(&mut out, fullmove as u64);
    if crate::text::str_eq(side_to_move, "black") {
        push_str(&mut out, "...");
    } else {
        push_str(&mut out, ".");
    }
    string_from_chars(&out)
}

/// What a counterfactual reads as: its heading, its line, and the motifs
/// found along it in brackets.
pub open spec fn spec_counterfactual_text(kind: CounterfactualKind, pv: Seq<Seq<char>>, motifs: Seq<MotifView>) -> Seq<char> {
    let heading = match kind {
        CounterfactualKind::Refutation => "How it is punished"@,
        CounterfactualKind::AlternativeCollapse => "If the alternative is played instead"@,
    };
    heading + ": "@ + join_with(pv, " "@) + if motifs.len() == 0 {
        seq![]
    } else {
        " ("@ + join_with(motifs.map_values(|m: MotifView| spec_key(m)), ", "@) + ")"@
    }
}

fn push_joined(out: &mut Vec<char>, xs: &Vec<String>, sep: &str)
    ensures
        final(out)@ == old(out)@ + join_with(strings_view(xs@), sep@),
{
    let ghost start = out@;
    let ghost sv = strings_view(xs@);
    let mut i: usize = 0;
    while i < xs.len()
        invariant
            i <= xs@.len(),
            sv == strings_view(xs@),
            out@ == start + join_with(sv.take(i as int), sep@),
        decreases xs.len() - i,
    {
        let ghost before = sv.take(i as int);
        let ghost after = sv.take(i as int + 1);
        assert(after.drop_last() =~= before);
        assert(after.last() == xs@[i as int]@);
        if i > 0 {
            push_str(out, sep);
        } else {
            assert(after =~= seq![xs@[0]@]);
        }
        push_str(out, xs[i].as_str());
        assert(out@ =~= start + join_with(after, sep@));
        i += 1;
    }
    assert(sv.take(xs@.len() as int) =~= sv);
}

fn push_motif_keys(out: &mut Vec<char>, motifs: &Vec<Motif>)
    ensures
        final(out)@ == old(out)@ + join_with(motif_views(motifs@).map_values(|m: MotifView| spec_key(m)), ", "@),
{
    let ghost start = out@;
    let ghost keys = motif_views(motifs@).map_values(|m: MotifView| spec_key(m));
    let mut i: usize = 0;
    while i < motifs.len()
        invariant
            i <= motifs@.len(),
            keys == motif_views(motifs@).map_values(|m: MotifView| spec_key(m)),
            out@ == start + join_with(keys.take(i as int), ", "@),
        decreases motifs.len() - i,
    {
        let ghost before = keys.take(i as int);
        let ghost after = keys.take(i as int + 1);
        assert(after.drop_last() =~= before);
        assert(after.last() == spec_key(motifs@[i as int]@));
        if i > 0 {
            push_str(out, ", ");
        } else {
            assert(after =~= seq![spec_key(motifs@[0]@)]);
        }
        push_str(out, motifs[i].key());
        assert(out@ =~= start + join_with(after, ", "@));
        i += 1;
    }
    assert(keys.take(motifs@.len() as int) =~= keys);
}

fn push_counterfactual(out: &mut Vec<char>, c: &Counterfactual)
    ensures
        final(out)@ == old(out)@ + spec_counterfactual_text(c.kind, strings_view(c.pv@), motif_views(c.motifs@)),
{
    let ghost start = out@;
    match c.kind {
        CounterfactualKind::Refutation => push_str(out, "How it is punished"),
        CounterfactualKind::AlternativeCollapse => push_str(out, "If the alternative is played instead"),
    }
    push_str(out, ": ");
    push_joined(out, &c.pv, " ");
    if c.motifs.len() > 0 {
        push_str(out, " (");
        push_motif_keys(out, &c.motifs);
        push_str(out, ")");
    }
    assert(out@ =~= start + spec_counterfactual_text(c.kind, strings_view(c.pv@), motif_views(c.motifs@)));
}

/// What a counterfactual reads as.
pub fn counterfactual_text(c: &Counterfactual) -> (r: String)
    ensures
        r@ == spec_counterfactual_text(c.kind, strings_view(c.pv@), motif_views(c.motifs@)),
{
    let mut out: Vec<char> = Vec::new();
    push_counterfactual(&mut out, c);
    string_from_chars(&out)
}

/// A played move as the report shows it.
#[derive(Debug, Clone, PartialEq, Eq)]
pub struct MoveContext {
    pub san: String,
    pub classification: Classification,
    pub fullmove_number: u32,
    /// "white" or "black": who played the move.
    pub side_to_move: String,
    /// The win-probability line of the move, as the caller writes it.
    pub win_line: String,
    pub played_rank: Option<usize>,
    /// The engine's best move and its score.
    pub best: Option<(String, Score)>,
    /// The opening the move is theory of, or the one it left.
    pub opening: Option<OpeningInfo>,
    pub counterfactual: Option<Counterfactual>,
}

/// One analysed move of the game, in playing order.
#[derive(Debug, Clone, PartialEq, Eq)]
pub struct MoveEntry {
    /// `None` for a position no move led into.
    pub context: Option<MoveContext>,
    /// The written explanation, when one was made.
    pub explanation: Option<String>,
}

/// The value of the first header called `name`, or `dflt`.
pub open spec fn header_value(h: Seq<(String, String)>, name: Seq<char>, dflt: Seq<char>, k: int) -> Seq<char>
    decreases h.len() - k,
{
    if k < 0 || k >= h.len() {
        dflt
    } else if h[k].0@ == name {
        h[k].1@
    } else {
        header_value(h, name, dflt, k + 1)
    }
}

/// The value of the header called `name`, or `dflt` when the game has none.
pub fn header<'a>(headers: &'a Vec<(String, String)>, name: &str, dflt: &'a str) -> (r: &'a str)
    ensures
        r@ == header_value(headers@, name@, dflt@, 0),
{
    let mut k: usize = 0;
    while k < headers.len()
        invariant
            k <= headers@.len(),
            header_value(headers@, name@, dflt@, 0) == header_value(headers@, name@, dflt@, k as int),
        decreases headers.len() - k,
    {
        if crate::text::str_eq(headers[k].0.as_str(), name) {
            return headers[k].1.as_str();
        }
        k += 1;
    }
    dflt
}

/// How many of the first `n` entries were played moves of classification `c`.
pub open spec fn count_class(entries: Seq<MoveEntry>, c: Classification, n: int) -> nat
    decreases n,
{
    if n <= 0 {
        0
    } else {
        count_class(entries, c, n - 1) + if entries[n - 1].context matches Some(x) && x.classification == c { 1nat } else { 0nat }
    }
}

/// The summary table's row of a classification; none when no move has it.
pub open spec fn summary_row(entries: Seq<MoveEntry>, c: Classification) -> Seq<char> {
    let n = count_class(entries, c, entries.len() as int);
    if n > 0 { "| "@ + spec_label(c) + " | "@ + decimal(n) + " |\n"@ } else { seq![] }
}

pub open spec fn summary_rows(entries: Seq<MoveEntry>, k: int) -> Seq<char>
    decreases k,
{
    if k <= 0 { seq![] } else { summary_rows(entries, k - 1) + summary_row(entries, summary_order()[k - 1]) }
}

pub open spec fn plies_text(plies: u32) -> Seq<char> {
    " (matched "@ + decimal(plies as nat) + " plies)"@
}

/// What a book move reads as: its theory, without any numbers.
pub open spec fn book_text(o: Option<OpeningInfo>) -> Seq<char> {
    match o {
        None => "Opening theory.\n\n"@,
        Some(x) => if x.eco@.len() == 0 && x.name@.len() == 0 {
            "Opening theory"@ + plies_text(x.matched_plies) + ".\n\n"@
        } else {
            "Theory: "@ + x.eco@ + " "@ + x.name@ + plies_text(x.matched_plies) + ".\n\n"@
        },
    }
}

pub open spec fn rank_text(r: Option<usize>) -> Seq<char> {
    match r {
        Some(k) => "- Engine rank of the move played: #"@ + decimal((k + 1) as nat) + "\n"@,
        None => "- The move played was outside the engine's top candidates\n"@,
    }
}

pub open spec fn best_text(b: Option<(String, Score)>) -> Seq<char> {
    match b {
        Some((san, score)) => "- Best: **"@ + san@ + "** ("@ + spec_score_text(score) + ")\n"@,
        None => seq![],
    }
}

pub open spec fn left_book_text(o: Option<OpeningInfo>) -> Seq<char> {
    match o {
        Some(x) => "- Left the book here: "@ + x.eco@ + " "@ + x.name@ + plies_text(x.matched_plies) + "\n"@,
        None => seq![],
    }
}

pub open spec fn counterfactual_line_text(c: Option<Counterfactual>) -> Seq<char> {
    match c {
        Some(x) => "- "@ + spec_counterfactual_text(x.kind, strings_view(x.pv@), motif_views(x.motifs@)) + "\n"@,
        None => seq![],
    }
}

/// A line without the carriage return of a `\r\n` ending.
pub open spec fn strip_cr(l: Seq<char>) -> Seq<char> {
    if l.len() > 0 && l.last() == '\r' { l.drop_last() } else { l }
}

pub open spec fn quoted(lines: Seq<Seq<char>>, n: int) -> Seq<char>
    decreases n,
{
    if n <= 0 { seq![] } else { quoted(lines, n - 1) + "> "@ + strip_cr(lines[n - 1]) + "\n"@ }
}

/// An explanation as a block quote, one quoted line per line of the trimmed
/// text, and a blank line after it.
pub open spec fn explanation_text(e: Option<String>) -> Seq<char> {
    match e {
        None => seq![],
        Some(t) => {
            let ls = text_lines(trim(t@));
            quoted(ls, ls.len() as int) + "\n"@
        },
    }
}

/// The section of one move: its heading, then for a book move its theory,
/// otherwise the numbers, the rank, the best move, the opening it left, the
/// counterfactual, and the explanation. Entries without a move are skipped.
pub open spec fn entry_text(e: MoveEntry) -> Seq<char> {
    match e.context {
        None => seq![],
        Some(c) => {
            let heading = "### "@ + spec_move_number(c.fullmove_number, c.side_to_move@) + " "@ + c.san@
                + spec_glyph(c.classification) + " — "@ + spec_label(c.classification) + "\n\n"@;
            if c.classification == Classification::Book {
                heading + book_text(c.opening)
            } else {
                heading + "- "@ + c.win_line@ + "\n"@ + rank_text(c.played_rank) + best_text(c.best)
                    + left_book_text(c.opening) + counterfactual_line_text(c.counterfactual) + "\n"@
                    + explanation_text(e.explanation)
            }
        },
    }
}

pub open spec fn moves_text(entries: Seq<MoveEntry>, n: int) -> Seq<char>
    decreases n,
{
    if n <= 0 { seq![] } else { moves_text(entries, n - 1) + entry_text(entries[n - 1]) }
}

/// The title with the players, the event line, and the summary heading.
pub open spec fn head_text(h: Seq<(String, String)>) -> Seq<char> {
    "# "@ + header_value(h, "White"@, "?"@, 0) + " vs "@ + header_value(h, "Black"@, "?"@, 0) + "\n\n*"@
        + header_value(h, "Event"@, "?"@, 0) + ", "@ + header_value(h, "Date"@, "?"@, 0) + " — "@
        + header_value(h, "Result"@, "*"@, 0) + "*\n\n## Summary\n\n| Classification | Count |\n| --- | ---: |\n"@
}

/// The whole report: title and players, event line, the summary table of
/// classifications, and the moves.
pub open spec fn spec_render(h: Seq<(String, String)>, entries: Seq<MoveEntry>) -> Seq<char> {
    head_text(h) + summary_rows(entries, 9) + "\n## Moves\n\n"@ + moves_text(entries, entries.len() as int)
}

/// A played move's rank can be printed one-based.
pub open spec fn rank_printable(e: MoveEntry) -> bool {
    e.context matches Some(c) ==> (c.played_rank matches Some(r) ==> r < u64::MAX)
}

/// Every played move's rank can be printed one-based.
pub open spec fn ranks_printable(entries: Seq<MoveEntry>) -> bool {
    forall|i: int| 0 <= i < entries.len() ==> rank_printable(#[trigger] entries[i])
}

fn push_plies(out: &mut Vec<char>, plies: u32)
    ensures
        final(out)@ == old(out)@ + plies_text(plies),
{
    push_str(out, " (matched ");
    push_decimal(out, plies as u64);
    push_str(out, " plies)");
}

fn push_explanation(out: &mut Vec<char>, e: &Option<String>)
    ensures
        final(out)@ == old(out)@ + explanation_text(*e),
{
    match e {
        None => {},
        Some(t) => {
            let trimmed = trim_str(t.as_str());
            let ls = lines_of(trimmed.as_str());
            let ghost rows = char_rows(ls@);
            let ghost start = out@;
            let mut i: usize = 0;
            while i < ls.len()
                invariant
                    i <= ls@.len(),
                    rows == char_rows(ls@),
                    out@ == start + quoted(rows, i as int),
                decreases ls.len() - i,
            {
                let ghost q = out@;
                push_str(out, "> ");
                let line = &ls[i];
                assert(rows[i as int] == line@);
                let n = line.len();
                let keep = if n > 0 && line[n - 1] == '\r' { n - 1 } else { n };
                let ghost mid = out@;
                let mut k: usize = 0;
                while k < keep
                    invariant
                        keep <= line@.len(),
                        k <= keep,
                        out@ == mid + line@.take(k as int),
                    decreases keep - k,
                {
                    out.push(line[k]);
                    assert(line@.take(k as int + 1) =~= line@.take(k as int).push(line@[k as int]));
                    k += 1;
                }
                assert(line@.take(keep as int) =~= strip_cr(rows[i as int]));
                push_str(out, "\n");
                assert(out@ =~= q + "> "@ + strip_cr(rows[i as int]) + "\n"@);
                assert(out@ =~= start + quoted(rows, i as int + 1));
                i += 1;
            }
            push_str(out, "\n");
        },
    }
}

pub open spec fn heading_text(c: MoveContext) -> Seq<char> {
    "### "@ + spec_move_number(c.fullmove_number, c.side_to_move@) + " "@ + c.san@ + spec_glyph(c.classification)
        + " — "@ + spec_label(c.classification) + "\n\n"@
}

pub open spec fn details_text(c: MoveContext) -> Seq<char> {
    "- "@ + c.win_line@ + "\n"@ + rank_text(c.played_rank) + best_text(c.best) + left_book_text(c.opening)
        + counterfactual_line_text(c.counterfactual) + "\n"@
}

fn push_heading(out: &mut Vec<char>, c: &MoveContext)
    ensures
        final(out)@ == old(out)@ + heading_text(*c),
{
    let ghost start = out@;
    push_str(out, "### ");
    let n = move_number(c.fullmove_number, c.side_to_move.as_str());
    push_str(out, n.as_str());
    push_str(out, " ");
    push_str(out, c.san.as_str());
    push_str(out, c.classification.glyph());
    push_str(out, " — ");
    push_str(out, label(c.classification));
    push_str(out, "\n\n");
    assert(out@ =~= start + heading_text(*c));
}

fn push_book(out: &mut Vec<char>, opening: &Option<OpeningInfo>)
    ensures
        final(out)@ == old(out)@ + book_text(*opening),
{
    let ghost start = out@;
    match opening {
        None => push_str(out, "Opening theory.\n\n"),
        Some(o) => {
            if o.eco.unicode_len() == 0 && o.name.unicode_len() == 0 {
                push_str(out, "Opening theory");
            } else {
                push_str(out, "Theory: ");
                push_str(out, o.eco.as_str());
                push_str(out, " ");
                push_str(out, o.name.as_str());
            }
            push_plies(out, o.matched_plies);
            push_str(out, ".\n\n");
        },
    }
    assert(out@ =~= start + book_text(*opening));
}

fn push_rank(out: &mut Vec<char>, rank: Option<usize>)
    requires
        rank matches Some(r) ==> r < u64::MAX,
    ensures
        final(out)@ == old(out)@ + rank_text(rank),
{
    let ghost start = out@;
    match rank {
        Some(r) => {
            push_str(out, "- Engine rank of the move played: #");
            push_decimal(out, r as u64 + 1);
            push_str(out, "\n");
        },
        None => push_str(out, "- The move played was outside the engine's top candidates\n"),
    }
    assert(out@ =~= start + rank_text(rank));
}

fn push_best(out: &mut Vec<char>, best: &Option<(String, Score)>)
    ensures
        final(out)@ == old(out)@ + best_text(*best),
{
    let ghost start = out@;
    match best {
        Some((san, score)) => {
            push_str(out, "- Best: **");
            push_str(out, san.as_str());
            push_str(out, "** (");
            push_score(out, *score);
            push_str(out, ")\n");
        },
        None => {},
    }
    assert(out@ =~= start + best_text(*best));
}

fn push_left_book(out: &mut Vec<char>, opening: &Option<OpeningInfo>)
    ensures
        final(out)@ == old(out)@ + left_book_text(*opening),
{
    let ghost start = out@;
    match opening {
        Some(o) => {
            push_str(out, "- Left the book here: ");
            push_str(out, o.eco.as_str());
            push_str(out, " ");
            push_str(out, o.name.as_str());
            push_plies(out, o.matched_plies);
            push_str(out, "\n");
        },
        None => {},
    }
    assert(out@ =~= start + left_book_text(*opening));
}

fn push_counterfactual_line(out: &mut Vec<char>, c: &Option<Counterfactual>)
    ensures
        final(out)@ == old(out)@ + counterfactual_line_text(*c),
{
    let ghost start = out@;
    match c {
        Some(x) => {
            push_str(out, "- ");
            push_counterfactual(out, x);
            push_str(out, "\n");
        },
        None => {},
    }
    assert(out@ =~= start + counterfactual_line_text(*c));
}

fn push_details(out: &mut Vec<char>, c: &MoveContext)
    requires
        c.played_rank matches Some(r) ==> r < u64::MAX,
    ensures
        final(out)@ == old(out)@ + details_text(*c),
{
    let ghost start = out@;
    push_str(out, "- ");
    push_str(out, c.win_line.as_str());
    push_str(out, "\n");
    let ghost s1 = out@;
    push_rank(out, c.played_rank);
    let ghost s2 = out@;
    push_best(out, &c.best);
    let ghost s3 = out@;
    push_left_book(out, &c.opening);
    let ghost s4 = out@;
    push_counterfactual_line(out, &c.counterfactual);
    let ghost s5 = out@;
    push_str(out, "\n");
    proof {
        let w = "- "@ + c.win_line@ + "\n"@;
        let r = rank_text(c.played_rank);
        let b = best_text(c.best);
        let l = left_book_text(c.opening);
        let f = counterfactual_line_text(c.counterfactual);
        assert(s1 =~= start + w);
        assert(s2 == s1 + r);
        assert(s3 == s2 + b);
        assert(s4 == s3 + l);
        assert(s5 == s4 + f);
        assert(details_text(*c) == w + r + b + l + f + "\n"@);
        assert(out@ =~= start + (w + r + b + l + f + "\n"@));
    }
}

#[verifier::spinoff_prover]
fn push_entry(out: &mut Vec<char>, e: &MoveEntry)
    requires
        rank_printable(*e),
    ensures
        final(out)@ == old(out)@ + entry_text(*e),
{
    let ghost start = out@;
    match &e.context {
        None => {
            assert(out@ =~= start + entry_text(*e));
        },
        Some(c) => {
            push_heading(out, c);
            let ghost h = out@;
            if c.classification == Classification::Book {
                push_book(out, &c.opening);
                proof {
                    assert(entry_text(*e) == heading_text(*c) + book_text(c.opening));
                    assert(out@ =~= start + (heading_text(*c) + book_text(c.opening)));
                }
            } else {
                push_details(out, c);
                let ghost d = out@;
                push_explanation(out, &e.explanation);
                proof {
                    assert(entry_text(*e) == heading_text(*c) + details_text(*c) + explanation_text(e.explanation));
                    assert(out@ =~= start + (heading_text(*c) + details_text(*c) + explanation_text(e.explanation)));
                }
            }
        },
    }
}

/// Render a game's analysis as Markdown.
pub fn render(headers: &Vec<(String, String)>, entries: &Vec<MoveEntry>) -> (r: String)
    requires
        ranks_printable(entries@),
    ensures
        r@ == spec_render(headers@, entries@),
{
    let mut out: Vec<char> = Vec::new();
    push_str(&mut out, "# ");
    push_str(&mut out, header(headers, "White", "?"));
    push_str(&mut out, " vs ");
    push_str(&mut out, header(headers, "Black", "?"));
    push_str(&mut out, "\n\n*");
    push_str(&mut out, header(headers, "Event", "?"));
    push_str(&mut out, ", ");
    push_str(&mut out, header(headers, "Date", "?"));
    push_str(&mut out, " — ");
    push_str(&mut out, header(headers, "Result", "*"));
    push_str(&mut out, "*\n\n## Summary\n\n| Classification | Count |\n| --- | ---: |\n");
    let ghost head = out@;
    assert(head =~= head_text(headers@));
    let mut k: usize = 0;
    while k < 9
        invariant
            k <= 9,
            out@ == head + summary_rows(entries@, k as int),
        decreases 9 - k,
    {
        let c = summary_class(k);
        let mut n: usize = 0;
        let mut i: usize = 0;
        while i < entries.len()
            invariant
                i <= entries@.len(),
                n == count_class(entries@, c, i as int),
                n <= i,
            decreases entries.len() - i,
        {
            match &entries[i].context {
                Some(x) => {
                    if x.classification == c {
                        n += 1;
                    }
                },
                None => {},
            }
            i += 1;
        }
        let ghost before = out@;
        if n > 0 {
            push_str(&mut out, "| ");
            push_str(&mut out, label(c));
            push_str(&mut out, " | ");
            push_decimal(&mut out, n as u64);
            push_str(&mut out, " |\n");
        }
        assert(out@ =~= before + summary_row(entries@, c));
        k += 1;
    }
    push_str(&mut out, "\n## Moves\n\n");
    let ghost body = out@;
    assert(body =~= head_text(headers@) + summary_rows(entries@, 9) + "\n## Moves\n\n"@);
    let mut i: usize = 0;
    while i < entries.len()
        invariant
            i <= entries@.len(),
            ranks_printable(entries@),
            out@ == body + moves_text(entries@, i as int),
        decreases entries.len() - i,
    {
        assert(rank_printable(entries@[i as int]));
        push_entry(&mut out, &entries[i]);
        i += 1;
    }
    let r = string_from_chars(&out);
    assert(r@ =~= spec_render(headers@, entries@));
    r
}

} // verus!

//! JSON values written out with object members in key order, so that the
//! text of a value does not depend on the order its maps were filled in,
//! compactly for a digest and indented for a prompt.

use vstd::prelude::*;
use crate::text::{lex_lt, push_str, str_lt, string_from_chars};
use crate::lang::{spec_code, Language};
use sha2::{Digest, Sha256};

verus! {

/// A JSON value. Numbers keep the text they were written with.
#[derive(Debug)]
pub enum Json {
    Null,
    Bool(bool),
    Number(String),
    Str(String),
    Array(Vec<Json>),
    Object(Vec<(String, Json)>),
}

/// The index of the first member called `key`, from `k` on.
pub open spec fn first_member(v: Seq<(String, Json)>, key: Seq<char>, k: int) -> Option<int>
    decreases v.len() - k,
{
    if k < 0 || k >= v.len() {
        None
    } else if v[k].0@ == key {
        Some(k)
    } else {
        first_member(v, key, k + 1)
    }
}

impl Json {
    /// The value of an object's first member called `key`; none for a
    /// missing member or a value that is not an object.
    pub fn get(&self, key: &str) -> (r: Option<&Json>)
        ensures
            match *self {
                Json::Object(v) => match first_member(v@, key@, 0) {
                    Some(i) => r == Some(&v@[i].1),
                    None => r is None,
                },
                _ => r is None,
            },
    {
        match self {
            Json::Object(v) => {
                let mut k: usize = 0;
                while k < v.len()
                    invariant
                        *self == Json::Object(*v),
                        k <= v@.len(),
                        first_member(v@, key@, 0) == first_member(v@, key@, k as int),
                    decreases v.len() - k,
                {
                    if crate::text::str_eq(v[k].0.as_str(), key) {
                        return Some(&v[k].1);
                    }
                    k += 1;
                }
                None
            },
            _ => None,
        }
    }

    /// The text of a string value.
    pub fn as_str(&self) -> (r: Option<&str>)
        ensures
            match *self {
                Json::Str(s) => r matches Some(x) && x@ == s@,
                _ => r is None,
            },
    {
        match self {
            Json::Str(s) => Some(s.as_str()),
            _ => None,
        }
    }
}

pub open spec fn hex_lower(d: int) -> char {
    if d == 0 { '0' } else if d == 1 { '1' } else if d == 2 { '2' } else if d == 3 { '3' }
    else if d == 4 { '4' } else if d == 5 { '5' } else if d == 6 { '6' } else if d == 7 { '7' }
    else if d == 8 { '8' } else if d == 9 { '9' } else if d == 10 { 'a' } else if d == 11 { 'b' }
    else if d == 12 { 'c' } else if d == 13 { 'd' } else if d == 14 { 'e' } else { 'f' }
}

/// A character inside a JSON string: quote and backslash escaped, the
/// control characters as their short escapes or `\u00xx`.
pub open spec fn escape_json(c: char) -> Seq<char> {
    let n = c as u32;
    if c == '"' {
        seq!['\\', '"']
    } else if c == '\\' {
        seq!['\\', '\\']
    } else if n == 8 {
        seq!['\\', 'b']
    } else if n == 9 {
        seq!['\\', 't']
    } else if n == 10 {
        seq!['\\', 'n']
    } else if n == 12 {
        seq!['\\', 'f']
    } else if n == 13 {
        seq!['\\', 'r']
    } else if n < 32 {
        seq!['\\', 'u', '0', '0', hex_lower(n as int / 16), hex_lower(n as int % 16)]
    } else {
        seq![c]
    }
}

pub open spec fn escaped(s: Seq<char>) -> Seq<char>
    decreases s.len(),
{
    if s.len() == 0 { seq![] } else { escaped(s.drop_last()) + escape_json(s.last()) }
}

/// A string literal.
pub open spec fn quoted(s: Seq<char>) -> Seq<char> {
    seq!['"'] + escaped(s) + seq!['"']
}

/// The position in `idx[..n]` of the member with the smallest key, the
/// first one on ties.
pub open spec fn argmin(v: Seq<(String, Json)>, idx: Seq<int>, n: int) -> int
    decreases n,
{
    if n <= 1 {
        0
    } else {
        let m = argmin(v, idx, n - 1);
        if lex_lt(v[idx[n - 1]].0@, v[idx[m]].0@) { n - 1 } else { m }
    }
}

/// The members `idx` in key order (selection of the smallest, repeatedly).
pub open spec fn sort_indices(v: Seq<(String, Json)>, idx: Seq<int>) -> Seq<int>
    decreases idx.len(),
{
    if idx.len() == 0 {
        seq![]
    } else {
        let m = argmin(v, idx, idx.len() as int);
        if 0 <= m < idx.len() { seq![idx[m]] + sort_indices(v, idx.remove(m)) } else { seq![] }
    }
}

pub open spec fn all_indices(n: int) -> Seq<int> {
    Seq::new(n as nat, |i: int| i)
}

/// The order an object's members are written in: by key.
pub open spec fn key_order(v: Seq<(String, Json)>) -> Seq<int> {
    sort_indices(v, all_indices(v.len() as int))
}

/// The text of a value: compact, or indented by two spaces per level with
/// `ind` the indentation of the line it starts on.
pub open spec fn json_text(j: Json, pretty: bool, ind: Seq<char>) -> Seq<char>
    decreases j, 0int, 0int,
{
    match j {
        Json::Null => "null"@,
        Json::Bool(b) => if b { "true"@ } else { "false"@ },
        Json::Number(n) => n@,
        Json::Str(s) => quoted(s@),
        Json::Array(v) => if v@.len() == 0 {
            "[]"@
        } else if pretty {
            "[\n"@ + items_text(v@, v@.len() as int, true, ind + "  "@) + "\n"@ + ind + "]"@
        } else {
            "["@ + items_text(v@, v@.len() as int, false, ind) + "]"@
        },
        Json::Object(v) => if v@.len() == 0 {
            "{}"@
        } else if pretty {
            "{\n"@ + members_text(v@, key_order(v@), v@.len() as int, true, ind + "  "@) + "\n"@ + ind + "}"@
        } else {
            "{"@ + members_text(v@, key_order(v@), v@.len() as int, false, ind) + "}"@
        },
    }
}

/// The first `n` items of an array, separated by commas (and line breaks).
pub open spec fn items_text(s: Seq<Json>, n: int, pretty: bool, ind: Seq<char>) -> Seq<char>
    decreases s, n, 0int,
{
    if n <= 0 || n > s.len() {
        seq![]
    } else {
        let item = (if pretty { ind } else { seq![] }) + json_text(s[n - 1], pretty, ind);
        if n == 1 { item } else { items_text(s, n - 1, pretty, ind) + (if pretty { ",\n"@ } else { ","@ }) + item }
    }
}

/// The members `ord[..n]` of an object, each as its key, a colon and its
/// value.
pub open spec fn members_text(v: Seq<(String, Json)>, ord: Seq<int>, n: int, pretty: bool, ind: Seq<char>) -> Seq<char>
    decreases v, n, 0int,
{
    if n <= 0 || n > ord.len() || !(0 <= ord[n - 1] < v.len()) {
        seq![]
    } else {
        let k = ord[n - 1];
        let member = (if pretty { ind } else { seq![] }) + quoted(v[k].0@) + (if pretty { ": "@ } else { ":"@ })
            + json_text(v[k].1, pretty, ind);
        if n == 1 {
            member
        } else {
            members_text(v, ord, n - 1, pretty, ind) + (if pretty { ",\n"@ } else { ","@ }) + member
        }
    }
}

fn hex_char_of(d: u32) -> (c: char)
    requires
        d < 16,
    ensures
        c == hex_lower(d as int),
{
    if d == 0 { '0' } else if d == 1 { '1' } else if d == 2 { '2' } else if d == 3 { '3' }
    else if d == 4 { '4' } else if d == 5 { '5' } else if d == 6 { '6' } else if d == 7 { '7' }
    else if d == 8 { '8' } else if d == 9 { '9' } else if d == 10 { 'a' } else if d == 11 { 'b' }
    else if d == 12 { 'c' } else if d == 13 { 'd' } else if d == 14 { 'e' } else { 'f' }
}

fn push_escaped_json(out: &mut Vec<char>, s: &str)
    ensures
        final(out)@ == old(out)@ + escaped(s@),
{
    let cs = crate::text::chars_of(s);
    let ghost start = out@;
    let mut i: usize = 0;
    while i < cs.len()
        invariant
            i <= cs@.len(),
            cs@ == s@,
            out@ == start + escaped(cs@.take(i as int)),
        decreases cs.len() - i,
    {
        let c = cs[i];
        let n = c as u32;
        let ghost before = out@;
        if c == '"' {
            out.push('\\');
            out.push('"');
        } else if c == '\\' {
            out.push('\\');
            out.push('\\');
        } else if n == 8 {
            out.push('\\');
            out.push('b');
        } else if n == 9 {
            out.push('\\');
            out.push('t');
        } else if n == 10 {
            out.push('\\');
            out.push('n');
        } else if n == 12 {
            out.push('\\');
            out.push('f');
        } else if n == 13 {
            out.push('\\');
            out.push('r');
        } else if n < 32 {
            out.push('\\');
            out.push('u');
            out.push('0');
            out.push('0');
            out.push(hex_char_of(n / 16));
            out.push(hex_char_of(n % 16));
        } else {
            out.push(c);
        }
        assert(out@ =~= before + escape_json(c));
        assert(cs@.take(i as int + 1).drop_last() =~= cs@.take(i as int));
        assert(cs@.take(i as int + 1).last() == c);
        i += 1;
    }
    assert(cs@.take(cs@.len() as int) =~= cs@);
}

fn push_quoted(out: &mut Vec<char>, s: &str)
    ensures
        final(out)@ == old(out)@ + quoted(s@),
{
    let ghost start = out@;
    out.push('"');
    push_escaped_json(out, s);
    out.push('"');
    assert(out@ =~= start + quoted(s@));
}

proof fn lemma_argmin_in_range(v: Seq<(String, Json)>, idx: Seq<int>, n: int)
    requires
        n >= 1,
    ensures
        0 <= argmin(v, idx, n) < n,
    decreases n,
{
    if n > 1 {
        lemma_argmin_in_range(v, idx, n - 1);
    }
}

pub open spec fn as_ints(v: Seq<usize>) -> Seq<int> {
    v.map_values(|x: usize| x as int)
}

/// The order an object's members are written in.
fn key_order_of(v: &Vec<(String, Json)>) -> (r: Vec<usize>)
    ensures
        as_ints(r@) == key_order(v@),
        forall|i: int| 0 <= i < r@.len() ==> #[trigger] r@[i] < v@.len(),
{
    let mut idx: Vec<usize> = Vec::new();
    let mut k: usize = 0;
    while k < v.len()
        invariant
            k <= v@.len(),
            as_ints(idx@) == all_indices(k as int),
            forall|i: int| 0 <= i < idx@.len() ==> #[trigger] idx@[i] < v@.len(),
        decreases v.len() - k,
    {
        let ghost before = idx@;
        idx.push(k);
        assert(idx@ == before.push(k));
        assert(as_ints(idx@) =~= as_ints(before).push(k as int));
        assert(as_ints(idx@) =~= all_indices(k as int + 1));
        k += 1;
    }
    let mut out: Vec<usize> = Vec::new();
    assert(as_ints(out@) + sort_indices(v@, as_ints(idx@)) =~= key_order(v@));
    while idx.len() > 0
        invariant
            as_ints(out@) + sort_indices(v@, as_ints(idx@)) == key_order(v@),
            forall|i: int| 0 <= i < idx@.len() ==> #[trigger] idx@[i] < v@.len(),
            forall|i: int| 0 <= i < out@.len() ==> #[trigger] out@[i] < v@.len(),
        decreases idx.len(),
    {
        let ghost iv = as_ints(idx@);
        let mut m: usize = 0;
        let mut i: usize = 1;
        while i < idx.len()
            invariant
                1 <= i <= idx@.len(),
                iv == as_ints(idx@),
                forall|j: int| 0 <= j < idx@.len() ==> #[trigger] idx@[j] < v@.len(),
                m as int == argmin(v@, iv, i as int),
                m < i,
            decreases idx.len() - i,
        {
            if str_lt(v[idx[i]].0.as_str(), v[idx[m]].0.as_str()) {
                m = i;
            }
            i += 1;
        }
        proof {
            lemma_argmin_in_range(v@, iv, iv.len() as int);
        }
        let pick = idx.remove(m);
        let ghost before = as_ints(out@);
        out.push(pick);
        assert(as_ints(out@) =~= before.push(pick as int));
        assert(as_ints(idx@) =~= iv.remove(m as int));
        assert(sort_indices(v@, iv) == seq![iv[m as int]] + sort_indices(v@, iv.remove(m as int)));
        assert(as_ints(out@) + sort_indices(v@, as_ints(idx@)) =~= before + sort_indices(v@, iv));
    }
    assert(sort_indices(v@, as_ints(idx@)) =~= Seq::<int>::empty());
    assert(as_ints(out@) =~= key_order(v@));
    out
}

fn push_chars(out: &mut Vec<char>, s: &Vec<char>)
    ensures
        final(out)@ == old(out)@ + s@,
{
    crate::text::push_all(out, s);
}

/// Write a value: compact, or indented with `ind` the indentation of the
/// line it starts on.
pub fn write_json(j: &Json, pretty: bool, ind: &Vec<char>, out: &mut Vec<char>)
    ensures
        final(out)@ == old(out)@ + json_text(*j, pretty, ind@),
    decreases j,
{
    let ghost start = out@;
    match j {
        Json::Null => push_str(out, "null"),
        Json::Bool(b) => if *b {
            push_str(out, "true")
        } else {
            push_str(out, "false")
        },
        Json::Number(n) => push_str(out, n.as_str()),
        Json::Str(s) => push_quoted(out, s.as_str()),
        Json::Array(v) => {
            if v.len() == 0 {
                push_str(out, "[]");
                return;
            }
            let mut inner: Vec<char> = Vec::new();
            push_chars(&mut inner, ind);
            if pretty {
                push_str(&mut inner, "  ");
                push_str(out, "[\n");
            } else {
                push_str(out, "[");
            }
            let ghost head = out@;
            let mut i: usize = 0;
            while i < v.len()
                invariant
                    *j == Json::Array(*v),
                    i <= v@.len(),
                    inner@ == (if pretty { ind@ + "  "@ } else { ind@ }),
                    out@ == head + items_text(v@, i as int, pretty, inner@),
                decreases v.len() - i,
            {
                let ghost before = out@;
                if i > 0 {
                    if pretty {
                        push_str(out, ",\n");
                    } else {
                        push_str(out, ",");
                    }
                }
                if pretty {
                    push_chars(out, &inner);
                }
                proof {
                    assert(decreases_to!(*j => (*j)->Array_0));
                    assert((*j)->Array_0 == *v);
                    assert(decreases_to!(*v => v@));
                    assert(decreases_to!(v@ => v@[i as int]));
                }
                write_json(&v[i], pretty, &inner, out);
                assert(out@ =~= head + items_text(v@, i as int + 1, pretty, inner@));
                i += 1;
            }
            if pretty {
                push_str(out, "\n");
                push_chars(out, ind);
                push_str(out, "]");
            } else {
                push_str(out, "]");
            }
            assert(out@ =~= start + json_text(*j, pretty, ind@));
        },
        Json::Object(v) => {
            if v.len() == 0 {
                push_str(out, "{}");
                return;
            }
            let order = key_order_of(v);
            let ghost ord = as_ints(order@);
            let mut inner: Vec<char> = Vec::new();
            push_chars(&mut inner, ind);
            if pretty {
                push_str(&mut inner, "  ");
                push_str(out, "{\n");
            } else {
                push_str(out, "{");
            }
            let ghost head = out@;
            let mut i: usize = 0;
            while i < order.len()
                invariant
                    *j == Json::Object(*v),
                    i <= order@.len(),
                    ord == as_ints(order@),
                    ord == key_order(v@),
                    forall|q: int| 0 <= q < order@.len() ==> #[trigger] order@[q] < v@.len(),
                    inner@ == (if pretty { ind@ + "  "@ } else { ind@ }),
                    out@ == head + members_text(v@, ord, i as int, pretty, inner@),
                decreases order.len() - i,
            {
                let k = order[i];
                assert(ord[i as int] == k as int);
                if i > 0 {
                    if pretty {
                        push_str(out, ",\n");
                    } else {
                        push_str(out, ",");
                    }
                }
                if pretty {
                    push_chars(out, &inner);
                }
                push_quoted(out, v[k].0.as_str());
                if pretty {
                    push_str(out, ": ");
                } else {
                    push_str(out, ":");
                }
                proof {
                    assert(decreases_to!(*j => (*j)->Object_0));
                    assert((*j)->Object_0 == *v);
                    assert(decreases_to!(*v => v@));
                    assert(decreases_to!(v@ => v@[k as int]));
                    assert(decreases_to!(v@[k as int] => v@[k as int].1));
                }
                write_json(&v[k].1, pretty, &inner, out);
                assert(out@ =~= head + members_text(v@, ord, i as int + 1, pretty, inner@));
                i += 1;
            }
            proof {
                crate::json::lemma_order_len(v@);
            }
            if pretty {
                push_str(out, "\n");
                push_chars(out, ind);
                push_str(out, "}");
            } else {
                push_str(out, "}");
            }
            assert(out@ =~= start + json_text(*j, pretty, ind@));
        },
    }
}

proof fn lemma_sort_len(v: Seq<(String, Json)>, idx: Seq<int>)
    ensures
        sort_indices(v, idx).len() == idx.len(),
    decreases idx.len(),
{
    if idx.len() > 0 {
        lemma_argmin_in_range(v, idx, idx.len() as int);
        let m = argmin(v, idx, idx.len() as int);
        lemma_sort_len(v, idx.remove(m));
    }
}

proof fn lemma_order_len(v: Seq<(String, Json)>)
    ensures
        key_order(v).len() == v.len(),
{
    lemma_sort_len(v, all_indices(v.len() as int));
}

/// The SHA-256 digest of a text's UTF-8 bytes.
pub uninterp spec fn sha256_of(text: Seq<char>) -> Seq<u8>;

/// `Sha256::digest` over the UTF-8 bytes of `text`. The contract names the
/// result and states its length: 32 bytes, the output size `sha2` declares
/// for SHA-256.
#[verifier::external_body]
fn sha256(text: &str) -> (r: Vec<u8>)
    ensures
        r@ == sha256_of(text@),
        r@.len() == 32,
{
    Sha256::digest(text.as_bytes()).to_vec()
}

/// Bytes as lower-case hexadecimal, two digits each.
pub open spec fn hex_text(bs: Seq<u8>) -> Seq<char>
    decreases bs.len(),
{
    if bs.len() == 0 {
        seq![]
    } else {
        hex_text(bs.drop_last()) + seq![hex_lower(bs.last() as int / 16), hex_lower(bs.last() as int % 16)]
    }
}

fn push_hex(out: &mut Vec<char>, bs: &Vec<u8>)
    ensures
        final(out)@ == old(out)@ + hex_text(bs@),
{
    let ghost start = out@;
    let mut i: usize = 0;
    while i < bs.len()
        invariant
            i <= bs@.len(),
            out@ == start + hex_text(bs@.take(i as int)),
        decreases bs.len() - i,
    {
        let b = bs[i];
        out.push(hex_char_of((b / 16) as u32));
        out.push(hex_char_of((b % 16) as u32));
        assert(bs@.take(i as int + 1).drop_last() =~= bs@.take(i as int));
        assert(out@ =~= start + hex_text(bs@.take(i as int + 1)));
        i += 1;
    }
    assert(bs@.take(bs@.len() as int) =~= bs@);
}

/// The compact text of a value with its object members in key order.
pub open spec fn canonical_text(j: Json) -> Seq<char> {
    json_text(j, false, seq![])
}

/// The indented text of a value with its object members in key order, as
/// the analysis is shown to the explanation writer.
pub fn pretty_context(value: &Json) -> (r: String)
    ensures
        r@ == json_text(*value, true, seq![]),
{
    let mut out: Vec<char> = Vec::new();
    let ind: Vec<char> = Vec::new();
    write_json(value, true, &ind, &mut out);
    string_from_chars(&out)
}

/// The compact text of a value with its object members in key order.
pub fn canonical(value: &Json) -> (r: String)
    ensures
        r@ == canonical_text(*value),
{
    let mut out: Vec<char> = Vec::new();
    let ind: Vec<char> = Vec::new();
    write_json(value, false, &ind, &mut out);
    string_from_chars(&out)
}

/// SHA-256 over the key-ordered compact text, in hexadecimal: the same for
/// two values that differ only in the order their maps were filled in.
pub fn stable_digest(value: &Json) -> (r: String)
    ensures
        r@ == hex_text(sha256_of(canonical_text(*value))),
        r@.len() == 64,
{
    let text = canonical(value);
    let digest = sha256(text.as_str());
    let mut out: Vec<char> = Vec::new();
    push_hex(&mut out, &digest);
    proof {
        lemma_hex_len(digest@);
    }
    string_from_chars(&out)
}

proof fn lemma_hex_len(bs: Seq<u8>)
    ensures
        hex_text(bs).len() == 2 * bs.len(),
    decreases bs.len(),
{
    if bs.len() > 0 {
        lemma_hex_len(bs.drop_last());
    }
}

/// Bumped when the prompt changes in a way that makes cached explanations
/// stale.
pub const PROMPT_VERSION: u32 = 1;

/// The value a cached explanation is keyed on: the analysis, the language,
/// the model and the prompt version, in key order.
pub open spec fn hash_payload(context: Json, model: Seq<char>, lang: Language) -> Seq<char> {
    "{"@ + quoted("context"@) + ":"@ + canonical_text(context) + ","@ + quoted("lang"@) + ":"@ + quoted(spec_code(lang))
        + ","@ + quoted("model"@) + ":"@ + quoted(model) + ","@ + quoted("prompt_version"@) + ":"@ + "1"@ + "}"@
}

/// Keys in strictly ascending order along `idx[..n]`.
pub open spec fn keys_ascending(v: Seq<(String, Json)>, idx: Seq<int>, n: int) -> bool {
    forall|a: int, b: int| 0 <= a < b < n ==> lex_lt(#[trigger] v[idx[a]].0@, #[trigger] v[idx[b]].0@)
}

proof fn lemma_argmin_first(v: Seq<(String, Json)>, idx: Seq<int>, n: int)
    requires
        1 <= n,
        keys_ascending(v, idx, n),
    ensures
        argmin(v, idx, n) == 0,
    decreases n,
{
    if n > 1 {
        lemma_argmin_first(v, idx, n - 1);
        assert(lex_lt(v[idx[0]].0@, v[idx[n - 1]].0@));
        if lex_lt(v[idx[n - 1]].0@, v[idx[0]].0@) {
            crate::text::lemma_lex_transitive(v[idx[0]].0@, v[idx[n - 1]].0@, v[idx[0]].0@);
            crate::text::lemma_lex_irreflexive(v[idx[0]].0@);
        }
    }
}

/// Members already in key order keep their order.
proof fn lemma_sort_ascending(v: Seq<(String, Json)>, idx: Seq<int>)
    requires
        keys_ascending(v, idx, idx.len() as int),
    ensures
        sort_indices(v, idx) == idx,
    decreases idx.len(),
{
    if idx.len() > 0 {
        lemma_argmin_first(v, idx, idx.len() as int);
        let rest = idx.remove(0);
        assert(rest =~= idx.drop_first());
        assert forall|a: int, b: int| 0 <= a < b < rest.len() implies lex_lt(#[trigger] v[rest[a]].0@, #[trigger] v[rest[b]].0@) by {
            assert(rest[a] == idx[a + 1] && rest[b] == idx[b + 1]);
        }
        lemma_sort_ascending(v, rest);
        assert(seq![idx[0]] + rest =~= idx);
    }
}

/// No two members share a key.
pub open spec fn distinct_keys(v: Seq<(String, Json)>) -> bool {
    forall|i: int, j: int| 0 <= i < j < v.len() ==> #[trigger] v[i].0@ != #[trigger] v[j].0@
}

/// Positions into `v`, none twice.
spec fn good_indices(v: Seq<(String, Json)>, idx: Seq<int>) -> bool {
    &&& forall|a: int| 0 <= a < idx.len() ==> 0 <= #[trigger] idx[a] < v.len()
    &&& forall|a: int, b: int| 0 <= a < b < idx.len() ==> #[trigger] idx[a] != #[trigger] idx[b]
}

proof fn lemma_argmin_least(v: Seq<(String, Json)>, idx: Seq<int>, n: int)
    requires
        1 <= n <= idx.len(),
    ensures
        forall|k: int| 0 <= k < n ==> !lex_lt(#[trigger] v[idx[k]].0@, v[idx[argmin(v, idx, n)]].0@),
    decreases n,
{
    crate::text::lemma_lex_irreflexive(v[idx[n - 1]].0@);
    if n > 1 {
        lemma_argmin_least(v, idx, n - 1);
        lemma_argmin_in_range(v, idx, n - 1);
        let m = argmin(v, idx, n - 1);
        if lex_lt(v[idx[n - 1]].0@, v[idx[m]].0@) {
            assert forall|k: int| 0 <= k < n implies !lex_lt(#[trigger] v[idx[k]].0@, v[idx[n - 1]].0@) by {
                if k < n - 1 && lex_lt(v[idx[k]].0@, v[idx[n - 1]].0@) {
                    crate::text::lemma_lex_transitive(v[idx[k]].0@, v[idx[n - 1]].0@, v[idx[m]].0@);
                }
            }
        }
    }
}

/// Sorting keeps exactly the positions it was given, and puts them in
/// strictly ascending key order when the keys are distinct.
proof fn lemma_sort_indices(v: Seq<(String, Json)>, idx: Seq<int>)
    requires
        distinct_keys(v),
        good_indices(v, idx),
    ensures
        sort_indices(v, idx).len() == idx.len(),
        forall|i: int| 0 <= i < idx.len() ==> idx.contains(#[trigger] sort_indices(v, idx)[i]),
        forall|j: int| 0 <= j < idx.len() ==> sort_indices(v, idx).contains(#[trigger] idx[j]),
        forall|i: int, j: int| 0 <= i < j < idx.len() ==> lex_lt(
            #[trigger] v[sort_indices(v, idx)[i]].0@,
            #[trigger] v[sort_indices(v, idx)[j]].0@,
        ),
    decreases idx.len(),
{
    lemma_sort_len(v, idx);
    if idx.len() > 0 {
        let n = idx.len() as int;
        lemma_argmin_in_range(v, idx, n);
        lemma_argmin_least(v, idx, n);
        let m = argmin(v, idx, n);
        let rest = idx.remove(m);
        assert forall|a: int, b: int| 0 <= a < b < rest.len() implies #[trigger] rest[a] != #[trigger] rest[b] by {
            let a2 = if a < m { a } else { a + 1 };
            let b2 = if b < m { b } else { b + 1 };
            assert(rest[a] == idx[a2] && rest[b] == idx[b2]);
        }
        assert forall|a: int| 0 <= a < rest.len() implies 0 <= #[trigger] rest[a] < v.len() by {
            let a2 = if a < m { a } else { a + 1 };
            assert(rest[a] == idx[a2]);
        }
        lemma_sort_indices(v, rest);
        let t = sort_indices(v, rest);
        let r = sort_indices(v, idx);
        assert(r == seq![idx[m]] + t);
        // Every other position has a greater key than the chosen one.
        assert forall|k: int| 0 <= k < n && k != m implies lex_lt(v[idx[m]].0@, #[trigger] v[idx[k]].0@) by {
            assert(idx[k] != idx[m]);
            if k < m {
                assert(v[idx[k]].0@ != v[idx[m]].0@);
            } else {
                assert(v[idx[m]].0@ != v[idx[k]].0@);
            }
            crate::text::lemma_lex_total(v[idx[k]].0@, v[idx[m]].0@);
        }
        assert forall|i: int| 0 <= i < n implies idx.contains(#[trigger] r[i]) by {
            if i == 0 {
                assert(idx[m] == r[i]);
            } else {
                assert(rest.contains(t[i - 1]));
                let a = choose|a: int| 0 <= a < rest.len() && rest[a] == t[i - 1];
                let a2 = if a < m { a } else { a + 1 };
                assert(idx[a2] == r[i]);
            }
        }
        assert forall|j: int| 0 <= j < n implies r.contains(#[trigger] idx[j]) by {
            if j == m {
                assert(r[0] == idx[j]);
            } else {
                let j2 = if j < m { j } else { j - 1 };
                assert(rest[j2] == idx[j]);
                assert(t.contains(rest[j2]));
                let b = choose|b: int| 0 <= b < t.len() && t[b] == rest[j2];
                assert(r[b + 1] == idx[j]);
            }
        }
        assert forall|i: int, j: int| 0 <= i < j < n implies lex_lt(#[trigger] v[r[i]].0@, #[trigger] v[r[j]].0@) by {
            if i == 0 {
                assert(rest.contains(t[j - 1]));
                let a = choose|a: int| 0 <= a < rest.len() && rest[a] == t[j - 1];
                let a2 = if a < m { a } else { a + 1 };
                assert(idx[a2] == r[j] && a2 != m);
            } else {
                assert(r[i] == t[i - 1] && r[j] == t[j - 1]);
            }
        }
    }
}

/// The members of an object in the order they are written.
pub open spec fn ordered_members(v: Seq<(String, Json)>) -> Seq<(String, Json)> {
    key_order(v).map_values(|i: int| v[i])
}

proof fn lemma_ordered_members(v: Seq<(String, Json)>)
    requires
        distinct_keys(v),
    ensures
        ordered_members(v).len() == v.len(),
        forall|x: (String, Json)| ordered_members(v).contains(x) <==> v.contains(x),
        crate::text::strictly_sorted(ordered_members(v).map_values(|m: (String, Json)| m.0@)),
        forall|i: int| 0 <= i < v.len() ==> 0 <= #[trigger] key_order(v)[i] < v.len(),
{
    let idx = all_indices(v.len() as int);
    assert(good_indices(v, idx));
    lemma_sort_indices(v, idx);
    let ord = key_order(v);
    let s = ordered_members(v);
    assert forall|i: int| 0 <= i < v.len() implies 0 <= #[trigger] ord[i] < v.len() by {
        assert(idx.contains(ord[i]));
    }
    assert forall|x: (String, Json)| s.contains(x) <==> v.contains(x) by {
        if s.contains(x) {
            let i = choose|i: int| 0 <= i < s.len() && s[i] == x;
            assert(idx.contains(ord[i]));
            assert(v[ord[i]] == x);
        }
        if v.contains(x) {
            let j = choose|j: int| 0 <= j < v.len() && v[j] == x;
            assert(ord.contains(idx[j]));
            let i = choose|i: int| 0 <= i < ord.len() && ord[i] == idx[j];
            assert(s[i] == x);
        }
    }
    let keys = s.map_values(|m: (String, Json)| m.0@);
    assert forall|i: int, j: int| 0 <= i < j < keys.len() implies lex_lt(#[trigger] keys[i], #[trigger] keys[j]) by {
        assert(keys[i] == v[ord[i]].0@ && keys[j] == v[ord[j]].0@);
    }
}

proof fn lemma_members_text_agree(v: Seq<(String, Json)>, ov: Seq<int>, w: Seq<(String, Json)>, ow: Seq<int>, n: int, ind: Seq<char>)
    requires
        0 <= n <= ov.len(),
        ov.len() == ow.len(),
        forall|k: int| 0 <= k < ov.len() ==> 0 <= #[trigger] ov[k] < v.len(),
        forall|k: int| 0 <= k < ow.len() ==> 0 <= #[trigger] ow[k] < w.len(),
        forall|k: int| 0 <= k < ov.len() ==> v[#[trigger] ov[k]] == w[ow[k]],
    ensures
        members_text(v, ov, n, false, ind) == members_text(w, ow, n, false, ind),
    decreases n,
{
    if n > 0 {
        assert(v[ov[n - 1]] == w[ow[n - 1]]);
        lemma_members_text_agree(v, ov, w, ow, n - 1, ind);
    }
}

/// The canonical text of an object, and so its digest, does not depend on the
/// order its members were given in: two objects with the same members (each
/// with distinct keys, as objects have) read the same.
pub proof fn lemma_canonical_ignores_member_order(a: Json, b: Json)
    requires
        a matches Json::Object(x) && distinct_keys(x@),
        b matches Json::Object(y) && distinct_keys(y@) && y@.to_multiset() == a->Object_0@.to_multiset(),
    ensures
        canonical_text(a) == canonical_text(b),
        hex_text(sha256_of(canonical_text(a))) == hex_text(sha256_of(canonical_text(b))),
{
    let v = a->Object_0@;
    let w = b->Object_0@;
    v.to_multiset_ensures();
    w.to_multiset_ensures();
    assert forall|x: (String, Json)| w.contains(x) <==> v.contains(x) by {
        assert(w.to_multiset().count(x) == v.to_multiset().count(x));
    }
    assert(w.len() == v.len()) by {
        assert(w.to_multiset().len() == v.to_multiset().len());
    }
    lemma_ordered_members(v);
    lemma_ordered_members(w);
    let sv = ordered_members(v);
    let sw = ordered_members(w);
    let kv = sv.map_values(|m: (String, Json)| m.0@);
    let kw = sw.map_values(|m: (String, Json)| m.0@);
    assert forall|k: Seq<char>| kv.contains(k) <==> kw.contains(k) by {
        if kv.contains(k) {
            let i = choose|i: int| 0 <= i < kv.len() && kv[i] == k;
            assert(sv.contains(sv[i]));
            assert(v.contains(sv[i]));
            assert(w.contains(sv[i]));
            assert(sw.contains(sv[i]));
            let j = choose|j: int| 0 <= j < sw.len() && sw[j] == sv[i];
            assert(kw[j] == k);
        }
        if kw.contains(k) {
            let i = choose|i: int| 0 <= i < kw.len() && kw[i] == k;
            assert(sw.contains(sw[i]));
            assert(w.contains(sw[i]));
            assert(v.contains(sw[i]));
            assert(sv.contains(sw[i]));
            let j = choose|j: int| 0 <= j < sv.len() && sv[j] == sw[i];
            assert(kv[j] == k);
        }
    }
    crate::text::lemma_sorted_unique(kv, kw);
    let ov = key_order(v);
    let ow = key_order(w);
    assert forall|k: int| 0 <= k < ov.len() implies v[#[trigger] ov[k]] == w[ow[k]] by {
        assert(kv[k] == kw[k]);
        assert(sw.contains(sw[k]));
        assert(v.contains(w[ow[k]]));
        let p = choose|p: int| 0 <= p < v.len() && v[p] == w[ow[k]];
        if p != ov[k] {
            if p < ov[k] { assert(v[p].0@ != v[ov[k]].0@); } else { assert(v[ov[k]].0@ != v[p].0@); }
        }
    }
    lemma_members_text_agree(v, ov, w, ow, v.len() as int, seq![]);
}

/// The members of the cache-key payload, as `context_hash` builds them.
pub open spec fn payload_members(v: Seq<(String, Json)>, context: Json, model: Seq<char>, lang: Language) -> bool {
    &&& v.len() == 4
    &&& v[0].0@ == "context"@ && v[0].1 == context
    &&& v[1].0@ == "lang"@ && v[1].1 is Str && v[1].1->Str_0@ == spec_code(lang)
    &&& v[2].0@ == "model"@ && v[2].1 is Str && v[2].1->Str_0@ == model
    &&& v[3].0@ == "prompt_version"@ && v[3].1 is Number && v[3].1->Number_0@ == "1"@
}

proof fn lemma_payload_order(v: Seq<(String, Json)>, context: Json, model: Seq<char>, lang: Language)
    requires
        payload_members(v, context, model, lang),
    ensures
        key_order(v) == all_indices(4),
{
    reveal_strlit("context");
    reveal_strlit("lang");
    reveal_strlit("model");
    reveal_strlit("prompt_version");
    let idx = all_indices(4);
    assert(lex_lt(v[0].0@, v[1].0@));
    assert(lex_lt(v[1].0@, v[2].0@));
    assert(lex_lt(v[2].0@, v[3].0@));
    crate::text::lemma_lex_transitive(v[0].0@, v[1].0@, v[2].0@);
    crate::text::lemma_lex_transitive(v[1].0@, v[2].0@, v[3].0@);
    crate::text::lemma_lex_transitive(v[0].0@, v[2].0@, v[3].0@);
    assert forall|a: int, b: int| 0 <= a < b < 4 implies lex_lt(#[trigger] v[idx[a]].0@, #[trigger] v[idx[b]].0@) by {
        assert(idx[a] == a && idx[b] == b);
    }
    lemma_sort_ascending(v, idx);
}

/// One more member of a compact object body.
proof fn lemma_members_step(v: Seq<(String, Json)>, ord: Seq<int>, n: int)
    requires
        2 <= n <= ord.len(),
        0 <= ord[n - 1] < v.len(),
    ensures
        members_text(v, ord, n, false, Seq::empty()) == members_text(v, ord, n - 1, false, Seq::empty()) + ","@
            + (quoted(v[ord[n - 1]].0@) + ":"@ + json_text(v[ord[n - 1]].1, false, Seq::empty())),
{
    assert(seq![] + quoted(v[ord[n - 1]].0@) =~= quoted(v[ord[n - 1]].0@));
}

#[verifier::spinoff_prover]
proof fn lemma_payload_text(payload: Json, v: Seq<(String, Json)>, context: Json, model: Seq<char>, lang: Language)
    requires
        payload matches Json::Object(w) && w@ == v,
        payload_members(v, context, model, lang),
    ensures
        canonical_text(payload) == hash_payload(context, model, lang),
{
    lemma_payload_order(v, context, model, lang);
    let ord = all_indices(4);
    let e = Seq::<char>::empty();
    let m0 = quoted(v[0].0@) + ":"@ + canonical_text(context);
    let m1 = quoted(v[1].0@) + ":"@ + quoted(spec_code(lang));
    let m2 = quoted(v[2].0@) + ":"@ + quoted(model);
    let m3 = quoted(v[3].0@) + ":"@ + "1"@;
    assert(members_text(v, ord, 1, false, e) =~= m0) by {
        assert(seq![] + quoted(v[0].0@) =~= quoted(v[0].0@));
    }
    lemma_members_step(v, ord, 2);
    lemma_members_step(v, ord, 3);
    lemma_members_step(v, ord, 4);
    let body = members_text(v, ord, 4, false, e);
    assert(body == m0 + ","@ + m1 + ","@ + m2 + ","@ + m3);
    assert(canonical_text(payload) == "{"@ + body + "}"@);
    reveal_strlit("context");
    reveal_strlit("lang");
    reveal_strlit("model");
    reveal_strlit("prompt_version");
    assert(canonical_text(payload) =~= hash_payload(context, model, lang));
}

/// The cache key of an explanation: a stable digest over the analysis, the
/// model and the language, all three of which change the text.
pub fn context_hash(context: Json, model: &str, lang: Language) -> (r: String)
    ensures
        r@ == hex_text(sha256_of(hash_payload(context, model@, lang))),
{
    let ghost ctx = context;
    let mut members: Vec<(String, Json)> = Vec::new();
    members.push(("context".to_owned(), context));
    members.push(("lang".to_owned(), Json::Str(lang.code().to_owned())));
    members.push(("model".to_owned(), Json::Str(model.to_owned())));
    members.push(("prompt_version".to_owned(), Json::Number("1".to_owned())));
    let ghost v = members@;
    assert(payload_members(v, ctx, model@, lang));
    let payload = Json::Object(members);
    let text = canonical(&payload);
    proof {
        lemma_payload_text(payload, v, ctx, model@, lang);
    }
    let digest = sha256(text.as_str());
    let mut out: Vec<char> = Vec::new();
    push_hex(&mut out, &digest);
    string_from_chars(&out)
}

} // verus!

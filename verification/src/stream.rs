//! Decoding a model's streamed answer.
//!
//! Two wire formats arrive as byte chunks that may split anywhere, even inside
//! a multi-byte UTF-8 sequence: server-sent events, whose `data:` lines carry
//! one JSON event each, and JSON Lines, one event per line. The parsers here
//! frame the chunks into lines and pick out the JSON text of each event; the
//! caller turns that text into a `Json` value, and `sse_event` /
//! `JsonLinesParser::event` say what the value contributes to the answer.

use vstd::prelude::*;
use crate::json::{first_member, Json};
use crate::text::{chars_of, string_from_chars, strings_view, trim, trim_end_char, trim_end_char_str, trim_str};

verus! {

/// What `String::from_utf8_lossy` makes of some bytes: the text they encode,
/// each invalid sequence replaced by U+FFFD.
pub uninterp spec fn utf8_lossy(bytes: Seq<u8>) -> Seq<char>;

/// `String::from_utf8_lossy`. The contract names the text; it states no more
/// of UTF-8 decoding than that it depends on the bytes alone.
#[verifier::external_body]
fn decode_lossy(bytes: &[u8]) -> (r: String)
    ensures
        r@ == utf8_lossy(bytes@),
{
    String::from_utf8_lossy(bytes).into_owned()
}

/// One piece of a streamed answer.
#[derive(Debug, Clone, PartialEq, Eq)]
pub enum StreamPiece {
    /// Text to append to the answer.
    Text(String),
    /// The service reported a failure mid-stream; the text is its message.
    Failure(String),
}

pub enum PieceView {
    Text(Seq<char>),
    Failure(Seq<char>),
}

pub open spec fn piece_view(p: StreamPiece) -> PieceView {
    match p {
        StreamPiece::Text(t) => PieceView::Text(t@),
        StreamPiece::Failure(t) => PieceView::Failure(t@),
    }
}

pub open spec fn pieces_view(ps: Seq<StreamPiece>) -> Seq<PieceView> {
    ps.map_values(|p: StreamPiece| piece_view(p))
}

// ─── framing ────────────────────────────────────────────

/// The complete lines of `s[start..]`, scanning from `k`: each ends at a
/// newline, which is not part of it.
pub open spec fn lines_from(s: Seq<u8>, start: int, k: int) -> Seq<Seq<u8>>
    decreases s.len() - k,
{
    if k < 0 || k >= s.len() {
        seq![]
    } else if s[k] == 10u8 {
        seq![s.subrange(start, k)] + lines_from(s, k + 1, k + 1)
    } else {
        lines_from(s, start, k + 1)
    }
}

/// What is left of `s[start..]` after its complete lines: a line still
/// waiting for its newline.
pub open spec fn rest_from(s: Seq<u8>, start: int, k: int) -> Seq<u8>
    decreases s.len() - k,
{
    if k < 0 || k >= s.len() {
        s.subrange(start, s.len() as int)
    } else if s[k] == 10u8 {
        rest_from(s, k + 1, k + 1)
    } else {
        rest_from(s, start, k + 1)
    }
}

pub open spec fn complete_lines(s: Seq<u8>) -> Seq<Seq<u8>> {
    lines_from(s, 0, 0)
}

pub open spec fn pending(s: Seq<u8>) -> Seq<u8> {
    rest_from(s, 0, 0)
}

/// The events carried by `lines`, in order.
pub open spec fn sse_events(lines: Seq<Seq<u8>>) -> Seq<Seq<char>>
    decreases lines.len(),
{
    if lines.len() == 0 {
        seq![]
    } else {
        sse_events(lines.drop_last()) + match sse_data(lines.last()) {
            Some(x) => seq![x],
            None => seq![],
        }
    }
}

fn copy_range(s: &Vec<u8>, start: usize, end: usize) -> (r: Vec<u8>)
    requires
        start <= end <= s@.len(),
    ensures
        r@ == s@.subrange(start as int, end as int),
{
    let mut out: Vec<u8> = Vec::new();
    let mut i = start;
    while i < end
        invariant
            start <= i <= end <= s@.len(),
            out@ == s@.subrange(start as int, i as int),
        decreases end - i,
    {
        out.push(s[i]);
        assert(out@ =~= s@.subrange(start as int, i as int + 1));
        i += 1;
    }
    out
}

/// The buffered bytes followed by a new chunk.
fn joined(buf: &Vec<u8>, chunk: &[u8]) -> (r: Vec<u8>)
    ensures
        r@ == buf@ + chunk@,
{
    let mut all = copy_range(buf, 0, buf.len());
    assert(all@ =~= buf@);
    let mut i: usize = 0;
    while i < chunk.len()
        invariant
            i <= chunk@.len(),
            all@ == buf@ + chunk@.subrange(0, i as int),
        decreases chunk.len() - i,
    {
        all.push(chunk[i]);
        assert(all@ =~= buf@ + chunk@.subrange(0, i as int + 1));
        i += 1;
    }
    assert(chunk@.subrange(0, chunk@.len() as int) =~= chunk@);
    all
}

// ─── server-sent events ─────────────────────────────────

/// The JSON text a server-sent-event line carries: the line's text, without
/// trailing carriage returns, must start `data:`; what follows, trimmed, is
/// the event unless it is empty or the `[DONE]` marker. Other lines (`event:`,
/// comments, blank separators) carry none.
pub open spec fn sse_data(line: Seq<u8>) -> Option<Seq<char>> {
    let t = trim_end_char(utf8_lossy(line), '\r');
    if t.len() >= 5 && t.take(5) == "data:"@ {
        let p = trim(t.skip(5));
        if p.len() == 0 || p == "[DONE]"@ {
            None
        } else {
            Some(p)
        }
    } else {
        None
    }
}

fn sse_data_of(line: &Vec<u8>) -> (r: Option<String>)
    ensures
        match sse_data(line@) {
            Some(p) => r matches Some(x) && x@ == p,
            None => r is None,
        },
{
    let text = decode_lossy(line.as_slice());
    let t = trim_end_char_str(text.as_str(), '\r');
    let cs = chars_of(t.as_str());
    proof {
        reveal_strlit("data:");
        reveal_strlit("[DONE]");
    }
    if cs.len() >= 5 && cs[0] == 'd' && cs[1] == 'a' && cs[2] == 't' && cs[3] == 'a' && cs[4] == ':' {
        assert(cs@.take(5) =~= "data:"@);
        let mut body: Vec<char> = Vec::new();
        let mut i: usize = 5;
        while i < cs.len()
            invariant
                5 <= i <= cs@.len(),
                body@ == cs@.subrange(5, i as int),
            decreases cs.len() - i,
        {
            body.push(cs[i]);
            assert(body@ =~= cs@.subrange(5, i as int + 1));
            i += 1;
        }
        assert(body@ =~= cs@.skip(5));
        let body_str = string_from_chars(&body);
        let p = trim_str(body_str.as_str());
        let pc = chars_of(p.as_str());
        let done = pc.len() == 6 && pc[0] == '[' && pc[1] == 'D' && pc[2] == 'O' && pc[3] == 'N' && pc[4] == 'E'
            && pc[5] == ']';
        if done {
            assert(pc@ =~= "[DONE]"@);
        } else {
            assert(pc@.len() != 6 || pc@ != "[DONE]"@);
        }
        if pc.len() == 0 || done {
            None
        } else {
            Some(p)
        }
    } else {
        assert(cs@.len() < 5 || cs@.take(5) != "data:"@) by {
            if cs@.len() >= 5 && cs@.take(5) == "data:"@ {
                assert(cs@.take(5)[0] == 'd' && cs@.take(5)[1] == 'a' && cs@.take(5)[2] == 't');
                assert(cs@.take(5)[3] == 'a' && cs@.take(5)[4] == ':');
            }
        }
        None
    }
}

/// A server-sent-event stream decoder: chunks in, the JSON text of each
/// event out.
pub struct SseParser {
    buf: Vec<u8>,
}

impl SseParser {
    /// The bytes of a line still waiting for its newline.
    pub closed spec fn pending_bytes(&self) -> Seq<u8> {
        self.buf@
    }

    pub fn new() -> (r: SseParser)
        ensures
            r.pending_bytes() == Seq::<u8>::empty(),
    {
        SseParser { buf: Vec::new() }
    }

    /// Feed a chunk: the events of every line it completes, in order.
    pub fn push(&mut self, chunk: &[u8]) -> (r: Vec<String>)
        ensures
            strings_view(r@) == sse_events(complete_lines(old(self).pending_bytes() + chunk@)),
            final(self).pending_bytes() == pending(old(self).pending_bytes() + chunk@),
    {
        let all = joined(&self.buf, chunk);
        let ghost s = all@;
        let mut out: Vec<String> = Vec::new();
        let ghost mut done: Seq<Seq<u8>> = seq![];
        let mut start: usize = 0;
        let mut k: usize = 0;
        while k < all.len()
            invariant
                all@ == s,
                start <= k <= s.len(),
                complete_lines(s) == done + lines_from(s, start as int, k as int),
                pending(s) == rest_from(s, start as int, k as int),
                strings_view(out@) == sse_events(done),
            decreases s.len() - k,
        {
            if all[k] == 10u8 {
                let line = copy_range(&all, start, k);
                proof {
                    assert(done.push(line@).drop_last() =~= done);
                    assert(lines_from(s, start as int, k as int) == seq![line@] + lines_from(s, k + 1, k + 1));
                    assert(done + (seq![line@] + lines_from(s, k + 1, k + 1)) =~= done.push(line@) + lines_from(
                        s,
                        k + 1,
                        k + 1,
                    ));
                    done = done.push(line@);
                }
                match sse_data_of(&line) {
                    Some(p) => {
                        out.push(p);
                        assert(strings_view(out@) =~= sse_events(done));
                    },
                    None => {
                        assert(strings_view(out@) =~= sse_events(done));
                    },
                }
                start = k + 1;
            }
            k += 1;
        }
        proof {
            assert(lines_from(s, start as int, k as int) == Seq::<Seq<u8>>::empty());
            assert(done + Seq::<Seq<u8>>::empty() =~= done);
        }
        self.buf = copy_range(&all, start, all.len());
        out
    }

    /// The end of the stream: the event of a last line that never got its
    /// newline, if it carries one.
    pub fn finish(&mut self) -> (r: Option<String>)
        ensures
            final(self).pending_bytes() == Seq::<u8>::empty(),
            match (if old(self).pending_bytes().len() == 0 { None } else { sse_data(old(self).pending_bytes()) }) {
                Some(p) => r matches Some(x) && x@ == p,
                None => r is None,
            },
    {
        let rest = copy_range(&self.buf, 0, self.buf.len());
        assert(rest@ =~= self.buf@);
        self.buf = Vec::new();
        if rest.len() == 0 {
            None
        } else {
            sse_data_of(&rest)
        }
    }
}

/// The value of an object's first member called `key`.
pub open spec fn member(j: Json, key: Seq<char>) -> Option<Json> {
    match j {
        Json::Object(v) => match first_member(v@, key, 0) {
            Some(i) => Some(v@[i].1),
            None => None,
        },
        _ => None,
    }
}

/// The text of a member that is a string.
pub open spec fn str_member(j: Json, key: Seq<char>) -> Option<Seq<char>> {
    match member(j, key) {
        Some(Json::Str(s)) => Some(s@),
        _ => None,
    }
}

fn get_str<'a>(j: &'a Json, key: &str) -> (r: Option<&'a str>)
    ensures
        match str_member(*j, key@) {
            Some(s) => r matches Some(x) && x@ == s,
            None => r is None,
        },
{
    match j.get(key) {
        Some(v) => v.as_str(),
        None => None,
    }
}

/// `prefix` followed by `detail`.
fn with_prefix(prefix: &str, detail: &str) -> (r: String)
    ensures
        r@ == prefix@ + detail@,
{
    let mut out: Vec<char> = Vec::new();
    crate::text::push_str(&mut out, prefix);
    crate::text::push_str(&mut out, detail);
    string_from_chars(&out)
}

fn nonempty(x: &str) -> (b: bool)
    ensures
        b == (x@.len() > 0),
{
    chars_of(x).len() > 0
}

fn is_str(r: Option<&str>, want: &str) -> (b: bool)
    ensures
        b == (r matches Some(x) && x@ == want@),
{
    match r {
        Some(x) => crate::text::str_eq(x, want),
        None => false,
    }
}

/// What one server-sent event adds to the answer: the text of a text delta
/// (when not empty), or a failure naming the service and giving the error's
/// message.
pub open spec fn sse_piece(v: Json) -> Option<PieceView> {
    let t = str_member(v, "type"@);
    if t == Some("content_block_delta"@) {
        match member(v, "delta"@) {
            Some(d) => if str_member(d, "type"@) == Some("text_delta"@) {
                match str_member(d, "text"@) {
                    Some(x) => if x.len() > 0 { Some(PieceView::Text(x)) } else { None },
                    None => None,
                }
            } else {
                None
            },
            None => None,
        }
    } else if t == Some("error"@) {
        Some(PieceView::Failure("anthropic api: "@ + match member(v, "error"@) {
            Some(e) => match str_member(e, "message"@) {
                Some(m) => m,
                None => "unknown error"@,
            },
            None => "unknown error"@,
        }))
    } else {
        None
    }
}

pub fn sse_event(v: &Json) -> (r: Option<StreamPiece>)
    ensures
        match sse_piece(*v) {
            Some(p) => r matches Some(x) && piece_view(x) == p,
            None => r is None,
        },
{
    let t = get_str(v, "type");
    if is_str(t, "content_block_delta") {
        match v.get("delta") {
            Some(d) => {
                if is_str(get_str(d, "type"), "text_delta") {
                    match get_str(d, "text") {
                        Some(x) => if nonempty(x) {
                            Some(StreamPiece::Text(x.to_owned()))
                        } else {
                            None
                        },
                        None => None,
                    }
                } else {
                    None
                }
            },
            None => None,
        }
    } else if is_str(t, "error") {
        let detail = match v.get("error") {
            Some(e) => match get_str(e, "message") {
                Some(m) => m.to_owned(),
                None => "unknown error".to_owned(),
            },
            None => "unknown error".to_owned(),
        };
        Some(StreamPiece::Failure(with_prefix("anthropic api: ", detail.as_str())))
    } else {
        None
    }
}

// ─── JSON Lines ─────────────────────────────────────────

/// The JSON text of a JSON Lines line: the line's text, trimmed, unless
/// that leaves nothing.
pub open spec fn json_line(line: Seq<u8>) -> Option<Seq<char>> {
    let t = trim(utf8_lossy(line));
    if t.len() == 0 { None } else { Some(t) }
}

pub open spec fn json_line_events(lines: Seq<Seq<u8>>) -> Seq<Seq<char>>
    decreases lines.len(),
{
    if lines.len() == 0 {
        seq![]
    } else {
        json_line_events(lines.drop_last()) + match json_line(lines.last()) {
            Some(x) => seq![x],
            None => seq![],
        }
    }
}

fn json_line_of(line: &Vec<u8>) -> (r: Option<String>)
    ensures
        match json_line(line@) {
            Some(p) => r matches Some(x) && x@ == p,
            None => r is None,
        },
{
    let text = decode_lossy(line.as_slice());
    let t = trim_str(text.as_str());
    if nonempty(t.as_str()) { Some(t) } else { None }
}

/// The text of a content block of a complete message: a text block's text,
/// when not empty.
pub open spec fn block_text(b: Json) -> Seq<PieceView> {
    if str_member(b, "type"@) == Some("text"@) {
        match str_member(b, "text"@) {
            Some(x) => if x.len() > 0 { seq![PieceView::Text(x)] } else { seq![] },
            None => seq![],
        }
    } else {
        seq![]
    }
}

/// The text blocks of a complete message, in order.
pub open spec fn block_texts(bs: Seq<Json>) -> Seq<PieceView>
    decreases bs.len(),
{
    if bs.len() == 0 {
        seq![]
    } else {
        block_texts(bs.drop_last()) + block_text(bs.last())
    }
}

/// The content blocks of a complete message event.
pub open spec fn message_blocks(v: Json) -> Seq<Json> {
    match member(v, "message"@) {
        Some(m) => match member(m, "content"@) {
            Some(Json::Array(bs)) => bs@,
            _ => seq![],
        },
        None => seq![],
    }
}

/// What one JSON Lines event adds to the answer, and whether incremental text
/// has been seen after it. Output of a delegated sub-task (it names a parent
/// tool use) is not the answer. A text delta adds its text; a complete
/// message adds its text blocks only while no delta has been seen (else it
/// repeats them); a result marked as an error adds a failure with its
/// message, or its subtype, or "unknown error".
pub open spec fn json_line_step(saw_delta: bool, v: Json) -> (bool, Seq<PieceView>) {
    let t = str_member(v, "type"@);
    if str_member(v, "parent_tool_use_id"@) is Some {
        (saw_delta, seq![])
    } else if t == Some("stream_event"@) {
        match member(v, "event"@) {
            Some(e) => if str_member(e, "type"@) != Some("content_block_delta"@) {
                (saw_delta, seq![])
            } else {
                match member(e, "delta"@) {
                    Some(d) => if str_member(d, "type"@) != Some("text_delta"@) {
                        (saw_delta, seq![])
                    } else {
                        match str_member(d, "text"@) {
                            Some(x) => (true, if x.len() > 0 { seq![PieceView::Text(x)] } else { seq![] }),
                            None => (saw_delta, seq![]),
                        }
                    },
                    None => (saw_delta, seq![]),
                }
            },
            None => (saw_delta, seq![]),
        }
    } else if t == Some("assistant"@) && !saw_delta {
        (saw_delta, block_texts(message_blocks(v)))
    } else if t == Some("result"@) && member(v, "is_error"@) == Some(Json::Bool(true)) {
        (saw_delta, seq![PieceView::Failure(match str_member(v, "result"@) {
            Some(r) => r,
            None => match str_member(v, "subtype"@) {
                Some(st) => st,
                None => "unknown error"@,
            },
        })])
    } else {
        (saw_delta, seq![])
    }
}

fn push_block_texts(bs: &Vec<Json>, out: &mut Vec<StreamPiece>)
    ensures
        pieces_view(final(out)@) == pieces_view(old(out)@) + block_texts(bs@),
{
    let ghost start = pieces_view(out@);
    let mut i: usize = 0;
    assert(bs@.take(0) =~= Seq::<Json>::empty());
    while i < bs.len()
        invariant
            i <= bs@.len(),
            pieces_view(out@) == start + block_texts(bs@.take(i as int)),
        decreases bs.len() - i,
    {
        let b = &bs[i];
        assert(bs@.take(i as int + 1).drop_last() =~= bs@.take(i as int));
        assert(bs@.take(i as int + 1).last() == bs@[i as int]);
        let ghost before = out@;
        if is_str(get_str(b, "type"), "text") {
            match get_str(b, "text") {
                Some(x) => {
                    if nonempty(x) {
                        out.push(StreamPiece::Text(x.to_owned()));
                    }
                },
                None => {},
            }
        }
        assert(pieces_view(out@) =~= pieces_view(before) + block_text(bs@[i as int]));
        assert(pieces_view(out@) =~= start + block_texts(bs@.take(i as int + 1)));
        i += 1;
    }
    assert(bs@.take(bs@.len() as int) =~= bs@);
}

/// A JSON Lines stream decoder: chunks in, the JSON text of each line out;
/// `event` then says what each decoded line adds.
pub struct StreamJsonParser {
    buf: Vec<u8>,
    saw_delta: bool,
}

impl StreamJsonParser {
    pub closed spec fn pending_bytes(&self) -> Seq<u8> {
        self.buf@
    }

    /// Whether incremental text has been seen.
    pub closed spec fn saw_delta(&self) -> bool {
        self.saw_delta
    }

    pub fn new() -> (r: StreamJsonParser)
        ensures
            r.pending_bytes() == Seq::<u8>::empty(),
            !r.saw_delta(),
    {
        StreamJsonParser { buf: Vec::new(), saw_delta: false }
    }

    /// Feed a chunk: the JSON text of every line it completes, in order.
    pub fn push(&mut self, chunk: &[u8]) -> (r: Vec<String>)
        ensures
            strings_view(r@) == json_line_events(complete_lines(old(self).pending_bytes() + chunk@)),
            final(self).pending_bytes() == pending(old(self).pending_bytes() + chunk@),
            final(self).saw_delta() == old(self).saw_delta(),
    {
        let all = joined(&self.buf, chunk);
        let ghost s = all@;
        let mut out: Vec<String> = Vec::new();
        let ghost mut done: Seq<Seq<u8>> = seq![];
        let mut start: usize = 0;
        let mut k: usize = 0;
        while k < all.len()
            invariant
                all@ == s,
                start <= k <= s.len(),
                complete_lines(s) == done + lines_from(s, start as int, k as int),
                pending(s) == rest_from(s, start as int, k as int),
                strings_view(out@) == json_line_events(done),
            decreases s.len() - k,
        {
            if all[k] == 10u8 {
                let line = copy_range(&all, start, k);
                proof {
                    assert(done.push(line@).drop_last() =~= done);
                    assert(lines_from(s, start as int, k as int) == seq![line@] + lines_from(s, k + 1, k + 1));
                    assert(done + (seq![line@] + lines_from(s, k + 1, k + 1)) =~= done.push(line@) + lines_from(
                        s,
                        k + 1,
                        k + 1,
                    ));
                    done = done.push(line@);
                }
                match json_line_of(&line) {
                    Some(p) => {
                        out.push(p);
                        assert(strings_view(out@) =~= json_line_events(done));
                    },
                    None => {
                        assert(strings_view(out@) =~= json_line_events(done));
                    },
                }
                start = k + 1;
            }
            k += 1;
        }
        proof {
            assert(lines_from(s, start as int, k as int) == Seq::<Seq<u8>>::empty());
            assert(done + Seq::<Seq<u8>>::empty() =~= done);
        }
        self.buf = copy_range(&all, start, all.len());
        out
    }

    /// The end of the stream: the JSON text of a last line that never got its
    /// newline.
    pub fn finish(&mut self) -> (r: Option<String>)
        ensures
            final(self).pending_bytes() == Seq::<u8>::empty(),
            final(self).saw_delta() == old(self).saw_delta(),
            match (if old(self).pending_bytes().len() == 0 { None } else { json_line(old(self).pending_bytes()) }) {
                Some(p) => r matches Some(x) && x@ == p,
                None => r is None,
            },
    {
        let rest = copy_range(&self.buf, 0, self.buf.len());
        assert(rest@ =~= self.buf@);
        self.buf = Vec::new();
        if rest.len() == 0 {
            None
        } else {
            json_line_of(&rest)
        }
    }

    /// What a decoded line adds to the answer.
    pub fn event(&mut self, v: &Json) -> (r: Vec<StreamPiece>)
        ensures
            (final(self).saw_delta(), pieces_view(r@)) == json_line_step(old(self).saw_delta(), *v),
            final(self).pending_bytes() == old(self).pending_bytes(),
    {
        let mut out: Vec<StreamPiece> = Vec::new();
        assert(pieces_view(out@) =~= Seq::<PieceView>::empty());
        if get_str(v, "parent_tool_use_id").is_some() {
            return out;
        }
        let t = get_str(v, "type");
        if is_str(t, "stream_event") {
            let e = match v.get("event") {
                Some(e) => e,
                None => return out,
            };
            if !is_str(get_str(e, "type"), "content_block_delta") {
                return out;
            }
            let d = match e.get("delta") {
                Some(d) => d,
                None => return out,
            };
            if !is_str(get_str(d, "type"), "text_delta") {
                return out;
            }
            match get_str(d, "text") {
                Some(x) => {
                    self.saw_delta = true;
                    if nonempty(x) {
                        out.push(StreamPiece::Text(x.to_owned()));
                        assert(pieces_view(out@) =~= seq![PieceView::Text(x@)]);
                    }
                },
                None => {},
            }
            out
        } else if is_str(t, "assistant") && !self.saw_delta {
            let blocks = match v.get("message") {
                Some(m) => m.get("content"),
                None => None,
            };
            match blocks {
                Some(Json::Array(bs)) => {
                    push_block_texts(bs, &mut out);
                    assert(pieces_view(out@) =~= block_texts(message_blocks(*v)));
                },
                _ => {
                    assert(message_blocks(*v) =~= Seq::<Json>::empty());
                },
            }
            out
        } else if is_str(t, "result") && matches!(v.get("is_error"), Some(Json::Bool(true))) {
            let detail = match get_str(v, "result") {
                Some(r) => r.to_owned(),
                None => match get_str(v, "subtype") {
                    Some(st) => st.to_owned(),
                    None => "unknown error".to_owned(),
                },
            };
            out.push(StreamPiece::Failure(detail));
            assert(pieces_view(out@) =~= json_line_step(old(self).saw_delta(), *v).1);
            out
        } else {
            out
        }
    }
}

// ─── chunking ───────────────────────────────────────────

/// No newline in `s[i..j]`.
pub open spec fn no_newline(s: Seq<u8>, i: int, j: int) -> bool {
    forall|k: int| i <= k < j ==> #[trigger] s[k] != 10u8
}

proof fn lemma_scan_shift(s: Seq<u8>, start: int, k: int)
    requires
        0 <= start <= k <= s.len(),
    ensures
        lines_from(s, start, k) == lines_from(s.skip(start), 0, k - start),
        rest_from(s, start, k) == rest_from(s.skip(start), 0, k - start),
    decreases s.len() - k,
{
    let t = s.skip(start);
    if k < s.len() {
        assert(t[k - start] == s[k]);
        if s[k] == 10u8 {
            lemma_scan_shift(s, k + 1, k + 1);
            lemma_scan_shift(t, k + 1 - start, k + 1 - start);
            assert(t.skip(k + 1 - start) =~= s.skip(k + 1));
            assert(t.subrange(0, k - start) =~= s.subrange(start, k));
        } else {
            lemma_scan_shift(s, start, k + 1);
        }
    } else {
        assert(t.subrange(0, t.len() as int) =~= s.subrange(start, s.len() as int));
    }
}

proof fn lemma_scan_from_start(x: Seq<u8>, j: int)
    requires
        0 <= j <= x.len(),
        no_newline(x, 0, j),
    ensures
        lines_from(x, 0, j) == lines_from(x, 0, 0),
        rest_from(x, 0, j) == rest_from(x, 0, 0),
    decreases j,
{
    if j > 0 {
        lemma_scan_from_start(x, j - 1);
        assert(x[j - 1] != 10u8);
    }
}

proof fn lemma_scan_split(a: Seq<u8>, b: Seq<u8>, start: int, k: int)
    requires
        0 <= start <= k <= a.len(),
        no_newline(a, start, k),
    ensures
        lines_from(a + b, start, k) == lines_from(a, start, k) + complete_lines(rest_from(a, start, k) + b),
        rest_from(a + b, start, k) == pending(rest_from(a, start, k) + b),
    decreases a.len() - k,
{
    let s = a + b;
    if k < a.len() {
        assert(s[k] == a[k]);
        if a[k] == 10u8 {
            lemma_scan_split(a, b, k + 1, k + 1);
            assert(s.subrange(start, k) =~= a.subrange(start, k));
            assert(seq![a.subrange(start, k)] + (lines_from(a, k + 1, k + 1) + complete_lines(
                rest_from(a, k + 1, k + 1) + b,
            )) =~= (seq![a.subrange(start, k)] + lines_from(a, k + 1, k + 1)) + complete_lines(
                rest_from(a, k + 1, k + 1) + b,
            ));
        } else {
            lemma_scan_split(a, b, start, k + 1);
        }
    } else {
        let r = a.subrange(start, a.len() as int);
        assert(rest_from(a, start, k) == r);
        assert(lines_from(a, start, k) == Seq::<Seq<u8>>::empty());
        lemma_scan_shift(s, start, k);
        assert(s.skip(start) =~= r + b);
        assert forall|i: int| 0 <= i < k - start implies #[trigger] (r + b)[i] != 10u8 by {
            assert((r + b)[i] == a[start + i]);
        }
        lemma_scan_from_start(r + b, k - start);
        assert(Seq::<Seq<u8>>::empty() + complete_lines(r + b) =~= complete_lines(r + b));
    }
}

/// Framing does not depend on where a chunk ends: the lines of `a + b` are
/// the lines of `a` followed by those that the rest of `a` makes with `b`,
/// and the same bytes are left waiting.
pub proof fn lemma_lines_split(a: Seq<u8>, b: Seq<u8>)
    ensures
        complete_lines(a + b) == complete_lines(a) + complete_lines(pending(a) + b),
        pending(a + b) == pending(pending(a) + b),
{
    lemma_scan_split(a, b, 0, 0);
}

proof fn lemma_sse_events_append(x: Seq<Seq<u8>>, y: Seq<Seq<u8>>)
    ensures
        sse_events(x + y) == sse_events(x) + sse_events(y),
    decreases y.len(),
{
    if y.len() == 0 {
        assert(x + y =~= x);
        assert(sse_events(x) + Seq::<Seq<char>>::empty() =~= sse_events(x));
    } else {
        lemma_sse_events_append(x, y.drop_last());
        assert((x + y).drop_last() =~= x + y.drop_last());
        assert((x + y).last() == y.last());
    }
}

proof fn lemma_json_line_events_append(x: Seq<Seq<u8>>, y: Seq<Seq<u8>>)
    ensures
        json_line_events(x + y) == json_line_events(x) + json_line_events(y),
    decreases y.len(),
{
    if y.len() == 0 {
        assert(x + y =~= x);
        assert(json_line_events(x) + Seq::<Seq<char>>::empty() =~= json_line_events(x));
    } else {
        lemma_json_line_events_append(x, y.drop_last());
        assert((x + y).drop_last() =~= x + y.drop_last());
        assert((x + y).last() == y.last());
    }
}

/// Server-sent events come out the same however the bytes are cut into
/// chunks: what two pushes give is what one push of both gives, and the same
/// bytes are left waiting.
pub proof fn lemma_sse_chunking(pending_before: Seq<u8>, c1: Seq<u8>, c2: Seq<u8>)
    ensures
        sse_events(complete_lines(pending_before + c1)) + sse_events(complete_lines(pending(pending_before + c1) + c2))
            == sse_events(complete_lines(pending_before + (c1 + c2))),
        pending(pending(pending_before + c1) + c2) == pending(pending_before + (c1 + c2)),
{
    let a = pending_before + c1;
    lemma_lines_split(a, c2);
    assert(a + c2 =~= pending_before + (c1 + c2));
    lemma_sse_events_append(complete_lines(a), complete_lines(pending(a) + c2));
}

/// JSON Lines come out the same however the bytes are cut into chunks.
pub proof fn lemma_json_lines_chunking(pending_before: Seq<u8>, c1: Seq<u8>, c2: Seq<u8>)
    ensures
        json_line_events(complete_lines(pending_before + c1)) + json_line_events(
            complete_lines(pending(pending_before + c1) + c2),
        ) == json_line_events(complete_lines(pending_before + (c1 + c2))),
        pending(pending(pending_before + c1) + c2) == pending(pending_before + (c1 + c2)),
{
    let a = pending_before + c1;
    lemma_lines_split(a, c2);
    assert(a + c2 =~= pending_before + (c1 + c2));
    lemma_json_line_events_append(complete_lines(a), complete_lines(pending(a) + c2));
}

/// The chunks, one after another.
pub open spec fn joined_chunks(cs: Seq<Seq<u8>>) -> Seq<u8>
    decreases cs.len(),
{
    if cs.len() == 0 { seq![] } else { joined_chunks(cs.drop_last()) + cs.last() }
}

/// What pushing `cs` one by one into a server-sent-event parser waiting on
/// `p` gives: the events, and the bytes left waiting.
pub open spec fn sse_pushes(p: Seq<u8>, cs: Seq<Seq<u8>>) -> (Seq<Seq<char>>, Seq<u8>)
    decreases cs.len(),
{
    if cs.len() == 0 {
        (seq![], p)
    } else {
        let (ev, q) = sse_pushes(p, cs.drop_last());
        (ev + sse_events(complete_lines(q + cs.last())), pending(q + cs.last()))
    }
}

/// The same for a JSON Lines parser.
pub open spec fn json_line_pushes(p: Seq<u8>, cs: Seq<Seq<u8>>) -> (Seq<Seq<char>>, Seq<u8>)
    decreases cs.len(),
{
    if cs.len() == 0 {
        (seq![], p)
    } else {
        let (ev, q) = json_line_pushes(p, cs.drop_last());
        (ev + json_line_events(complete_lines(q + cs.last())), pending(q + cs.last()))
    }
}

proof fn lemma_pending_has_no_lines(p: Seq<u8>)
    requires
        no_newline(p, 0, p.len() as int),
    ensures
        complete_lines(p) == Seq::<Seq<u8>>::empty(),
        pending(p) == p,
{
    lemma_scan_from_start(p, p.len() as int);
    assert(p.subrange(0, p.len() as int) =~= p);
}

proof fn lemma_rest_no_newline(s: Seq<u8>, start: int, k: int)
    requires
        0 <= start <= k <= s.len(),
        no_newline(s, start, k),
    ensures
        no_newline(rest_from(s, start, k), 0, rest_from(s, start, k).len() as int),
    decreases s.len() - k,
{
    if k < s.len() {
        if s[k] == 10u8 {
            lemma_rest_no_newline(s, k + 1, k + 1);
        } else {
            lemma_rest_no_newline(s, start, k + 1);
        }
    } else {
        let r = s.subrange(start, s.len() as int);
        assert forall|i: int| 0 <= i < r.len() implies #[trigger] r[i] != 10u8 by {
            assert(r[i] == s[start + i]);
        }
    }
}

/// The bytes a parser leaves waiting never hold a newline.
pub proof fn lemma_pending_no_newline(s: Seq<u8>)
    ensures
        no_newline(pending(s), 0, pending(s).len() as int),
{
    lemma_rest_no_newline(s, 0, 0);
}

/// However the bytes are cut into chunks, pushing the chunks one by one
/// gives the events and the waiting bytes that pushing them all at once
/// gives; `finish` then sees the same waiting bytes.
pub proof fn lemma_sse_any_chunking(p: Seq<u8>, cs: Seq<Seq<u8>>)
    requires
        no_newline(p, 0, p.len() as int),
    ensures
        sse_pushes(p, cs) == (sse_events(complete_lines(p + joined_chunks(cs))), pending(p + joined_chunks(cs))),
    decreases cs.len(),
{
    if cs.len() == 0 {
        assert(p + Seq::<u8>::empty() =~= p);
        lemma_pending_has_no_lines(p);
    } else {
        lemma_sse_any_chunking(p, cs.drop_last());
        let f = joined_chunks(cs.drop_last());
        lemma_sse_chunking(p, f, cs.last());
        assert(p + (f + cs.last()) =~= p + joined_chunks(cs));
    }
}

/// JSON Lines come out the same however the bytes are cut into chunks.
pub proof fn lemma_json_lines_any_chunking(p: Seq<u8>, cs: Seq<Seq<u8>>)
    requires
        no_newline(p, 0, p.len() as int),
    ensures
        json_line_pushes(p, cs) == (json_line_events(complete_lines(p + joined_chunks(cs))), pending(p + joined_chunks(cs))),
    decreases cs.len(),
{
    if cs.len() == 0 {
        assert(p + Seq::<u8>::empty() =~= p);
        lemma_pending_has_no_lines(p);
    } else {
        lemma_json_lines_any_chunking(p, cs.drop_last());
        let f = joined_chunks(cs.drop_last());
        lemma_json_lines_chunking(p, f, cs.last());
        assert(p + (f + cs.last()) =~= p + joined_chunks(cs));
    }
}

} // verus!

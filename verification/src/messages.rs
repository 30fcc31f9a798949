//! The body of a streamed request to the messages API: the fixed system
//! blocks (the last one marked as the end of the cached prefix), the
//! conversation, and the request settings.

use vstd::prelude::*;
use crate::json::Json;
use crate::lang::Turn;

verus! {

/// Enough for the explanation the prompt asks for and for a follow-up
/// answer, without letting a runaway response grow without bound.
pub const MAX_TOKENS: u32 = 4096;

/// What a system block holds: its text, and whether it carries the cache
/// mark.
pub open spec fn block_shape(b: Json) -> Option<(Seq<char>, bool)> {
    match b {
        Json::Object(v) => if v@.len() == 2 && v@[0].0@ == "type"@ && v@[0].1 is Str
            && v@[0].1->Str_0@ == "text"@ && v@[1].0@ == "text"@ && v@[1].1 is Str {
            Some((v@[1].1->Str_0@, false))
        } else if v@.len() == 3 && v@[0].0@ == "type"@ && v@[0].1 is Str && v@[0].1->Str_0@ == "text"@
            && v@[1].0@ == "text"@ && v@[1].1 is Str && v@[2].0@ == "cache_control"@ && ephemeral(v@[2].1) {
            Some((v@[1].1->Str_0@, true))
        } else {
            None
        },
        _ => None,
    }
}

/// `{"type": "ephemeral"}`.
pub open spec fn ephemeral(j: Json) -> bool {
    j matches Json::Object(v) && v@.len() == 1 && v@[0].0@ == "type"@ && v@[0].1 is Str && v@[0].1->Str_0@ == "ephemeral"@
}

fn text_of(s: &str) -> (r: Json)
    ensures
        r is Str && r->Str_0@ == s@,
{
    Json::Str(s.to_owned())
}

fn ephemeral_mark() -> (r: Json)
    ensures
        ephemeral(r),
{
    let mut v: Vec<(String, Json)> = Vec::new();
    v.push(("type".to_owned(), text_of("ephemeral")));
    Json::Object(v)
}

/// The fixed prompt blocks as system blocks, the last one carrying the cache
/// mark so that the whole fixed prefix is cached.
pub fn system_blocks(blocks: &[&str]) -> (r: Vec<Json>)
    ensures
        r@.len() == blocks@.len(),
        forall|i: int| 0 <= i < r@.len() ==> #[trigger] block_shape(r@[i]) == Some((blocks@[i]@, i == blocks@.len() - 1)),
{
    let mut out: Vec<Json> = Vec::new();
    let mut i: usize = 0;
    while i < blocks.len()
        invariant
            i <= blocks@.len(),
            out@.len() == i,
            forall|k: int| 0 <= k < i ==> #[trigger] block_shape(out@[k]) == Some((blocks@[k]@, k == blocks@.len() - 1)),
        decreases blocks.len() - i,
    {
        let mut v: Vec<(String, Json)> = Vec::new();
        v.push(("type".to_owned(), text_of("text")));
        v.push(("text".to_owned(), text_of(blocks[i])));
        if i == blocks.len() - 1 {
            v.push(("cache_control".to_owned(), ephemeral_mark()));
        }
        let block = Json::Object(v);
        assert(block_shape(block) == Some((blocks@[i as int]@, i == blocks@.len() - 1)));
        out.push(block);
        i += 1;
    }
    out
}

/// A message of the conversation: its role and text.
pub open spec fn message_shape(m: Json) -> Option<(Seq<char>, Seq<char>)> {
    match m {
        Json::Object(v) => if v@.len() == 2 && v@[0].0@ == "role"@ && v@[0].1 is Str && v@[1].0@ == "content"@ && v@[1].1 is Str {
            Some((v@[0].1->Str_0@, v@[1].1->Str_0@))
        } else {
            None
        },
        _ => None,
    }
}

fn message(role: &str, content: &str) -> (r: Json)
    ensures
        message_shape(r) == Some((role@, content@)),
{
    let mut v: Vec<(String, Json)> = Vec::new();
    v.push(("role".to_owned(), text_of(role)));
    v.push(("content".to_owned(), text_of(content)));
    Json::Object(v)
}

/// The role a turn is sent with: an assistant turn as the assistant, any
/// other as the user.
pub open spec fn turn_role(role: Seq<char>) -> Seq<char> {
    if role == "assistant"@ { "assistant"@ } else { "user"@ }
}

/// The conversation of a follow-up question: the context, the earlier
/// turns, then the question.
pub fn qa_messages(context_prompt: &str, history: &Vec<Turn>, question: &str) -> (r: Vec<Json>)
    ensures
        r@.len() == history@.len() + 2,
        message_shape(r@[0]) == Some(("user"@, context_prompt@)),
        forall|i: int| 0 <= i < history@.len() ==> #[trigger] message_shape(r@[i + 1]) == Some((turn_role(history@[i].role@), history@[i].content@)),
        message_shape(r@.last()) == Some(("user"@, question@)),
{
    let mut out: Vec<Json> = Vec::new();
    out.push(message("user", context_prompt));
    let mut i: usize = 0;
    while i < history.len()
        invariant
            i <= history@.len(),
            out@.len() == i + 1,
            message_shape(out@[0]) == Some(("user"@, context_prompt@)),
            forall|k: int| 0 <= k < i ==> #[trigger] message_shape(out@[k + 1]) == Some((turn_role(history@[k].role@), history@[k].content@)),
        decreases history.len() - i,
    {
        let role = if crate::text::str_eq(history[i].role.as_str(), "assistant") { "assistant" } else { "user" };
        out.push(message(role, history[i].content.as_str()));
        i += 1;
    }
    out.push(message("user", question));
    out
}

/// The body of a streamed request: model, token limit, streaming on, the
/// system blocks and the messages.
pub fn request_body(model: &str, system: Vec<Json>, messages: Vec<Json>) -> (r: Json)
    ensures
        r matches Json::Object(v) && v@.len() == 5 && v@[0].0@ == "model"@ && v@[0].1 is Str && v@[0].1->Str_0@ == model@
            && v@[1].0@ == "max_tokens"@ && v@[1].1 is Number && v@[1].1->Number_0@ == "4096"@ && v@[2].0@ == "stream"@
            && v@[2].1 == Json::Bool(true) && v@[3].0@ == "system"@ && v@[3].1 == Json::Array(system) && v@[4].0@ == "messages"@
            && v@[4].1 == Json::Array(messages),
{
    let mut v: Vec<(String, Json)> = Vec::new();
    v.push(("model".to_owned(), text_of(model)));
    v.push(("max_tokens".to_owned(), Json::Number("4096".to_owned())));
    v.push(("stream".to_owned(), Json::Bool(true)));
    v.push(("system".to_owned(), Json::Array(system)));
    v.push(("messages".to_owned(), Json::Array(messages)));
    Json::Object(v)
}

} // verus!

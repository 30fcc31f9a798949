//! What the HTTP interface decides on its own: the engine's health report,
//! the error answers and their status codes, and reading the language of a
//! request.

use vstd::prelude::*;
use crate::engine::EngineError;
use crate::lang::{spec_parse, Language};
use crate::pipeline::PipelineError;
use crate::text::{push_str, string_from_chars};

verus! {

/// What the health endpoint reports. `ok` is read off the running engine's
/// handshake, never assumed.
#[derive(Debug, Clone, PartialEq, Eq)]
pub struct EngineHealth {
    pub ok: bool,
    /// The engine's `id name`; none when it failed to start.
    pub engine: Option<String>,
    pub stockfish_path: String,
    /// Why it failed; none when everything is fine.
    pub error: Option<String>,
}

impl EngineHealth {
    /// A running engine and its name.
    pub fn ok(path: String, name: String) -> (r: EngineHealth)
        ensures
            r.ok,
            r.engine == Some(name),
            r.stockfish_path == path,
            r.error is None,
    {
        EngineHealth { ok: true, engine: Some(name), stockfish_path: path, error: None }
    }

    /// An engine that could not be started, and why.
    pub fn unavailable(path: String, error: String) -> (r: EngineHealth)
        ensures
            !r.ok,
            r.engine is None,
            r.stockfish_path == path,
            r.error == Some(error),
    {
        EngineHealth { ok: false, engine: None, stockfish_path: path, error: Some(error) }
    }
}

/// A failed request: an HTTP status and the message sent as
/// `{"error": ...}`.
#[derive(Debug, Clone, PartialEq, Eq)]
pub struct ApiError {
    pub status: u16,
    pub message: String,
}

impl ApiError {
    pub fn new(status: u16, message: String) -> (r: ApiError)
        ensures
            r.status == status,
            r.message == message,
    {
        ApiError { status, message }
    }
}

fn error_of(status: u16, message: &str) -> (r: ApiError)
    ensures
        r.status == status,
        r.message@ == message@,
{
    ApiError { status, message: message.to_owned() }
}

pub fn session_not_found() -> (r: ApiError)
    ensures
        r.status == 404,
        r.message@ == "session not found"@,
{
    error_of(404, "session not found")
}

pub fn node_not_found() -> (r: ApiError)
    ensures
        r.status == 404,
        r.message@ == "node not found"@,
{
    error_of(404, "node not found")
}

pub fn illegal_move() -> (r: ApiError)
    ensures
        r.status == 400,
        r.message@ == "illegal move"@,
{
    error_of(400, "illegal move")
}

pub fn not_analyzed() -> (r: ApiError)
    ensures
        r.status == 409,
        r.message@ == "not analyzed"@,
{
    error_of(409, "not analyzed")
}

pub fn engine_unavailable() -> (r: ApiError)
    ensures
        r.status == 503,
        r.message@ == "engine unavailable"@,
{
    error_of(503, "engine unavailable")
}

pub fn llm_unavailable() -> (r: ApiError)
    ensures
        r.status == 503,
        r.message@ == "llm provider unavailable"@,
{
    error_of(503, "llm provider unavailable")
}

/// The answer to a failed analysis: a search superseded by a newer request
/// is a conflict, a missing node is not found, anything else is a server
/// error carrying the error's sentence.
pub fn api_error_of(e: &PipelineError) -> (r: ApiError)
    ensures
        *e == PipelineError::Engine(EngineError::Cancelled) ==> r.status == 409 && r.message@ == "cancelled"@,
        e is NodeNotFound ==> r.status == 404 && r.message@ == "node not found"@,
        *e != PipelineError::Engine(EngineError::Cancelled) && !(e is NodeNotFound) ==> r.status == 500
            && r.message@ == crate::pipeline::spec_pipeline_message(*e),
{
    if e.is_cancelled() {
        return error_of(409, "cancelled");
    }
    match e {
        PipelineError::NodeNotFound(_) => node_not_found(),
        _ => ApiError { status: 500, message: e.message() },
    }
}

/// The language a request asks for: the default when none or an empty code
/// is given, otherwise the named one, refused with a bad request when it is
/// not supported.
pub fn parse_lang(code: Option<&str>) -> (r: Result<Language, ApiError>)
    ensures
        match code {
            None => r == Ok::<Language, ApiError>(Language::En),
            Some(c) => if c@.len() == 0 {
                r == Ok::<Language, ApiError>(Language::En)
            } else {
                match spec_parse(c@) {
                    Some(l) => r == Ok::<Language, ApiError>(l),
                    None => r matches Err(e) && e.status == 400 && e.message@ == "unsupported language: "@ + c@,
                }
            },
        },
{
    match code {
        None => Ok(Language::default()),
        Some(c) => {
            if c.unicode_len() == 0 {
                return Ok(Language::default());
            }
            match Language::parse(c) {
                Some(l) => Ok(l),
                None => {
                    let mut out: Vec<char> = Vec::new();
                    push_str(&mut out, "unsupported language: ");
                    push_str(&mut out, c);
                    Err(ApiError { status: 400, message: string_from_chars(&out) })
                },
            }
        },
    }
}

} // verus!

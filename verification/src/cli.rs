//! Explanations written by a local command-line model client: the arguments
//! it is started with, and the sentences its failures read as. Starting the
//! process and reading its JSON Lines output are the caller's; the output is
//! decoded by `stream::StreamJsonParser`.

use vstd::prelude::*;
use crate::lang::Language;
use crate::text::{push_str, string_from_chars, strings_view, trim, trim_str};

verus! {

/// The client's name for the language the explanation is written in.
pub open spec fn settings_language(lang: Language) -> Seq<char> {
    match lang {
        Language::En => "English"@,
        Language::Ja => "Japanese"@,
    }
}

/// The arguments: print mode with JSON Lines output including partial
/// messages, the model and the system prompt, settings that name only the
/// language, and no tool servers at all.
pub open spec fn cli_argv(model: Seq<char>, system: Seq<char>, lang: Language) -> Seq<Seq<char>> {
    seq![
        "-p"@,
        "--output-format"@,
        "stream-json"@,
        "--verbose"@,
        "--include-partial-messages"@,
        "--model"@,
        model,
        "--system-prompt"@,
        system,
        "--settings"@,
        "{\"language\":\""@ + settings_language(lang) + "\"}"@,
        "--strict-mcp-config"@,
        "--mcp-config"@,
        "{\"mcpServers\":{}}"@,
    ]
}

fn owned(s: &str) -> (r: String)
    ensures
        r@ == s@,
{
    s.to_owned()
}

pub fn cli_args(model: &str, system: &str, lang: Language) -> (r: Vec<String>)
    ensures
        strings_view(r@) == cli_argv(model@, system@, lang),
{
    let name = match lang {
        Language::En => "English",
        Language::Ja => "Japanese",
    };
    let mut settings: Vec<char> = Vec::new();
    push_str(&mut settings, "{\"language\":\"");
    push_str(&mut settings, name);
    push_str(&mut settings, "\"}");
    let mut r: Vec<String> = Vec::new();
    r.push(owned("-p"));
    r.push(owned("--output-format"));
    r.push(owned("stream-json"));
    r.push(owned("--verbose"));
    r.push(owned("--include-partial-messages"));
    r.push(owned("--model"));
    r.push(owned(model));
    r.push(owned("--system-prompt"));
    r.push(owned(system));
    r.push(owned("--settings"));
    r.push(string_from_chars(&settings));
    r.push(owned("--strict-mcp-config"));
    r.push(owned("--mcp-config"));
    r.push(owned("{\"mcpServers\":{}}"));
    assert(strings_view(r@) =~= cli_argv(model@, system@, lang));
    r
}

/// The process could not be started.
pub fn start_failure_message(bin: &str, err: &str) -> (r: String)
    ensures
        r@ == "could not start `"@ + bin@ + "`: "@ + err@,
{
    let mut out: Vec<char> = Vec::new();
    push_str(&mut out, "could not start `");
    push_str(&mut out, bin);
    push_str(&mut out, "`: ");
    push_str(&mut out, err);
    string_from_chars(&out)
}

/// The process ended with a failure status: what it wrote to stderr,
/// trimmed, or "no stderr" when that is nothing.
pub fn exit_failure_message(bin: &str, status: &str, stderr: &str) -> (r: String)
    ensures
        r@ == "`"@ + bin@ + "` exited with "@ + status@ + ": "@ + (if trim(stderr@).len() == 0 {
            "no stderr"@
        } else {
            trim(stderr@)
        }),
{
    let detail = trim_str(stderr);
    let mut out: Vec<char> = Vec::new();
    push_str(&mut out, "`");
    push_str(&mut out, bin);
    push_str(&mut out, "` exited with ");
    push_str(&mut out, status);
    push_str(&mut out, ": ");
    if crate::text::chars_of(detail.as_str()).len() == 0 {
        push_str(&mut out, "no stderr");
    } else {
        push_str(&mut out, detail.as_str());
    }
    string_from_chars(&out)
}

/// The end of the process could not be waited for.
pub fn wait_failure_message(bin: &str, err: &str) -> (r: String)
    ensures
        r@ == "could not wait for `"@ + bin@ + "`: "@ + err@,
{
    let mut out: Vec<char> = Vec::new();
    push_str(&mut out, "could not wait for `");
    push_str(&mut out, bin);
    push_str(&mut out, "`: ");
    push_str(&mut out, err);
    string_from_chars(&out)
}

} // verus!

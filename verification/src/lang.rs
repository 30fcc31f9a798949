//! Explanation language, and the errors and settings of the explanation
//! writer.

use vstd::prelude::*;
use crate::text::{chars_eq, chars_of};

verus! {

#[derive(Debug, Clone, Copy, PartialEq, Eq, Structural)]
pub enum Language {
    En,
    Ja,
}

impl Default for Language {
    /// English.
    fn default() -> (r: Language)
        ensures
            r == Language::En,
    {
        Language::En
    }
}

/// The short code of a language, as it appears in the API.
pub open spec fn spec_code(l: Language) -> Seq<char> {
    match l {
        Language::En => "en"@,
        Language::Ja => "ja"@,
    }
}

pub open spec fn spec_native_name(l: Language) -> Seq<char> {
    match l {
        Language::En => "English"@,
        Language::Ja => "日本語"@,
    }
}

/// The text up to the first `-` or `_`.
pub open spec fn primary_tag(s: Seq<char>) -> Seq<char>
    decreases s.len(),
{
    if s.len() == 0 {
        s
    } else if s[0] == '-' || s[0] == '_' {
        seq![]
    } else {
        seq![s[0]] + primary_tag(s.drop_first())
    }
}

/// `char::to_ascii_lowercase`.
pub open spec fn ascii_lower(c: char) -> char {
    if 'A' <= c <= 'Z' {
        ((c as int) + 32) as char
    } else {
        c
    }
}

pub open spec fn lower(s: Seq<char>) -> Seq<char> {
    s.map_values(|c: char| ascii_lower(c))
}

/// The language a tag names: its primary part, case-insensitively, so that
/// regional tags such as `ja-JP` resolve too.
pub open spec fn spec_parse(code: Seq<char>) -> Option<Language> {
    let base = lower(primary_tag(code));
    if base == "en"@ {
        Some(Language::En)
    } else if base == "ja"@ {
        Some(Language::Ja)
    } else {
        None
    }
}

fn lower_char(c: char) -> (r: char)
    ensures
        r == ascii_lower(c),
{
    if 'A' <= c && c <= 'Z' {
        ((c as u8) + 32) as char
    } else {
        c
    }
}

impl Language {
    /// The short code, as it appears in the API.
    pub fn code(self) -> (r: &'static str)
        ensures
            r@ == spec_code(self),
    {
        match self {
            Language::En => "en",
            Language::Ja => "ja",
        }
    }

    /// The endonym, for a language picker.
    pub fn native_name(self) -> (r: &'static str)
        ensures
            r@ == spec_native_name(self),
    {
        match self {
            Language::En => "English",
            Language::Ja => "日本語",
        }
    }

    /// Whether a chess-term glossary goes into the prompt. English needs none:
    /// the field names are already English.
    pub fn needs_glossary(self) -> (r: bool)
        ensures
            r == (self != Language::En),
    {
        !matches!(self, Language::En)
    }

    /// The language named by a code, regional tags accepted (`ja-JP` is `Ja`).
    pub fn parse(code: &str) -> (r: Option<Language>)
        ensures
            r == spec_parse(code@),
    {
        let cs = chars_of(code);
        let mut base: Vec<char> = Vec::new();
        let mut i: usize = 0;
        assert(cs@.skip(0) =~= cs@);
        assert(cs@.subrange(0, 0) + primary_tag(cs@) =~= primary_tag(cs@));
        assert(lower(cs@.subrange(0, 0)) =~= base@);
        while i < cs.len() && cs[i] != '-' && cs[i] != '_'
            invariant
                cs@ == code@,
                i <= cs@.len(),
                base@ == lower(cs@.subrange(0, i as int)),
                primary_tag(code@) == cs@.subrange(0, i as int) + primary_tag(cs@.skip(i as int)),
            decreases cs.len() - i,
        {
            let ghost rest = cs@.skip(i as int);
            assert(rest[0] == cs@[i as int]);
            assert(rest.drop_first() =~= cs@.skip(i as int + 1));
            assert(cs@.subrange(0, i as int + 1) =~= cs@.subrange(0, i as int).push(cs@[i as int]));
            assert(cs@.subrange(0, i as int) + primary_tag(rest) =~= cs@.subrange(0, i as int + 1) + primary_tag(
                cs@.skip(i as int + 1),
            ));
            base.push(lower_char(cs[i]));
            assert(base@ =~= lower(cs@.subrange(0, i as int + 1)));
            i += 1;
        }
        proof {
            let rest = cs@.skip(i as int);
            if i < cs@.len() {
                assert(rest[0] == cs@[i as int]);
            } else {
                assert(rest.len() == 0);
            }
            assert(primary_tag(code@) =~= cs@.subrange(0, i as int));
        }
        let en = chars_of("en");
        let ja = chars_of("ja");
        if chars_eq(&base, &en) {
            Some(Language::En)
        } else if chars_eq(&base, &ja) {
            Some(Language::Ja)
        } else {
            None
        }
    }
}

/// Every supported language with its code and endonym, for a picker.
pub fn supported_languages() -> (r: Vec<(Language, &'static str, &'static str)>)
    ensures
        r@.len() == 2,
        r@[0].0 == Language::En,
        r@[1].0 == Language::Ja,
        forall|i: int| 0 <= i < r@.len() ==> r@[i].1@ == spec_code(#[trigger] r@[i].0) && r@[i].2@ == spec_native_name(r@[i].0),
{
    let mut out: Vec<(Language, &'static str, &'static str)> = Vec::new();
    out.push((Language::En, Language::En.code(), Language::En.native_name()));
    out.push((Language::Ja, Language::Ja.code(), Language::Ja.native_name()));
    out
}

/// A turn of a follow-up conversation.
#[derive(Debug, Clone, PartialEq, Eq)]
pub struct Turn {
    /// "user" or "assistant".
    pub role: String,
    pub content: String,
}

/// The model configured for each kind of task.
#[derive(Debug, Clone, PartialEq, Eq)]
pub struct ModelConfig {
    /// Narration: restating structured data.
    pub narrate: String,
    /// Reasoning: follow-up questions, where judgement enters.
    pub reason: String,
}

impl ModelConfig {
    pub fn new(narrate: String, reason: String) -> (r: ModelConfig)
        ensures
            r.narrate == narrate,
            r.reason == reason,
    {
        ModelConfig { narrate, reason }
    }
}

/// What can go wrong while writing an explanation.
#[derive(Debug, Clone, PartialEq, Eq)]
pub enum LlmError {
    Process(String),
    Http(String),
    MissingApiKey,
    UnknownProvider(String),
    UnsupportedLanguage(String),
    Io(String),
}

impl LlmError {
    /// The error as a sentence.
    pub fn message(&self) -> (r: String)
        ensures
            r@ == spec_llm_message(*self),
    {
        let (prefix, detail) = match self {
            LlmError::Process(d) => ("provider process failed: ", d.as_str()),
            LlmError::Http(d) => ("http error: ", d.as_str()),
            LlmError::MissingApiKey => ("missing ANTHROPIC_API_KEY", ""),
            LlmError::UnknownProvider(d) => ("unknown provider: ", d.as_str()),
            LlmError::UnsupportedLanguage(d) => ("unsupported language: ", d.as_str()),
            LlmError::Io(d) => ("io: ", d.as_str()),
        };
        let mut out: Vec<char> = Vec::new();
        crate::text::push_str(&mut out, prefix);
        crate::text::push_str(&mut out, detail);
        crate::text::string_from_chars(&out)
    }
}

pub open spec fn spec_llm_message(e: LlmError) -> Seq<char> {
    match e {
        LlmError::Process(d) => "provider process failed: "@ + d@,
        LlmError::Http(d) => "http error: "@ + d@,
        LlmError::MissingApiKey => "missing ANTHROPIC_API_KEY"@ + ""@,
        LlmError::UnknownProvider(d) => "unknown provider: "@ + d@,
        LlmError::UnsupportedLanguage(d) => "unsupported language: "@ + d@,
        LlmError::Io(d) => "io: "@ + d@,
    }
}

} // verus!

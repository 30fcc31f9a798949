use kibitz::lang::{supported_languages, Language, LlmError};
use kibitz::prompt::{qa_system_prompt, qa_transcript_prompt, system_blocks, system_prompt, user_prompt};
use kibitz::lang::Turn;

#[test]
fn system_prompt_states_the_prohibitions() {
    for lang in [Language::En, Language::Ja] {
        let prompt = system_prompt(lang);
        assert!(prompt.contains("played.classification"), "{lang:?}");
        assert!(prompt.contains("counterfactual.pv"), "{lang:?}");
        assert!(prompt.contains("static_diff.changes"), "{lang:?}");
        assert!(prompt.contains("long_pv"), "{lang:?}");
    }
}

#[test]
fn glossary_is_present_for_ja_and_absent_for_en() {
    let ja = system_prompt(Language::Ja);
    assert!(ja.contains("用語対応表"));
    assert!(ja.contains("フォーク"));
    assert!(ja.contains("ディスカバードアタック"));
    assert!(ja.contains("バックランク"));
    assert!(ja.contains("パスポーン"));
    assert!(ja.contains("クイーン"));
    assert!(ja.contains("ナイト"));
    assert!(ja.contains("ビショップ"));

    let en = system_prompt(Language::En);
    assert!(!en.contains("Glossary"));
    assert!(!en.contains("discovered_attack"));

    assert!(Language::Ja.needs_glossary());
    assert!(!Language::En.needs_glossary());
}

#[test]
fn system_prompt_is_distinct_and_non_empty_per_language() {
    let en = system_prompt(Language::En);
    let ja = system_prompt(Language::Ja);
    assert!(!en.trim().is_empty());
    assert!(!ja.trim().is_empty());
    assert_ne!(en, ja);
}

#[test]
fn system_blocks_join_back_into_system_prompt() {
    for lang in [Language::En, Language::Ja] {
        assert_eq!(system_blocks(lang).join("\n\n"), system_prompt(lang));
    }
    assert_eq!(system_blocks(Language::En).len(), 1);
    assert_eq!(system_blocks(Language::Ja).len(), 2);
}

#[test]
fn qa_system_prompt_extends_the_explanation_prompt() {
    for lang in [Language::En, Language::Ja] {
        let base = system_prompt(lang);
        let qa = qa_system_prompt(lang);
        assert!(qa.starts_with(&base));
        assert!(qa.len() > base.len());
    }
}

#[test]
fn user_prompt_carries_the_context_json() {
    let json = "{\"played\":{\"san\":\"Nf3\"}}";
    for lang in [Language::En, Language::Ja] {
        let prompt = user_prompt(json, lang);
        assert!(prompt.contains("```json"));
        assert!(prompt.contains(json));
    }
    assert_ne!(user_prompt(json, Language::En), user_prompt(json, Language::Ja));
}

#[test]
fn qa_transcript_includes_history_and_question() {
    let history = vec![
        Turn { role: "user".into(), content: "Why not Nf3?".into() },
        Turn { role: "assistant".into(), content: "Because the engine's line continues ...".into() },
    ];
    let prompt = qa_transcript_prompt(Some("{}"), &history, "What about Bxf7+?", Language::En);
    assert!(prompt.contains("Why not Nf3?"));
    assert!(prompt.contains("Because the engine's line continues ..."));
    assert!(prompt.contains("What about Bxf7+?"));
    assert!(prompt.contains("```json"));
    assert!(prompt.contains("\nYou: Because"));
    assert!(prompt.contains("\nUser: Why not"));

    let ja = qa_transcript_prompt(Some("{}"), &history, "Bxf7+ はどうですか？", Language::Ja);
    assert!(ja.contains("ユーザーからの新しい質問"));
}

#[test]
fn language_codes_parse_with_regional_tags() {
    assert_eq!(Language::parse("en"), Some(Language::En));
    assert_eq!(Language::parse("ja-JP"), Some(Language::Ja));
    assert_eq!(Language::parse("JA_jp"), Some(Language::Ja));
    assert_eq!(Language::parse("EN"), Some(Language::En));
    assert_eq!(Language::parse("fr"), None);
    assert_eq!(Language::parse(""), None);
    assert_eq!(Language::Ja.code(), "ja");
    assert_eq!(Language::Ja.native_name(), "日本語");
    assert_eq!(supported_languages().len(), 2);
}

#[test]
fn errors_read_as_sentences() {
    assert_eq!(LlmError::UnsupportedLanguage("fr".into()).message(), "unsupported language: fr");
    assert_eq!(LlmError::MissingApiKey.message(), "missing ANTHROPIC_API_KEY");
}

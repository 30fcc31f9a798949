use kibitz::json::{canonical, Json};
use kibitz::lang::{Language, Turn};
use kibitz::messages::{qa_messages, request_body, system_blocks};
use kibitz::prompt;

fn ephemeral() -> Json {
    Json::Object(vec![("type".to_string(), Json::Str("ephemeral".to_string()))])
}

#[test]
fn cache_control_goes_on_the_last_system_block_only() {
    let blocks = system_blocks(&prompt::system_blocks(Language::Ja));
    assert_eq!(blocks.len(), 2);
    assert!(blocks[0].get("cache_control").is_none());
    assert_eq!(blocks[1].get("cache_control").map(canonical), Some(canonical(&ephemeral())));
    assert!(blocks[1].get("text").and_then(Json::as_str).unwrap().contains("用語対応表"));

    let en = system_blocks(&prompt::system_blocks(Language::En));
    assert_eq!(en.len(), 1);
    assert_eq!(en[0].get("cache_control").map(canonical), Some(canonical(&ephemeral())));
}

#[test]
fn a_follow_up_carries_the_history_between_context_and_question() {
    let history = vec![
        Turn { role: "user".into(), content: "Why not Nf3?".into() },
        Turn { role: "assistant".into(), content: "Because ...".into() },
        Turn { role: "system".into(), content: "odd".into() },
    ];
    let messages = qa_messages("the context", &history, "And Bxf7+?");
    let text: Vec<String> = messages.iter().map(canonical).collect();
    assert_eq!(
        text,
        vec![
            r#"{"content":"the context","role":"user"}"#,
            r#"{"content":"Why not Nf3?","role":"user"}"#,
            r#"{"content":"Because ...","role":"assistant"}"#,
            r#"{"content":"odd","role":"user"}"#,
            r#"{"content":"And Bxf7+?","role":"user"}"#,
        ]
    );
}

#[test]
fn the_request_streams_with_a_token_limit() {
    let body = request_body("m1", system_blocks(&["sys"]), qa_messages("c", &Vec::new(), "q"));
    assert_eq!(
        canonical(&body),
        r#"{"max_tokens":4096,"messages":[{"content":"c","role":"user"},{"content":"q","role":"user"}],"model":"m1","stream":true,"system":[{"cache_control":{"type":"ephemeral"},"text":"sys","type":"text"}]}"#
    );
}

use kibitz::json::{canonical, context_hash, pretty_context, stable_digest, Json};
use kibitz::lang::Language;

fn num(n: i64) -> Json {
    Json::Number(n.to_string())
}

fn obj(members: Vec<(&str, Json)>) -> Json {
    Json::Object(members.into_iter().map(|(k, v)| (k.to_string(), v)).collect())
}

fn fixture(san: &str) -> Json {
    obj(vec![
        ("played", obj(vec![("san", Json::Str(san.into())), ("delta", Json::Number("-0.41".into()))])),
        ("position", obj(vec![("fen", Json::Str("r1bqkbnr/pppp1ppp/2n5/4p3/4P3/5N2/PPPP1PPP/RNBQKB1R w KQkq - 2 3".into()))])),
        ("candidates", Json::Array(vec![Json::Null, Json::Bool(true)])),
    ])
}

#[test]
fn stable_digest_ignores_map_iteration_order() {
    let keys = ["en", "ja", "de", "fr", "es", "it", "pt", "nl", "sv", "pl", "ru", "zh", "ko", "tr"];
    let forward = Json::Object(keys.iter().map(|k| (k.to_string(), Json::Str(format!("explanation for {k}")))).collect());
    let backward =
        Json::Object(keys.iter().rev().map(|k| (k.to_string(), Json::Str(format!("explanation for {k}")))).collect());
    assert_eq!(stable_digest(&forward), stable_digest(&backward));
}

#[test]
fn canonical_sorts_nested_object_keys() {
    let value = obj(vec![
        ("z", obj(vec![("b", num(1)), ("a", obj(vec![("y", num(2)), ("x", num(3))]))])),
        ("a", Json::Array(vec![obj(vec![("n", num(1)), ("m", num(2))])])),
    ]);
    assert_eq!(canonical(&value), r#"{"a":[{"m":2,"n":1}],"z":{"a":{"x":3,"y":2},"b":1}}"#);
}

#[test]
fn strings_are_escaped_as_json() {
    let value = Json::Str("a\"b\\c\nd\te\u{1}é".into());
    assert_eq!(canonical(&value), "\"a\\\"b\\\\c\\nd\\te\\u0001é\"");
}

#[test]
fn the_context_is_shown_indented_in_key_order() {
    let value = obj(vec![("b", Json::Array(vec![num(1), num(2)])), ("a", obj(vec![])), ("c", Json::Array(vec![]))]);
    assert_eq!(pretty_context(&value), "{\n  \"a\": {},\n  \"b\": [\n    1,\n    2\n  ],\n  \"c\": []\n}");
}

#[test]
fn context_hash_is_stable_across_calls() {
    let a = context_hash(fixture("Nxe4"), "haiku-4-5", Language::En);
    let b = context_hash(fixture("Nxe4"), "haiku-4-5", Language::En);
    assert_eq!(a, b);
    assert_eq!(a.len(), 64);
    assert!(a.chars().all(|c| c.is_ascii_hexdigit()));
}

#[test]
fn context_hash_changes_with_model_and_language() {
    let base = context_hash(fixture("Nxe4"), "haiku-4-5", Language::En);
    assert_ne!(base, context_hash(fixture("Nxe4"), "opus-5", Language::En));
    assert_ne!(base, context_hash(fixture("Nxe4"), "haiku-4-5", Language::Ja));
    assert_ne!(context_hash(fixture("Nxe4"), "opus-5", Language::En), context_hash(fixture("Nxe4"), "opus-5", Language::Ja));
}

#[test]
fn context_hash_changes_with_the_context() {
    assert_ne!(
        context_hash(fixture("Nxe4"), "haiku-4-5", Language::En),
        context_hash(fixture("Nf3"), "haiku-4-5", Language::En)
    );
}

#[test]
fn the_digest_is_sha256_of_the_canonical_text() {
    // SHA-256 of the two bytes `{}`.
    assert_eq!(stable_digest(&obj(vec![])), "44136fa355b3678a1146ad16f7e8649e94fb4fc21fe77e8310c060f61caaff8a");
}

use kibitz::api::{api_error_of, node_not_found, parse_lang, session_not_found, ApiError, EngineHealth};
use kibitz::engine::EngineError;
use kibitz::lang::Language;
use kibitz::pipeline::PipelineError;

#[test]
fn health_reports_the_truth() {
    let ok = EngineHealth::ok("/usr/bin/stockfish".into(), "Stockfish 17".into());
    assert!(ok.ok);
    assert_eq!(ok.engine.as_deref(), Some("Stockfish 17"));
    assert_eq!(ok.error, None);
    let down = EngineHealth::unavailable("/nope".into(), "failed to spawn".into());
    assert!(!down.ok);
    assert_eq!(down.engine, None);
    assert_eq!(down.stockfish_path, "/nope");
    assert_eq!(down.error.as_deref(), Some("failed to spawn"));
}

#[test]
fn pipeline_failures_map_to_statuses() {
    let cancelled = api_error_of(&PipelineError::Engine(EngineError::Cancelled));
    assert_eq!((cancelled.status, cancelled.message.as_str()), (409, "cancelled"));
    assert_eq!(api_error_of(&PipelineError::NodeNotFound(3)), node_not_found());
    let other = api_error_of(&PipelineError::Position("bad".into()));
    assert_eq!(other, ApiError::new(500, "invalid position: bad".into()));
    assert_eq!(session_not_found().status, 404);
}

#[test]
fn languages_are_read_from_requests() {
    assert_eq!(parse_lang(None), Ok(Language::En));
    assert_eq!(parse_lang(Some("")), Ok(Language::En));
    assert_eq!(parse_lang(Some("ja-JP")), Ok(Language::Ja));
    let err = parse_lang(Some("xx")).err().unwrap();
    assert_eq!(err.status, 400);
    assert_eq!(err.message, "unsupported language: xx");
}

use kibitz::cli::{cli_args, exit_failure_message, start_failure_message, wait_failure_message};
use kibitz::lang::Language;
use kibitz::position::normalize_fen;

#[test]
fn the_client_is_started_in_print_mode_with_json_lines_and_no_tool_servers() {
    let args = cli_args("model-x", "SYSTEM", Language::Ja);
    let expected = [
        "-p",
        "--output-format",
        "stream-json",
        "--verbose",
        "--include-partial-messages",
        "--model",
        "model-x",
        "--system-prompt",
        "SYSTEM",
        "--settings",
        "{\"language\":\"Japanese\"}",
        "--strict-mcp-config",
        "--mcp-config",
        "{\"mcpServers\":{}}",
    ];
    assert_eq!(args, expected.iter().map(|s| s.to_string()).collect::<Vec<_>>());
    assert_eq!(cli_args("m", "s", Language::En)[10], "{\"language\":\"English\"}");
}

#[test]
fn process_failures_read_as_sentences() {
    assert_eq!(start_failure_message("bin", "denied"), "could not start `bin`: denied");
    assert_eq!(exit_failure_message("bin", "exit status: 1", "  boom \n"), "`bin` exited with exit status: 1: boom");
    assert_eq!(exit_failure_message("bin", "exit status: 2", " \n"), "`bin` exited with exit status: 2: no stderr");
    assert_eq!(wait_failure_message("bin", "gone"), "could not wait for `bin`: gone");
}

#[test]
fn normalizing_a_fen_twice_is_normalizing_it_once() {
    let fen = "  rnbqkbnr/pppppppp/8/8/4P3/8/PPPP1PPP/RNBQKBNR   b KQkq e3 0 1 ";
    let once = normalize_fen(fen);
    assert_eq!(once, "rnbqkbnr/pppppppp/8/8/4P3/8/PPPP1PPP/RNBQKBNR b KQkq e3");
    assert_eq!(normalize_fen(&once), once);
}

use praude::args::{Format, Invocation};
use praude::env::{parse_u64, parse_usize, run_settings, EnvPair};
use praude::json::{Json, JsonNumber};
use praude::runner::{
    build_append_system_prompt, build_upstream_args, exit_status, prompt_file_request,
    prompt_fits_argv, stream_action, text_output, StreamAction, PSEUDO_PRINT_SYSTEM_PROMPT,
};
use praude::text::{is_blank, join, lines, trim, words};

fn owned_list(items: &[&str]) -> Vec<String> {
    items.iter().map(|s| s.to_string()).collect()
}

fn invocation(append: Option<&str>, schema: Option<&str>, forwarded: &[&str]) -> Invocation {
    Invocation {
        upstream_args: owned_list(forwarded),
        prompt: "p".to_string(),
        format: Format::Text,
        append_system_prompt: append.map(str::to_string),
        settings: Vec::new(),
        json_schema: schema.map(str::to_string),
    }
}

fn pair(current: Option<&str>, legacy: Option<&str>) -> EnvPair {
    EnvPair { current: current.map(str::to_string), legacy: legacy.map(str::to_string) }
}

const SCHEMA_TEXT: &str = "\n\nThe caller provided this JSON Schema for the final answer. Return the final answer as JSON matching this schema, with no surrounding prose unless the user explicitly asks for prose:\n";

#[test]
fn system_prompt_without_extras() {
    assert_eq!(build_append_system_prompt(&invocation(None, None, &[])), PSEUDO_PRINT_SYSTEM_PROMPT);
}

#[test]
fn system_prompt_with_schema_and_callers_prompt() {
    let with_schema = build_append_system_prompt(&invocation(None, Some("{\"type\":\"object\"}"), &[]));
    assert_eq!(
        with_schema,
        format!("{PSEUDO_PRINT_SYSTEM_PROMPT}{SCHEMA_TEXT}{{\"type\":\"object\"}}")
    );
    let both = build_append_system_prompt(&invocation(Some("Be terse."), Some("S"), &[]));
    assert_eq!(both, format!("Be terse.\n\n{PSEUDO_PRINT_SYSTEM_PROMPT}{SCHEMA_TEXT}S"));
}

#[test]
fn upstream_arguments_in_order() {
    let inv = invocation(None, None, &["--model", "opus"]);
    let args = build_upstream_args("/w/settings.json", "do it".to_string(), &inv, "A, B\tC,,");
    let expected = vec![
        "--settings".to_string(),
        "/w/settings.json".to_string(),
        "--dangerously-skip-permissions".to_string(),
        "--disallowedTools".to_string(),
        "A".to_string(),
        "B".to_string(),
        "C".to_string(),
        "--append-system-prompt".to_string(),
        PSEUDO_PRINT_SYSTEM_PROMPT.to_string(),
        "--model".to_string(),
        "opus".to_string(),
        "--".to_string(),
        "do it".to_string(),
    ];
    assert_eq!(args, expected);
}

#[test]
fn no_denied_tools_no_flag() {
    let inv = invocation(None, None, &[]);
    let args = build_upstream_args("s", "x".to_string(), &inv, " , ");
    assert_eq!(
        args,
        owned_list(&[
            "--settings",
            "s",
            "--dangerously-skip-permissions",
            "--append-system-prompt",
            PSEUDO_PRINT_SYSTEM_PROMPT,
            "--",
            "x"
        ])
    );
    let args = build_upstream_args("s", "x".to_string(), &inv, "AskUserQuestion EnterPlanMode ExitPlanMode");
    assert_eq!(&args[3..7], &owned_list(&["--disallowedTools", "AskUserQuestion", "EnterPlanMode", "ExitPlanMode"])[..]);
}

#[test]
fn text_output_trims_trailing_newlines() {
    let r = Json::Object(vec![("result".to_string(), Json::Str("answer\n\n".to_string()))]);
    assert_eq!(text_output(&r), "answer");
    let r = Json::Object(vec![("result".to_string(), Json::Str("a\nb\n".to_string()))]);
    assert_eq!(text_output(&r), "a\nb");
    let r = Json::Object(vec![("result".to_string(), Json::Number(JsonNumber::PosInt(3)))]);
    assert_eq!(text_output(&r), "");
    assert_eq!(text_output(&Json::Null), "");
}

#[test]
fn prompt_length_is_counted_in_characters() {
    assert!(!prompt_fits_argv("héllo", 5));
    assert!(prompt_fits_argv("héllo", 6));
    assert!(prompt_fits_argv("é", 2));
    assert!(!prompt_fits_argv("", 0));
    assert!(prompt_fits_argv("", 1));
}

#[test]
fn prompt_file_request_text() {
    assert_eq!(
        prompt_file_request(".praude.x/prompt.txt"),
        "The complete user request is in @.praude.x/prompt.txt. Read that file and complete the request. Do not ask questions or wait for input."
    );
}

#[test]
fn exit_status_values() {
    assert_eq!(exit_status(true, 5), 0);
    assert_eq!(exit_status(false, 3), 3);
    assert_eq!(exit_status(false, 0), 0);
    assert_eq!(exit_status(false, u32::MAX), -1);
}

#[test]
fn unsigned_numbers_parse_as_std_does() {
    assert_eq!(parse_u64("42"), Some(42));
    assert_eq!(parse_u64("+7"), Some(7));
    assert_eq!(parse_u64("007"), Some(7));
    assert_eq!(parse_u64("18446744073709551615"), Some(u64::MAX));
    for bad in ["", "+", "-1", " 1", "1 ", "18446744073709551616", "1e3", "++1"] {
        assert_eq!(parse_u64(bad), None, "{bad:?}");
        assert_eq!(parse_u64(bad), bad.parse::<u64>().ok());
    }
    assert_eq!(parse_usize("100000"), Some(100_000));
    assert_eq!(parse_usize("x"), None);
}

#[test]
fn env_pair_prefers_the_current_name() {
    assert_eq!(pair(Some("a"), Some("b")).value().as_deref(), Some("a"));
    assert_eq!(pair(None, Some("b")).value().as_deref(), Some("b"));
    assert_eq!(pair(None, None).value(), None);
    assert_eq!(pair(Some("5"), Some("6")).number_u64(), Some(5));
    assert_eq!(pair(Some("five"), Some("6")).number_u64(), Some(6));
    assert_eq!(pair(Some("five"), None).number_usize(), None);
}

#[test]
fn run_settings_defaults() {
    let none = || pair(None, None);
    let s = run_settings(&none(), &none(), &none(), &none(), &none(), &none(), &none());
    assert!(s.trust_cwd);
    assert_eq!(s.arg_max, 100_000);
    assert_eq!(s.timeout_secs, 600);
    assert!(!s.show_tui);
    assert!(!s.keep_log);
    assert_eq!(s.deny_tools, "AskUserQuestion EnterPlanMode ExitPlanMode");
    assert_eq!(s.model, "unknown");
}

#[test]
fn run_settings_from_environment() {
    let s = run_settings(
        &pair(Some("0"), None),
        &pair(None, Some("10")),
        &pair(Some("x"), Some("30")),
        &pair(Some("1"), None),
        &pair(Some("yes"), Some("1")),
        &pair(Some(""), None),
        &pair(None, Some("opus")),
    );
    assert!(!s.trust_cwd);
    assert_eq!(s.arg_max, 10);
    assert_eq!(s.timeout_secs, 30);
    assert!(s.show_tui);
    assert!(!s.keep_log);
    assert_eq!(s.deny_tools, "");
    assert_eq!(s.model, "opus");
    let s = run_settings(
        &pair(Some("false"), None),
        &pair(None, None),
        &pair(None, None),
        &pair(None, None),
        &pair(None, None),
        &pair(None, None),
        &pair(None, None),
    );
    assert!(s.trust_cwd);
}

#[test]
fn text_helpers() {
    assert_eq!(words("a,b  c,"), owned_list(&["a", "b", "c"]));
    assert_eq!(lines("x\r\ny\n\nz"), owned_list(&["x", "y", "", "z"]));
    assert_eq!(lines("x\n"), owned_list(&["x"]));
    assert_eq!(trim("  hi \n"), "hi");
    assert_eq!(join(&owned_list(&["a", "b"]), ", "), "a, b");
    assert!(is_blank(" \t\u{3000}"));
    assert!(!is_blank(" x "));
}

#[test]
fn stream_loop_steps() {
    assert_eq!(stream_action(true, true, true), StreamAction::ReadAgain);
    assert_eq!(stream_action(true, false, true), StreamAction::Finish);
    assert_eq!(stream_action(false, true, true), StreamAction::TimeOut);
    assert_eq!(stream_action(false, false, false), StreamAction::Wait);
}

use praude::args::{
    parse_invocation, parse_invocation_with_stdin, ArgError, FlagName, Format, PromptSource,
};
use praude::cli::{dispatch, home_source, Command, CommandError, HomeSource};

fn strings(items: &[&str]) -> Vec<String> {
    items.iter().map(|s| s.to_string()).collect()
}

#[test]
fn separator_stops_wrapper_option_parsing() {
    let invocation = parse_invocation_with_stdin(
        vec!["--".into(), "--output-format".into(), "json".into()],
        None,
        None,
    )
    .unwrap();

    assert_eq!(invocation.prompt, "--output-format json");
    assert!(matches!(invocation.format, Format::Text));
    assert!(invocation.upstream_args.is_empty());
}

#[test]
fn separator_preserves_dash_p_as_prompt() {
    let invocation =
        parse_invocation_with_stdin(vec!["--".into(), "-p".into()], None, None).unwrap();

    assert_eq!(invocation.prompt, "-p");
    assert!(matches!(invocation.format, Format::Text));
    assert!(invocation.upstream_args.is_empty());
}

#[test]
fn format_names_parse() {
    assert!(matches!(Format::parse("text"), Ok(Format::Text)));
    assert!(matches!(Format::parse("json"), Ok(Format::Json)));
    assert!(matches!(Format::parse("stream-json"), Ok(Format::StreamJson)));
    match Format::parse("xml") {
        Err(e) => {
            assert!(matches!(&e, ArgError::InvalidFormat(v) if v == "xml"));
            assert_eq!(
                e.message(),
                "invalid output format 'xml' (expected text, json, or stream-json)"
            );
        }
        Ok(_) => panic!("xml is no format"),
    }
    assert!(Format::parse("JSON").is_err());
}

#[test]
fn last_argument_is_the_prompt() {
    let p = parse_invocation_with_stdin(strings(&["--model", "opus", "hello"]), None, None)
        .unwrap();
    assert_eq!(p.upstream_args, strings(&["--model", "opus"]));
    assert_eq!(p.prompt, "hello");
    assert!(matches!(p.format, Format::Text));
    assert!(p.settings.is_empty());
    assert!(p.json_schema.is_none());
    assert!(p.append_sources.is_empty());
}

#[test]
fn print_flags_are_dropped() {
    let p = parse_invocation_with_stdin(
        strings(&["-p", "--print", "--include-partial-messages", "--no-session-persistence", "hi"]),
        None,
        None,
    )
    .unwrap();
    assert!(p.upstream_args.is_empty());
    assert_eq!(p.prompt, "hi");
}

#[test]
fn output_format_forms() {
    let p = parse_invocation_with_stdin(strings(&["--output-format", "json", "hi"]), None, None)
        .unwrap();
    assert!(matches!(p.format, Format::Json));
    let p = parse_invocation_with_stdin(strings(&["--output-format=stream-json", "hi"]), None, None)
        .unwrap();
    assert!(matches!(p.format, Format::StreamJson));
    let p = parse_invocation_with_stdin(
        strings(&["--output-format", "json", "--output-format=text", "hi"]),
        None,
        None,
    )
    .unwrap();
    assert!(matches!(p.format, Format::Text));
}

#[test]
fn invalid_output_format_is_refused() {
    let e = parse_invocation_with_stdin(strings(&["--output-format", "xml", "hi"]), None, None)
        .unwrap_err();
    assert!(matches!(&e.error, ArgError::InvalidFormat(v) if v == "xml"));
    assert!(e.files_read_first.is_empty());
    let e = parse_invocation_with_stdin(strings(&["--output-format=yaml", "hi"]), None, None)
        .unwrap_err();
    assert!(matches!(&e.error, ArgError::InvalidFormat(v) if v == "yaml"));
}

#[test]
fn missing_values_are_refused() {
    let cases = [
        ("--output-format", FlagName::OutputFormat),
        ("--settings", FlagName::Settings),
        ("--json-schema", FlagName::JsonSchema),
        ("--input-format", FlagName::InputFormat),
        ("--append-system-prompt", FlagName::AppendSystemPrompt),
        ("--append-system-prompt-file", FlagName::AppendSystemPromptFile),
    ];
    for (flag, name) in cases {
        let e = parse_invocation_with_stdin(strings(&["hi", flag]), None, None).unwrap_err();
        assert!(matches!(e.error, ArgError::MissingValue(n) if n == name));
        assert_eq!(e.error.message(), format!("{flag} requires a value"));
    }
}

#[test]
fn settings_and_schema_are_collected() {
    let p = parse_invocation_with_stdin(
        strings(&[
            "--settings",
            "a.json",
            "--settings={\"x\":1}",
            "--json-schema",
            "first",
            "--json-schema=second",
            "hi",
        ]),
        None,
        None,
    )
    .unwrap();
    assert_eq!(p.settings, strings(&["a.json", "{\"x\":1}"]));
    assert_eq!(p.json_schema.as_deref(), Some("second"));
    assert!(p.upstream_args.is_empty());
}

#[test]
fn input_format_text_only() {
    let p = parse_invocation_with_stdin(
        strings(&["--input-format", "text", "--input-format=text", "hi"]),
        None,
        None,
    )
    .unwrap();
    assert_eq!(p.prompt, "hi");
    let e = parse_invocation_with_stdin(strings(&["--input-format", "stream-json", "hi"]), None, None)
        .unwrap_err();
    assert!(matches!(&e.error, ArgError::UnsupportedInputFormat(v) if v == "stream-json"));
    assert_eq!(
        e.error.message(),
        "--input-format=stream-json cannot be emulated without native batch mode"
    );
    let e = parse_invocation_with_stdin(strings(&["--input-format=json", "hi"]), None, None)
        .unwrap_err();
    assert!(matches!(&e.error, ArgError::UnsupportedInputFormat(v) if v == "json"));
}

#[test]
fn appended_prompts_join_with_blank_lines() {
    let p = parse_invocation_with_stdin(
        strings(&[
            "--append-system-prompt",
            "A",
            "--append-system-prompt-file",
            "f.txt",
            "--append-system-prompt=B",
            "--append-system-prompt-file=g.txt",
            "hi",
        ]),
        None,
        None,
    )
    .unwrap();
    assert!(matches!(&p.append_sources[0], PromptSource::Text(t) if t == "A"));
    assert!(matches!(&p.append_sources[1], PromptSource::File(f) if f == "f.txt"));
    assert_eq!(p.prompt_files(), strings(&["f.txt", "g.txt"]));
    let inv = p.into_invocation(strings(&["F", "G"]));
    assert_eq!(inv.append_system_prompt.as_deref(), Some("A\n\nF\n\nB\n\nG"));
    assert_eq!(inv.prompt, "hi");
}

#[test]
fn no_appended_prompt_gives_none() {
    let p = parse_invocation_with_stdin(strings(&["--model", "m", "hi"]), None, None).unwrap();
    let inv = p.into_invocation(Vec::new());
    assert!(inv.append_system_prompt.is_none());
    assert_eq!(inv.upstream_args, strings(&["--model", "m"]));
    assert_eq!(inv.prompt, "hi");
    assert!(matches!(inv.format, Format::Text));
}

#[test]
fn stdin_prompt_forwards_every_argument() {
    let p = parse_invocation_with_stdin(
        strings(&["--model", "x", "--", "a"]),
        Some("from stdin".to_string()),
        None,
    )
    .unwrap();
    assert_eq!(p.upstream_args, strings(&["--model", "x", "--", "a"]));
    assert_eq!(p.prompt, "from stdin");
}

#[test]
fn separator_splits_forwarded_arguments_from_prompt() {
    let p = parse_invocation_with_stdin(
        strings(&["--output-format", "json", "--model", "m", "--", "hello", "world"]),
        None,
        None,
    )
    .unwrap();
    assert!(matches!(p.format, Format::Json));
    assert_eq!(p.upstream_args, strings(&["--model", "m"]));
    assert_eq!(p.prompt, "hello world");
}

#[test]
fn no_prompt_is_a_usage_error() {
    let e = parse_invocation_with_stdin(Vec::new(), None, None).unwrap_err();
    assert!(matches!(e.error, ArgError::Usage));
    assert_eq!(
        e.error.message(),
        "usage: praude [upstream options] \"prompt\"   or:   echo prompt | praude [upstream options]"
    );
    let e = parse_invocation_with_stdin(strings(&["-p"]), None, None).unwrap_err();
    assert!(matches!(e.error, ArgError::Usage));
}

#[test]
fn blank_prompt_is_refused() {
    let e = parse_invocation_with_stdin(strings(&["  \t "]), None, None).unwrap_err();
    assert!(matches!(e.error, ArgError::EmptyPrompt));
    assert_eq!(e.error.message(), "prompt is empty");
    let e = parse_invocation_with_stdin(strings(&["--"]), None, None).unwrap_err();
    assert!(matches!(e.error, ArgError::EmptyPrompt));
    let e = parse_invocation_with_stdin(Vec::new(), Some("\n\n".to_string()), None).unwrap_err();
    assert!(matches!(e.error, ArgError::EmptyPrompt));
}

#[test]
fn environment_format_is_the_default() {
    let p = parse_invocation_with_stdin(strings(&["hi"]), None, Some("json".to_string())).unwrap();
    assert!(matches!(p.format, Format::Json));
    let p = parse_invocation_with_stdin(
        strings(&["--output-format", "text", "hi"]),
        None,
        Some("stream-json".to_string()),
    )
    .unwrap();
    assert!(matches!(p.format, Format::Text));
    let e = parse_invocation_with_stdin(strings(&["hi"]), None, Some("bad".to_string()))
        .unwrap_err();
    assert!(matches!(&e.error, ArgError::InvalidFormat(v) if v == "bad"));
}

#[test]
fn empty_stdin_counts_as_no_prompt() {
    let p = parse_invocation(strings(&["hi"]), Some(String::new()), None).unwrap();
    assert_eq!(p.prompt, "hi");
    let p = parse_invocation(strings(&["hi"]), Some("piped".to_string()), None).unwrap();
    assert_eq!(p.prompt, "piped");
    assert_eq!(p.upstream_args, strings(&["hi"]));
}

#[test]
fn files_before_a_refusal_are_listed() {
    let e = parse_invocation_with_stdin(
        strings(&["--append-system-prompt-file", "a.txt", "--output-format", "xml", "x"]),
        None,
        None,
    )
    .unwrap_err();
    assert!(matches!(&e.error, ArgError::InvalidFormat(v) if v == "xml"));
    assert_eq!(e.files_read_first, strings(&["a.txt"]));
    let e = parse_invocation_with_stdin(strings(&["--append-system-prompt-file=b.txt"]), None, None)
        .unwrap_err();
    assert!(matches!(e.error, ArgError::Usage));
    assert_eq!(e.files_read_first, strings(&["b.txt"]));
}

#[test]
fn dispatch_recognises_hook_commands() {
    assert!(matches!(dispatch(strings(&["__hook-write", "p.json"])), Ok(Command::HookWrite(p)) if p == "p.json"));
    assert!(matches!(dispatch(strings(&["__hook-control", "Elicitation"])), Ok(Command::HookControl(e)) if e == "Elicitation"));
    assert!(matches!(dispatch(strings(&["hi", "__hook-write"])), Ok(Command::Run(a)) if a == strings(&["hi", "__hook-write"])));
    assert!(matches!(dispatch(Vec::new()), Ok(Command::Run(a)) if a.is_empty()));
}

#[test]
fn dispatch_refuses_wrong_hook_arity() {
    let e = dispatch(strings(&["__hook-write"])).unwrap_err();
    assert_eq!(e, CommandError::HookWriteUsage);
    assert_eq!(e.message(), "usage: praude __hook-write <path>");
    let e = dispatch(strings(&["__hook-control", "a", "b"])).unwrap_err();
    assert_eq!(e, CommandError::HookControlUsage);
    assert_eq!(e.message(), "usage: praude __hook-control <event>");
}

#[test]
fn home_directory_sources() {
    assert_eq!(home_source(true, true, true, true), HomeSource::Home);
    assert_eq!(home_source(false, false, true, true), HomeSource::Unknown);
    assert_eq!(home_source(false, true, true, true), HomeSource::UserProfile);
    assert_eq!(home_source(false, true, false, true), HomeSource::DriveAndPath);
    assert_eq!(home_source(false, true, false, false), HomeSource::Unknown);
}

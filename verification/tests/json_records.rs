use praude::hooks::{
    add_caller_settings, deep_merge, hook_command, hook_control_response, hook_invocation, hook_parse_failure,
    merge_user_settings, merge_wrapper_hooks, shell_quote, wrapper_settings, Platform,
    SettingsError,
};
use praude::json::{Json, JsonNumber};
use praude::transcript::{
    aggregate, build_init_message, collect_tools, find_version, init_message_with,
    is_tool_result_user, summarize, text_from_content, to_sdk_message, to_sdk_message_with,
    StreamState,
};
use praude::trust::{mark_trusted, TrustError};
use praude::usage::empty_usage;
use serde_json::Value;

fn parse(text: &str) -> Json {
    let v: Value = serde_json::from_str(text).expect("test JSON");
    to_json(&v)
}

fn to_json(v: &Value) -> Json {
    match v {
        Value::Null => Json::Null,
        Value::Bool(b) => Json::Bool(*b),
        Value::Number(n) => {
            if let Some(u) = n.as_u64() {
                Json::Number(JsonNumber::PosInt(u))
            } else if let Some(i) = n.as_i64() {
                Json::Number(JsonNumber::NegInt(i))
            } else {
                Json::Number(JsonNumber::Float(n.to_string()))
            }
        }
        Value::String(s) => Json::Str(s.clone()),
        Value::Array(items) => Json::Array(items.iter().map(to_json).collect()),
        Value::Object(map) => {
            Json::Object(map.iter().map(|(k, v)| (k.clone(), to_json(v))).collect())
        }
    }
}

fn to_value(j: &Json) -> Value {
    match j {
        Json::Null => Value::Null,
        Json::Bool(b) => Value::Bool(*b),
        Json::Number(JsonNumber::PosInt(u)) => Value::from(*u),
        Json::Number(JsonNumber::NegInt(i)) => Value::from(*i),
        Json::Number(JsonNumber::Float(t)) => serde_json::from_str(t).expect("number text"),
        Json::Str(s) => Value::String(s.clone()),
        Json::Array(items) => Value::Array(items.iter().map(to_value).collect()),
        Json::Object(es) => {
            let mut map = serde_json::Map::new();
            for (k, v) in es {
                map.insert(k.clone(), to_value(v));
            }
            Value::Object(map)
        }
    }
}

fn same(j: &Json, expected: &str) {
    let want: Value = serde_json::from_str(expected).expect("expected JSON");
    assert_eq!(to_value(j), want);
}

fn lines_of(texts: &[&str]) -> Vec<Option<Json>> {
    texts
        .iter()
        .map(|t| serde_json::from_str::<Value>(t).ok().map(|v| to_json(&v)))
        .collect()
}

// ----- hooks -----------------------------------------------------------------

#[test]
fn shell_quote_posix_and_powershell() {
    assert_eq!(shell_quote("it's", Platform::Posix), "'it'\\''s'");
    assert_eq!(shell_quote("it's", Platform::Windows), "'it''s'");
    assert_eq!(shell_quote("", Platform::Posix), "''");
    assert_eq!(shell_quote("a b", Platform::Posix), "'a b'");
}

#[test]
fn hook_invocation_quotes_every_part() {
    let args = vec!["__hook-write".to_string(), "/tmp/a b/stop.json".to_string()];
    assert_eq!(
        hook_invocation("/usr/bin/praude", &args, Platform::Posix),
        "'/usr/bin/praude' '__hook-write' '/tmp/a b/stop.json'"
    );
    assert_eq!(
        hook_invocation("C:\\p.exe", &args, Platform::Windows),
        "& 'C:\\p.exe' '__hook-write' '/tmp/a b/stop.json'"
    );
}

#[test]
fn hook_command_shapes() {
    same(
        &hook_command("run", Platform::Posix),
        r#"{"type":"command","command":"run","timeout":10}"#,
    );
    same(
        &hook_command("run", Platform::Windows),
        r#"{"type":"command","command":"run","timeout":10,"shell":"powershell"}"#,
    );
}

#[test]
fn wrapper_settings_hook_every_event() {
    let w = wrapper_settings("/bin/p", "/w/start.json", "/w/stop.json", Platform::Posix);
    let start = "'/bin/p' '__hook-write' '/w/start.json'";
    let stop = "'/bin/p' '__hook-write' '/w/stop.json'";
    let perm = "'/bin/p' '__hook-control' 'PermissionRequest'";
    let eli = "'/bin/p' '__hook-control' 'Elicitation'";
    let m = |c: &str| format!(r#"[{{"hooks":[{{"type":"command","command":"{c}","timeout":10}}]}}]"#);
    let expected = format!(
        r#"{{"hooks":{{"UserPromptSubmit":{},"Stop":{},"StopFailure":{},"PermissionRequest":{},"Elicitation":{}}}}}"#,
        m(start),
        m(stop),
        m(stop),
        m(perm),
        m(eli)
    );
    same(&w, &expected);
}

#[test]
fn deep_merge_merges_objects_and_replaces_the_rest() {
    let mut t = parse(r#"{"a":{"x":1,"y":2},"b":[1],"c":"keep"}"#);
    deep_merge(&mut t, parse(r#"{"a":{"y":3,"z":4},"b":[2,3],"d":null}"#));
    same(&t, r#"{"a":{"x":1,"y":3,"z":4},"b":[2,3],"c":"keep","d":null}"#);
    let mut t = parse(r#"[1,2]"#);
    deep_merge(&mut t, parse(r#"{"k":1}"#));
    same(&t, r#"{"k":1}"#);
    let mut t = parse(r#"{"k":1}"#);
    deep_merge(&mut t, parse("5"));
    same(&t, "5");
}

#[test]
fn wrapper_hooks_follow_the_callers_own() {
    let wrapper = wrapper_settings("/bin/p", "/s", "/t", Platform::Posix);
    let user = parse(r#"{"model":"x","hooks":{"Stop":[{"hooks":[{"type":"command","command":"mine"}]}],"Other":[1]}}"#);
    let merged = merge_wrapper_hooks(user, &wrapper).unwrap();
    let v = to_value(&merged);
    assert_eq!(v["model"], "x");
    let stop = v["hooks"]["Stop"].as_array().unwrap();
    assert_eq!(stop.len(), 2);
    assert_eq!(stop[0]["hooks"][0]["command"], "mine");
    assert_eq!(stop[1]["hooks"][0]["command"], "'/bin/p' '__hook-write' '/t'");
    assert_eq!(v["hooks"]["Other"], serde_json::from_str::<Value>("[1]").unwrap());
    for event in ["UserPromptSubmit", "StopFailure", "PermissionRequest", "Elicitation"] {
        assert_eq!(v["hooks"][event].as_array().unwrap().len(), 1);
    }
}

#[test]
fn settings_errors_are_reported() {
    let wrapper = wrapper_settings("/bin/p", "/s", "/t", Platform::Posix);
    assert!(matches!(merge_wrapper_hooks(parse("[1]"), &wrapper), Err(SettingsError::RootNotObject)));
    assert!(matches!(
        merge_wrapper_hooks(parse(r#"{"hooks":[]}"#), &wrapper),
        Err(SettingsError::HooksNotObject)
    ));
    assert!(matches!(
        merge_wrapper_hooks(parse(r#"{"hooks":{"Stop":{}}}"#), &wrapper),
        Err(SettingsError::EventNotArray(e)) if e == "Stop"
    ));
    assert!(matches!(
        merge_wrapper_hooks(parse("{}"), &parse("{}")),
        Err(SettingsError::WrapperHooksMalformed)
    ));
}

#[test]
fn user_settings_merge_into_the_wrapper_settings() {
    let wrapper = wrapper_settings("/bin/p", "/s", "/t", Platform::Posix);
    let mut settings = wrapper_settings("/bin/p", "/s", "/t", Platform::Posix);
    merge_user_settings(&mut settings, parse(r#"{"env":{"A":"1"}}"#), &wrapper).unwrap();
    let v = to_value(&settings);
    assert_eq!(v["env"]["A"], "1");
    assert_eq!(v["hooks"]["Stop"].as_array().unwrap().len(), 1);
    let before = to_value(&settings);
    assert!(merge_user_settings(&mut settings, parse("true"), &wrapper).is_err());
    assert_eq!(to_value(&settings), before);
}

#[test]
fn hook_control_answers() {
    same(
        &hook_control_response("PermissionRequest"),
        r#"{"hookSpecificOutput":{"hookEventName":"PermissionRequest","decision":{"behavior":"allow"}}}"#,
    );
    same(
        &hook_control_response("Elicitation"),
        r#"{"reason":"MCP elicitation requires interactive input; praude declined it to stay unattended.","hookSpecificOutput":{"hookEventName":"Elicitation","action":"decline"}}"#,
    );
    same(&hook_control_response("Stop"), "{}");
}

#[test]
fn hook_parse_failure_keeps_the_input() {
    same(
        &hook_parse_failure("expected value", "not json"),
        r#"{"hook_parse_error":"expected value","raw_stdin":"not json"}"#,
    );
}

// ----- usage -----------------------------------------------------------------

const EMPTY_USAGE: &str = r#"{"input_tokens":0,"cache_creation_input_tokens":0,"cache_read_input_tokens":0,"output_tokens":0,"server_tool_use":{"web_search_requests":0,"web_fetch_requests":0},"service_tier":"standard","cache_creation":{"ephemeral_1h_input_tokens":0,"ephemeral_5m_input_tokens":0},"inference_geo":"","iterations":[]}"#;

#[test]
fn empty_usage_is_all_zero() {
    same(&empty_usage(), EMPTY_USAGE);
}

fn usage_after(usages: &[&str]) -> Value {
    let lines: Vec<String> = usages
        .iter()
        .enumerate()
        .map(|(i, u)| format!(r#"{{"type":"assistant","message":{{"id":"m{i}","content":"x","usage":{u}}}}}"#))
        .collect();
    let refs: Vec<&str> = lines.iter().map(|l| l.as_str()).collect();
    to_value(&aggregate(&parse("{}"), &lines_of(&refs)))["usage"].clone()
}

#[test]
fn usage_accumulates() {
    let u = r#"{"input_tokens":5,"output_tokens":7,"cache_read_input_tokens":1.5,"cache_creation":{"ephemeral_5m_input_tokens":3,"other":1},"server_tool_use":{"web_search_requests":2},"service_tier":"priority","speed":"fast","inference_geo":7,"iterations":[{"a":1}]}"#;
    let expected: Value = serde_json::from_str(
        r#"{"input_tokens":10,"cache_creation_input_tokens":0,"cache_read_input_tokens":0,"output_tokens":14,"server_tool_use":{"web_search_requests":4,"web_fetch_requests":0},"service_tier":"priority","speed":"fast","cache_creation":{"ephemeral_1h_input_tokens":0,"ephemeral_5m_input_tokens":6,"other":2},"inference_geo":"","iterations":[{"a":1},{"a":1}]}"#,
    )
    .unwrap();
    assert_eq!(usage_after(&[u, u]), expected);
    let empty: Value = serde_json::from_str(EMPTY_USAGE).unwrap();
    assert_eq!(usage_after(&["[1]", "null"]), empty);
    assert_eq!(usage_after(&[r#"{"output_tokens":"9","input_tokens":-4}"#])["input_tokens"], -4);
    assert_eq!(usage_after(&[r#"{"output_tokens":"9"}"#])["output_tokens"], 0);
}

// ----- transcript --------------------------------------------------------------

#[test]
fn text_from_content_forms() {
    assert_eq!(text_from_content(&parse(r#""plain""#)), "plain");
    assert_eq!(
        text_from_content(&parse(
            r#"[{"type":"text","text":"a"},{"type":"tool_use","name":"x"},{"type":"text","text":"b"}]"#
        )),
        "ab"
    );
    assert_eq!(text_from_content(&parse("null")), "");
}

#[test]
fn tool_result_users_are_recognised() {
    assert!(is_tool_result_user(&parse(
        r#"{"type":"user","message":{"content":[{"type":"text"},{"type":"tool_result"}]}}"#
    )));
    assert!(!is_tool_result_user(&parse(r#"{"type":"user","message":{"content":"hi"}}"#)));
    assert!(!is_tool_result_user(&parse(
        r#"{"type":"assistant","message":{"content":[{"type":"tool_result"}]}}"#
    )));
}

const TRANSCRIPT: [&str; 6] = [
    r#"{"type":"user","sessionId":"s1","timestamp":"2024-01-01T00:00:00Z","message":{"content":"go"}}"#,
    r#"{"type":"assistant","timestamp":"2024-01-01T00:00:01Z","message":{"id":"m1","content":[{"type":"text","text":"Hel"}],"stop_reason":"tool_use","usage":{"input_tokens":3,"output_tokens":4}}}"#,
    "not json",
    r#"{"type":"user","timestamp":"2024-01-01T00:00:01.200Z","message":{"content":[{"type":"tool_result"}]}}"#,
    r#"{"type":"assistant","timestamp":"2024-01-01T00:00:01.500Z","message":{"id":"m1","content":"lo","stop_reason":"end_turn","usage":{"input_tokens":3,"output_tokens":4}}}"#,
    r#"{"type":"system","session_id":"s2"}"#,
];

#[test]
fn aggregate_summarises_the_transcript() {
    let items = lines_of(&TRANSCRIPT);
    let r = to_value(&aggregate(&parse(r#"{"session_id":"s0"}"#), &items));
    assert_eq!(r["type"], "result");
    assert_eq!(r["subtype"], "success");
    assert_eq!(r["is_error"], false);
    assert_eq!(r["result"], "Hello");
    assert_eq!(r["num_turns"], 2);
    assert_eq!(r["stop_reason"], "end_turn");
    assert_eq!(r["session_id"], "s2");
    assert_eq!(r["duration_ms"], 1500);
    assert_eq!(r["duration_api_ms"], 1500);
    assert_eq!(r["usage"]["input_tokens"], 3);
    assert_eq!(r["usage"]["output_tokens"], 4);
    assert_eq!(r["total_cost_usd"], 0);
    assert_eq!(r["terminal_reason"], "completed");
    assert_eq!(r["uuid"].as_str().unwrap().len(), 36);
}

#[test]
fn aggregate_prefers_the_last_assistant_message() {
    let items = lines_of(&TRANSCRIPT);
    let r = to_value(&aggregate(&parse(r#"{"last_assistant_message":"final"}"#), &items));
    assert_eq!(r["result"], "final");
}

#[test]
fn aggregate_without_transcript() {
    let r = to_value(&aggregate(&parse(r#"{"session_id":"s0"}"#), &Vec::new()));
    assert_eq!(r["result"], "");
    assert_eq!(r["num_turns"], 1);
    assert_eq!(r["session_id"], "s0");
    assert_eq!(r["stop_reason"], Value::Null);
    assert_eq!(r["duration_ms"], 0);
    assert_eq!(r["usage"], serde_json::from_str::<Value>(EMPTY_USAGE).unwrap());
    let r = to_value(&aggregate(&parse("{}"), &Vec::new()));
    assert_eq!(r["session_id"], Value::Null);
}

#[test]
fn usage_without_id_counts_each_time() {
    let line = r#"{"type":"assistant","message":{"content":"x","usage":{"output_tokens":2}}}"#;
    let items = lines_of(&[line, line]);
    let r = to_value(&aggregate(&parse("{}"), &items));
    assert_eq!(r["usage"]["output_tokens"], 4);
    let with_uuid = r#"{"type":"assistant","uuid":"u","message":{"content":"x","usage":{"output_tokens":2}}}"#;
    let items = lines_of(&[with_uuid, with_uuid]);
    let r = to_value(&aggregate(&parse("{}"), &items));
    assert_eq!(r["usage"]["output_tokens"], 2);
}

#[test]
fn records_without_id_always_count() {
    let line = r#"{"type":"assistant","message":{"content":"x","usage":{"output_tokens":2}}}"#;
    let items = lines_of(&[line, line]);
    let same_ids = vec!["k".to_string(), "k".to_string()];
    let st = summarize(&parse("{}"), &items, &same_ids);
    assert_eq!(to_value(&st.usage)["output_tokens"], 4);
    assert_eq!(st.num_turns, 1);
    assert_eq!(st.assistant_text, vec!["x".to_string(), "x".to_string()]);
}

fn span_of(first: &str, last: &str) -> Value {
    let items = lines_of(&[
        &format!(r#"{{"timestamp":"{first}"}}"#),
        &format!(r#"{{"timestamp":"{last}"}}"#),
    ]);
    to_value(&aggregate(&parse("{}"), &items))["duration_ms"].clone()
}

#[test]
fn duration_is_measured_in_utc() {
    assert_eq!(span_of("2024-01-01T00:00:00Z", "2024-01-01T00:00:01.500Z"), 1500);
    assert_eq!(span_of("2024-01-01T02:00:00+02:00", "2024-01-01T00:00:02Z"), 2000);
    assert_eq!(span_of("2024-01-01T00:00:00.0009Z", "2024-01-01T00:00:00.0011Z"), 0);
    assert_eq!(span_of("2023-12-31T23:59:59Z", "2024-01-01T00:00:00.25Z"), 1250);
}

#[test]
fn negative_or_unparsable_span_is_zero() {
    let items = lines_of(&[
        r#"{"timestamp":"2024-01-01T00:00:05Z"}"#,
        r#"{"timestamp":"2024-01-01T00:00:00Z"}"#,
    ]);
    assert_eq!(to_value(&aggregate(&parse("{}"), &items))["duration_ms"], 0);
    let items = lines_of(&[r#"{"timestamp":"soon"}"#, r#"{"timestamp":"later"}"#]);
    assert_eq!(to_value(&aggregate(&parse("{}"), &items))["duration_ms"], 0);
}

fn assert_v4_uuid(u: &str) {
    let cs: Vec<char> = u.chars().collect();
    assert_eq!(cs.len(), 36);
    for (i, c) in cs.iter().enumerate() {
        if [8, 13, 18, 23].contains(&i) {
            assert_eq!(*c, '-');
        } else {
            assert!(c.is_ascii_digit() || ('a'..='f').contains(c));
        }
    }
    assert_eq!(cs[14], '4');
    assert!(['8', '9', 'a', 'b'].contains(&cs[19]));
}

#[test]
fn fresh_identifiers_are_v4_uuids() {
    let a = to_value(&aggregate(&parse("{}"), &Vec::new()))["uuid"].as_str().unwrap().to_string();
    let b = to_value(&aggregate(&parse("{}"), &Vec::new()))["uuid"].as_str().unwrap().to_string();
    assert_ne!(a, b);
    assert_v4_uuid(&a);
    assert_v4_uuid(&b);
    let m = to_sdk_message(&parse(r#"{"type":"assistant","message":{"content":"x"}}"#)).unwrap();
    assert_v4_uuid(to_value(&m)["uuid"].as_str().unwrap());
    let init = build_init_message(&parse("{}"), &Vec::new(), "/w", "m");
    assert_v4_uuid(to_value(&init)["uuid"].as_str().unwrap());
}

#[test]
fn sdk_messages_from_records() {
    let a = to_sdk_message_with(
        &parse(r#"{"type":"assistant","sessionId":"s","uuid":"u1","message":{"id":"m","stop_reason":"end_turn","content":"x"}}"#),
        "fb",
    )
    .unwrap();
    same(
        &a,
        r#"{"type":"assistant","message":{"id":"m","stop_reason":null,"content":"x"},"parent_tool_use_id":null,"session_id":"s","uuid":"u1"}"#,
    );
    let u = to_sdk_message_with(
        &parse(r#"{"type":"user","timestamp":"t","toolUseResult":{"ok":true},"message":{"content":[{"type":"tool_result"}]}}"#),
        "fb",
    )
    .unwrap();
    same(
        &u,
        r#"{"type":"user","message":{"content":[{"type":"tool_result"}]},"parent_tool_use_id":null,"session_id":null,"uuid":"fb","timestamp":"t","tool_use_result":{"ok":true}}"#,
    );
    assert!(to_sdk_message_with(&parse(r#"{"type":"user","message":{"content":"hi"}}"#), "fb").is_none());
    assert!(to_sdk_message_with(&parse(r#"{"type":"assistant"}"#), "fb").is_none());
}

#[test]
fn stream_state_splits_lines() {
    let mut st = StreamState::new();
    assert_eq!(st.take_chunk("a\nb"), vec!["a".to_string()]);
    assert_eq!(st.partial, "b");
    assert_eq!(st.take_chunk("c\n\n  \nd\r\ne"), vec!["bc".to_string(), "d".to_string()]);
    assert_eq!(st.partial, "e");
    assert_eq!(st.take_chunk("f\n"), vec!["ef".to_string()]);
}

#[test]
fn stream_state_plans_reads() {
    let mut st = StreamState::new();
    assert_eq!(st.plan_read(0), None);
    assert_eq!(st.plan_read(10), Some(0));
    assert_eq!(st.offset, 10);
    assert!(!st.has_unread(10));
    assert!(st.has_unread(12));
    assert_eq!(st.take_chunk("ab\ncd"), vec!["ab".to_string()]);
    assert_eq!(st.plan_read(10), None);
    assert_eq!(st.plan_read(15), Some(10));
    assert_eq!(st.partial, "cd");
    assert_eq!(st.plan_read(4), Some(0));
    assert_eq!(st.partial, "");
    assert_eq!(st.offset, 4);
    assert_eq!(st.plan_read(2), Some(0));
    assert_eq!(st.plan_read(0), None);
    assert_eq!(st.offset, 0);
}

#[test]
fn stream_state_sends_each_message_once() {
    let mut st = StreamState::new();
    let rec = parse(r#"{"type":"assistant","uuid":"u1","message":{"id":"m1","content":"x"}}"#);
    assert!(st.next_message_with(&rec, "fb").is_some());
    assert!(st.next_message_with(&rec, "fb").is_none());
    let other = parse(r#"{"type":"assistant","uuid":"u2","message":{"id":"m1","content":"x"}}"#);
    assert!(st.next_message_with(&other, "fb").is_some());
    assert!(st.next_message_with(&parse(r#"{"type":"system"}"#), "fb").is_none());
    assert_eq!(st.seen.len(), 2);
}

#[test]
fn tools_are_sorted_and_distinct() {
    let items = lines_of(&[
        r#"{"attachment":{"addedNames":["Read","Agent",3,"Bash"]}}"#,
        r#"{"type":"assistant","message":{"content":[{"type":"tool_use","name":"Edit"},{"type":"tool_use","name":"Bash"},{"type":"text","name":"No"}]}}"#,
        r#"{"type":"user","message":{"content":[{"type":"tool_use","name":"Zed"}]}}"#,
    ]);
    assert_eq!(collect_tools(&items), vec!["Bash", "Edit", "Read", "Task"]);
}

#[test]
fn version_is_the_last_given() {
    let items = lines_of(&[r#"{"version":"1.0"}"#, "junk", r#"{"version":"2.0"}"#, r#"{"version":3}"#]);
    assert_eq!(find_version(&items), "2.0");
    assert_eq!(find_version(&Vec::new()), "unknown");
}

#[test]
fn init_message_fields() {
    let items = lines_of(&[r#"{"version":"9.9","attachment":{"addedNames":["Read"]}}"#]);
    let m = init_message_with(&parse(r#"{"session_id":"s","cwd":"/w"}"#), &items, "/fallback", "opus", "id-1");
    same(
        &m,
        r#"{"type":"system","subtype":"init","cwd":"/w","session_id":"s","tools":["Read"],"mcp_servers":[],"model":"opus","permissionMode":"bypassPermissions","slash_commands":[],"apiKeySource":"none","claude_code_version":"9.9","output_style":"default","agents":[],"skills":[],"plugins":[],"fast_mode_state":"off","uuid":"id-1"}"#,
    );
    let m = to_value(&init_message_with(&parse(r#"{"permission_mode":"plan"}"#), &Vec::new(), "/fallback", "m", "x"));
    assert_eq!(m["cwd"], "/fallback");
    assert_eq!(m["permissionMode"], "plan");
    assert_eq!(m["session_id"], Value::Null);
    assert_eq!(m["claude_code_version"], "unknown");
}

// ----- trust -------------------------------------------------------------------

#[test]
fn trust_marks_the_project() {
    let r = mark_trusted(parse("{}"), "/p").unwrap();
    same(&r, r#"{"projects":{"/p":{"hasTrustDialogAccepted":true}}}"#);
    let r = mark_trusted(
        parse(r#"{"theme":"dark","projects":{"/q":{"x":1},"/p":{"hasTrustDialogAccepted":false,"y":2}}}"#),
        "/p",
    )
    .unwrap();
    same(
        &r,
        r#"{"theme":"dark","projects":{"/q":{"x":1},"/p":{"hasTrustDialogAccepted":true,"y":2}}}"#,
    );
}

#[test]
fn trust_errors() {
    assert_eq!(mark_trusted(parse("[]"), "/p").unwrap_err(), TrustError::RootNotObject);
    assert_eq!(
        mark_trusted(parse(r#"{"projects":1}"#), "/p").unwrap_err(),
        TrustError::ProjectsNotObject
    );
    assert_eq!(
        mark_trusted(parse(r#"{"projects":{"/p":"yes"}}"#), "/p").unwrap_err(),
        TrustError::ProjectNotObject
    );
    assert_eq!(TrustError::RootNotObject.message(), "upstream config root is not an object");
    assert_eq!(
        TrustError::ProjectsNotObject.message(),
        "upstream config projects field is not an object"
    );
    assert_eq!(TrustError::ProjectNotObject.message(), "upstream project config is not an object");
}

#[test]
fn chunked_reading_matches_one_read() {
    let mut two = StreamState::new();
    let mut lines = two.take_chunk("x\ny");
    lines.extend(two.take_chunk("z\n\r\nw"));
    let mut one = StreamState::new();
    let all = one.take_chunk("x\nyz\n\r\nw");
    assert_eq!(lines, all);
    assert_eq!(two.partial, one.partial);
    assert_eq!(all, vec!["x".to_string(), "yz".to_string()]);
}

#[test]
fn transcript_path_of_payload() {
    assert_eq!(
        praude::transcript::transcript_path(&parse(r#"{"transcript_path":"/t.jsonl"}"#)).as_deref(),
        Some("/t.jsonl")
    );
    assert!(praude::transcript::transcript_path(&parse(r#"{"transcript_path":1}"#)).is_none());
    assert!(praude::transcript::transcript_path(&parse("{}")).is_none());
}

#[test]
fn settings_error_messages() {
    assert_eq!(SettingsError::RootNotObject.message(), "settings root must be an object");
    assert_eq!(SettingsError::HooksNotObject.message(), "settings hooks field must be an object");
    assert_eq!(SettingsError::WrapperHooksMalformed.message(), "wrapper hooks are malformed");
    assert_eq!(
        SettingsError::EventNotArray("Stop".to_string()).message(),
        "settings hooks.Stop must be an array"
    );
}

#[test]
fn hook_line_quotes_spaces_and_quotes() {
    let args = vec!["it's here".to_string(), String::new()];
    assert_eq!(
        hook_invocation("/a b/p", &args, Platform::Posix),
        "'/a b/p' 'it'\\''s here' ''"
    );
    assert_eq!(
        hook_invocation("C:\\a b\\p.exe", &args, Platform::Windows),
        "& 'C:\\a b\\p.exe' 'it''s here' ''"
    );
}

#[test]
fn merging_twice_changes_nothing() {
    let source = r#"{"a":{"y":3,"z":{"q":[1]}},"b":[2,3],"d":null}"#;
    let mut t = parse(r#"{"a":{"x":1,"y":2,"z":5},"b":[1],"c":"keep"}"#);
    deep_merge(&mut t, parse(source));
    let once = to_value(&t);
    deep_merge(&mut t, parse(source));
    assert_eq!(to_value(&t), once);
    let mut n = parse("7");
    deep_merge(&mut n, parse(source));
    assert_eq!(to_value(&n), serde_json::from_str::<Value>(source).unwrap());
}

#[test]
fn every_settings_files_hooks_are_kept() {
    let wrapper = wrapper_settings("/bin/p", "/s", "/t", Platform::Posix);
    let mut callers = Json::Object(Vec::new());
    add_caller_settings(
        &mut callers,
        parse(r#"{"model":"a","env":{"A":"1"},"hooks":{"Stop":[{"hooks":[{"command":"m1"}]}],"Other":[1]}}"#),
        &wrapper,
    )
    .unwrap();
    add_caller_settings(
        &mut callers,
        parse(r#"{"model":"b","env":{"B":"2"},"hooks":{"Stop":[{"hooks":[{"command":"m2"}]}],"Other":[2]}}"#),
        &wrapper,
    )
    .unwrap();
    let before = to_value(&callers);
    assert!(matches!(
        add_caller_settings(&mut callers, parse(r#"{"hooks":{"Stop":3}}"#), &wrapper),
        Err(SettingsError::EventNotArray(e)) if e == "Stop"
    ));
    assert_eq!(to_value(&callers), before);
    let mut settings = wrapper_settings("/bin/p", "/s", "/t", Platform::Posix);
    merge_user_settings(&mut settings, callers, &wrapper).unwrap();
    let v = to_value(&settings);
    let stop = v["hooks"]["Stop"].as_array().unwrap();
    assert_eq!(stop.len(), 3);
    assert_eq!(stop[0]["hooks"][0]["command"], "m1");
    assert_eq!(stop[1]["hooks"][0]["command"], "m2");
    assert_eq!(stop[2]["hooks"][0]["command"], "'/bin/p' '__hook-write' '/t'");
    assert_eq!(v["hooks"]["Other"], serde_json::from_str::<Value>("[1,2]").unwrap());
    assert_eq!(v["hooks"]["UserPromptSubmit"].as_array().unwrap().len(), 1);
    assert_eq!(v["model"], "b");
    assert_eq!(v["env"]["A"], "1");
    assert_eq!(v["env"]["B"], "2");
}

#[test]
fn no_settings_files_give_the_wrapper_settings() {
    let wrapper = wrapper_settings("/bin/p", "/s", "/t", Platform::Posix);
    let mut settings = wrapper_settings("/bin/p", "/s", "/t", Platform::Posix);
    merge_user_settings(&mut settings, Json::Object(Vec::new()), &wrapper).unwrap();
    assert_eq!(to_value(&settings), to_value(&wrapper));
}

//! What one run decides before and after the upstream CLI runs: the
//! settings the environment gives, the upstream command line, and the text
//! printed at the end.

use vstd::prelude::*;

use crate::args::{opt_view, Invocation};
use crate::json::{as_str_v, get_v, Json};
use crate::text::{
    append_str, owned, trim_end_char, trim_end_matches, words, words_spec,
};

verus! {

/// The instruction that the wrapper adds to the system prompt so that the
/// assistant finishes its turn without waiting for input.
pub const PSEUDO_PRINT_SYSTEM_PROMPT: &'static str = "You are running through a non-interactive print-mode compatibility wrapper. The user cannot provide more input during this turn. Never ask the user questions or wait for input. Interactive dialog tools such as AskUserQuestion, EnterPlanMode, and ExitPlanMode are unavailable. Do not request confirmation, do not offer choices, and do not pause for clarification. Make reasonable assumptions and proceed. When finished, provide the final answer normally.";

/// What comes before a caller's JSON schema in the system prompt.
pub const JSON_SCHEMA_INSTRUCTION: &'static str = "\n\nThe caller provided this JSON Schema for the final answer. Return the final answer as JSON matching this schema, with no surrounding prose unless the user explicitly asks for prose:\n";

/// The tools denied when the environment names none.
pub const DEFAULT_DENY_TOOLS: &'static str = "AskUserQuestion EnterPlanMode ExitPlanMode";

/// `build_append_system_prompt`: the caller's appended prompt (if any), a
/// blank line, then the wrapper's instruction, followed by the JSON schema
/// instruction where the caller gave a schema.
pub open spec fn append_system_prompt_spec(
    append: Option<Seq<char>>,
    schema: Option<Seq<char>>,
) -> Seq<char> {
    let wrapper = match schema {
        Some(s) => PSEUDO_PRINT_SYSTEM_PROMPT@ + JSON_SCHEMA_INSTRUCTION@ + s,
        None => PSEUDO_PRINT_SYSTEM_PROMPT@,
    };
    match append {
        Some(u) => u + "\n\n"@ + wrapper,
        None => wrapper,
    }
}

/// The system prompt that the upstream CLI is given.
pub fn build_append_system_prompt(invocation: &Invocation) -> (r: String)
    ensures
        r@ == append_system_prompt_spec(
            opt_view(invocation.append_system_prompt),
            opt_view(invocation.json_schema),
        ),
{
    let mut wrapper = owned(PSEUDO_PRINT_SYSTEM_PROMPT);
    match &invocation.json_schema {
        Some(schema) => {
            append_str(&mut wrapper, JSON_SCHEMA_INSTRUCTION);
            append_str(&mut wrapper, schema.as_str());
        },
        None => {},
    }
    match &invocation.append_system_prompt {
        Some(user_prompt) => {
            let mut r = user_prompt.clone();
            append_str(&mut r, "\n\n");
            append_str(&mut r, wrapper.as_str());
            r
        },
        None => wrapper,
    }
}

/// The upstream command line: the settings file, permissions bypassed, the
/// denied tools (where there are any), the system prompt, the caller's own
/// arguments, then `--` and the prompt.
pub open spec fn upstream_args_spec(
    settings: Seq<char>,
    initial_prompt: Seq<char>,
    deny: Seq<Seq<char>>,
    system_prompt: Seq<char>,
    forwarded: Seq<Seq<char>>,
) -> Seq<Seq<char>> {
    let head = seq!["--settings"@, settings, "--dangerously-skip-permissions"@];
    let denied = if deny.len() > 0 {
        seq!["--disallowedTools"@] + deny
    } else {
        Seq::empty()
    };
    head + denied + seq!["--append-system-prompt"@, system_prompt] + forwarded + seq![
        "--"@,
        initial_prompt,
    ]
}

fn push_all(v: &mut Vec<String>, more: &Vec<String>)
    ensures
        final(v).deep_view() == old(v).deep_view() + more.deep_view(),
{
    let ghost start = v.deep_view();
    let mut i: usize = 0;
    while i < more.len()
        invariant
            i <= more.len(),
            v.deep_view() == start + more.deep_view().take(i as int),
        decreases more.len() - i,
    {
        let ghost b = v.deep_view();
        v.push(more[i].clone());
        assert(v.deep_view() =~= b.push(more@[i as int]@));
        assert(more.deep_view().take(i + 1) =~= more.deep_view().take(i as int).push(more@[i as int]@));
        i = i + 1;
    }
    assert(more.deep_view().take(more.len() as int) =~= more.deep_view());
}

fn push_str(v: &mut Vec<String>, s: String)
    ensures
        final(v).deep_view() == old(v).deep_view().push(s@),
{
    let ghost b = v.deep_view();
    let ghost sv = s@;
    v.push(s);
    assert(v.deep_view() =~= b.push(sv));
}

/// `build_upstream_args`: `deny_tools` is the list of tools to deny as the
/// environment gives it (tool names separated by commas or whitespace).
pub fn build_upstream_args(
    settings: &str,
    initial_prompt: String,
    invocation: &Invocation,
    deny_tools: &str,
) -> (r: Vec<String>)
    ensures
        r.deep_view() == upstream_args_spec(
            settings@,
            initial_prompt@,
            words_spec(deny_tools@),
            append_system_prompt_spec(
                opt_view(invocation.append_system_prompt),
                opt_view(invocation.json_schema),
            ),
            invocation.upstream_args.deep_view(),
        ),
{
    let mut args: Vec<String> = Vec::new();
    assert(args.deep_view() =~= Seq::<Seq<char>>::empty());
    push_str(&mut args, owned("--settings"));
    push_str(&mut args, owned(settings));
    push_str(&mut args, owned("--dangerously-skip-permissions"));
    let ghost head = args.deep_view();
    let deny = words(deny_tools);
    if deny.len() > 0 {
        push_str(&mut args, owned("--disallowedTools"));
        push_all(&mut args, &deny);
    }
    let ghost with_deny = args.deep_view();
    push_str(&mut args, owned("--append-system-prompt"));
    push_str(&mut args, build_append_system_prompt(invocation));
    push_all(&mut args, &invocation.upstream_args);
    push_str(&mut args, owned("--"));
    let ghost p = initial_prompt@;
    push_str(&mut args, initial_prompt);
    assert(args.deep_view() =~= upstream_args_spec(
        settings@,
        p,
        words_spec(deny_tools@),
        append_system_prompt_spec(
            opt_view(invocation.append_system_prompt),
            opt_view(invocation.json_schema),
        ),
        invocation.upstream_args.deep_view(),
    ));
    args
}

/// The text printed for the `text` output mode: the result record's
/// `result` (empty where it has none) without its trailing newlines.
pub open spec fn text_output_spec(result: crate::json::JsonV) -> Seq<char> {
    let t = match as_str_v(get_v(result, "result"@)) {
        Some(t) => t,
        None => Seq::empty(),
    };
    trim_end_char(t, '\n')
}

/// The text printed for the `text` output mode.
pub fn text_output(result: &Json) -> (r: String)
    ensures
        r@ == text_output_spec(result@),
{
    match result.get("result") {
        Some(Json::Str(t)) => trim_end_matches(t.as_str(), '\n'),
        _ => {
            let e = String::new();
            trim_end_matches(e.as_str(), '\n')
        },
    }
}

/// Whether the prompt goes on the command line: where it holds fewer than
/// `arg_max` characters. A longer prompt goes to a file.
pub fn prompt_fits_argv(prompt: &str, arg_max: usize) -> (r: bool)
    ensures
        r == (prompt@.len() < arg_max),
{
    crate::text::chars_of(prompt).len() < arg_max
}

/// The request that points the assistant at the prompt file `rel`.
pub open spec fn prompt_file_request_spec(rel: Seq<char>) -> Seq<char> {
    "The complete user request is in @"@ + rel
        + ". Read that file and complete the request. Do not ask questions or wait for input."@
}

/// The request that points the assistant at the prompt file `rel`.
pub fn prompt_file_request(rel: &str) -> (r: String)
    ensures
        r@ == prompt_file_request_spec(rel@),
{
    let mut r = owned("The complete user request is in @");
    append_str(&mut r, rel);
    append_str(
        &mut r,
        ". Read that file and complete the request. Do not ask questions or wait for input.",
    );
    r
}

/// The status of the upstream CLI once it stopped: success where the Stop
/// hook has fired, else its exit code as a signed 32-bit number.
pub fn exit_status(stop_signal_seen: bool, exit_code: u32) -> (r: i32)
    ensures
        r == (if stop_signal_seen { 0 } else { exit_code as i32 }),
{
    if stop_signal_seen {
        0
    } else {
        exit_code as i32
    }
}

/// What the loop that streams the transcript does next.
#[derive(Debug, Clone, Copy, PartialEq, Eq, Structural)]
pub enum StreamAction {
    /// Read the transcript again at once.
    ReadAgain,
    /// Send the result record and stop.
    Finish,
    /// Give up: the turn did not end in time.
    TimeOut,
    /// Pause, then read the transcript again.
    Wait,
}

/// The next step of the streaming loop, once what was new has been sent:
/// after the Stop hook has fired (`stop_seen`), the transcript is read again
/// while it still grows (`unread`, looked at after a short pause) and the
/// result is sent once it does not; before that, the loop waits until the
/// deadline has passed (`past_deadline`).
pub fn stream_action(stop_seen: bool, unread: bool, past_deadline: bool) -> (r: StreamAction)
    ensures
        r == (if stop_seen {
            if unread {
                StreamAction::ReadAgain
            } else {
                StreamAction::Finish
            }
        } else if past_deadline {
            StreamAction::TimeOut
        } else {
            StreamAction::Wait
        }),
{
    if stop_seen {
        if unread {
            StreamAction::ReadAgain
        } else {
            StreamAction::Finish
        }
    } else if past_deadline {
        StreamAction::TimeOut
    } else {
        StreamAction::Wait
    }
}

// ---------------------------------------------------------------------------
// Laws
// ---------------------------------------------------------------------------

/// The caller's appended system prompt `u` is kept whole: the system prompt
/// passed upstream is `u`, a blank line, then what it would be without `u`,
/// whether or not a JSON schema was given. Without it, the prompt begins
/// with the wrapper's instruction, and a schema comes last.
pub proof fn appended_prompt_comes_first(u: Seq<char>, schema: Option<Seq<char>>)
    ensures
        append_system_prompt_spec(Some(u), schema) == u + "\n\n"@ + append_system_prompt_spec(None, schema),
        (u + "\n\n"@).is_prefix_of(append_system_prompt_spec(Some(u), schema)),
        PSEUDO_PRINT_SYSTEM_PROMPT@.is_prefix_of(append_system_prompt_spec(None, schema)),
        schema matches Some(x) ==> x.is_suffix_of(append_system_prompt_spec(None, schema)),
        append_system_prompt_spec(Some(u), schema).len() == u.len() + 2 + append_system_prompt_spec(
            None,
            schema,
        ).len(),
{
    reveal_strlit("\n\n");
    let w = append_system_prompt_spec(None, schema);
    let p = u + "\n\n"@;
    assert((p + w).subrange(0, p.len() as int) =~= p);
    let q = PSEUDO_PRINT_SYSTEM_PROMPT@;
    match schema {
        Some(x) => {
            let head = q + JSON_SCHEMA_INSTRUCTION@;
            assert((head + x).subrange(0, q.len() as int) =~= q);
            assert((head + x).subrange(head.len() as int, (head + x).len() as int) =~= x);
        },
        None => {
            assert(q.subrange(0, q.len() as int) =~= q);
        },
    }
}

/// The upstream command line starts with the settings file and the
/// permission bypass; where any tool is denied, `--disallowedTools` and the
/// denied tools, in order, follow; then the system prompt after
/// `--append-system-prompt`; then the caller's forwarded arguments, in
/// order and unchanged; and last `--` and the prompt.
pub proof fn upstream_command_line_layout(
    settings: Seq<char>,
    initial_prompt: Seq<char>,
    deny: Seq<Seq<char>>,
    system_prompt: Seq<char>,
    forwarded: Seq<Seq<char>>,
)
    ensures
        ({
            let a = upstream_args_spec(settings, initial_prompt, deny, system_prompt, forwarded);
            let d: int = if deny.len() > 0 { deny.len() + 1int } else { 0int };
            &&& a.len() == 3 + d + 2 + forwarded.len() + 2
            &&& a[0] == "--settings"@ && a[1] == settings && a[2] == "--dangerously-skip-permissions"@
            &&& deny.len() > 0 ==> a[3] == "--disallowedTools"@ && a.subrange(4, 4 + deny.len() as int) == deny
            &&& a[3 + d] == "--append-system-prompt"@ && a[4 + d] == system_prompt
            &&& a.subrange(5 + d, 5 + d + forwarded.len() as int) == forwarded
            &&& a[a.len() - 2] == "--"@ && a[a.len() - 1] == initial_prompt
        }),
{
    let a = upstream_args_spec(settings, initial_prompt, deny, system_prompt, forwarded);
    let d: int = if deny.len() > 0 { deny.len() + 1int } else { 0int };
    let head = seq!["--settings"@, settings, "--dangerously-skip-permissions"@];
    let denied = if deny.len() > 0 {
        seq!["--disallowedTools"@] + deny
    } else {
        Seq::empty()
    };
    let mid = seq!["--append-system-prompt"@, system_prompt];
    let tail = seq!["--"@, initial_prompt];
    assert(a == head + denied + mid + forwarded + tail);
    assert(denied.len() == d);
    if deny.len() > 0 {
        assert(a.subrange(4, 4 + deny.len() as int) =~= deny);
    }
    assert(a.subrange(5 + d, 5 + d + forwarded.len() as int) =~= forwarded);
}

} // verus!

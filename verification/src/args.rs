//! Command-line handling: which arguments the wrapper consumes, which it
//! forwards to the upstream CLI, and where the prompt comes from.

use vstd::prelude::*;

use crate::text::{
    append_str, is_blank, is_blank_spec, join, join_spec, owned, str_eq, strip_prefix,
};

verus! {

// ---------------------------------------------------------------------------
// Types
// ---------------------------------------------------------------------------

/// The output modes that the wrapper implements itself.
#[derive(Clone, Copy, Debug, PartialEq, Eq, Structural)]
pub enum Format {
    Text,
    Json,
    StreamJson,
}

/// The wrapper options that take a value.
#[derive(Clone, Copy, Debug, PartialEq, Eq, Structural)]
pub enum FlagName {
    OutputFormat,
    Settings,
    JsonSchema,
    InputFormat,
    AppendSystemPrompt,
    AppendSystemPromptFile,
}

/// Why a command line is refused.
#[derive(Debug)]
pub enum ArgError {
    /// An output format other than `text`, `json` or `stream-json`.
    InvalidFormat(String),
    /// A wrapper option was the last argument, with no value after it.
    MissingValue(FlagName),
    /// An input format other than `text`.
    UnsupportedInputFormat(String),
    /// No prompt argument and no prompt on stdin.
    Usage,
    /// The prompt holds only whitespace.
    EmptyPrompt,
}

/// The characters of an [`ArgError`].
pub enum ArgErrorView {
    InvalidFormat(Seq<char>),
    MissingValue(FlagName),
    UnsupportedInputFormat(Seq<char>),
    Usage,
    EmptyPrompt,
}

impl View for ArgError {
    type V = ArgErrorView;

    open spec fn view(&self) -> ArgErrorView {
        match self {
            ArgError::InvalidFormat(v) => ArgErrorView::InvalidFormat(v@),
            ArgError::MissingValue(f) => ArgErrorView::MissingValue(*f),
            ArgError::UnsupportedInputFormat(v) => ArgErrorView::UnsupportedInputFormat(v@),
            ArgError::Usage => ArgErrorView::Usage,
            ArgError::EmptyPrompt => ArgErrorView::EmptyPrompt,
        }
    }
}

/// Where one `--append-system-prompt*` value comes from.
#[derive(Debug)]
pub enum PromptSource {
    /// The text given on the command line.
    Text(String),
    /// The path of a file whose contents are the text.
    File(String),
}

/// The characters of a [`PromptSource`].
pub enum SourceView {
    Text(Seq<char>),
    File(Seq<char>),
}

impl View for PromptSource {
    type V = SourceView;

    open spec fn view(&self) -> SourceView {
        match self {
            PromptSource::Text(t) => SourceView::Text(t@),
            PromptSource::File(p) => SourceView::File(p@),
        }
    }
}

/// A command line taken apart, with appended system prompts not yet read
/// from their files.
#[derive(Debug)]
pub struct ParsedArgs {
    pub upstream_args: Vec<String>,
    pub prompt: String,
    pub format: Format,
    pub append_sources: Vec<PromptSource>,
    pub settings: Vec<String>,
    pub json_schema: Option<String>,
}

/// A refused command line, with the files that the wrapper reads, in order,
/// before it comes to the refusal.
#[derive(Debug)]
pub struct ArgFailure {
    pub error: ArgError,
    pub files_read_first: Vec<String>,
}

/// What one run of the wrapper was asked to do.
#[derive(Debug)]
pub struct Invocation {
    pub upstream_args: Vec<String>,
    pub prompt: String,
    pub format: Format,
    pub append_system_prompt: Option<String>,
    pub settings: Vec<String>,
    pub json_schema: Option<String>,
}

// ---------------------------------------------------------------------------
// Specification
// ---------------------------------------------------------------------------

pub open spec fn opt_view(o: Option<String>) -> Option<Seq<char>> {
    match o {
        Some(s) => Some(s@),
        None => None,
    }
}

pub open spec fn sources_view(s: Seq<PromptSource>) -> Seq<SourceView> {
    s.map_values(|p: PromptSource| p@)
}

/// The format named by `v`, if it names one.
pub open spec fn format_named(v: Seq<char>) -> Option<Format> {
    if v == "text"@ {
        Some(Format::Text)
    } else if v == "json"@ {
        Some(Format::Json)
    } else if v == "stream-json"@ {
        Some(Format::StreamJson)
    } else {
        None
    }
}

/// What the argument scan has gathered so far.
pub struct ScanState {
    pub cleaned: Seq<Seq<char>>,
    pub sources: Seq<SourceView>,
    pub settings: Seq<Seq<char>>,
    pub json_schema: Option<Seq<char>>,
    pub format: Format,
}

/// What the scan does with the arguments at its front.
pub enum ScanStep {
    /// Consume that many arguments and go on.
    Continue(nat, ScanState),
    /// The scan ends here (after `--`).
    Stop(ScanState),
    /// The command line is refused.
    Fail(ArgErrorView, ScanState),
}

/// The end of the whole argument scan.
pub enum ScanEnd {
    Finished(ScanState),
    Failed(ArgErrorView, ScanState),
}

pub open spec fn value_flag(name: FlagName, args: Seq<Seq<char>>, st: ScanState) -> ScanStep
    recommends
        args.len() >= 1,
{
    if args.len() < 2 {
        ScanStep::Fail(ArgErrorView::MissingValue(name), st)
    } else {
        take_value(name, args[1], st, 2)
    }
}

/// What an option does with its value `v`, consuming `n` arguments.
pub open spec fn take_value(name: FlagName, v: Seq<char>, st: ScanState, n: nat) -> ScanStep {
    match name {
        FlagName::OutputFormat => match format_named(v) {
            Some(f) => ScanStep::Continue(n, ScanState { format: f, ..st }),
            None => ScanStep::Fail(ArgErrorView::InvalidFormat(v), st),
        },
        FlagName::Settings => ScanStep::Continue(n, ScanState { settings: st.settings.push(v), ..st }),
        FlagName::JsonSchema => ScanStep::Continue(n, ScanState { json_schema: Some(v), ..st }),
        FlagName::InputFormat => if v == "text"@ {
            ScanStep::Continue(n, st)
        } else {
            ScanStep::Fail(ArgErrorView::UnsupportedInputFormat(v), st)
        },
        FlagName::AppendSystemPrompt => ScanStep::Continue(
            n,
            ScanState { sources: st.sources.push(SourceView::Text(v)), ..st },
        ),
        FlagName::AppendSystemPromptFile => ScanStep::Continue(
            n,
            ScanState { sources: st.sources.push(SourceView::File(v)), ..st },
        ),
    }
}

pub open spec fn flag_text(name: FlagName) -> Seq<char> {
    match name {
        FlagName::OutputFormat => "--output-format"@,
        FlagName::Settings => "--settings"@,
        FlagName::JsonSchema => "--json-schema"@,
        FlagName::InputFormat => "--input-format"@,
        FlagName::AppendSystemPrompt => "--append-system-prompt"@,
        FlagName::AppendSystemPromptFile => "--append-system-prompt-file"@,
    }
}

pub open spec fn flag_eq_text(name: FlagName) -> Seq<char> {
    match name {
        FlagName::OutputFormat => "--output-format="@,
        FlagName::Settings => "--settings="@,
        FlagName::JsonSchema => "--json-schema="@,
        FlagName::InputFormat => "--input-format="@,
        FlagName::AppendSystemPrompt => "--append-system-prompt="@,
        FlagName::AppendSystemPromptFile => "--append-system-prompt-file="@,
    }
}

/// The option, in the order in which the wrapper tests them, that `a`
/// spells as `--name` or `--name=value`, with `true` for the second spelling.
pub open spec fn option_form(a: Seq<char>, order: Seq<FlagName>) -> Option<(FlagName, bool)>
    decreases order.len(),
{
    if order.len() == 0 {
        None
    } else if a == flag_text(order[0]) {
        Some((order[0], false))
    } else if flag_eq_text(order[0]).is_prefix_of(a) {
        Some((order[0], true))
    } else {
        option_form(a, order.drop_first())
    }
}

/// The options with values, after the output format and in the order the
/// wrapper tests them; `--include-partial-messages` and
/// `--no-session-persistence` are tested between `--json-schema` and `--input-format`.
pub open spec fn later_options() -> Seq<FlagName> {
    seq![FlagName::InputFormat, FlagName::AppendSystemPrompt, FlagName::AppendSystemPromptFile]
}

pub open spec fn earlier_options() -> Seq<FlagName> {
    seq![FlagName::OutputFormat, FlagName::Settings, FlagName::JsonSchema]
}

pub open spec fn option_step(form: (FlagName, bool), args: Seq<Seq<char>>, st: ScanState) -> ScanStep
    recommends
        args.len() >= 1,
{
    if form.1 {
        take_value(form.0, args[0].skip(flag_eq_text(form.0).len() as int), st, 1)
    } else {
        value_flag(form.0, args, st)
    }
}

/// The first step of the scan over the non-empty `args`.
pub open spec fn scan_step(args: Seq<Seq<char>>, st: ScanState) -> ScanStep
    recommends
        args.len() >= 1,
{
    let a = args[0];
    if a == "--"@ {
        ScanStep::Stop(ScanState { cleaned: st.cleaned + args, ..st })
    } else if a == "-p"@ || a == "--print"@ {
        ScanStep::Continue(1, st)
    } else if let Some(form) = option_form(a, earlier_options()) {
        option_step(form, args, st)
    } else if a == "--include-partial-messages"@ || a == "--no-session-persistence"@ {
        ScanStep::Continue(1, st)
    } else if let Some(form) = option_form(a, later_options()) {
        option_step(form, args, st)
    } else {
        ScanStep::Continue(1, ScanState { cleaned: st.cleaned.push(a), ..st })
    }
}

/// The whole scan of `args`, from the state `st`.
pub open spec fn scan_args(args: Seq<Seq<char>>, st: ScanState) -> ScanEnd
    decreases args.len(),
{
    if args.len() == 0 {
        ScanEnd::Finished(st)
    } else {
        match scan_step(args, st) {
            ScanStep::Continue(n, next) => if 0 < n <= args.len() {
                scan_args(args.skip(n as int), next)
            } else {
                ScanEnd::Finished(next)
            },
            ScanStep::Stop(next) => ScanEnd::Finished(next),
            ScanStep::Fail(e, next) => ScanEnd::Failed(e, next),
        }
    }
}

pub open spec fn is_sep_at(s: Seq<Seq<char>>, k: int) -> bool {
    0 <= k < s.len() && s[k] == "--"@ && forall|j: int| 0 <= j < k ==> s[j] != "--"@
}

/// The position of the first `--` among `s`, if there is one.
pub open spec fn first_sep(s: Seq<Seq<char>>) -> Option<int> {
    if exists|k: int| is_sep_at(s, k) {
        Some(choose|k: int| is_sep_at(s, k))
    } else {
        None
    }
}

/// The paths of the files among `sources`, in order.
pub open spec fn files_of(sources: Seq<SourceView>) -> Seq<Seq<char>>
    decreases sources.len(),
{
    if sources.len() == 0 {
        Seq::empty()
    } else {
        let rest = files_of(sources.drop_last());
        match sources.last() {
            SourceView::File(p) => rest.push(p),
            SourceView::Text(_) => rest,
        }
    }
}

/// The outcome of taking a command line apart.
pub enum ParseOutcome {
    Parsed { upstream: Seq<Seq<char>>, prompt: Seq<char>, st: ScanState },
    Rejected(ArgErrorView, ScanState),
}

pub open spec fn initial_state(f: Format) -> ScanState {
    ScanState {
        cleaned: Seq::empty(),
        sources: Seq::empty(),
        settings: Seq::empty(),
        json_schema: None,
        format: f,
    }
}

/// The upstream arguments and the prompt among the remaining arguments `c`:
/// all of them and the stdin prompt; else those before the first `--` and
/// the rest joined by spaces; else all but the last, and the last.
pub open spec fn pick_prompt_spec(c: Seq<Seq<char>>, stdin_prompt: Option<Seq<char>>) -> Option<
    (Seq<Seq<char>>, Seq<char>),
> {
    match stdin_prompt {
        Some(input) => Some((c, input)),
        None => match first_sep(c) {
            Some(k) => Some((c.take(k), join_spec(c.skip(k + 1), " "@))),
            None => if c.len() > 0 {
                Some((c.drop_last(), c.last()))
            } else {
                None
            },
        },
    }
}

/// Upstream arguments and prompt, once the scan has finished with `st`.
pub open spec fn choose_prompt(st: ScanState, stdin_prompt: Option<Seq<char>>) -> ParseOutcome {
    match pick_prompt_spec(st.cleaned, stdin_prompt) {
        None => ParseOutcome::Rejected(ArgErrorView::Usage, st),
        Some((upstream, prompt)) => if is_blank_spec(prompt) {
            ParseOutcome::Rejected(ArgErrorView::EmptyPrompt, st)
        } else {
            ParseOutcome::Parsed { upstream, prompt, st }
        },
    }
}

/// How the wrapper reads `args`, given the prompt read from stdin (if any)
/// and the default output format from the environment (if any).
pub open spec fn parse_spec(
    args: Seq<Seq<char>>,
    stdin_prompt: Option<Seq<char>>,
    env_format: Option<Seq<char>>,
) -> ParseOutcome {
    let start = match env_format {
        None => Ok(Format::Text),
        Some(v) => match format_named(v) {
            Some(f) => Ok(f),
            None => Err(v),
        },
    };
    match start {
        Err(v) => ParseOutcome::Rejected(
            ArgErrorView::InvalidFormat(v),
            initial_state(Format::Text),
        ),
        Ok(f) => after_scan(scan_args(args, initial_state(f)), stdin_prompt),
    }
}

/// The outcome, once the scan has ended with `end`.
pub open spec fn after_scan(end: ScanEnd, stdin_prompt: Option<Seq<char>>) -> ParseOutcome {
    match end {
        ScanEnd::Failed(e, st) => ParseOutcome::Rejected(e, st),
        ScanEnd::Finished(st) => choose_prompt(st, stdin_prompt),
    }
}

/// The contract of the parsers: `r` is what `parse_spec` describes.
pub open spec fn parse_result_matches(r: Result<ParsedArgs, ArgFailure>, o: ParseOutcome) -> bool {
    match o {
        ParseOutcome::Parsed { upstream, prompt, st } => r matches Ok(p) && {
            &&& p.upstream_args.deep_view() == upstream
            &&& p.prompt@ == prompt
            &&& p.format == st.format
            &&& sources_view(p.append_sources@) == st.sources
            &&& p.settings.deep_view() == st.settings
            &&& opt_view(p.json_schema) == st.json_schema
        },
        ParseOutcome::Rejected(e, st) => r matches Err(f) && {
            &&& f.error@ == e
            &&& f.files_read_first.deep_view() == files_of(st.sources)
        },
    }
}

/// The prompt that stdin gives: `None` at a terminal or for empty input.
pub open spec fn stdin_prompt_of(input: Option<Seq<char>>) -> Option<Seq<char>> {
    match input {
        Some(t) => if t.len() == 0 {
            None
        } else {
            Some(t)
        },
        None => None,
    }
}

/// The appended system prompts, with each file replaced by its text.
pub open spec fn resolve_sources(sources: Seq<SourceView>, texts: Seq<Seq<char>>) -> Seq<Seq<char>>
    decreases sources.len(),
{
    if sources.len() == 0 {
        Seq::empty()
    } else {
        match sources.last() {
            SourceView::File(_) => resolve_sources(sources.drop_last(), texts.drop_last()).push(
                texts.last(),
            ),
            SourceView::Text(t) => resolve_sources(sources.drop_last(), texts).push(t),
        }
    }
}

pub open spec fn error_message_spec(e: ArgErrorView) -> Seq<char> {
    match e {
        ArgErrorView::InvalidFormat(v) => "invalid output format '"@ + v
            + "' (expected text, json, or stream-json)"@,
        ArgErrorView::MissingValue(f) => flag_text(f) + " requires a value"@,
        ArgErrorView::UnsupportedInputFormat(v) => "--input-format="@ + v
            + " cannot be emulated without native batch mode"@,
        ArgErrorView::Usage => "usage: praude [upstream options] \"prompt\"   or:   echo prompt | praude [upstream options]"@,
        ArgErrorView::EmptyPrompt => "prompt is empty"@,
    }
}

// ---------------------------------------------------------------------------
// Implementation
// ---------------------------------------------------------------------------

impl Format {
    /// The format named `value`: `text`, `json` or `stream-json`.
    pub fn parse(value: &str) -> (r: Result<Format, ArgError>)
        ensures
            match format_named(value@) {
                Some(f) => r == Ok::<Format, ArgError>(f),
                None => r matches Err(e) && e@ == ArgErrorView::InvalidFormat(value@),
            },
    {
        if str_eq(value, "text") {
            Ok(Format::Text)
        } else if str_eq(value, "json") {
            Ok(Format::Json)
        } else if str_eq(value, "stream-json") {
            Ok(Format::StreamJson)
        } else {
            Err(ArgError::InvalidFormat(owned(value)))
        }
    }
}

impl ArgError {
    /// The message that the wrapper prints for this refusal.
    pub fn message(&self) -> (r: String)
        ensures
            r@ == error_message_spec(self@),
    {
        let mut r = String::new();
        match self {
            ArgError::InvalidFormat(v) => {
                append_str(&mut r, "invalid output format '");
                append_str(&mut r, v.as_str());
                append_str(&mut r, "' (expected text, json, or stream-json)");
            },
            ArgError::MissingValue(f) => {
                append_str(&mut r, flag_str(*f));
                append_str(&mut r, " requires a value");
            },
            ArgError::UnsupportedInputFormat(v) => {
                append_str(&mut r, "--input-format=");
                append_str(&mut r, v.as_str());
                append_str(&mut r, " cannot be emulated without native batch mode");
            },
            ArgError::Usage => {
                append_str(
                    &mut r,
                    "usage: praude [upstream options] \"prompt\"   or:   echo prompt | praude [upstream options]",
                );
            },
            ArgError::EmptyPrompt => {
                append_str(&mut r, "prompt is empty");
            },
        }
        r
    }
}

fn flag_str(f: FlagName) -> (r: &'static str)
    ensures
        r@ == flag_text(f),
{
    match f {
        FlagName::OutputFormat => "--output-format",
        FlagName::Settings => "--settings",
        FlagName::JsonSchema => "--json-schema",
        FlagName::InputFormat => "--input-format",
        FlagName::AppendSystemPrompt => "--append-system-prompt",
        FlagName::AppendSystemPromptFile => "--append-system-prompt-file",
    }
}

fn flag_eq_str(f: FlagName) -> (r: &'static str)
    ensures
        r@ == flag_eq_text(f),
{
    match f {
        FlagName::OutputFormat => "--output-format=",
        FlagName::Settings => "--settings=",
        FlagName::JsonSchema => "--json-schema=",
        FlagName::InputFormat => "--input-format=",
        FlagName::AppendSystemPrompt => "--append-system-prompt=",
        FlagName::AppendSystemPromptFile => "--append-system-prompt-file=",
    }
}

/// The executable form of [`ScanState`].
struct ScanAcc {
    cleaned: Vec<String>,
    sources: Vec<PromptSource>,
    settings: Vec<String>,
    json_schema: Option<String>,
    format: Format,
}

impl View for ScanAcc {
    type V = ScanState;

    closed spec fn view(&self) -> ScanState {
        ScanState {
            cleaned: self.cleaned.deep_view(),
            sources: sources_view(self.sources@),
            settings: self.settings.deep_view(),
            json_schema: opt_view(self.json_schema),
            format: self.format,
        }
    }
}

enum StepResult {
    Next(usize),
    Stop,
    Fail(ArgError),
}

/// `option_form(a, order)`, computed.
fn find_option(a: &str, order: &Vec<FlagName>) -> (r: Option<(FlagName, Option<String>)>)
    ensures
        match option_form(a@, order@) {
            None => r is None,
            Some((f, with_eq)) => r matches Some((g, v)) && g == f && (with_eq <==> v is Some) && (
            v matches Some(rest) ==> flag_eq_text(f).is_prefix_of(a@) && rest@ == a@.skip(
                flag_eq_text(f).len() as int,
            )),
        },
{
    let mut i: usize = 0;
    assert(order@.skip(0) =~= order@);
    while i < order.len()
        invariant
            i <= order.len(),
            option_form(a@, order@.skip(i as int)) == option_form(a@, order@),
        decreases order.len() - i,
    {
        let f = order[i];
        assert(order@.skip(i as int)[0] == f);
        assert(order@.skip(i as int).drop_first() =~= order@.skip(i + 1));
        if str_eq(a, flag_str(f)) {
            return Some((f, None));
        }
        match strip_prefix(a, flag_eq_str(f)) {
            Some(rest) => {
                return Some((f, Some(rest)));
            },
            None => {},
        }
        i = i + 1;
    }
    None
}

/// Applies `take_value(name, v, .., n)` to `acc`.
fn apply_value(name: FlagName, v: String, acc: &mut ScanAcc, i: usize, n: usize) -> (r: StepResult)
    requires
        i + n <= usize::MAX,
    ensures
        match take_value(name, v@, old(acc)@, n as nat) {
            ScanStep::Continue(m, st) => r matches StepResult::Next(j) && j == i + n && m == n && final(acc)@ == st,
            ScanStep::Stop(_) => false,
            ScanStep::Fail(e, st) => r matches StepResult::Fail(err) && err@ == e && final(acc)@
                == st,
        },
{
    match name {
        FlagName::OutputFormat => {
            match Format::parse(v.as_str()) {
                Ok(f) => {
                    acc.format = f;
                    StepResult::Next(i + n)
                },
                Err(e) => StepResult::Fail(e),
            }
        },
        FlagName::Settings => {
            let ghost before = acc.settings.deep_view();
            acc.settings.push(v);
            assert(acc.settings.deep_view() =~= before.push(v@));
            StepResult::Next(i + n)
        },
        FlagName::JsonSchema => {
            acc.json_schema = Some(v);
            StepResult::Next(i + n)
        },
        FlagName::InputFormat => {
            if str_eq(v.as_str(), "text") {
                StepResult::Next(i + n)
            } else {
                StepResult::Fail(ArgError::UnsupportedInputFormat(v))
            }
        },
        FlagName::AppendSystemPrompt => {
            let ghost before = sources_view(acc.sources@);
            let src = PromptSource::Text(v);
            acc.sources.push(src);
            assert(sources_view(acc.sources@) =~= before.push(src@));
            StepResult::Next(i + n)
        },
        FlagName::AppendSystemPromptFile => {
            let ghost before = sources_view(acc.sources@);
            let src = PromptSource::File(v);
            acc.sources.push(src);
            assert(sources_view(acc.sources@) =~= before.push(src@));
            StepResult::Next(i + n)
        },
    }
}

/// One step of the scan, at position `i` of `args`.
fn scan_one(args: &Vec<String>, i: usize, acc: &mut ScanAcc) -> (r: StepResult)
    requires
        i < args.len(),
    ensures
        match scan_step(args.deep_view().skip(i as int), old(acc)@) {
            ScanStep::Continue(n, st) => r matches StepResult::Next(j) && j == i + n && j
                <= args.len() && n > 0 && final(acc)@ == st,
            ScanStep::Stop(st) => r is Stop && final(acc)@ == st,
            ScanStep::Fail(e, st) => r matches StepResult::Fail(err) && err@ == e && final(acc)@
                == st,
        },
{
    let ghost rest = args.deep_view().skip(i as int);
    assert(rest[0] == args[i as int]@);
    let a = args[i].as_str();
    if str_eq(a, "--") {
        let ghost before = acc.cleaned.deep_view();
        let ghost st0 = acc@;
        let mut j = i;
        while j < args.len()
            invariant
                i <= j <= args.len(),
                acc@ == (ScanState { cleaned: acc.cleaned.deep_view(), ..st0 }),
                acc.cleaned.deep_view() =~= before + args.deep_view().subrange(i as int, j as int),
            decreases args.len() - j,
        {
            let ghost b = acc.cleaned.deep_view();
            acc.cleaned.push(args[j].clone());
            assert(acc.cleaned.deep_view() =~= b.push(args[j as int]@));
            j = j + 1;
        }
        assert(args.deep_view().subrange(i as int, args.len() as int) =~= rest);
        return StepResult::Stop;
    }
    if str_eq(a, "-p") || str_eq(a, "--print") {
        return StepResult::Next(i + 1);
    }
    let earlier = vec![FlagName::OutputFormat, FlagName::Settings, FlagName::JsonSchema];
    assert(earlier@ =~= earlier_options());
    let found = find_option(a, &earlier);
    if let Some((f, eq_value)) = found {
        return take_option(args, i, f, eq_value, acc);
    }
    if str_eq(a, "--include-partial-messages") || str_eq(a, "--no-session-persistence") {
        return StepResult::Next(i + 1);
    }
    let later = vec![
        FlagName::InputFormat,
        FlagName::AppendSystemPrompt,
        FlagName::AppendSystemPromptFile,
    ];
    assert(later@ =~= later_options());
    let found = find_option(a, &later);
    if let Some((f, eq_value)) = found {
        return take_option(args, i, f, eq_value, acc);
    }
    let ghost before = acc.cleaned.deep_view();
    acc.cleaned.push(args[i].clone());
    assert(acc.cleaned.deep_view() =~= before.push(args[i as int]@));
    StepResult::Next(i + 1)
}

/// The option `f` at position `i`: its value after `=` (`eq_value`) or in
/// the next argument.
fn take_option(
    args: &Vec<String>,
    i: usize,
    f: FlagName,
    eq_value: Option<String>,
    acc: &mut ScanAcc,
) -> (r: StepResult)
    requires
        i < args.len(),
        eq_value matches Some(v) ==> flag_eq_text(f).is_prefix_of(args[i as int]@) && v@
            == args[i as int]@.skip(flag_eq_text(f).len() as int),
    ensures
        match option_step(
            (f, eq_value is Some),
            args.deep_view().skip(i as int),
            old(acc)@,
        ) {
            ScanStep::Continue(n, st) => r matches StepResult::Next(j) && j == i + n && j
                <= args.len() && n > 0 && final(acc)@ == st,
            ScanStep::Stop(st) => false,
            ScanStep::Fail(e, st) => r matches StepResult::Fail(err) && err@ == e && final(acc)@
                == st,
        },
{
    let ghost rest = args.deep_view().skip(i as int);
    assert(rest[0] == args[i as int]@);
    match eq_value {
        Some(v) => apply_value(f, v, acc, i, 1),
        None => {
            if i + 1 < args.len() {
                assert(rest[1] == args[i + 1]@);
                apply_value(f, args[i + 1].clone(), acc, i, 2)
            } else {
                StepResult::Fail(ArgError::MissingValue(f))
            }
        },
    }
}

/// The paths of the files among `sources`, computed.
fn file_paths(sources: &Vec<PromptSource>) -> (r: Vec<String>)
    ensures
        r.deep_view() == files_of(sources_view(sources@)),
{
    let mut r: Vec<String> = Vec::new();
    let mut i: usize = 0;
    while i < sources.len()
        invariant
            i <= sources.len(),
            r.deep_view() == files_of(sources_view(sources@.take(i as int))),
        decreases sources.len() - i,
    {
        assert(sources_view(sources@.take(i + 1)).drop_last() =~= sources_view(
            sources@.take(i as int),
        ));
        match &sources[i] {
            PromptSource::File(p) => {
                let ghost b = r.deep_view();
                r.push(p.clone());
                assert(r.deep_view() =~= b.push(p@));
            },
            PromptSource::Text(_) => {},
        }
        i = i + 1;
    }
    assert(sources@.take(sources.len() as int) =~= sources@);
    r
}

proof fn lemma_first_sep(s: Seq<Seq<char>>, k: int)
    requires
        is_sep_at(s, k),
    ensures
        first_sep(s) == Some(k),
{
    let c = choose|k: int| is_sep_at(s, k);
    assert(is_sep_at(s, c));
    if c < k {
        assert(s[c] != "--"@);
    } else if c > k {
        assert(s[k] != "--"@);
    }
}

/// Takes a command line apart. `stdin_prompt` is the prompt read from stdin,
/// if any; `env_format` is the default output format from the environment,
/// if it is set. Files named by `--append-system-prompt-file` are not read
/// here: their paths stand in the result, in order.
pub fn parse_invocation_with_stdin(
    args: Vec<String>,
    stdin_prompt: Option<String>,
    env_format: Option<String>,
) -> (r: Result<ParsedArgs, ArgFailure>)
    ensures
        parse_result_matches(r, parse_spec(args.deep_view(), opt_view(stdin_prompt), opt_view(env_format))),
{
    let format = match &env_format {
        None => Format::Text,
        Some(v) => match Format::parse(v.as_str()) {
            Ok(f) => f,
            Err(e) => {
                let none: Vec<String> = Vec::new();
                assert(none.deep_view() =~= Seq::<Seq<char>>::empty());
                assert(files_of(initial_state(Format::Text).sources) =~= Seq::<Seq<char>>::empty());
                return Err(ArgFailure { error: e, files_read_first: none });
            },
        },
    };
    assert(parse_spec(args.deep_view(), opt_view(stdin_prompt), opt_view(env_format)) == after_scan(
        scan_args(args.deep_view(), initial_state(format)),
        opt_view(stdin_prompt),
    ));
    let mut acc = ScanAcc {
        cleaned: Vec::new(),
        sources: Vec::new(),
        settings: Vec::new(),
        json_schema: None,
        format,
    };
    assert(acc.cleaned.deep_view() =~= Seq::<Seq<char>>::empty());
    assert(acc.settings.deep_view() =~= Seq::<Seq<char>>::empty());
    assert(sources_view(acc.sources@) =~= Seq::<SourceView>::empty());
    assert(acc@ == initial_state(format));
    let ghost all = args.deep_view();
    let mut i: usize = 0;
    assert(all.skip(0) =~= all);
    loop
        invariant_except_break
            i <= args.len(),
            all == args.deep_view(),
            scan_args(all.skip(i as int), acc@) == scan_args(all, initial_state(format)),
            parse_spec(all, opt_view(stdin_prompt), opt_view(env_format)) == after_scan(
                scan_args(all, initial_state(format)),
                opt_view(stdin_prompt),
            ),
        ensures
            scan_args(all, initial_state(format)) == ScanEnd::Finished(acc@),
        decreases args.len() - i,
    {
        if i >= args.len() {
            assert(all.skip(i as int) =~= Seq::<Seq<char>>::empty());
            break;
        }
        let ghost before = acc@;
        let step = scan_one(&args, i, &mut acc);
        assert(all.skip(i as int).len() > 0);
        match step {
            StepResult::Next(j) => {
                assert(all.skip(i as int).skip(j - i) =~= all.skip(j as int));
                i = j;
            },
            StepResult::Stop => {
                break;
            },
            StepResult::Fail(e) => {
                let files = file_paths(&acc.sources);
                assert(scan_args(all, initial_state(format)) == ScanEnd::Failed(e@, acc@));
                assert(files_of(sources_view(acc.sources@)) == files_of(acc@.sources));
                assert(parse_spec(all, opt_view(stdin_prompt), opt_view(env_format))
                    == ParseOutcome::Rejected(e@, acc@));
                return Err(ArgFailure { error: e, files_read_first: files });
            },
        }
    }
    finish_parse(acc, stdin_prompt)
}

/// `pick_prompt_spec`, computed.
fn pick_prompt(cleaned: Vec<String>, stdin_prompt: Option<String>) -> (r: Option<(Vec<String>, String)>)
    ensures
        match pick_prompt_spec(cleaned.deep_view(), opt_view(stdin_prompt)) {
            None => r is None,
            Some((u, p)) => r matches Some((ru, rp)) && ru.deep_view() == u && rp@ == p,
        },
{
    let ghost c = cleaned.deep_view();
    match stdin_prompt {
        Some(input) => {
            return Some((cleaned, input));
        },
        None => {},
    }
    let mut k: usize = 0;
    while k < cleaned.len() && !str_eq(cleaned[k].as_str(), "--")
        invariant
            k <= cleaned.len(),
            c == cleaned.deep_view(),
            forall|j: int| 0 <= j < k ==> c[j] != "--"@,
        decreases cleaned.len() - k,
    {
        k = k + 1;
    }
    if k < cleaned.len() {
        assert(c[k as int] == "--"@);
        proof {
            lemma_first_sep(c, k as int);
        }
        let mut upstream: Vec<String> = Vec::new();
        let mut tail: Vec<String> = Vec::new();
        let mut j: usize = 0;
        while j < cleaned.len()
            invariant
                k < cleaned.len(),
                j <= cleaned.len(),
                c == cleaned.deep_view(),
                upstream.deep_view() =~= c.take(if j <= k { j as int } else { k as int }),
                tail.deep_view() =~= (if j <= k + 1 {
                    Seq::empty()
                } else {
                    c.subrange(k + 1, j as int)
                }),
            decreases cleaned.len() - j,
        {
            if j < k {
                let ghost b = upstream.deep_view();
                upstream.push(cleaned[j].clone());
                assert(upstream.deep_view() =~= b.push(c[j as int]));
            } else if j > k {
                let ghost b = tail.deep_view();
                tail.push(cleaned[j].clone());
                assert(tail.deep_view() =~= b.push(c[j as int]));
            }
            j = j + 1;
        }
        assert(c.subrange(k + 1, c.len() as int) =~= c.skip(k + 1));
        let prompt = join(&tail, " ");
        Some((upstream, prompt))
    } else {
        assert forall|m: int| !is_sep_at(c, m) by {
            if 0 <= m < c.len() {
                assert(c[m] != "--"@);
            }
        }
        let mut rest = cleaned;
        match rest.pop() {
            Some(last) => {
                assert(rest.deep_view() =~= c.drop_last());
                Some((rest, last))
            },
            None => None,
        }
    }
}

/// The prompt and upstream arguments, once the scan has finished.
fn finish_parse(acc: ScanAcc, stdin_prompt: Option<String>) -> (r: Result<ParsedArgs, ArgFailure>)
    ensures
        parse_result_matches(r, choose_prompt(acc@, opt_view(stdin_prompt))),
{
    let ghost st = acc@;
    let ScanAcc { cleaned, sources, settings, json_schema, format } = acc;
    assert(st.cleaned == cleaned.deep_view());
    let picked = pick_prompt(cleaned, stdin_prompt);
    match picked {
        None => Err(ArgFailure { error: ArgError::Usage, files_read_first: file_paths(&sources) }),
        Some((upstream_args, prompt)) => {
            if is_blank(prompt.as_str()) {
                Err(
                    ArgFailure {
                        error: ArgError::EmptyPrompt,
                        files_read_first: file_paths(&sources),
                    },
                )
            } else {
                Ok(ParsedArgs { upstream_args, prompt, format, append_sources: sources, settings, json_schema })
            }
        },
    }
}

/// Takes a command line apart, with what stdin held: `None` where stdin is
/// a terminal, else the text read from it. Empty input counts as no prompt.
pub fn parse_invocation(
    args: Vec<String>,
    stdin_input: Option<String>,
    env_format: Option<String>,
) -> (r: Result<ParsedArgs, ArgFailure>)
    ensures
        parse_result_matches(
            r,
            parse_spec(args.deep_view(), stdin_prompt_of(opt_view(stdin_input)), opt_view(env_format)),
        ),
{
    let stdin_prompt = match stdin_input {
        Some(t) => if t.as_str().is_empty() {
            None
        } else {
            Some(t)
        },
        None => None,
    };
    parse_invocation_with_stdin(args, stdin_prompt, env_format)
}

impl ParsedArgs {
    /// The files to read for `--append-system-prompt-file`, in order.
    pub fn prompt_files(&self) -> (r: Vec<String>)
        ensures
            r.deep_view() == files_of(sources_view(self.append_sources@)),
    {
        file_paths(&self.append_sources)
    }

    /// The invocation, with `file_texts[i]` the text of the `i`-th file of
    /// [`ParsedArgs::prompt_files`]. The appended system prompts are joined
    /// by a blank line.
    pub fn into_invocation(self, file_texts: Vec<String>) -> (r: Invocation)
        requires
            file_texts.len() == files_of(sources_view(self.append_sources@)).len(),
        ensures
            r.upstream_args.deep_view() == self.upstream_args.deep_view(),
            r.prompt@ == self.prompt@,
            r.format == self.format,
            r.settings.deep_view() == self.settings.deep_view(),
            opt_view(r.json_schema) == opt_view(self.json_schema),
            opt_view(r.append_system_prompt) == (if self.append_sources.len() == 0 {
                None
            } else {
                Some(
                    join_spec(
                        resolve_sources(sources_view(self.append_sources@), file_texts.deep_view()),
                        "\n\n"@,
                    ),
                )
            }),
    {
        let ParsedArgs { upstream_args, prompt, format, append_sources, settings, json_schema } =
            self;
        let ghost srcs = sources_view(append_sources@);
        let ghost texts = file_texts.deep_view();
        let mut parts: Vec<String> = Vec::new();
        let mut i: usize = 0;
        let mut used: usize = 0;
        while i < append_sources.len()
            invariant
                i <= append_sources.len(),
                srcs == sources_view(append_sources@),
                texts == file_texts.deep_view(),
                texts.len() == files_of(srcs).len(),
                used == files_of(srcs.take(i as int)).len(),
                parts.deep_view() == resolve_sources(srcs.take(i as int), texts.take(used as int)),
            decreases append_sources.len() - i,
        {
            proof {
                lemma_files_prefix(srcs, i as int);
            }
            assert(srcs.take(i + 1).drop_last() =~= srcs.take(i as int));
            let ghost b = parts.deep_view();
            match &append_sources[i] {
                PromptSource::Text(t) => {
                    parts.push(t.clone());
                    assert(parts.deep_view() =~= b.push(t@));
                },
                PromptSource::File(_) => {
                    assert(files_of(srcs.take(i + 1)) == files_of(srcs.take(i as int)).push(
                        files_of(srcs.take(i + 1)).last(),
                    ));
                    assert(file_texts.deep_view().len() == file_texts.len());
                    assert(used < file_texts.len());
                    parts.push(file_texts[used].clone());
                    assert(parts.deep_view() =~= b.push(texts[used as int]));
                    assert(texts.take(used + 1).drop_last() =~= texts.take(used as int));
                    used = used + 1;
                },
            }
            i = i + 1;
        }
        assert(srcs.take(append_sources.len() as int) =~= srcs);
        assert(texts.take(used as int) =~= texts);
        let append_system_prompt = if append_sources.len() == 0 {
            None
        } else {
            Some(join(&parts, "\n\n"))
        };
        Invocation { upstream_args, prompt, format, append_system_prompt, settings, json_schema }
    }
}

proof fn lemma_files_prefix(srcs: Seq<SourceView>, i: int)
    requires
        0 <= i < srcs.len(),
    ensures
        files_of(srcs.take(i + 1)).len() <= files_of(srcs).len(),
        files_of(srcs.take(i)).len() <= files_of(srcs.take(i + 1)).len(),
    decreases srcs.len(),
{
    assert(srcs.take(i + 1).drop_last() =~= srcs.take(i));
    if i + 1 < srcs.len() {
        assert(srcs.drop_last().take(i + 1) =~= srcs.take(i + 1));
        lemma_files_prefix(srcs.drop_last(), i);
        assert(srcs.drop_last().take(i) =~= srcs.take(i));
        lemma_files_le(srcs.drop_last(), i + 1);
    } else {
        assert(srcs.take(i + 1) =~= srcs);
    }
}

proof fn lemma_files_le(srcs: Seq<SourceView>, n: int)
    requires
        0 <= n <= srcs.len(),
    ensures
        files_of(srcs.take(n)).len() <= files_of(srcs).len(),
    decreases srcs.len() - n,
{
    if n < srcs.len() {
        lemma_files_le(srcs, n + 1);
        assert(srcs.take(n + 1).drop_last() =~= srcs.take(n));
    } else {
        assert(srcs.take(n) =~= srcs);
    }
}

// ---------------------------------------------------------------------------
// Laws
// ---------------------------------------------------------------------------

/// Everything after a leading `--` is the prompt, joined by spaces: no
/// wrapper option after it is read, and nothing is forwarded.
pub proof fn separator_stops_option_parsing(post: Seq<Seq<char>>, env_format: Option<Seq<char>>)
    requires
        env_format matches Some(v) ==> format_named(v) is Some,
        !is_blank_spec(join_spec(post, " "@)),
    ensures
        parse_spec(seq!["--"@] + post, None, env_format) == (ParseOutcome::Parsed {
            upstream: Seq::empty(),
            prompt: join_spec(post, " "@),
            st: ScanState {
                cleaned: seq!["--"@] + post,
                ..initial_state(
                    match env_format {
                        Some(v) => format_named(v)->Some_0,
                        None => Format::Text,
                    },
                )
            },
        }),
{
    let args = seq!["--"@] + post;
    let f = match env_format {
        Some(v) => format_named(v)->Some_0,
        None => Format::Text,
    };
    let st0 = initial_state(f);
    assert(args[0] == "--"@);
    assert(st0.cleaned + args =~= args);
    let st = ScanState { cleaned: args, ..st0 };
    assert(scan_step(args, st0) == ScanStep::Stop(st));
    assert(scan_args(args, st0) == ScanEnd::Finished(st));
    lemma_first_sep(args, 0);
    assert(args.take(0) =~= Seq::<Seq<char>>::empty());
    assert(args.skip(1) =~= post);
}

/// An argument that the wrapper neither consumes nor treats as a separator.
pub open spec fn is_plain_arg(a: Seq<char>) -> bool {
    &&& a != "--"@
    &&& a != "-p"@
    &&& a != "--print"@
    &&& a != "--include-partial-messages"@
    &&& a != "--no-session-persistence"@
    &&& option_form(a, earlier_options()) is None
    &&& option_form(a, later_options()) is None
}

proof fn lemma_scan_plain(args: Seq<Seq<char>>, st: ScanState)
    requires
        forall|i: int| 0 <= i < args.len() ==> is_plain_arg(#[trigger] args[i]),
    ensures
        scan_args(args, st) == ScanEnd::Finished(ScanState { cleaned: st.cleaned + args, ..st }),
    decreases args.len(),
{
    if args.len() == 0 {
        assert(st.cleaned + args =~= st.cleaned);
    } else {
        assert(is_plain_arg(args[0]));
        let next = ScanState { cleaned: st.cleaned.push(args[0]), ..st };
        assert(scan_step(args, st) == ScanStep::Continue(1, next));
        assert forall|i: int| 0 <= i < args.skip(1).len() implies is_plain_arg(#[trigger] args.skip(1)[i]) by {
            assert(args.skip(1)[i] == args[i + 1]);
        }
        lemma_scan_plain(args.skip(1), next);
        assert(next.cleaned + args.skip(1) =~= st.cleaned + args);
    }
}

/// Arguments that are not wrapper options are forwarded unchanged and in
/// order: the last is the prompt, or all are forwarded where the prompt
/// comes from stdin.
pub proof fn plain_arguments_are_forwarded(
    args: Seq<Seq<char>>,
    stdin_prompt: Option<Seq<char>>,
)
    requires
        forall|i: int| 0 <= i < args.len() ==> is_plain_arg(#[trigger] args[i]),
        stdin_prompt matches Some(p) ==> !is_blank_spec(p),
        stdin_prompt is None ==> args.len() > 0 && !is_blank_spec(args.last()),
    ensures
        parse_spec(args, stdin_prompt, None) matches ParseOutcome::Parsed { upstream, prompt, st } && {
            &&& st.format == Format::Text
            &&& match stdin_prompt {
                Some(p) => upstream == args && prompt == p,
                None => upstream == args.drop_last() && prompt == args.last(),
            }
        },
{
    let st0 = initial_state(Format::Text);
    lemma_scan_plain(args, st0);
    assert(st0.cleaned + args =~= args);
    if !(exists|k: int| is_sep_at(args, k)) {
    } else {
        let k = choose|k: int| is_sep_at(args, k);
        assert(is_plain_arg(args[k]));
    }
}

/// Every argument before the first `--` is a plain one.
pub open spec fn plain_until_sep(c: Seq<Seq<char>>) -> bool {
    forall|i: int|
        0 <= i < c.len() && (forall|j: int| 0 <= j <= i ==> c[j] != "--"@) ==> is_plain_arg(
            #[trigger] c[i],
        )
}

proof fn lemma_option_step_keeps_cleaned(form: (FlagName, bool), args: Seq<Seq<char>>, st: ScanState)
    requires
        args.len() >= 1,
    ensures
        match option_step(form, args, st) {
            ScanStep::Continue(_, n) => n.cleaned == st.cleaned,
            ScanStep::Stop(n) => n.cleaned == st.cleaned,
            ScanStep::Fail(_, n) => n.cleaned == st.cleaned,
        },
{
}

proof fn lemma_scan_plain_until_sep(args: Seq<Seq<char>>, st: ScanState)
    requires
        plain_until_sep(st.cleaned),
        forall|j: int| 0 <= j < st.cleaned.len() ==> st.cleaned[j] != "--"@,
    ensures
        scan_args(args, st) matches ScanEnd::Finished(f) ==> plain_until_sep(f.cleaned),
    decreases args.len(),
{
    if args.len() > 0 {
        let a = args[0];
        match scan_step(args, st) {
            ScanStep::Continue(n, next) => {
                if a == "-p"@ || a == "--print"@ || a == "--include-partial-messages"@ || a
                    == "--no-session-persistence"@ {
                } else if let Some(form) = option_form(a, earlier_options()) {
                    lemma_option_step_keeps_cleaned(form, args, st);
                } else if let Some(form) = option_form(a, later_options()) {
                    lemma_option_step_keeps_cleaned(form, args, st);
                } else {
                    assert(is_plain_arg(a));
                    assert(next.cleaned == st.cleaned.push(a));
                    assert forall|i: int|
                        0 <= i < next.cleaned.len() && (forall|j: int|
                            0 <= j <= i ==> next.cleaned[j] != "--"@) implies is_plain_arg(
                        #[trigger] next.cleaned[i],
                    ) by {
                        if i < st.cleaned.len() {
                            assert(next.cleaned[i] == st.cleaned[i]);
                            assert forall|j: int| 0 <= j <= i implies st.cleaned[j] != "--"@ by {
                                assert(next.cleaned[j] == st.cleaned[j]);
                            }
                        }
                    }
                }
                if 0 < n <= args.len() {
                    lemma_scan_plain_until_sep(args.skip(n as int), next);
                }
            },
            ScanStep::Stop(next) => {
                assert(next.cleaned == st.cleaned + args);
                assert forall|i: int|
                    0 <= i < next.cleaned.len() && (forall|j: int|
                        0 <= j <= i ==> next.cleaned[j] != "--"@) implies is_plain_arg(
                    #[trigger] next.cleaned[i],
                ) by {
                    if i >= st.cleaned.len() {
                        assert(next.cleaned[st.cleaned.len() as int] == "--"@);
                    } else {
                        assert(next.cleaned[i] == st.cleaned[i]);
                        assert forall|j: int| 0 <= j <= i implies st.cleaned[j] != "--"@ by {
                            assert(next.cleaned[j] == st.cleaned[j]);
                        }
                    }
                }
            },
            ScanStep::Fail(_, _) => {},
        }
    }
}

proof fn lemma_pick_plain(c: Seq<Seq<char>>)
    requires
        plain_until_sep(c),
    ensures
        pick_prompt_spec(c, None) matches Some((u, _)) ==> forall|i: int|
            0 <= i < u.len() ==> is_plain_arg(#[trigger] u[i]),
{
    match first_sep(c) {
        Some(k) => {
            assert(is_sep_at(c, k));
            assert forall|i: int| 0 <= i < c.take(k).len() implies is_plain_arg(#[trigger] c.take(k)[i]) by {
                assert(c.take(k)[i] == c[i]);
                assert forall|j: int| 0 <= j <= i implies c[j] != "--"@ by {}
            }
        },
        None => {
            if c.len() > 0 {
                assert forall|m: int| 0 <= m < c.len() implies c[m] != "--"@ by {
                    if c[m] == "--"@ {
                        lemma_has_first_sep(c, m);
                    }
                }
                let u = c.drop_last();
                assert forall|i: int| 0 <= i < u.len() implies is_plain_arg(#[trigger] u[i]) by {
                    assert(u[i] == c[i]);
                    assert forall|j: int| 0 <= j <= i implies c[j] != "--"@ by {}
                }
            }
        },
    }
}

/// Where the prompt is an argument, the arguments forwarded upstream hold
/// no wrapper option, no print flag and no separator: those never reach
/// the upstream CLI.
pub proof fn wrapper_options_are_not_forwarded(args: Seq<Seq<char>>, env_format: Option<Seq<char>>)
    ensures
        parse_spec(args, None, env_format) matches ParseOutcome::Parsed { upstream, .. } ==> forall|i: int|
            0 <= i < upstream.len() ==> is_plain_arg(#[trigger] upstream[i]),
{
    let f = match env_format {
        None => Format::Text,
        Some(v) => match format_named(v) {
            Some(f) => f,
            None => Format::Text,
        },
    };
    lemma_scan_plain_until_sep(args, initial_state(f));
    if let ScanEnd::Finished(st) = scan_args(args, initial_state(f)) {
        lemma_pick_plain(st.cleaned);
    }
}

proof fn lemma_has_first_sep(c: Seq<Seq<char>>, m: int)
    requires
        0 <= m < c.len(),
        c[m] == "--"@,
    ensures
        exists|k: int| is_sep_at(c, k),
    decreases m,
{
    if exists|j: int| 0 <= j < m && c[j] == "--"@ {
        let j = choose|j: int| 0 <= j < m && c[j] == "--"@;
        lemma_has_first_sep(c, j);
    } else {
        assert(is_sep_at(c, m));
    }
}

} // verus!

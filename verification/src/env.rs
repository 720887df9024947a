//! The wrapper's environment variables: each has a current name and a
//! legacy one, and numbers are read as `str::parse` reads them.

use vstd::prelude::*;

use crate::text::{chars_of, owned, str_eq};

verus! {

pub open spec fn is_digit(c: char) -> bool {
    '0' <= c && c <= '9'
}

/// The number that the decimal digits `s` write.
pub open spec fn digits_value(s: Seq<char>) -> nat
    decreases s.len(),
{
    if s.len() == 0 {
        0
    } else {
        digits_value(s.drop_last()) * 10 + ((s.last() as int) - ('0' as int)) as nat
    }
}

/// `s.parse()` for an unsigned integer type whose largest value is `max`:
/// an optional `+`, then one or more decimal digits, naming at most `max`.
pub open spec fn parse_unsigned_spec(s: Seq<char>, max: nat) -> Option<nat> {
    let body = unsigned_body(s);
    if body.len() > 0 && all_digits(body) && digits_value(body) <= max {
        Some(digits_value(body))
    } else {
        None
    }
}

/// `s` without one leading `+`.
pub open spec fn unsigned_body(s: Seq<char>) -> Seq<char> {
    if s.len() > 0 && s[0] == '+' {
        s.drop_first()
    } else {
        s
    }
}

pub open spec fn all_digits(s: Seq<char>) -> bool {
    forall|i: int| 0 <= i < s.len() ==> is_digit(#[trigger] s[i])
}

proof fn lemma_digits_grow(s: Seq<char>, k: int)
    requires
        0 <= k <= s.len(),
        forall|i: int| 0 <= i < s.len() ==> is_digit(#[trigger] s[i]),
    ensures
        digits_value(s.take(k)) <= digits_value(s),
    decreases s.len() - k,
{
    if k < s.len() {
        lemma_digits_grow(s, k + 1);
        assert(s.take(k + 1).drop_last() =~= s.take(k));
        assert(is_digit(s[k]));
    } else {
        assert(s.take(k) =~= s);
    }
}

/// `s.parse::<u64>().ok()`.
pub fn parse_u64(s: &str) -> (r: Option<u64>)
    ensures
        match parse_unsigned_spec(s@, u64::MAX as nat) {
            Some(n) => r == Some(n as u64),
            None => r is None,
        },
{
    let cs = chars_of(s);
    let start: usize = if cs.len() > 0 && cs[0] == '+' {
        1
    } else {
        0
    };
    let ghost body = unsigned_body(s@);
    assert(body =~= cs@.skip(start as int));
    if start >= cs.len() {
        return None;
    }
    let mut v: u64 = 0;
    let mut i: usize = start;
    assert(body.take(0) =~= Seq::<char>::empty());
    while i < cs.len()
        invariant
            start <= i <= cs.len(),
            start < cs.len(),
            cs@ == s@,
            body == cs@.skip(start as int),
            body == unsigned_body(s@),
            forall|k: int| 0 <= k < i - start ==> is_digit(#[trigger] body[k]),
            v as nat == digits_value(body.take(i - start)),
        decreases cs.len() - i,
    {
        let c = cs[i];
        let ghost k = i - start;
        assert(body[k] == c);
        if !('0' <= c && c <= '9') {
            assert(!is_digit(body[k]));
            assert(!(forall|j: int| 0 <= j < body.len() ==> is_digit(#[trigger] body[j])));
            assert(parse_unsigned_spec(s@, u64::MAX as nat) is None);
            return None;
        }
        let d = (c as u32 - '0' as u32) as u64;
        assert(body.take(k + 1).drop_last() =~= body.take(k));
        assert(body.take(k + 1).last() == c);
        match v.checked_mul(10) {
            Some(m) => match m.checked_add(d) {
                Some(n) => {
                    v = n;
                },
                None => {
                    proof {
                        lemma_too_big(body, k);
                    }
                    assert(parse_unsigned_spec(s@, u64::MAX as nat) is None);
                    return None;
                },
            },
            None => {
                proof {
                    lemma_too_big(body, k);
                }
                assert(parse_unsigned_spec(s@, u64::MAX as nat) is None);
                return None;
            },
        }
        i = i + 1;
    }
    assert(body.take(cs.len() - start) =~= body);
    Some(v)
}

/// Where the digits up to `k` already name more than `u64::MAX`, the whole
/// string does not parse.
proof fn lemma_too_big(body: Seq<char>, k: int)
    requires
        0 <= k < body.len(),
        forall|i: int| 0 <= i <= k ==> is_digit(#[trigger] body[i]),
        digits_value(body.take(k + 1)) > u64::MAX,
    ensures
        names_no_u64(body),
{
    if forall|i: int| 0 <= i < body.len() ==> is_digit(#[trigger] body[i]) {
        lemma_digits_grow(body, k + 1);
    }
}

/// The characters `body` are not all digits, or name more than `u64::MAX`.
spec fn names_no_u64(body: Seq<char>) -> bool {
    !((forall|i: int| 0 <= i < body.len() ==> is_digit(#[trigger] body[i])) && digits_value(body)
        <= u64::MAX)
}

/// `s.parse::<usize>().ok()`.
pub fn parse_usize(s: &str) -> (r: Option<usize>)
    ensures
        match parse_unsigned_spec(s@, usize::MAX as nat) {
            Some(n) => r == Some(n as usize),
            None => r is None,
        },
{
    match parse_u64(s) {
        Some(n) => if n as u128 <= usize::MAX as u128 {
            Some(n as usize)
        } else {
            None
        },
        None => {
            assert(parse_unsigned_spec(s@, usize::MAX as nat) is None) by {
                if parse_unsigned_spec(s@, usize::MAX as nat) is Some {
                    assert(usize::MAX <= u64::MAX);
                }
            }
            None
        },
    }
}

/// One setting, under its current name and its legacy name.
#[derive(Debug)]
pub struct EnvPair {
    pub current: Option<String>,
    pub legacy: Option<String>,
}

pub open spec fn opt_s(o: Option<String>) -> Option<Seq<char>> {
    match o {
        Some(s) => Some(s@),
        None => None,
    }
}

/// The value of a setting: under the current name if set, else under the
/// legacy name.
pub open spec fn pair_value(p: EnvPair) -> Option<Seq<char>> {
    match p.current {
        Some(c) => Some(c@),
        None => opt_s(p.legacy),
    }
}

pub open spec fn parse_opt(o: Option<Seq<char>>, max: nat) -> Option<nat> {
    match o {
        Some(s) => parse_unsigned_spec(s, max),
        None => None,
    }
}

/// The number a setting gives: the current name's value if it parses,
/// else the legacy name's.
pub open spec fn pair_number(p: EnvPair, max: nat) -> Option<nat> {
    match parse_opt(opt_s(p.current), max) {
        Some(n) => Some(n),
        None => parse_opt(opt_s(p.legacy), max),
    }
}

impl EnvPair {
    /// The value of the setting.
    pub fn value(&self) -> (r: Option<String>)
        ensures
            opt_s(r) == pair_value(*self),
    {
        match &self.current {
            Some(c) => Some(c.clone()),
            None => match &self.legacy {
                Some(l) => Some(l.clone()),
                None => None,
            },
        }
    }

    /// The setting as a `u64`.
    pub fn number_u64(&self) -> (r: Option<u64>)
        ensures
            match pair_number(*self, u64::MAX as nat) {
                Some(n) => r == Some(n as u64),
                None => r is None,
            },
    {
        let c = match &self.current {
            Some(c) => parse_u64(c.as_str()),
            None => None,
        };
        match c {
            Some(n) => Some(n),
            None => match &self.legacy {
                Some(l) => parse_u64(l.as_str()),
                None => None,
            },
        }
    }

    /// The setting as a `usize`.
    pub fn number_usize(&self) -> (r: Option<usize>)
        ensures
            match pair_number(*self, usize::MAX as nat) {
                Some(n) => r == Some(n as usize),
                None => r is None,
            },
    {
        let c = match &self.current {
            Some(c) => parse_usize(c.as_str()),
            None => None,
        };
        match c {
            Some(n) => Some(n),
            None => match &self.legacy {
                Some(l) => parse_usize(l.as_str()),
                None => None,
            },
        }
    }
}

/// What the environment sets for one run.
#[derive(Debug)]
pub struct RunSettings {
    /// Whether the workspace is marked trusted before the run.
    pub trust_cwd: bool,
    /// A prompt with fewer characters than this is passed as an argument.
    pub arg_max: usize,
    /// How long to wait for the turn to end, in seconds.
    pub timeout_secs: u64,
    /// Whether the hidden terminal is mirrored to stderr.
    pub show_tui: bool,
    /// Whether the temporary directory is kept.
    pub keep_log: bool,
    /// The tools to deny, separated by commas or whitespace.
    pub deny_tools: String,
    /// The model name to report.
    pub model: String,
}

pub open spec fn is_text(o: Option<Seq<char>>, t: Seq<char>) -> bool {
    o == Some(t)
}

/// The run settings: trust unless the setting is `0`; a prompt limit of
/// 100000 characters unless set (a prompt with fewer characters goes on the
/// command line); a timeout of 600 s unless set; the
/// terminal mirrored and the directory kept only where set to `1`; the
/// default denied tools unless set; the model `unknown` unless set.
pub open spec fn run_settings_spec(
    trust_cwd: EnvPair,
    arg_max: EnvPair,
    timeout: EnvPair,
    show_tui: EnvPair,
    keep_log: EnvPair,
    deny_tools: EnvPair,
    model: EnvPair,
    r: RunSettings,
) -> bool {
    &&& r.trust_cwd == !is_text(pair_value(trust_cwd), "0"@)
    &&& r.arg_max as nat == match pair_number(arg_max, usize::MAX as nat) {
        Some(n) => n,
        None => 100_000,
    }
    &&& r.timeout_secs as nat == match pair_number(timeout, u64::MAX as nat) {
        Some(n) => n,
        None => 600,
    }
    &&& r.show_tui == is_text(pair_value(show_tui), "1"@)
    &&& r.keep_log == is_text(pair_value(keep_log), "1"@)
    &&& r.deny_tools@ == match pair_value(deny_tools) {
        Some(v) => v,
        None => "AskUserQuestion EnterPlanMode ExitPlanMode"@,
    }
    &&& r.model@ == match pair_value(model) {
        Some(v) => v,
        None => "unknown"@,
    }
}

fn value_is(p: &EnvPair, t: &str) -> (r: bool)
    ensures
        r == is_text(pair_value(*p), t@),
{
    match p.value() {
        Some(v) => str_eq(v.as_str(), t),
        None => false,
    }
}

fn value_or(p: &EnvPair, d: &str) -> (r: String)
    ensures
        r@ == match pair_value(*p) {
            Some(v) => v,
            None => d@,
        },
{
    match p.value() {
        Some(v) => v,
        None => owned(d),
    }
}

/// The settings of one run, from the environment.
pub fn run_settings(
    trust_cwd: &EnvPair,
    arg_max: &EnvPair,
    timeout: &EnvPair,
    show_tui: &EnvPair,
    keep_log: &EnvPair,
    deny_tools: &EnvPair,
    model: &EnvPair,
) -> (r: RunSettings)
    ensures
        run_settings_spec(*trust_cwd, *arg_max, *timeout, *show_tui, *keep_log, *deny_tools, *model, r),
{
    RunSettings {
        trust_cwd: !value_is(trust_cwd, "0"),
        arg_max: match arg_max.number_usize() {
            Some(n) => n,
            None => 100_000,
        },
        timeout_secs: match timeout.number_u64() {
            Some(n) => n,
            None => 600,
        },
        show_tui: value_is(show_tui, "1"),
        keep_log: value_is(keep_log, "1"),
        deny_tools: value_or(deny_tools, "AskUserQuestion EnterPlanMode ExitPlanMode"),
        model: value_or(model, "unknown"),
    }
}

// ---------------------------------------------------------------------------
// Laws
// ---------------------------------------------------------------------------

/// The number a setting gives, read name by name: the current name's value
/// where it parses, else the legacy name's where it parses, else `d`.
pub open spec fn current_then_legacy(current: Option<String>, legacy: Option<String>, max: nat, d: nat) -> nat {
    match current {
        Some(c) if parse_unsigned_spec(c@, max) is Some => parse_unsigned_spec(c@, max)->Some_0,
        _ => match legacy {
            Some(l) if parse_unsigned_spec(l@, max) is Some => parse_unsigned_spec(l@, max)->Some_0,
            _ => d,
        },
    }
}

/// Every setting is read under its current name first and its legacy name
/// only where the current one gives nothing: the numbers (prompt limit and
/// timeout) where they parse, the others where they are set. The timeout is
/// 600 s and the prompt limit 100000 characters where neither name gives one.
pub proof fn current_names_come_first(
    trust_cwd: EnvPair,
    arg_max: EnvPair,
    timeout: EnvPair,
    show_tui: EnvPair,
    keep_log: EnvPair,
    deny_tools: EnvPair,
    model: EnvPair,
    r: RunSettings,
)
    requires
        run_settings_spec(trust_cwd, arg_max, timeout, show_tui, keep_log, deny_tools, model, r),
    ensures
        r.timeout_secs as nat == current_then_legacy(timeout.current, timeout.legacy, u64::MAX as nat, 600),
        r.arg_max as nat == current_then_legacy(arg_max.current, arg_max.legacy, usize::MAX as nat, 100_000),
        model.current matches Some(m) ==> r.model@ == m@,
        model.current is None ==> (model.legacy matches Some(m) ==> r.model@ == m@),
        deny_tools.current matches Some(d) ==> r.deny_tools@ == d@,
        trust_cwd.current matches Some(t) ==> (r.trust_cwd <==> t@ != "0"@),
        show_tui.current matches Some(t) ==> (r.show_tui <==> t@ == "1"@),
        keep_log.current matches Some(t) ==> (r.keep_log <==> t@ == "1"@),
{
}

} // verus!

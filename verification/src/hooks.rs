//! The wrapper's hook settings: how its hooks are written, and how they are
//! merged with the caller's own settings without replacing either side.

use vstd::prelude::*;

use crate::json::{
    entries_get, entries_set, find_key, get_v, jv, jv_entries, jv_seq, key_index, lemma_jv_entries,
    lemma_jv_seq, set_entry, Json, JsonV, push_member, array_of_one, object_of_one, int_v,
    str_v, keys_distinct, lemma_get_front, lemma_get_absent, lemma_set_get_same,
    lemma_set_get_other, lemma_set_keeps_distinct, opt_jv,
};
use crate::text::{append_str, join, join_spec, owned, push_char};

verus! {

// ---------------------------------------------------------------------------
// Deep merge
// ---------------------------------------------------------------------------

/// `deep_merge(target, source)`: two objects merge key by key, in the
/// source's order; anything else is replaced by the source.
pub open spec fn deep_merge_v(t: JsonV, s: JsonV) -> JsonV
    decreases s,
{
    match (t, s) {
        (JsonV::Object(te), JsonV::Object(se)) => JsonV::Object(merge_entries_v(te, se)),
        _ => s,
    }
}

/// The target entries `te` after merging the source entries `se` into them:
/// a key already there is merged deeply, a new key comes last.
pub open spec fn merge_entries_v(te: Seq<(Seq<char>, JsonV)>, se: Seq<(Seq<char>, JsonV)>) -> Seq<
    (Seq<char>, JsonV),
>
    decreases se,
{
    if se.len() == 0 {
        te
    } else {
        let k = se[0].0;
        let next = match key_index(te, k) {
            Some(i) => te.update(i, (te[i].0, deep_merge_v(te[i].1, se[0].1))),
            None => te.push((k, se[0].1)),
        };
        merge_entries_v(next, se.drop_first())
    }
}

/// Merges `source` into `target`.
pub fn deep_merge(target: &mut Json, source: Json)
    ensures
        final(target)@ == deep_merge_v(old(target)@, source@),
{
    let mut t = Json::Null;
    std::mem::swap(&mut t, target);
    *target = merged(t, source);
}

/// `target` with `source` merged into it.
#[verifier::loop_isolation(false)]
pub fn merged(target: Json, source: Json) -> (r: Json)
    ensures
        r@ == deep_merge_v(target@, source@),
    decreases source,
{
    let ghost src = source;
    match source {
        Json::Object(se) => match target {
            Json::Object(te) => {
                let ghost se_orig = se;
                let ghost se0 = se@;
                let ghost te0 = te@;
                proof {
                    lemma_jv_entries(se0);
                }
                let n = se.len();
                assert(se0.len() == n);
                let mut se = se;
                let mut te = te;
                let mut i: usize = 0;
                assert(se@ =~= se0.skip(0));
                assert(jv_entries(se0).skip(0) =~= jv_entries(se0));
                while se.len() > 0
                    invariant
                        src == Json::Object(se_orig),
                        se_orig@ == se0,
                        se0.len() <= usize::MAX,
                        i <= se0.len(),
                        se@ == se0.skip(i as int),
                        jv_entries(se0).len() == se0.len(),
                        forall|k: int|
                            0 <= k < se0.len() ==> #[trigger] jv_entries(se0)[k] == (
                            se0[k].0@,
                            jv(se0[k].1),
                        ),
                        merge_entries_v(jv_entries(te@), jv_entries(se0).skip(i as int))
                            == merge_entries_v(jv_entries(te0), jv_entries(se0)),
                    decreases se.len(),
                {
                    let (k, v) = se.remove(0);
                    assert(se@ =~= se0.skip(i + 1));
                    assert(v == se0[i as int].1);
                    let ghost sv = jv_entries(se0).skip(i as int);
                    assert(sv[0] == (k@, v@));
                    assert(sv.drop_first() =~= jv_entries(se0).skip(i + 1));
                    let ghost tv0 = jv_entries(te@);
                    proof {
                        lemma_jv_entries(te@);
                    }
                    match find_key(&te, k.as_str()) {
                        Some(j) => {
                            let ghost tb = te@;
                            let (tk, tv) = te.remove(j);
                            assert(decreases_to!(src => src->Object_0));
                            assert(decreases_to!(se_orig => se_orig@));
                            assert(decreases_to!(se_orig@ => se_orig@[i as int]));
                            assert(decreases_to!(se_orig@[i as int] => se_orig@[i as int].1));
                            assert(decreases_to!(src => v));
                            let m = merged(tv, v);
                            let ghost mv = m@;
                            te.insert(j, (tk, m));
                            assert(te@ =~= tb.update(j as int, (tb[j as int].0, m)));
                            proof {
                                lemma_jv_entries(te@);
                                assert(jv_entries(te@) =~= tv0.update(
                                    j as int,
                                    (tv0[j as int].0, deep_merge_v(tv0[j as int].1, sv[0].1)),
                                ));
                            }
                        },
                        None => {
                            let ghost tb = te@;
                            te.push((k, v));
                            assert(te@.drop_last() =~= tb);
                        },
                    }
                    i = i + 1;
                }
                assert(jv_entries(se0).skip(i as int) =~= Seq::empty());
                Json::Object(te)
            },
            t => {
                let r = Json::Object(se);
                assert(deep_merge_v(t@, src@) == src@);
                r
            },
        },
        s => s,
    }
}

// ---------------------------------------------------------------------------
// Adding the wrapper's hooks to the caller's settings
// ---------------------------------------------------------------------------

/// Why the caller's settings cannot take the wrapper's hooks.
#[derive(Debug)]
pub enum SettingsError {
    /// The settings are not a JSON object.
    RootNotObject,
    /// The settings' `hooks` member is not an object.
    HooksNotObject,
    /// The wrapper's own settings have no `hooks` object.
    WrapperHooksMalformed,
    /// The caller's `hooks.<event>` member is not an array.
    EventNotArray(String),
}

/// The characters of a [`SettingsError`].
pub enum SettingsErrorV {
    RootNotObject,
    HooksNotObject,
    WrapperHooksMalformed,
    EventNotArray(Seq<char>),
}

impl View for SettingsError {
    type V = SettingsErrorV;

    open spec fn view(&self) -> SettingsErrorV {
        match self {
            SettingsError::RootNotObject => SettingsErrorV::RootNotObject,
            SettingsError::HooksNotObject => SettingsErrorV::HooksNotObject,
            SettingsError::WrapperHooksMalformed => SettingsErrorV::WrapperHooksMalformed,
            SettingsError::EventNotArray(e) => SettingsErrorV::EventNotArray(e@),
        }
    }
}

/// The message printed for a settings error.
pub open spec fn settings_error_message_v(e: SettingsErrorV) -> Seq<char> {
    match e {
        SettingsErrorV::RootNotObject => "settings root must be an object"@,
        SettingsErrorV::HooksNotObject => "settings hooks field must be an object"@,
        SettingsErrorV::WrapperHooksMalformed => "wrapper hooks are malformed"@,
        SettingsErrorV::EventNotArray(event) => "settings hooks."@ + event + " must be an array"@,
    }
}

impl SettingsError {
    /// The message printed for this error.
    pub fn message(&self) -> (r: String)
        ensures
            r@ == settings_error_message_v(self@),
    {
        match self {
            SettingsError::RootNotObject => owned("settings root must be an object"),
            SettingsError::HooksNotObject => owned("settings hooks field must be an object"),
            SettingsError::WrapperHooksMalformed => owned("wrapper hooks are malformed"),
            SettingsError::EventNotArray(event) => {
                let mut r = owned("settings hooks.");
                append_str(&mut r, event.as_str());
                append_str(&mut r, " must be an array");
                r
            },
        }
    }
}

/// The caller's hook entries `he` with the wrapper's matchers for each event
/// of `we` added after the caller's own, in the order of `we`.
pub open spec fn add_matchers_v(he: Seq<(Seq<char>, JsonV)>, we: Seq<(Seq<char>, JsonV)>) -> Result<
    Seq<(Seq<char>, JsonV)>,
    SettingsErrorV,
>
    decreases we.len(),
{
    if we.len() == 0 {
        Ok(he)
    } else {
        let event = we[0].0;
        let target = match entries_get(he, event) {
            Some(t) => t,
            None => JsonV::Array(Seq::empty()),
        };
        match target {
            JsonV::Array(items) => {
                let items2 = match we[0].1 {
                    JsonV::Array(ms) => items + ms,
                    _ => items,
                };
                add_matchers_v(entries_set(he, event, JsonV::Array(items2)), we.drop_first())
            },
            _ => Err(SettingsErrorV::EventNotArray(event)),
        }
    }
}

/// The caller's settings `user` with the wrapper's hooks added to its `hooks`.
pub open spec fn merge_wrapper_hooks_v(user: JsonV, wrapper: JsonV) -> Result<JsonV, SettingsErrorV> {
    match user {
        JsonV::Object(ue) => {
            let hooks = match entries_get(ue, "hooks"@) {
                Some(h) => h,
                None => JsonV::Object(Seq::empty()),
            };
            match hooks {
                JsonV::Object(he) => match get_v(wrapper, "hooks"@) {
                    Some(JsonV::Object(we)) => match add_matchers_v(he, we) {
                        Ok(he2) => Ok(JsonV::Object(entries_set(ue, "hooks"@, JsonV::Object(he2)))),
                        Err(e) => Err(e),
                    },
                    _ => Err(SettingsErrorV::WrapperHooksMalformed),
                },
                _ => Err(SettingsErrorV::HooksNotObject),
            }
        },
        _ => Err(SettingsErrorV::RootNotObject),
    }
}

/// Appends copies of `more` to `items`.
pub fn extend_cloned(items: &mut Vec<Json>, more: &Vec<Json>)
    ensures
        jv_seq(final(items)@) == jv_seq(old(items)@) + jv_seq(more@),
{
    proof {
        lemma_jv_seq(more@);
    }
    let ghost start = jv_seq(items@);
    let mut i: usize = 0;
    while i < more.len()
        invariant
            i <= more.len(),
            jv_seq(more@).len() == more.len(),
            forall|k: int| 0 <= k < more.len() ==> #[trigger] jv_seq(more@)[k] == jv(more@[k]),
            jv_seq(items@) == start + jv_seq(more@).take(i as int),
        decreases more.len() - i,
    {
        let c = more[i].deep_clone();
        let ghost before = items@;
        items.push(c);
        assert(items@.drop_last() =~= before);
        assert(jv_seq(more@).take(i + 1) =~= jv_seq(more@).take(i as int).push(jv(more@[i as int])));
        i = i + 1;
    }
    assert(jv_seq(more@).take(more.len() as int) =~= jv_seq(more@));
}

/// `add_matchers_v`, computed.
fn add_matchers(hooks: Vec<(String, Json)>, we: &Vec<(String, Json)>) -> (r: Result<
    Vec<(String, Json)>,
    SettingsError,
>)
    ensures
        match add_matchers_v(jv_entries(hooks@), jv_entries(we@)) {
            Ok(h) => r matches Ok(x) && jv_entries(x@) == h,
            Err(e) => r matches Err(x) && x@ == e,
        },
{
    proof {
        lemma_jv_entries(we@);
    }
    let ghost wv = jv_entries(we@);
    let ghost goal = add_matchers_v(jv_entries(hooks@), wv);
    let mut he = hooks;
    let mut i: usize = 0;
    assert(wv.skip(0) =~= wv);
    while i < we.len()
        invariant
            i <= we.len(),
            wv == jv_entries(we@),
            wv.len() == we.len(),
            forall|k: int| 0 <= k < we.len() ==> #[trigger] wv[k] == (we@[k].0@, jv(we@[k].1)),
            add_matchers_v(jv_entries(he@), wv.skip(i as int)) == goal,
            goal == add_matchers_v(jv_entries(hooks@), jv_entries(we@)),
        decreases we.len() - i,
    {
        let ghost rest = wv.skip(i as int);
        assert(rest[0] == wv[i as int]);
        assert(rest.drop_first() =~= wv.skip(i + 1));
        let event = &we[i].0;
        let matchers = &we[i].1;
        proof {
            lemma_jv_entries(he@);
        }
        let ghost hv = jv_entries(he@);
        let mut items: Vec<Json> = Vec::new();
        assert(jv_seq(items@) =~= Seq::empty());
        match find_key(&he, event.as_str()) {
            Some(j) => {
                assert(entries_get(hv, event@) == Some(jv(he@[j as int].1)));
                match &he[j].1 {
                    Json::Array(v) => {
                        extend_cloned(&mut items, v);
                        assert(jv_seq(items@) =~= jv_seq(v@));
                    },
                    _ => {
                        assert(!(jv(he@[j as int].1) is Array));
                        assert(rest[0].0 == event@);
                        assert(add_matchers_v(hv, rest) == Err::<Seq<(Seq<char>, JsonV)>, SettingsErrorV>(
                            SettingsErrorV::EventNotArray(event@),
                        ));
                        let e = SettingsError::EventNotArray(event.clone());
                        assert(goal == Err::<Seq<(Seq<char>, JsonV)>, SettingsErrorV>(e@));
                        return Err(e);
                    },
                }
            },
            None => {},
        }
        match matchers {
            Json::Array(ms) => {
                extend_cloned(&mut items, ms);
            },
            _ => {},
        }
        set_entry(&mut he, event.clone(), Json::Array(items));
        i = i + 1;
    }
    assert(wv.skip(i as int) =~= Seq::empty());
    Ok(he)
}

/// `merge_wrapper_hooks`: adds the wrapper's hook matchers to the caller's
/// settings, after the caller's own matchers for each event.
pub fn merge_wrapper_hooks(user: Json, wrapper: &Json) -> (r: Result<Json, SettingsError>)
    ensures
        match merge_wrapper_hooks_v(user@, wrapper@) {
            Ok(u) => r matches Ok(x) && x@ == u,
            Err(e) => r matches Err(x) && x@ == e,
        },
{
    let ghost uv = user@;
    match user {
        Json::Object(ue) => {
            proof {
                lemma_jv_entries(ue@);
            }
            let mut ue = ue;
            let he: Vec<(String, Json)> = match find_key(&ue, "hooks") {
                Some(j) => {
                    let h = ue[j].1.deep_clone();
                    match h {
                        Json::Object(h) => h,
                        _ => {
                            return Err(SettingsError::HooksNotObject);
                        },
                    }
                },
                None => {
                    let h: Vec<(String, Json)> = Vec::new();
                    assert(jv_entries(h@) =~= Seq::empty());
                    h
                },
            };
            let we = match wrapper.get("hooks") {
                Some(Json::Object(we)) => we,
                _ => {
                    return Err(SettingsError::WrapperHooksMalformed);
                },
            };
            let he2 = match add_matchers(he, we) {
                Ok(h) => h,
                Err(e) => {
                    return Err(e);
                },
            };
            set_entry(&mut ue, owned("hooks"), Json::Object(he2));
            Ok(Json::Object(ue))
        },
        _ => Err(SettingsError::RootNotObject),
    }
}

/// Adds the callers' settings `user` (as `add_caller_settings` gathers
/// them), with the wrapper's hooks added after theirs, to the wrapper's
/// settings `settings`.
pub fn merge_user_settings(settings: &mut Json, user: Json, wrapper: &Json) -> (r: Result<
    (),
    SettingsError,
>)
    ensures
        match merge_wrapper_hooks_v(user@, wrapper@) {
            Ok(u) => r is Ok && final(settings)@ == deep_merge_v(old(settings)@, u),
            Err(e) => r matches Err(x) && x@ == e && final(settings)@ == old(settings)@,
        },
{
    match merge_wrapper_hooks(user, wrapper) {
        Ok(u) => {
            deep_merge(settings, u);
            Ok(())
        },
        Err(e) => Err(e),
    }
}

// ---------------------------------------------------------------------------
// Several callers' settings
// ---------------------------------------------------------------------------

/// The entries of the `hooks` object of a settings value; none where it has
/// no `hooks` object.
pub open spec fn hooks_entries(j: JsonV) -> Seq<(Seq<char>, JsonV)> {
    match get_v(j, "hooks"@) {
        Some(JsonV::Object(h)) => h,
        _ => Seq::empty(),
    }
}

/// One event's hooks `a` (if any) with a further caller's hooks `b` for it:
/// two matcher lists are joined, the earlier first; other values merge as
/// settings do.
pub open spec fn join_event_v(a: Option<JsonV>, b: JsonV) -> JsonV {
    match a {
        Some(JsonV::Array(x)) => match b {
            JsonV::Array(y) => JsonV::Array(x + y),
            _ => b,
        },
        Some(a0) => deep_merge_v(a0, b),
        None => b,
    }
}

/// The hook entries `ch` with the entries `uh` of a further caller joined
/// in, event by event, in the order of `uh`.
pub open spec fn append_events_v(ch: Seq<(Seq<char>, JsonV)>, uh: Seq<(Seq<char>, JsonV)>) -> Seq<
    (Seq<char>, JsonV),
>
    decreases uh.len(),
{
    if uh.len() == 0 {
        ch
    } else {
        let e = uh[0].0;
        append_events_v(entries_set(ch, e, join_event_v(entries_get(ch, e), uh[0].1)), uh.drop_first())
    }
}

/// The settings of the callers so far, `c`, with one more caller's settings
/// `u`: merged as settings merge, except that for each hook event the
/// matcher lists of both are kept, `c`'s first.
pub open spec fn combine_callers_v(c: JsonV, u: JsonV) -> JsonV {
    match deep_merge_v(c, u) {
        JsonV::Object(es) => JsonV::Object(
            entries_set(es, "hooks"@, JsonV::Object(append_events_v(hooks_entries(c), hooks_entries(u)))),
        ),
        m => m,
    }
}

/// The settings of the callers `us`, given in this order.
pub open spec fn callers_v(us: Seq<JsonV>) -> JsonV
    decreases us.len(),
{
    if us.len() == 0 {
        JsonV::Object(Seq::empty())
    } else {
        combine_callers_v(callers_v(us.drop_last()), us.last())
    }
}

fn join_event(a: Option<&Json>, b: Json) -> (r: Json)
    ensures
        r@ == join_event_v(opt_jv(a), b@),
{
    match a {
        Some(Json::Array(x)) => match b {
            Json::Array(y) => {
                let mut items: Vec<Json> = Vec::new();
                assert(jv_seq(items@) =~= Seq::empty());
                extend_cloned(&mut items, x);
                extend_cloned(&mut items, &y);
                assert(jv_seq(items@) =~= jv_seq(x@) + jv_seq(y@));
                Json::Array(items)
            },
            other => other,
        },
        Some(a0) => merged(a0.deep_clone(), b),
        None => b,
    }
}

fn append_events(ch: Vec<(String, Json)>, uh: &Vec<(String, Json)>) -> (r: Vec<(String, Json)>)
    ensures
        jv_entries(r@) == append_events_v(jv_entries(ch@), jv_entries(uh@)),
{
    proof {
        lemma_jv_entries(uh@);
    }
    let ghost uv = jv_entries(uh@);
    let ghost c0 = jv_entries(ch@);
    let mut ch = ch;
    let mut i: usize = 0;
    assert(uv.skip(0) =~= uv);
    while i < uh.len()
        invariant
            i <= uh.len(),
            uv == jv_entries(uh@),
            uv.len() == uh.len(),
            forall|k: int| 0 <= k < uh.len() ==> #[trigger] uv[k] == (uh@[k].0@, jv(uh@[k].1)),
            append_events_v(jv_entries(ch@), uv.skip(i as int)) == append_events_v(c0, uv),
        decreases uh.len() - i,
    {
        let ghost sv = uv.skip(i as int);
        assert(sv[0] == uv[i as int]);
        assert(sv.drop_first() =~= uv.skip(i + 1));
        proof {
            lemma_jv_entries(ch@);
        }
        let ghost cv = jv_entries(ch@);
        let joined = match find_key(&ch, uh[i].0.as_str()) {
            Some(j) => {
                assert(cv[j as int] == (ch@[j as int].0@, jv(ch@[j as int].1)));
                join_event(Some(&ch[j].1), uh[i].1.deep_clone())
            },
            None => join_event(None, uh[i].1.deep_clone()),
        };
        set_entry(&mut ch, uh[i].0.clone(), joined);
        i = i + 1;
    }
    assert(uv.skip(i as int) =~= Seq::empty());
    ch
}

fn hooks_entries_of(j: &Json) -> (r: Vec<(String, Json)>)
    ensures
        jv_entries(r@) == hooks_entries(j@),
{
    let none: Vec<(String, Json)> = Vec::new();
    assert(jv_entries(none@) =~= Seq::empty());
    match j.get("hooks") {
        Some(h) => match h.deep_clone() {
            Json::Object(es) => es,
            _ => none,
        },
        None => none,
    }
}

fn combine_callers(c: Json, u: Json) -> (r: Json)
    ensures
        r@ == combine_callers_v(c@, u@),
{
    let ch = hooks_entries_of(&c);
    let uh = hooks_entries_of(&u);
    let joined = append_events(ch, &uh);
    match merged(c, u) {
        Json::Object(es) => {
            let mut es = es;
            set_entry(&mut es, owned("hooks"), Json::Object(joined));
            Json::Object(es)
        },
        other => other,
    }
}

/// Adds one caller's settings `user` to the callers' settings gathered so
/// far, where they can take the wrapper's hooks: the hook lists of every
/// event are kept, earlier callers' first. Refused settings leave the
/// gathered settings as they were.
pub fn add_caller_settings(callers: &mut Json, user: Json, wrapper: &Json) -> (r: Result<
    (),
    SettingsError,
>)
    ensures
        match merge_wrapper_hooks_v(user@, wrapper@) {
            Ok(_) => r is Ok && final(callers)@ == combine_callers_v(old(callers)@, user@),
            Err(e) => r matches Err(x) && x@ == e && final(callers)@ == old(callers)@,
        },
{
    match merge_wrapper_hooks(user.deep_clone(), wrapper) {
        Ok(_) => {
            let mut c = Json::Null;
            std::mem::swap(&mut c, callers);
            *callers = combine_callers(c, user);
            Ok(())
        },
        Err(e) => Err(e),
    }
}

// ---------------------------------------------------------------------------
// The wrapper's hooks
// ---------------------------------------------------------------------------

/// The shell that runs hook commands: POSIX `sh`, or PowerShell on Windows.
#[derive(Clone, Copy, Debug, PartialEq, Eq, Structural)]
pub enum Platform {
    Posix,
    Windows,
}

/// What stands for one character of a value inside single quotes.
pub open spec fn quoted_char(c: char, p: Platform) -> Seq<char> {
    if c == '\'' {
        match p {
            Platform::Posix => seq!['\'', '\\', '\'', '\''],
            Platform::Windows => seq!['\'', '\''],
        }
    } else {
        seq![c]
    }
}

/// The characters of `v` inside single quotes, each as `quoted_char` gives it.
pub open spec fn quote_body(v: Seq<char>, p: Platform) -> Seq<char>
    decreases v.len(),
{
    if v.len() == 0 {
        Seq::empty()
    } else {
        quote_body(v.drop_last(), p) + quoted_char(v.last(), p)
    }
}

/// `shell_quote(value)`: `value` in single quotes, a quote inside written as
/// `'\''` for `sh` and as `''` for PowerShell.
pub open spec fn shell_quote_spec(v: Seq<char>, p: Platform) -> Seq<char> {
    seq!['\''] + quote_body(v, p) + seq!['\'']
}

/// `hook_invocation(program, args)`: the quoted program and arguments
/// joined by spaces; PowerShell runs it with the call operator `&`.
pub open spec fn hook_invocation_spec(program: Seq<char>, args: Seq<Seq<char>>, p: Platform) -> Seq<
    char,
> {
    let parts = seq![shell_quote_spec(program, p)] + args.map_values(
        |a: Seq<char>| shell_quote_spec(a, p),
    );
    let line = join_spec(parts, " "@);
    match p {
        Platform::Posix => line,
        Platform::Windows => "& "@ + line,
    }
}

/// `hook_command(command)`: a command hook with a ten-second timeout.
pub open spec fn hook_command_v(command: Seq<char>, p: Platform) -> JsonV {
    match p {
        Platform::Posix => JsonV::Object(
            seq![
                ("command"@, str_v(command)),
                ("timeout"@, int_v(10)),
                ("type"@, str_v("command"@)),
            ],
        ),
        Platform::Windows => JsonV::Object(
            seq![
                ("command"@, str_v(command)),
                ("shell"@, str_v("powershell"@)),
                ("timeout"@, int_v(10)),
                ("type"@, str_v("command"@)),
            ],
        ),
    }
}

/// The matcher list that runs just `command`.
pub open spec fn matcher_v(command: Seq<char>, p: Platform) -> JsonV {
    JsonV::Array(seq![JsonV::Object(seq![("hooks"@, JsonV::Array(seq![hook_command_v(command, p)]))])])
}

/// The wrapper's own settings: its hooks for the five events it listens to,
/// with the events in the order a JSON object keeps its keys.
pub open spec fn wrapper_settings_spec(
    exe: Seq<char>,
    start_signal: Seq<char>,
    stop_signal: Seq<char>,
    p: Platform,
) -> JsonV {
    let start = hook_invocation_spec(exe, seq!["__hook-write"@, start_signal], p);
    let stop = hook_invocation_spec(exe, seq!["__hook-write"@, stop_signal], p);
    let permission = hook_invocation_spec(exe, seq!["__hook-control"@, "PermissionRequest"@], p);
    let elicitation = hook_invocation_spec(exe, seq!["__hook-control"@, "Elicitation"@], p);
    JsonV::Object(
        seq![
            (
                "hooks"@,
                JsonV::Object(
                    seq![
                        ("Elicitation"@, matcher_v(elicitation, p)),
                        ("PermissionRequest"@, matcher_v(permission, p)),
                        ("Stop"@, matcher_v(stop, p)),
                        ("StopFailure"@, matcher_v(stop, p)),
                        ("UserPromptSubmit"@, matcher_v(start, p)),
                    ],
                ),
            ),
        ],
    )
}

/// `value` quoted for the hook shell.
pub fn shell_quote(value: &str, platform: Platform) -> (r: String)
    ensures
        r@ == shell_quote_spec(value@, platform),
{
    let cs = crate::text::chars_of(value);
    let mut r = String::new();
    push_char(&mut r, '\'');
    let mut i: usize = 0;
    while i < cs.len()
        invariant
            i <= cs.len(),
            cs@ == value@,
            r@ == seq!['\''] + quote_body(cs@.take(i as int), platform),
        decreases cs.len() - i,
    {
        assert(cs@.take(i + 1).drop_last() =~= cs@.take(i as int));
        let c = cs[i];
        if c == '\'' {
            match platform {
                Platform::Posix => {
                    append_str(&mut r, "'\\''");
                    assert("'\\''"@ =~= seq!['\'', '\\', '\'', '\'']) by {
                        reveal_strlit("'\\''");
                    }
                },
                Platform::Windows => {
                    append_str(&mut r, "''");
                    assert("''"@ =~= seq!['\'', '\'']) by {
                        reveal_strlit("''");
                    }
                },
            }
        } else {
            push_char(&mut r, c);
        }
        i = i + 1;
    }
    assert(cs@.take(cs.len() as int) =~= cs@);
    push_char(&mut r, '\'');
    r
}

/// The command line that runs `program` with `args` as a hook.
pub fn hook_invocation(program: &str, args: &Vec<String>, platform: Platform) -> (r: String)
    ensures
        r@ == hook_invocation_spec(program@, args.deep_view(), platform),
{
    let mut parts: Vec<String> = Vec::new();
    parts.push(shell_quote(program, platform));
    let ghost first = shell_quote_spec(program@, platform);
    let mut i: usize = 0;
    while i < args.len()
        invariant
            i <= args.len(),
            parts.deep_view() == seq![first] + args.deep_view().take(i as int).map_values(
                |a: Seq<char>| shell_quote_spec(a, platform),
            ),
        decreases args.len() - i,
    {
        let q = shell_quote(args[i].as_str(), platform);
        let ghost before = parts.deep_view();
        parts.push(q);
        assert(parts.deep_view() =~= before.push(q@));
        assert(args.deep_view().take(i + 1).map_values(|a: Seq<char>| shell_quote_spec(a, platform))
            =~= args.deep_view().take(i as int).map_values(
            |a: Seq<char>| shell_quote_spec(a, platform),
        ).push(q@));
        i = i + 1;
    }
    assert(args.deep_view().take(args.len() as int) =~= args.deep_view());
    let line = join(&parts, " ");
    match platform {
        Platform::Posix => line,
        Platform::Windows => {
            let mut r = owned("& ");
            append_str(&mut r, line.as_str());
            r
        },
    }
}

/// The hook entry that runs `command`.
pub fn hook_command(command: &str, platform: Platform) -> (r: Json)
    ensures
        r@ == hook_command_v(command@, platform),
{
    let mut es: Vec<(String, Json)> = Vec::new();
    assert(jv_entries(es@) =~= Seq::empty());
    push_member(&mut es, "command", Json::string(command));
    match platform {
        Platform::Windows => {
            push_member(&mut es, "shell", Json::string("powershell"));
        },
        Platform::Posix => {},
    }
    push_member(&mut es, "timeout", Json::from_i64(10));
    push_member(&mut es, "type", Json::string("command"));
    assert(jv_entries(es@) =~= hook_command_v(command@, platform)->Object_0);
    Json::Object(es)
}

fn matcher(command: &str, platform: Platform) -> (r: Json)
    ensures
        r@ == matcher_v(command@, platform),
{
    array_of_one(object_of_one("hooks", array_of_one(hook_command(command, platform))))
}

fn invocation_of(exe: &str, a: &str, b: &str, platform: Platform) -> (r: String)
    ensures
        r@ == hook_invocation_spec(exe@, seq![a@, b@], platform),
{
    let mut args: Vec<String> = Vec::new();
    args.push(owned(a));
    args.push(owned(b));
    assert(args.deep_view() =~= seq![a@, b@]);
    hook_invocation(exe, &args, platform)
}

/// The wrapper's own settings, for the executable `exe` and the two signal files.
pub fn wrapper_settings(exe: &str, start_signal: &str, stop_signal: &str, platform: Platform) -> (r:
    Json)
    ensures
        r@ == wrapper_settings_spec(exe@, start_signal@, stop_signal@, platform),
{
    let start = invocation_of(exe, "__hook-write", start_signal, platform);
    let stop = invocation_of(exe, "__hook-write", stop_signal, platform);
    let permission = invocation_of(exe, "__hook-control", "PermissionRequest", platform);
    let elicitation = invocation_of(exe, "__hook-control", "Elicitation", platform);
    let mut hooks: Vec<(String, Json)> = Vec::new();
    assert(jv_entries(hooks@) =~= Seq::empty());
    push_member(&mut hooks, "Elicitation", matcher(elicitation.as_str(), platform));
    push_member(&mut hooks, "PermissionRequest", matcher(permission.as_str(), platform));
    push_member(&mut hooks, "Stop", matcher(stop.as_str(), platform));
    push_member(&mut hooks, "StopFailure", matcher(stop.as_str(), platform));
    push_member(&mut hooks, "UserPromptSubmit", matcher(start.as_str(), platform));
    assert(jv_entries(hooks@) =~= wrapper_settings_spec(
        exe@,
        start_signal@,
        stop_signal@,
        platform,
    )->Object_0[0].1->Object_0);
    object_of_one("hooks", Json::Object(hooks))
}

// ---------------------------------------------------------------------------
// How the hook shells split a hook command line into words
// ---------------------------------------------------------------------------

/// Where a POSIX shell is while it splits a command line into words.
pub struct ShLine {
    pub quoted: bool,
    pub escaped: bool,
    pub in_word: bool,
    pub words: Seq<Seq<char>>,
    pub cur: Seq<char>,
}

/// A POSIX shell reading one more character of a command line: single
/// quotes start and end literal text, outside them a backslash takes the
/// next character literally, and a space outside them ends the word.
pub open spec fn sh_line_step(st: ShLine, c: char) -> ShLine {
    if st.escaped {
        ShLine { escaped: false, cur: st.cur.push(c), ..st }
    } else if st.quoted {
        if c == '\'' {
            ShLine { quoted: false, ..st }
        } else {
            ShLine { cur: st.cur.push(c), ..st }
        }
    } else if c == '\'' {
        ShLine { quoted: true, in_word: true, ..st }
    } else if c == '\\' {
        ShLine { escaped: true, in_word: true, ..st }
    } else if c == ' ' {
        if st.in_word {
            ShLine { in_word: false, words: st.words.push(st.cur), cur: Seq::empty(), ..st }
        } else {
            st
        }
    } else {
        ShLine { in_word: true, cur: st.cur.push(c), ..st }
    }
}

pub open spec fn sh_line_from(st: ShLine, s: Seq<char>) -> ShLine
    decreases s.len(),
{
    if s.len() == 0 {
        st
    } else {
        sh_line_step(sh_line_from(st, s.drop_last()), s.last())
    }
}

pub open spec fn sh_line_start() -> ShLine {
    ShLine { quoted: false, escaped: false, in_word: false, words: Seq::empty(), cur: Seq::empty() }
}

/// The words that a POSIX shell reads from the command line `s`.
pub open spec fn sh_words(s: Seq<char>) -> Seq<Seq<char>> {
    let st = sh_line_from(sh_line_start(), s);
    if st.in_word {
        st.words.push(st.cur)
    } else {
        st.words
    }
}

/// Where PowerShell is while it reads: outside single quotes, inside them,
/// or just after a quote inside them (which either ends the literal or,
/// doubled, stands for one quote).
pub enum PsPlace {
    Outside,
    Inside,
    QuoteSeen,
}

/// Where PowerShell is while it splits a command line into words.
pub struct PsLine {
    pub place: PsPlace,
    pub in_word: bool,
    pub words: Seq<Seq<char>>,
    pub cur: Seq<char>,
}

/// PowerShell reading a character outside single quotes.
pub open spec fn ps_outside_step(st: PsLine, c: char) -> PsLine {
    if c == '\'' {
        PsLine { place: PsPlace::Inside, in_word: true, ..st }
    } else if c == ' ' {
        if st.in_word {
            PsLine { place: PsPlace::Outside, in_word: false, words: st.words.push(st.cur), cur: Seq::empty() }
        } else {
            PsLine { place: PsPlace::Outside, ..st }
        }
    } else {
        PsLine { place: PsPlace::Outside, in_word: true, cur: st.cur.push(c), ..st }
    }
}

/// PowerShell reading one more character of a command line: inside single
/// quotes two quotes stand for one and one quote ends the literal, and a
/// space outside them ends the word.
pub open spec fn ps_line_step(st: PsLine, c: char) -> PsLine {
    match st.place {
        PsPlace::Outside => ps_outside_step(st, c),
        PsPlace::Inside => if c == '\'' {
            PsLine { place: PsPlace::QuoteSeen, ..st }
        } else {
            PsLine { cur: st.cur.push(c), ..st }
        },
        PsPlace::QuoteSeen => if c == '\'' {
            PsLine { place: PsPlace::Inside, cur: st.cur.push(c), ..st }
        } else {
            ps_outside_step(st, c)
        },
    }
}

pub open spec fn ps_line_from(st: PsLine, s: Seq<char>) -> PsLine
    decreases s.len(),
{
    if s.len() == 0 {
        st
    } else {
        ps_line_step(ps_line_from(st, s.drop_last()), s.last())
    }
}

pub open spec fn ps_line_start() -> PsLine {
    PsLine { place: PsPlace::Outside, in_word: false, words: Seq::empty(), cur: Seq::empty() }
}

/// The words that PowerShell reads from the command line `s`.
pub open spec fn ps_words(s: Seq<char>) -> Seq<Seq<char>> {
    let st = ps_line_from(ps_line_start(), s);
    if st.in_word {
        st.words.push(st.cur)
    } else {
        st.words
    }
}

pub open spec fn quote_all(vals: Seq<Seq<char>>, p: Platform) -> Seq<Seq<char>> {
    vals.map_values(|x: Seq<char>| shell_quote_spec(x, p))
}

proof fn lemma_sh_line_concat(st: ShLine, a: Seq<char>, b: Seq<char>)
    ensures
        sh_line_from(st, a + b) == sh_line_from(sh_line_from(st, a), b),
    decreases b.len(),
{
    if b.len() == 0 {
        assert(a + b =~= a);
    } else {
        lemma_sh_line_concat(st, a, b.drop_last());
        assert((a + b).drop_last() =~= a + b.drop_last());
    }
}

proof fn lemma_sh_line_push(st: ShLine, x: Seq<char>, c: char)
    ensures
        sh_line_from(st, x + seq![c]) == sh_line_step(sh_line_from(st, x), c),
{
    lemma_sh_line_concat(st, x, seq![c]);
    let s1 = seq![c];
    assert(s1.drop_last() =~= Seq::<char>::empty());
    assert(sh_line_from(sh_line_from(st, x), s1.drop_last()) == sh_line_from(st, x));
    assert(s1.last() == c);
}

proof fn lemma_sh_line_body(st: ShLine, v: Seq<char>)
    requires
        st.quoted,
        !st.escaped,
        st.in_word,
    ensures
        sh_line_from(st, quote_body(v, Platform::Posix)) == (ShLine { cur: st.cur + v, ..st }),
    decreases v.len(),
{
    if v.len() == 0 {
        assert(st.cur + v =~= st.cur);
    } else {
        let c = v.last();
        let prev = quote_body(v.drop_last(), Platform::Posix);
        lemma_sh_line_body(st, v.drop_last());
        if c == '\'' {
            let q = '\'';
            let b = '\\';
            assert(prev + seq![q, b, q, q] =~= prev + seq![q] + seq![b] + seq![q] + seq![q]);
            lemma_sh_line_push(st, prev, q);
            lemma_sh_line_push(st, prev + seq![q], b);
            lemma_sh_line_push(st, prev + seq![q] + seq![b], q);
            lemma_sh_line_push(st, prev + seq![q] + seq![b] + seq![q], q);
        } else {
            lemma_sh_line_push(st, prev, c);
        }
        assert((st.cur + v.drop_last()).push(c) =~= st.cur + v);
    }
}

proof fn lemma_sh_line_word(st: ShLine, v: Seq<char>)
    requires
        !st.quoted,
        !st.escaped,
        !st.in_word,
        st.cur == Seq::<char>::empty(),
    ensures
        sh_line_from(st, shell_quote_spec(v, Platform::Posix)) == (ShLine {
            in_word: true,
            cur: v,
            ..st
        }),
{
    let q = '\'';
    let body = quote_body(v, Platform::Posix);
    lemma_sh_line_push(st, seq![q] + body, q);
    lemma_sh_line_concat(st, seq![q], body);
    lemma_sh_line_push(st, Seq::empty(), q);
    assert(Seq::<char>::empty() + seq![q] =~= seq![q]);
    let s1 = ShLine { quoted: true, in_word: true, ..st };
    lemma_sh_line_body(s1, v);
    assert(st.cur + v =~= v);
}

proof fn lemma_sh_line_join(st: ShLine, vals: Seq<Seq<char>>)
    requires
        !st.quoted,
        !st.escaped,
        !st.in_word,
        st.cur == Seq::<char>::empty(),
        vals.len() > 0,
    ensures
        sh_line_from(st, join_spec(quote_all(vals, Platform::Posix), " "@)) == (ShLine {
            in_word: true,
            words: st.words + vals.drop_last(),
            cur: vals.last(),
            ..st
        }),
    decreases vals.len(),
{
    let parts = quote_all(vals, Platform::Posix);
    if vals.len() == 1 {
        assert(join_spec(parts, " "@) == parts[0]);
        lemma_sh_line_word(st, vals[0]);
        assert(st.words + vals.drop_last() =~= st.words);
    } else {
        let init = vals.drop_last();
        lemma_sh_line_join(st, init);
        assert(parts.drop_last() =~= quote_all(init, Platform::Posix));
        let j0 = join_spec(parts.drop_last(), " "@);
        reveal_strlit(" ");
        assert(" "@ =~= seq![' ']);
        lemma_sh_line_concat(st, j0 + " "@, parts.last());
        lemma_sh_line_push(st, j0, ' ');
        let s2 = ShLine {
            in_word: false,
            words: (st.words + init.drop_last()).push(init.last()),
            cur: Seq::empty(),
            ..st
        };
        lemma_sh_line_word(s2, vals.last());
        assert((st.words + init.drop_last()).push(init.last()) =~= st.words + vals.drop_last());
    }
}

/// A POSIX shell reads the quoted value back as one word that is exactly
/// the value, with no quote or escape left open.
pub proof fn shell_quote_reads_back_posix(v: Seq<char>)
    ensures
        sh_words(shell_quote_spec(v, Platform::Posix)) == seq![v],
        !sh_line_from(sh_line_start(), shell_quote_spec(v, Platform::Posix)).quoted,
        !sh_line_from(sh_line_start(), shell_quote_spec(v, Platform::Posix)).escaped,
{
    lemma_sh_line_word(sh_line_start(), v);
    assert(Seq::<Seq<char>>::empty().push(v) =~= seq![v]);
}

/// A POSIX shell splits a hook command line into exactly the program and
/// its arguments, whatever characters they hold, with no quote or escape
/// left open.
pub proof fn hook_line_reads_back_posix(program: Seq<char>, args: Seq<Seq<char>>)
    ensures
        sh_words(hook_invocation_spec(program, args, Platform::Posix)) == seq![program] + args,
        !sh_line_from(sh_line_start(), hook_invocation_spec(program, args, Platform::Posix)).quoted,
        !sh_line_from(sh_line_start(), hook_invocation_spec(program, args, Platform::Posix)).escaped,
{
    let vals = seq![program] + args;
    let parts = seq![shell_quote_spec(program, Platform::Posix)] + args.map_values(
        |a: Seq<char>| shell_quote_spec(a, Platform::Posix),
    );
    assert(parts =~= quote_all(vals, Platform::Posix));
    lemma_sh_line_join(sh_line_start(), vals);
    assert(Seq::<Seq<char>>::empty() + vals.drop_last() =~= vals.drop_last());
    assert(vals.drop_last().push(vals.last()) =~= vals);
}

proof fn lemma_ps_line_concat(st: PsLine, a: Seq<char>, b: Seq<char>)
    ensures
        ps_line_from(st, a + b) == ps_line_from(ps_line_from(st, a), b),
    decreases b.len(),
{
    if b.len() == 0 {
        assert(a + b =~= a);
    } else {
        lemma_ps_line_concat(st, a, b.drop_last());
        assert((a + b).drop_last() =~= a + b.drop_last());
    }
}

proof fn lemma_ps_line_push(st: PsLine, x: Seq<char>, c: char)
    ensures
        ps_line_from(st, x + seq![c]) == ps_line_step(ps_line_from(st, x), c),
{
    lemma_ps_line_concat(st, x, seq![c]);
    let s1 = seq![c];
    assert(s1.drop_last() =~= Seq::<char>::empty());
    assert(ps_line_from(ps_line_from(st, x), s1.drop_last()) == ps_line_from(st, x));
    assert(s1.last() == c);
}

proof fn lemma_ps_line_body(st: PsLine, v: Seq<char>)
    requires
        st.place == PsPlace::Inside,
        st.in_word,
    ensures
        ps_line_from(st, quote_body(v, Platform::Windows)) == (PsLine { cur: st.cur + v, ..st }),
    decreases v.len(),
{
    if v.len() == 0 {
        assert(st.cur + v =~= st.cur);
    } else {
        let c = v.last();
        let prev = quote_body(v.drop_last(), Platform::Windows);
        lemma_ps_line_body(st, v.drop_last());
        if c == '\'' {
            let q = '\'';
            assert(prev + seq![q, q] =~= prev + seq![q] + seq![q]);
            lemma_ps_line_push(st, prev, q);
            lemma_ps_line_push(st, prev + seq![q], q);
        } else {
            lemma_ps_line_push(st, prev, c);
        }
        assert((st.cur + v.drop_last()).push(c) =~= st.cur + v);
    }
}

proof fn lemma_ps_line_word(st: PsLine, v: Seq<char>)
    requires
        st.place == PsPlace::Outside,
        !st.in_word,
        st.cur == Seq::<char>::empty(),
    ensures
        ps_line_from(st, shell_quote_spec(v, Platform::Windows)) == (PsLine {
            place: PsPlace::QuoteSeen,
            in_word: true,
            cur: v,
            ..st
        }),
{
    let q = '\'';
    let body = quote_body(v, Platform::Windows);
    lemma_ps_line_push(st, seq![q] + body, q);
    lemma_ps_line_concat(st, seq![q], body);
    lemma_ps_line_push(st, Seq::empty(), q);
    assert(Seq::<char>::empty() + seq![q] =~= seq![q]);
    let s1 = PsLine { place: PsPlace::Inside, in_word: true, ..st };
    lemma_ps_line_body(s1, v);
    assert(st.cur + v =~= v);
}

proof fn lemma_ps_line_join(st: PsLine, vals: Seq<Seq<char>>)
    requires
        st.place == PsPlace::Outside,
        !st.in_word,
        st.cur == Seq::<char>::empty(),
        vals.len() > 0,
    ensures
        ps_line_from(st, join_spec(quote_all(vals, Platform::Windows), " "@)) == (PsLine {
            place: PsPlace::QuoteSeen,
            in_word: true,
            words: st.words + vals.drop_last(),
            cur: vals.last(),
        }),
    decreases vals.len(),
{
    let parts = quote_all(vals, Platform::Windows);
    if vals.len() == 1 {
        assert(join_spec(parts, " "@) == parts[0]);
        lemma_ps_line_word(st, vals[0]);
        assert(st.words + vals.drop_last() =~= st.words);
    } else {
        let init = vals.drop_last();
        lemma_ps_line_join(st, init);
        assert(parts.drop_last() =~= quote_all(init, Platform::Windows));
        let j0 = join_spec(parts.drop_last(), " "@);
        reveal_strlit(" ");
        assert(" "@ =~= seq![' ']);
        lemma_ps_line_concat(st, j0 + " "@, parts.last());
        lemma_ps_line_push(st, j0, ' ');
        let s2 = PsLine {
            place: PsPlace::Outside,
            in_word: false,
            words: (st.words + init.drop_last()).push(init.last()),
            cur: Seq::empty(),
        };
        lemma_ps_line_word(s2, vals.last());
        assert((st.words + init.drop_last()).push(init.last()) =~= st.words + vals.drop_last());
    }
}

/// PowerShell reads the quoted value back as one closed literal that is
/// exactly the value.
pub proof fn shell_quote_reads_back_powershell(v: Seq<char>)
    ensures
        ps_words(shell_quote_spec(v, Platform::Windows)) == seq![v],
        ps_line_from(ps_line_start(), shell_quote_spec(v, Platform::Windows)).place
            == PsPlace::QuoteSeen,
{
    lemma_ps_line_word(ps_line_start(), v);
    assert(Seq::<Seq<char>>::empty().push(v) =~= seq![v]);
}

/// PowerShell splits a hook command line into the call operator `&`, the
/// program and its arguments, whatever characters they hold, with no
/// quote left open.
pub proof fn hook_line_reads_back_powershell(program: Seq<char>, args: Seq<Seq<char>>)
    ensures
        ps_words(hook_invocation_spec(program, args, Platform::Windows)) == seq!["&"@, program]
            + args,
        ps_line_from(ps_line_start(), hook_invocation_spec(program, args, Platform::Windows)).place
            != PsPlace::Inside,
{
    let vals = seq![program] + args;
    let parts = seq![shell_quote_spec(program, Platform::Windows)] + args.map_values(
        |a: Seq<char>| shell_quote_spec(a, Platform::Windows),
    );
    assert(parts =~= quote_all(vals, Platform::Windows));
    let line = join_spec(parts, " "@);
    reveal_strlit("& ");
    reveal_strlit("&");
    assert("& "@ =~= seq!['&'] + seq![' ']);
    let st0 = ps_line_start();
    lemma_ps_line_concat(st0, "& "@, line);
    lemma_ps_line_push(st0, Seq::empty(), '&');
    assert(Seq::<char>::empty() + seq!['&'] =~= seq!['&']);
    lemma_ps_line_push(st0, seq!['&'], ' ');
    let st1 = PsLine { place: PsPlace::Outside, in_word: false, words: seq!["&"@], cur: Seq::empty() };
    assert(Seq::<char>::empty().push('&') =~= "&"@);
    lemma_ps_line_join(st1, vals);
    assert(seq!["&"@] + vals.drop_last() + seq![vals.last()] =~= seq!["&"@, program] + args);
}

// ---------------------------------------------------------------------------
// Answers of the hook commands
// ---------------------------------------------------------------------------

/// What the `__hook-control` command answers for `event`: permission
/// requests are allowed, elicitations declined, and other events get an
/// empty object.
pub open spec fn hook_control_response_v(event: Seq<char>) -> JsonV {
    if event == "PermissionRequest"@ {
        JsonV::Object(
            seq![
                (
                    "hookSpecificOutput"@,
                    JsonV::Object(
                        seq![
                            ("decision"@, JsonV::Object(seq![("behavior"@, str_v("allow"@))])),
                            ("hookEventName"@, str_v("PermissionRequest"@)),
                        ],
                    ),
                ),
            ],
        )
    } else if event == "Elicitation"@ {
        JsonV::Object(
            seq![
                (
                    "hookSpecificOutput"@,
                    JsonV::Object(
                        seq![
                            ("action"@, str_v("decline"@)),
                            ("hookEventName"@, str_v("Elicitation"@)),
                        ],
                    ),
                ),
                (
                    "reason"@,
                    str_v(
                        "MCP elicitation requires interactive input; praude declined it to stay unattended."@,
                    ),
                ),
            ],
        )
    } else {
        JsonV::Object(Seq::empty())
    }
}

/// The answer of the `__hook-control` command for `event`.
pub fn hook_control_response(event: &str) -> (r: Json)
    ensures
        r@ == hook_control_response_v(event@),
{
    if crate::text::str_eq(event, "PermissionRequest") {
        let mut inner: Vec<(String, Json)> = Vec::new();
        assert(jv_entries(inner@) =~= Seq::empty());
        push_member(&mut inner, "decision", object_of_one("behavior", Json::string("allow")));
        push_member(&mut inner, "hookEventName", Json::string("PermissionRequest"));
        let r = object_of_one("hookSpecificOutput", Json::Object(inner));
        assert(jv_entries(inner@) =~= hook_control_response_v(event@)->Object_0[0].1->Object_0);
        r
    } else if crate::text::str_eq(event, "Elicitation") {
        let mut inner: Vec<(String, Json)> = Vec::new();
        assert(jv_entries(inner@) =~= Seq::empty());
        push_member(&mut inner, "action", Json::string("decline"));
        push_member(&mut inner, "hookEventName", Json::string("Elicitation"));
        assert(jv_entries(inner@) =~= seq![
            ("action"@, str_v("decline"@)),
            ("hookEventName"@, str_v("Elicitation"@)),
        ]);
        let mut es: Vec<(String, Json)> = Vec::new();
        assert(jv_entries(es@) =~= Seq::empty());
        push_member(&mut es, "hookSpecificOutput", Json::Object(inner));
        push_member(
            &mut es,
            "reason",
            Json::string(
                "MCP elicitation requires interactive input; praude declined it to stay unattended.",
            ),
        );
        assert(jv_entries(es@) =~= hook_control_response_v(event@)->Object_0);
        Json::Object(es)
    } else {
        Json::empty_object()
    }
}

/// What the `__hook-write` command records where its input is not JSON:
/// the parser's message and the raw input.
pub open spec fn hook_parse_failure_v(error: Seq<char>, raw: Seq<char>) -> JsonV {
    JsonV::Object(seq![("hook_parse_error"@, str_v(error)), ("raw_stdin"@, str_v(raw))])
}

/// The record for hook input that is not JSON.
pub fn hook_parse_failure(error: &str, raw: &str) -> (r: Json)
    ensures
        r@ == hook_parse_failure_v(error@, raw@),
{
    let mut es: Vec<(String, Json)> = Vec::new();
    assert(jv_entries(es@) =~= Seq::empty());
    push_member(&mut es, "hook_parse_error", Json::string(error));
    push_member(&mut es, "raw_stdin", Json::string(raw));
    assert(jv_entries(es@) =~= hook_parse_failure_v(error@, raw@)->Object_0);
    Json::Object(es)
}

// ---------------------------------------------------------------------------
// Laws of merging
// ---------------------------------------------------------------------------

/// What a merge leaves under the key `k`: the source's value, merged
/// deeply into the target's where the target has one, or the target's
/// value where the source has none.
pub open spec fn merged_member(t: Option<JsonV>, s: Option<JsonV>) -> Option<JsonV> {
    match s {
        Some(sv) => Some(
            match t {
                Some(tv) => deep_merge_v(tv, sv),
                None => sv,
            },
        ),
        None => t,
    }
}

proof fn lemma_merge_first_is_set(te: Seq<(Seq<char>, JsonV)>, k: Seq<char>, v: JsonV)
    ensures
        (match key_index(te, k) {
            Some(i) => te.update(i, (te[i].0, deep_merge_v(te[i].1, v))),
            None => te.push((k, v)),
        }) == entries_set(te, k, merged_member(entries_get(te, k), Some(v))->Some_0),
{
    match key_index(te, k) {
        Some(i) => {
            assert(crate::json::is_key_at(te, k, i));
        },
        None => {},
    }
}

/// Merging objects key by key: every key of the source is merged into the
/// target's value for it, and every other key of the target is kept.
pub proof fn deep_merge_members(te: Seq<(Seq<char>, JsonV)>, se: Seq<(Seq<char>, JsonV)>, k: Seq<char>)
    requires
        keys_distinct(se),
    ensures
        entries_get(merge_entries_v(te, se), k) == merged_member(entries_get(te, k), entries_get(se, k)),
    decreases se.len(),
{
    if se.len() == 0 {
        lemma_get_absent(se, k);
    } else {
        let k0 = se[0].0;
        let v0 = se[0].1;
        let newv = merged_member(entries_get(te, k0), Some(v0))->Some_0;
        lemma_merge_first_is_set(te, k0, v0);
        let next = entries_set(te, k0, newv);
        let rest = se.drop_first();
        assert(keys_distinct(rest)) by {
            assert forall|a: int, b: int| 0 <= a < b < rest.len() implies rest[a].0 != rest[b].0 by {
                assert(rest[a] == se[a + 1]);
                assert(rest[b] == se[b + 1]);
            }
        }
        deep_merge_members(next, rest, k);
        lemma_get_front(se, k);
        if k == k0 {
            assert forall|j: int| 0 <= j < rest.len() implies rest[j].0 != k by {
                assert(rest[j] == se[j + 1]);
            }
            lemma_get_absent(rest, k);
            lemma_set_get_same(te, k0, newv);
        } else {
            lemma_set_get_other(te, k0, newv, k);
        }
    }
}

/// Where the source already holds, under each of its keys, a value that
/// merging its own value into leaves unchanged, merging changes nothing.
proof fn lemma_merge_entries_fixed(te: Seq<(Seq<char>, JsonV)>, se: Seq<(Seq<char>, JsonV)>)
    requires
        keys_distinct(se),
        forall|i: int|
            0 <= i < se.len() ==> (entries_get(te, #[trigger] se[i].0) matches Some(u) && deep_merge_v(
                u,
                se[i].1,
            ) == u),
    ensures
        merge_entries_v(te, se) == te,
    decreases se.len(),
{
    if se.len() > 0 {
        let k = se[0].0;
        assert(entries_get(te, se[0].0) matches Some(u0) && deep_merge_v(u0, se[0].1) == u0);
        let i = key_index(te, k)->Some_0;
        assert(te.update(i, (te[i].0, deep_merge_v(te[i].1, se[0].1))) =~= te);
        let rest = se.drop_first();
        assert(keys_distinct(rest)) by {
            assert forall|a: int, b: int| 0 <= a < b < rest.len() implies rest[a].0 != rest[b].0 by {
                assert(rest[a] == se[a + 1]);
                assert(rest[b] == se[b + 1]);
            }
        }
        assert forall|j: int| 0 <= j < rest.len() implies (entries_get(te, #[trigger] rest[j].0) matches Some(
            u,
        ) && deep_merge_v(u, rest[j].1) == u) by {
            assert(rest[j] == se[j + 1]);
        }
        lemma_merge_entries_fixed(te, rest);
    }
}

proof fn lemma_merge_twice(t: JsonV, s: JsonV)
    requires
        crate::json::keys_distinct_deep(s),
    ensures
        deep_merge_v(s, s) == s,
        deep_merge_v(deep_merge_v(t, s), s) == deep_merge_v(t, s),
    decreases s,
{
    if let JsonV::Object(se) = s {
        assert forall|i: int| 0 <= i < se.len() implies (entries_get(se, #[trigger] se[i].0) matches Some(
            u,
        ) && deep_merge_v(u, se[i].1) == u) by {
            assert(crate::json::is_key_at(se, se[i].0, i));
            crate::json::lemma_key_index_is(se, se[i].0, i);
            assert(decreases_to!(s => se[i].1));
            lemma_merge_twice(se[i].1, se[i].1);
        }
        lemma_merge_entries_fixed(se, se);
        if let JsonV::Object(te) = t {
            let re = merge_entries_v(te, se);
            assert forall|i: int| 0 <= i < se.len() implies (entries_get(re, #[trigger] se[i].0) matches Some(
                u,
            ) && deep_merge_v(u, se[i].1) == u) by {
                let k = se[i].0;
                assert(crate::json::is_key_at(se, k, i));
                crate::json::lemma_key_index_is(se, k, i);
                deep_merge_members(te, se, k);
                assert(decreases_to!(s => se[i].1));
                match entries_get(te, k) {
                    Some(tk) => {
                        lemma_merge_twice(tk, se[i].1);
                    },
                    None => {
                        lemma_merge_twice(se[i].1, se[i].1);
                    },
                }
            }
            lemma_merge_entries_fixed(re, se);
        }
    }
}

/// Merging the same source a second time changes nothing; and where the
/// target or the source is not an object, the merge gives the source.
pub proof fn deep_merge_is_idempotent(t: JsonV, s: JsonV)
    requires
        crate::json::keys_distinct_deep(s),
    ensures
        deep_merge_v(deep_merge_v(t, s), s) == deep_merge_v(t, s),
        !(t is Object && s is Object) ==> deep_merge_v(t, s) == s,
{
    lemma_merge_twice(t, s);
}

/// The items of a hook event's matcher list, where it is a list.
pub open spec fn items_of(v: Option<JsonV>) -> Seq<JsonV> {
    match v {
        Some(JsonV::Array(items)) => items,
        _ => Seq::empty(),
    }
}

/// Adding the wrapper's matchers: each event of the wrapper gets the
/// caller's matchers followed by the wrapper's; other events are kept.
pub proof fn add_matchers_members(he: Seq<(Seq<char>, JsonV)>, we: Seq<(Seq<char>, JsonV)>, e: Seq<char>)
    requires
        keys_distinct(we),
        add_matchers_v(he, we) is Ok,
    ensures
        entries_get(add_matchers_v(he, we)->Ok_0, e) == match entries_get(we, e) {
            Some(ms) => Some(JsonV::Array(items_of(entries_get(he, e)) + items_of(Some(ms)))),
            None => entries_get(he, e),
        },
    decreases we.len(),
{
    if we.len() == 0 {
        lemma_get_absent(we, e);
    } else {
        let ev = we[0].0;
        let target = match entries_get(he, ev) {
            Some(t) => t,
            None => JsonV::Array(Seq::empty()),
        };
        let items = target->Array_0;
        let items2 = match we[0].1 {
            JsonV::Array(ms) => items + ms,
            _ => items,
        };
        let next = entries_set(he, ev, JsonV::Array(items2));
        let rest = we.drop_first();
        assert(keys_distinct(rest)) by {
            assert forall|a: int, b: int| 0 <= a < b < rest.len() implies rest[a].0 != rest[b].0 by {
                assert(rest[a] == we[a + 1]);
                assert(rest[b] == we[b + 1]);
            }
        }
        add_matchers_members(next, rest, e);
        lemma_get_front(we, e);
        if e == ev {
            assert forall|j: int| 0 <= j < rest.len() implies rest[j].0 != e by {
                assert(rest[j] == we[j + 1]);
            }
            lemma_get_absent(rest, e);
            lemma_set_get_same(he, ev, JsonV::Array(items2));
            match we[0].1 {
                JsonV::Array(ms) => {},
                _ => {
                    assert(items + Seq::<JsonV>::empty() =~= items);
                },
            }
        } else {
            lemma_set_get_other(he, ev, JsonV::Array(items2), e);
        }
    }
}

proof fn lemma_add_matchers_distinct(he: Seq<(Seq<char>, JsonV)>, we: Seq<(Seq<char>, JsonV)>)
    requires
        keys_distinct(he),
        add_matchers_v(he, we) is Ok,
    ensures
        keys_distinct(add_matchers_v(he, we)->Ok_0),
    decreases we.len(),
{
    if we.len() > 0 {
        let ev = we[0].0;
        let target = match entries_get(he, ev) {
            Some(t) => t,
            None => JsonV::Array(Seq::empty()),
        };
        let items = target->Array_0;
        let items2 = match we[0].1 {
            JsonV::Array(ms) => items + ms,
            _ => items,
        };
        lemma_set_keeps_distinct(he, ev, JsonV::Array(items2));
        lemma_add_matchers_distinct(entries_set(he, ev, JsonV::Array(items2)), we.drop_first());
    }
}

/// Once the caller's settings `user` (with their keys distinct) are merged
/// into the wrapper's settings `wrapper` (whose only member is `hooks`),
/// every hook event of the wrapper runs the caller's own matchers first and
/// then the wrapper's, and every other setting of the caller is kept as the
/// caller wrote it: neither side replaces the other.
pub proof fn merged_settings_keep_both_sides(
    wrapper_hooks: Seq<(Seq<char>, JsonV)>,
    user: Seq<(Seq<char>, JsonV)>,
    event: Seq<char>,
    other: Seq<char>,
)
    requires
        keys_distinct(wrapper_hooks),
        keys_distinct(user),
        entries_get(user, "hooks"@) matches Some(JsonV::Object(uh)) ==> keys_distinct(uh),
        merge_wrapper_hooks_v(
            JsonV::Object(user),
            JsonV::Object(seq![("hooks"@, JsonV::Object(wrapper_hooks))]),
        ) is Ok,
        other != "hooks"@,
    ensures
        ({
            let wrapper = JsonV::Object(seq![("hooks"@, JsonV::Object(wrapper_hooks))]);
            let merged = deep_merge_v(
                wrapper,
                merge_wrapper_hooks_v(JsonV::Object(user), wrapper)->Ok_0,
            );
            let user_hooks = match entries_get(user, "hooks"@) {
                Some(h) => h,
                None => JsonV::Object(Seq::empty()),
            };
            &&& entries_get(wrapper_hooks, event) matches Some(ms) ==> get_v(
                get_v(merged, "hooks"@)->Some_0,
                event,
            ) == Some(JsonV::Array(items_of(get_v(user_hooks, event)) + items_of(Some(ms))))
            &&& get_v(merged, other) == entries_get(user, other)
        }),
{
    let wrapper = JsonV::Object(seq![("hooks"@, JsonV::Object(wrapper_hooks))]);
    let wes = seq![("hooks"@, JsonV::Object(wrapper_hooks))];
    let he = match entries_get(user, "hooks"@) {
        Some(h) => h,
        None => JsonV::Object(Seq::empty()),
    }->Object_0;
    assert(crate::json::is_key_at(wes, "hooks"@, 0));
    crate::json::lemma_get_front(wes, "hooks"@);
    assert(get_v(wrapper, "hooks"@) == Some(JsonV::Object(wrapper_hooks)));
    let he2 = add_matchers_v(he, wrapper_hooks)->Ok_0;
    let u2 = entries_set(user, "hooks"@, JsonV::Object(he2));
    assert(merge_wrapper_hooks_v(JsonV::Object(user), wrapper) == Ok::<JsonV, SettingsErrorV>(JsonV::Object(u2)));
    lemma_set_keeps_distinct(user, "hooks"@, JsonV::Object(he2));
    if entries_get(user, "hooks"@) is None {
        assert(keys_distinct(he));
    }
    lemma_add_matchers_distinct(he, wrapper_hooks);
    // The member `hooks`.
    deep_merge_members(wes, u2, "hooks"@);
    lemma_set_get_same(user, "hooks"@, JsonV::Object(he2));
    deep_merge_members(wrapper_hooks, he2, event);
    add_matchers_members(he, wrapper_hooks, event);
    // Any other member.
    deep_merge_members(wes, u2, other);
    lemma_set_get_other(user, "hooks"@, JsonV::Object(he2), other);
    crate::json::lemma_get_front(wes, other);
    lemma_get_absent(wes.drop_first(), other);
}

// ---------------------------------------------------------------------------
// Laws of several callers' settings
// ---------------------------------------------------------------------------

/// A hook event's value that is a matcher list, or no value.
pub open spec fn list_or_absent(o: Option<JsonV>) -> bool {
    match o {
        None => true,
        Some(JsonV::Array(_)) => true,
        _ => false,
    }
}

/// Every caller's matchers for the event `e`, in the callers' order.
pub open spec fn all_matchers(us: Seq<JsonV>, e: Seq<char>) -> Seq<JsonV>
    decreases us.len(),
{
    if us.len() == 0 {
        Seq::empty()
    } else {
        all_matchers(us.drop_last(), e) + items_of(entries_get(hooks_entries(us.last()), e))
    }
}

proof fn lemma_drop_first_distinct(se: Seq<(Seq<char>, JsonV)>)
    requires
        se.len() > 0,
        keys_distinct(se),
    ensures
        keys_distinct(se.drop_first()),
        forall|j: int| 0 <= j < se.drop_first().len() ==> se.drop_first()[j].0 != se[0].0,
{
    let rest = se.drop_first();
    assert forall|a: int, b: int| 0 <= a < b < rest.len() implies rest[a].0 != rest[b].0 by {
        assert(rest[a] == se[a + 1]);
        assert(rest[b] == se[b + 1]);
    }
    assert forall|j: int| 0 <= j < rest.len() implies rest[j].0 != se[0].0 by {
        assert(rest[j] == se[j + 1]);
    }
}

proof fn lemma_merge_keeps_distinct(te: Seq<(Seq<char>, JsonV)>, se: Seq<(Seq<char>, JsonV)>)
    requires
        keys_distinct(te),
    ensures
        keys_distinct(merge_entries_v(te, se)),
    decreases se.len(),
{
    if se.len() > 0 {
        let k0 = se[0].0;
        lemma_merge_first_is_set(te, k0, se[0].1);
        let v = merged_member(entries_get(te, k0), Some(se[0].1))->Some_0;
        lemma_set_keeps_distinct(te, k0, v);
        lemma_merge_keeps_distinct(entries_set(te, k0, v), se.drop_first());
    }
}

proof fn lemma_append_keeps_distinct(ch: Seq<(Seq<char>, JsonV)>, uh: Seq<(Seq<char>, JsonV)>)
    requires
        keys_distinct(ch),
    ensures
        keys_distinct(append_events_v(ch, uh)),
    decreases uh.len(),
{
    if uh.len() > 0 {
        let e = uh[0].0;
        let v = join_event_v(entries_get(ch, e), uh[0].1);
        lemma_set_keeps_distinct(ch, e, v);
        lemma_append_keeps_distinct(entries_set(ch, e, v), uh.drop_first());
    }
}

/// Joining a caller's hook entries: an event the caller names gets the
/// joined value, any other event keeps its value.
proof fn lemma_append_members(ch: Seq<(Seq<char>, JsonV)>, uh: Seq<(Seq<char>, JsonV)>, e: Seq<char>)
    requires
        keys_distinct(uh),
    ensures
        entries_get(append_events_v(ch, uh), e) == match entries_get(uh, e) {
            Some(b) => Some(join_event_v(entries_get(ch, e), b)),
            None => entries_get(ch, e),
        },
    decreases uh.len(),
{
    if uh.len() == 0 {
        lemma_get_absent(uh, e);
    } else {
        let e0 = uh[0].0;
        let v = join_event_v(entries_get(ch, e0), uh[0].1);
        let next = entries_set(ch, e0, v);
        let rest = uh.drop_first();
        lemma_drop_first_distinct(uh);
        lemma_append_members(next, rest, e);
        lemma_get_front(uh, e);
        if e == e0 {
            lemma_get_absent(rest, e);
            lemma_set_get_same(ch, e0, v);
        } else {
            lemma_set_get_other(ch, e0, v, e);
        }
    }
}

/// Where the wrapper's hooks can be added, the caller's value for each
/// wrapper event is a matcher list or absent.
proof fn lemma_add_matchers_targets(he: Seq<(Seq<char>, JsonV)>, we: Seq<(Seq<char>, JsonV)>)
    requires
        keys_distinct(we),
        add_matchers_v(he, we) is Ok,
    ensures
        forall|j: int| 0 <= j < we.len() ==> list_or_absent(entries_get(he, #[trigger] we[j].0)),
    decreases we.len(),
{
    if we.len() > 0 {
        let e0 = we[0].0;
        let target = match entries_get(he, e0) {
            Some(t) => t,
            None => JsonV::Array(Seq::empty()),
        };
        let items = target->Array_0;
        let items2 = match we[0].1 {
            JsonV::Array(ms) => items + ms,
            _ => items,
        };
        let he2 = entries_set(he, e0, JsonV::Array(items2));
        let rest = we.drop_first();
        lemma_drop_first_distinct(we);
        lemma_add_matchers_targets(he2, rest);
        assert forall|j: int| 0 <= j < we.len() implies list_or_absent(entries_get(he, #[trigger] we[j].0)) by {
            if j > 0 {
                assert(rest[j - 1] == we[j]);
                lemma_set_get_other(he, e0, JsonV::Array(items2), we[j].0);
            }
        }
    }
}

/// Where the caller's value for each wrapper event is a matcher list or
/// absent, the wrapper's hooks can be added.
proof fn lemma_add_matchers_ok(he: Seq<(Seq<char>, JsonV)>, we: Seq<(Seq<char>, JsonV)>)
    requires
        keys_distinct(we),
        forall|j: int| 0 <= j < we.len() ==> list_or_absent(entries_get(he, #[trigger] we[j].0)),
    ensures
        add_matchers_v(he, we) is Ok,
    decreases we.len(),
{
    if we.len() > 0 {
        let e0 = we[0].0;
        assert(list_or_absent(entries_get(he, we[0].0)));
        let target = match entries_get(he, e0) {
            Some(t) => t,
            None => JsonV::Array(Seq::empty()),
        };
        let items = target->Array_0;
        let items2 = match we[0].1 {
            JsonV::Array(ms) => items + ms,
            _ => items,
        };
        let he2 = entries_set(he, e0, JsonV::Array(items2));
        let rest = we.drop_first();
        lemma_drop_first_distinct(we);
        assert forall|j: int| 0 <= j < rest.len() implies list_or_absent(entries_get(he2, #[trigger] rest[j].0)) by {
            assert(rest[j] == we[j + 1]);
            assert(list_or_absent(entries_get(he, we[j + 1].0)));
            lemma_set_get_other(he, e0, JsonV::Array(items2), rest[j].0);
        }
        lemma_add_matchers_ok(he2, rest);
    }
}

/// The hooks object of a parsed settings value holds each event once.
proof fn lemma_hooks_distinct(u: JsonV)
    requires
        crate::json::keys_distinct_deep(u),
    ensures
        keys_distinct(hooks_entries(u)),
{
    if let JsonV::Object(es) = u {
        if let Some(JsonV::Object(h)) = get_v(u, "hooks"@) {
            let i = key_index(es, "hooks"@)->Some_0;
            assert(crate::json::is_key_at(es, "hooks"@, i));
            assert(crate::json::keys_distinct_deep(es[i].1));
        }
    }
}

/// Where settings take the wrapper's hooks, they are an object, and for
/// each wrapper event their hooks hold a matcher list or nothing.
proof fn lemma_accepted_settings(u: JsonV, wrapper_hooks: Seq<(Seq<char>, JsonV)>)
    requires
        keys_distinct(wrapper_hooks),
        merge_wrapper_hooks_v(u, JsonV::Object(seq![("hooks"@, JsonV::Object(wrapper_hooks))])) is Ok,
    ensures
        u is Object,
        forall|j: int|
            0 <= j < wrapper_hooks.len() ==> list_or_absent(
                entries_get(hooks_entries(u), #[trigger] wrapper_hooks[j].0),
            ),
{
    let wes = seq![("hooks"@, JsonV::Object(wrapper_hooks))];
    assert(crate::json::is_key_at(wes, "hooks"@, 0));
    lemma_get_front(wes, "hooks"@);
    let ue = u->Object_0;
    let he = match entries_get(ue, "hooks"@) {
        Some(h) => h,
        None => JsonV::Object(Seq::empty()),
    }->Object_0;
    assert(he == hooks_entries(u));
    lemma_add_matchers_targets(he, wrapper_hooks);
}

/// The callers' settings are an object whose entries, and whose hook
/// entries, each hold a key once.
proof fn lemma_callers_shape(us: Seq<JsonV>)
    requires
        forall|i: int| 0 <= i < us.len() ==> crate::json::keys_distinct_deep(#[trigger] us[i]) && us[i] is Object,
    ensures
        callers_v(us) is Object,
        keys_distinct(callers_v(us)->Object_0),
        keys_distinct(hooks_entries(callers_v(us))),
        match get_v(callers_v(us), "hooks"@) {
            None => true,
            Some(JsonV::Object(_)) => true,
            _ => false,
        },
    decreases us.len(),
{
    if us.len() > 0 {
        let prev = us.drop_last();
        assert forall|i: int| 0 <= i < prev.len() implies crate::json::keys_distinct_deep(#[trigger] prev[i]) && prev[i] is Object by {
            assert(prev[i] == us[i]);
        }
        lemma_callers_shape(prev);
        let c = callers_v(prev);
        let u = us.last();
        assert(crate::json::keys_distinct_deep(us[us.len() - 1]) && us[us.len() - 1] is Object);
        let me = merge_entries_v(c->Object_0, u->Object_0);
        lemma_merge_keeps_distinct(c->Object_0, u->Object_0);
        lemma_hooks_distinct(u);
        let hs = append_events_v(hooks_entries(c), hooks_entries(u));
        lemma_append_keeps_distinct(hooks_entries(c), hooks_entries(u));
        lemma_set_keeps_distinct(me, "hooks"@, JsonV::Object(hs));
        lemma_set_get_same(me, "hooks"@, JsonV::Object(hs));
    }
}

/// For an event whose hooks every caller gives as a matcher list or not at
/// all, the callers' settings hold all their matchers for it, in order.
proof fn lemma_callers_event(us: Seq<JsonV>, e: Seq<char>)
    requires
        forall|i: int| 0 <= i < us.len() ==> crate::json::keys_distinct_deep(#[trigger] us[i]) && us[i] is Object,
        forall|i: int| 0 <= i < us.len() ==> list_or_absent(entries_get(hooks_entries(#[trigger] us[i]), e)),
    ensures
        list_or_absent(entries_get(hooks_entries(callers_v(us)), e)),
        items_of(entries_get(hooks_entries(callers_v(us)), e)) == all_matchers(us, e),
    decreases us.len(),
{
    if us.len() > 0 {
        let prev = us.drop_last();
        assert forall|i: int| 0 <= i < prev.len() implies crate::json::keys_distinct_deep(#[trigger] prev[i]) && prev[i] is Object by {
            assert(prev[i] == us[i]);
        }
        assert forall|i: int| 0 <= i < prev.len() implies list_or_absent(entries_get(hooks_entries(#[trigger] prev[i]), e)) by {
            assert(prev[i] == us[i]);
        }
        lemma_callers_event(prev, e);
        lemma_callers_shape(prev);
        let c = callers_v(prev);
        let u = us.last();
        assert(crate::json::keys_distinct_deep(us[us.len() - 1]) && us[us.len() - 1] is Object);
        assert(list_or_absent(entries_get(hooks_entries(us[us.len() - 1]), e)));
        let me = merge_entries_v(c->Object_0, u->Object_0);
        lemma_hooks_distinct(u);
        let hs = append_events_v(hooks_entries(c), hooks_entries(u));
        lemma_set_get_same(me, "hooks"@, JsonV::Object(hs));
        assert(hooks_entries(callers_v(us)) == hs);
        lemma_append_members(hooks_entries(c), hooks_entries(u), e);
        let a = entries_get(hooks_entries(c), e);
        match entries_get(hooks_entries(u), e) {
            Some(b) => {
                assert(items_of(Some(join_event_v(a, b))) =~= items_of(a) + items_of(Some(b)));
            },
            None => {
                assert(items_of(a) + items_of(None) =~= items_of(a));
            },
        }
    }
}

/// However many settings values the caller gives, the settings written hold,
/// for every event the wrapper hooks, every caller's matchers for it in the
/// order given, followed by the wrapper's own; every other member is the
/// callers' settings merged in order.
pub proof fn every_callers_hooks_are_kept(
    wrapper_hooks: Seq<(Seq<char>, JsonV)>,
    us: Seq<JsonV>,
    event: Seq<char>,
    other: Seq<char>,
)
    requires
        keys_distinct(wrapper_hooks),
        forall|i: int|
            0 <= i < us.len() ==> crate::json::keys_distinct_deep(#[trigger] us[i]) && merge_wrapper_hooks_v(
                us[i],
                JsonV::Object(seq![("hooks"@, JsonV::Object(wrapper_hooks))]),
            ) is Ok,
        other != "hooks"@,
    ensures
        ({
            let wrapper = JsonV::Object(seq![("hooks"@, JsonV::Object(wrapper_hooks))]);
            let callers = callers_v(us);
            let written = deep_merge_v(wrapper, merge_wrapper_hooks_v(callers, wrapper)->Ok_0);
            &&& merge_wrapper_hooks_v(callers, wrapper) is Ok
            &&& entries_get(wrapper_hooks, event) matches Some(ms) ==> get_v(
                get_v(written, "hooks"@)->Some_0,
                event,
            ) == Some(JsonV::Array(all_matchers(us, event) + items_of(Some(ms))))
            &&& get_v(written, other) == get_v(callers, other)
        }),
{
    let wrapper = JsonV::Object(seq![("hooks"@, JsonV::Object(wrapper_hooks))]);
    assert forall|i: int| 0 <= i < us.len() implies crate::json::keys_distinct_deep(#[trigger] us[i]) && us[i] is Object by {
        lemma_accepted_settings(us[i], wrapper_hooks);
    }
    lemma_callers_shape(us);
    let callers = callers_v(us);
    let ce = callers->Object_0;
    assert forall|j: int| 0 <= j < wrapper_hooks.len() implies list_or_absent(
        entries_get(hooks_entries(callers), #[trigger] wrapper_hooks[j].0),
    ) by {
        let e = wrapper_hooks[j].0;
        assert forall|i: int| 0 <= i < us.len() implies list_or_absent(entries_get(hooks_entries(#[trigger] us[i]), e)) by {
            lemma_accepted_settings(us[i], wrapper_hooks);
        }
        lemma_callers_event(us, e);
    }
    let wes = seq![("hooks"@, JsonV::Object(wrapper_hooks))];
    assert(crate::json::is_key_at(wes, "hooks"@, 0));
    lemma_get_front(wes, "hooks"@);
    let he = match entries_get(ce, "hooks"@) {
        Some(h) => h,
        None => JsonV::Object(Seq::empty()),
    }->Object_0;
    assert(he == hooks_entries(callers));
    lemma_add_matchers_ok(he, wrapper_hooks);
    merged_settings_keep_both_sides(wrapper_hooks, ce, event, other);
    if let Some(ms) = entries_get(wrapper_hooks, event) {
        let j = key_index(wrapper_hooks, event)->Some_0;
        assert(crate::json::is_key_at(wrapper_hooks, event, j));
        assert forall|i: int| 0 <= i < us.len() implies list_or_absent(entries_get(hooks_entries(#[trigger] us[i]), event)) by {
            lemma_accepted_settings(us[i], wrapper_hooks);
            assert(wrapper_hooks[j].0 == event);
        }
        lemma_callers_event(us, event);
    }
}

// ---------------------------------------------------------------------------
// Laws of the wrapper's own hooks
// ---------------------------------------------------------------------------

/// The hook entry of a matcher list that holds one matcher with one hook.
pub open spec fn sole_hook(m: JsonV) -> Option<JsonV> {
    match m {
        JsonV::Array(ms) => if ms.len() == 1 {
            match get_v(ms[0], "hooks"@) {
                Some(JsonV::Array(hs)) => if hs.len() == 1 {
                    Some(hs[0])
                } else {
                    None
                },
                _ => None,
            }
        } else {
            None
        },
        _ => None,
    }
}

/// The arguments with which the wrapper's program is run for `event`: the
/// start signal file at the start of a turn, the stop signal file at its end
/// (also on failure), and the event's name for the events it answers.
pub open spec fn hook_args_for(event: Seq<char>, start_signal: Seq<char>, stop_signal: Seq<char>) -> Seq<
    Seq<char>,
> {
    if event == "UserPromptSubmit"@ {
        seq!["__hook-write"@, start_signal]
    } else if event == "Stop"@ || event == "StopFailure"@ {
        seq!["__hook-write"@, stop_signal]
    } else {
        seq!["__hook-control"@, event]
    }
}

proof fn lemma_entry_lookup(es: Seq<(Seq<char>, JsonV)>, k: Seq<char>, i: int)
    requires
        0 <= i < es.len(),
        es[i].0 == k,
        forall|j: int| 0 <= j < i ==> es[j].0 != k,
    ensures
        entries_get(es, k) == Some(es[i].1),
{
    assert(crate::json::is_key_at(es, k, i));
    crate::json::lemma_key_index_is(es, k, i);
}

proof fn lemma_hook_names_differ()
    ensures
        "command"@ != "timeout"@,
        "command"@ != "type"@,
        "command"@ != "shell"@,
        "shell"@ != "timeout"@,
        "shell"@ != "type"@,
        "timeout"@ != "type"@,
        "Elicitation"@ != "UserPromptSubmit"@,
        "Elicitation"@ != "Stop"@,
        "Elicitation"@ != "StopFailure"@,
        "PermissionRequest"@ != "UserPromptSubmit"@,
        "PermissionRequest"@ != "Stop"@,
        "PermissionRequest"@ != "StopFailure"@,
        "Stop"@ != "UserPromptSubmit"@,
        "StopFailure"@ != "UserPromptSubmit"@,
        "StopFailure"@ != "Stop"@,
{
    reveal_strlit("command");
    reveal_strlit("timeout");
    reveal_strlit("type");
    reveal_strlit("shell");
    reveal_strlit("Elicitation");
    reveal_strlit("PermissionRequest");
    reveal_strlit("Stop");
    reveal_strlit("StopFailure");
    reveal_strlit("UserPromptSubmit");
    assert("command"@.len() == 7);
    assert("timeout"@.len() == 7);
    assert("type"@.len() == 4);
    assert("shell"@.len() == 5);
    assert("command"@[0] != "timeout"@[0]);
    assert("Elicitation"@.len() == 11);
    assert("PermissionRequest"@.len() == 17);
    assert("Stop"@.len() == 4);
    assert("StopFailure"@.len() == 11);
    assert("UserPromptSubmit"@.len() == 16);
    assert("Elicitation"@[0] != "StopFailure"@[0]);
}

/// What the hook entry that runs `command` holds.
proof fn lemma_hook_entry(command: Seq<char>, p: Platform)
    ensures
        sole_hook(matcher_v(command, p)) == Some(hook_command_v(command, p)),
        get_v(hook_command_v(command, p), "type"@) == Some(str_v("command"@)),
        get_v(hook_command_v(command, p), "timeout"@) == Some(int_v(10)),
        get_v(hook_command_v(command, p), "command"@) == Some(str_v(command)),
        get_v(hook_command_v(command, p), "shell"@) == (if p == Platform::Windows {
            Some(str_v("powershell"@))
        } else {
            None
        }),
{
    lemma_hook_names_differ();
    let hc = hook_command_v(command, p);
    let inner = seq![("hooks"@, JsonV::Array(seq![hc]))];
    lemma_entry_lookup(inner, "hooks"@, 0);
    let es = hc->Object_0;
    match p {
        Platform::Posix => {
            lemma_entry_lookup(es, "command"@, 0);
            lemma_entry_lookup(es, "timeout"@, 1);
            lemma_entry_lookup(es, "type"@, 2);
            lemma_get_absent(es, "shell"@);
        },
        Platform::Windows => {
            lemma_entry_lookup(es, "command"@, 0);
            lemma_entry_lookup(es, "shell"@, 1);
            lemma_entry_lookup(es, "timeout"@, 2);
            lemma_entry_lookup(es, "type"@, 3);
        },
    }
}

/// The wrapper hooks exactly five events, each with one command hook that
/// runs the wrapper's program with that event's arguments, quoted for the
/// platform's hook shell, with a ten-second timeout. On Windows every hook
/// names PowerShell as its shell, which runs the `& ...` command line; on
/// POSIX no hook names a shell.
pub proof fn wrapper_hooks_run_in_the_platform_shell(
    exe: Seq<char>,
    start_signal: Seq<char>,
    stop_signal: Seq<char>,
    p: Platform,
)
    ensures
        ({
            let hs = hooks_entries(wrapper_settings_spec(exe, start_signal, stop_signal, p));
            &&& hs.len() == 5
            &&& hs.map_values(|e: (Seq<char>, JsonV)| e.0) == seq![
                "Elicitation"@,
                "PermissionRequest"@,
                "Stop"@,
                "StopFailure"@,
                "UserPromptSubmit"@,
            ]
            &&& forall|j: int|
                0 <= j < hs.len() ==> (#[trigger] sole_hook(hs[j].1) matches Some(x) && {
                    &&& get_v(x, "type"@) == Some(str_v("command"@))
                    &&& get_v(x, "timeout"@) == Some(int_v(10))
                    &&& get_v(x, "shell"@) == (if p == Platform::Windows {
                        Some(str_v("powershell"@))
                    } else {
                        None
                    })
                    &&& get_v(x, "command"@) == Some(
                        str_v(hook_invocation_spec(exe, hook_args_for(hs[j].0, start_signal, stop_signal), p)),
                    )
                })
        }),
        p == Platform::Windows ==> forall|args: Seq<Seq<char>>|
            "& "@.is_prefix_of(#[trigger] hook_invocation_spec(exe, args, p)),
{
    lemma_hook_names_differ();
    let w = wrapper_settings_spec(exe, start_signal, stop_signal, p);
    let top = w->Object_0;
    lemma_entry_lookup(top, "hooks"@, 0);
    let hs = hooks_entries(w);
    assert(hs == top[0].1->Object_0);
    assert(hs.map_values(|e: (Seq<char>, JsonV)| e.0) =~= seq![
        "Elicitation"@,
        "PermissionRequest"@,
        "Stop"@,
        "StopFailure"@,
        "UserPromptSubmit"@,
    ]);
    let start = hook_invocation_spec(exe, seq!["__hook-write"@, start_signal], p);
    let stop = hook_invocation_spec(exe, seq!["__hook-write"@, stop_signal], p);
    let permission = hook_invocation_spec(exe, seq!["__hook-control"@, "PermissionRequest"@], p);
    let elicitation = hook_invocation_spec(exe, seq!["__hook-control"@, "Elicitation"@], p);
    lemma_hook_entry(start, p);
    lemma_hook_entry(stop, p);
    lemma_hook_entry(permission, p);
    lemma_hook_entry(elicitation, p);
    assert(hook_args_for("Elicitation"@, start_signal, stop_signal) == seq!["__hook-control"@, "Elicitation"@]);
    assert(hook_args_for("PermissionRequest"@, start_signal, stop_signal) == seq![
        "__hook-control"@,
        "PermissionRequest"@,
    ]);
    assert(hook_args_for("Stop"@, start_signal, stop_signal) == seq!["__hook-write"@, stop_signal]);
    assert(hook_args_for("StopFailure"@, start_signal, stop_signal) == seq!["__hook-write"@, stop_signal]);
    assert(hook_args_for("UserPromptSubmit"@, start_signal, stop_signal) == seq![
        "__hook-write"@,
        start_signal,
    ]);
    if p == Platform::Windows {
        assert forall|args: Seq<Seq<char>>| "& "@.is_prefix_of(#[trigger] hook_invocation_spec(exe, args, p)) by {
            let line = join_spec(
                seq![shell_quote_spec(exe, p)] + args.map_values(|a: Seq<char>| shell_quote_spec(a, p)),
                " "@,
            );
            assert(("& "@ + line).subrange(0, "& "@.len() as int) =~= "& "@);
        }
    }
}

} // verus!

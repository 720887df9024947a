//! Reading the upstream session transcript: the final result record, the
//! messages streamed as they appear, and the initial system record.

use vstd::prelude::*;

use crate::json::{
    as_str_v, get_v, int_v, json_eq, jv, jv_seq, lemma_jv_seq, opt_jv, push_member, Json, JsonV,
};
use crate::text::{append_str, join, join_spec, owned, str_eq};
use crate::usage::{accumulate_usage, accumulate_usage_v, empty_usage, empty_usage_v, usage_wf};

verus! {

// ---------------------------------------------------------------------------
// Trusted outside calls
// ---------------------------------------------------------------------------

/// A lower-case hexadecimal digit.
pub open spec fn is_lower_hex(c: char) -> bool {
    ('0' <= c && c <= '9') || ('a' <= c && c <= 'f')
}

/// The text of a version 4 UUID: 36 characters, hyphens at 8, 13, 18 and
/// 23, lower-case hex digits elsewhere, the version digit `4` at 14 and the
/// variant digit (one of `8`, `9`, `a`, `b`) at 19.
pub open spec fn is_v4_uuid_text(s: Seq<char>) -> bool {
    &&& s.len() == 36
    &&& forall|i: int|
        0 <= i < 36 ==> if i == 8 || i == 13 || i == 18 || i == 23 {
            s[i] == '-'
        } else {
            is_lower_hex(#[trigger] s[i])
        }
    &&& s[14] == '4'
    &&& (s[19] == '8' || s[19] == '9' || s[19] == 'a' || s[19] == 'b')
}

/// A fresh random identifier, `uuid::Uuid::new_v4().to_string()`: the
/// hyphenated lower-case text of a version 4 UUID. Which random digits it
/// holds is chance and is not stated. (`new_v4` panics where the system
/// gives no random bytes.)
#[verifier::external_body]
pub(crate) fn new_uuid() -> (r: String)
    ensures
        is_v4_uuid_text(r@),
{
    uuid::Uuid::new_v4().to_string()
}

/// The milliseconds from the RFC 3339 time `first` to the RFC 3339 time
/// `last`, both taken to UTC, as `chrono` counts them; `None` where either
/// does not parse.
pub uninterp spec fn rfc3339_span_ms(first: Seq<char>, last: Seq<char>) -> Option<i64>;

/// `chrono::DateTime::parse_from_rfc3339` on both times, then
/// `(last - first).num_milliseconds()` in UTC. The contract names the
/// result, `rfc3339_span_ms`; it does not state how `chrono` parses or counts.
#[verifier::external_body]
pub(crate) fn millis_between(first: &str, last: &str) -> (r: Option<i64>)
    ensures
        r == rfc3339_span_ms(first@, last@),
{
    let first = chrono::DateTime::parse_from_rfc3339(first).ok()?;
    let last = chrono::DateTime::parse_from_rfc3339(last).ok()?;
    Some((last.with_timezone(&chrono::Utc) - first.with_timezone(&chrono::Utc)).num_milliseconds())
}

// ---------------------------------------------------------------------------
// Message content
// ---------------------------------------------------------------------------

/// The text of one content block: its `text` where its `type` is `"text"`.
pub open spec fn block_text_v(b: JsonV) -> Seq<char> {
    if as_str_v(get_v(b, "type"@)) == Some("text"@) {
        match as_str_v(get_v(b, "text"@)) {
            Some(t) => t,
            None => Seq::empty(),
        }
    } else {
        Seq::empty()
    }
}

pub open spec fn blocks_text_v(bs: Seq<JsonV>) -> Seq<char>
    decreases bs.len(),
{
    if bs.len() == 0 {
        Seq::empty()
    } else {
        blocks_text_v(bs.drop_last()) + block_text_v(bs.last())
    }
}

/// `text_from_content`: a string as it is; for a list of blocks, the texts
/// of its text blocks run together; nothing otherwise.
pub open spec fn text_from_content_v(c: JsonV) -> Seq<char> {
    match c {
        JsonV::Str(t) => t,
        JsonV::Array(bs) => blocks_text_v(bs),
        _ => Seq::empty(),
    }
}

/// Whether the block `b` is a tool result.
pub open spec fn is_tool_result_block(b: JsonV) -> bool {
    as_str_v(get_v(b, "type"@)) == Some("tool_result"@)
}

/// Some block of `bs` is a tool result.
pub open spec fn has_tool_result(bs: Seq<JsonV>) -> bool {
    exists|i: int| 0 <= i < bs.len() && is_tool_result_block(#[trigger] bs[i])
}

/// `is_tool_result_user`: a user record whose message content is a list
/// holding at least one tool result.
pub open spec fn is_tool_result_user_v(item: JsonV) -> bool {
    &&& as_str_v(get_v(item, "type"@)) == Some("user"@)
    &&& match get_v(item, "message"@) {
        Some(m) => match get_v(m, "content"@) {
            Some(JsonV::Array(bs)) => has_tool_result(bs),
            _ => false,
        },
        None => false,
    }
}

/// Whether `j` is a string equal to `lit`.
fn str_member_is(j: &Json, key: &str, lit: &str) -> (r: bool)
    ensures
        r == (as_str_v(get_v(j@, key@)) == Some(lit@)),
{
    match j.get(key) {
        Some(Json::Str(s)) => str_eq(s.as_str(), lit),
        _ => false,
    }
}

/// `text_from_content(content)`.
pub fn text_from_content(content: &Json) -> (r: String)
    ensures
        r@ == text_from_content_v(content@),
{
    match content {
        Json::Str(t) => t.clone(),
        Json::Array(bs) => {
            proof {
                lemma_jv_seq(bs@);
            }
            let ghost bv = jv_seq(bs@);
            let mut r = String::new();
            let mut i: usize = 0;
            while i < bs.len()
                invariant
                    i <= bs.len(),
                    bv == jv_seq(bs@),
                    bv.len() == bs.len(),
                    forall|k: int| 0 <= k < bs.len() ==> #[trigger] bv[k] == jv(bs@[k]),
                    r@ == blocks_text_v(bv.take(i as int)),
                decreases bs.len() - i,
            {
                assert(bv.take(i + 1).drop_last() =~= bv.take(i as int));
                let b = &bs[i];
                if str_member_is(b, "type", "text") {
                    match b.get("text") {
                        Some(Json::Str(t)) => {
                            append_str(&mut r, t.as_str());
                        },
                        _ => {
                            assert(r@ + Seq::<char>::empty() =~= r@);
                        },
                    }
                } else {
                    assert(r@ + Seq::<char>::empty() =~= r@);
                }
                i = i + 1;
            }
            assert(bv.take(bs.len() as int) =~= bv);
            r
        },
        _ => String::new(),
    }
}

/// `is_tool_result_user(item)`.
#[verifier::loop_isolation(false)]
pub fn is_tool_result_user(item: &Json) -> (r: bool)
    ensures
        r == is_tool_result_user_v(item@),
{
    if !str_member_is(item, "type", "user") {
        return false;
    }
    let m = match item.get("message") {
        Some(m) => m,
        None => {
            return false;
        },
    };
    match m.get("content") {
        Some(Json::Array(bs)) => {
            proof {
                lemma_jv_seq(bs@);
            }
            let ghost bv = jv_seq(bs@);
            let mut i: usize = 0;
            while i < bs.len()
                invariant
                    i <= bs.len(),
                    bv == jv_seq(bs@),
                    bv.len() == bs.len(),
                    forall|k: int| 0 <= k < bs.len() ==> #[trigger] bv[k] == jv(bs@[k]),
                    forall|k: int| 0 <= k < i ==> !is_tool_result_block(#[trigger] bv[k]),
                decreases bs.len() - i,
            {
                if str_member_is(&bs[i], "type", "tool_result") {
                    assert(is_tool_result_block(bv[i as int]));
                    assert(get_v(m@, "content"@) == Some(JsonV::Array(bv)));
                    assert(get_v(item@, "message"@) == Some(m@));
                    assert(has_tool_result(bv));
                    return true;
                }
                i = i + 1;
            }
            false
        },
        _ => false,
    }
}

// ---------------------------------------------------------------------------
// The final result record
// ---------------------------------------------------------------------------

/// What one assistant message's usage is counted under: the JSON of its
/// message id (or of its record's uuid), or a fresh random identifier where
/// it has neither. Two ids count as one where they are the same JSON value,
/// as their JSON texts are then the same; a fresh identifier matches no
/// earlier key, so such a message is always counted.
#[derive(Debug)]
pub enum UsageKey {
    Id(Json),
    Fresh(String),
}

pub enum UsageKeyV {
    Id(JsonV),
    Fresh(Seq<char>),
}

impl View for UsageKey {
    type V = UsageKeyV;

    open spec fn view(&self) -> UsageKeyV {
        match self {
            UsageKey::Id(j) => UsageKeyV::Id(j@),
            UsageKey::Fresh(s) => UsageKeyV::Fresh(s@),
        }
    }
}

/// What the transcript has shown so far.
#[derive(Debug)]
pub struct Summary {
    pub assistant_text: Vec<String>,
    pub usage: Json,
    pub session_id: Json,
    pub stop_reason: Json,
    pub first_timestamp: Option<String>,
    pub last_timestamp: Option<String>,
    pub num_turns: i64,
    pub seen_usage: Vec<UsageKey>,
}

pub struct SummaryV {
    pub texts: Seq<Seq<char>>,
    pub usage: JsonV,
    pub session_id: JsonV,
    pub stop_reason: JsonV,
    pub first_ts: Option<Seq<char>>,
    pub last_ts: Option<Seq<char>>,
    pub num_turns: int,
    pub seen: Seq<UsageKeyV>,
}

pub open spec fn keys_view(s: Seq<UsageKey>) -> Seq<UsageKeyV> {
    s.map_values(|k: UsageKey| k@)
}

pub open spec fn opt_str_view(o: Option<String>) -> Option<Seq<char>> {
    match o {
        Some(s) => Some(s@),
        None => None,
    }
}

impl View for Summary {
    type V = SummaryV;

    open spec fn view(&self) -> SummaryV {
        SummaryV {
            texts: self.assistant_text.deep_view(),
            usage: self.usage@,
            session_id: self.session_id@,
            stop_reason: self.stop_reason@,
            first_ts: opt_str_view(self.first_timestamp),
            last_ts: opt_str_view(self.last_timestamp),
            num_turns: self.num_turns as int,
            seen: keys_view(self.seen_usage@),
        }
    }
}

/// The value under `a`, else the one under `b`.
pub open spec fn get_either(j: JsonV, a: Seq<char>, b: Seq<char>) -> Option<JsonV> {
    match get_v(j, a) {
        Some(x) => Some(x),
        None => get_v(j, b),
    }
}

pub open spec fn or_null(o: Option<JsonV>) -> JsonV {
    match o {
        Some(x) => x,
        None => JsonV::Null,
    }
}

/// The summary before the first record: the session id is the stop
/// payload's, and one turn has been taken.
pub open spec fn summary_start_v(stop_payload: JsonV) -> SummaryV {
    SummaryV {
        texts: Seq::empty(),
        usage: empty_usage_v(),
        session_id: or_null(get_v(stop_payload, "session_id"@)),
        stop_reason: JsonV::Null,
        first_ts: None,
        last_ts: None,
        num_turns: 1,
        seen: Seq::empty(),
    }
}

/// The usage key of the assistant record `item` with message `m`.
pub open spec fn usage_key_v(item: JsonV, m: JsonV, fallback: Seq<char>) -> UsageKeyV {
    match get_v(m, "id"@) {
        Some(x) => UsageKeyV::Id(x),
        None => match get_v(item, "uuid"@) {
            Some(x) => UsageKeyV::Id(x),
            None => UsageKeyV::Fresh(fallback),
        },
    }
}

/// One record of the transcript read into the summary: `None` stands for a
/// line that is not JSON. `fallback` is the fresh identifier that the record
/// gets if its usage has no id.
pub open spec fn summary_step_v(st: SummaryV, item: Option<JsonV>, fallback: Seq<char>) -> SummaryV {
    match item {
        None => st,
        Some(it) => {
            let st1 = match get_either(it, "sessionId"@, "session_id"@) {
                Some(x) => SummaryV { session_id: x, ..st },
                None => st,
            };
            let st2 = match as_str_v(get_v(it, "timestamp"@)) {
                Some(ts) => SummaryV {
                    first_ts: if st1.first_ts is None {
                        Some(ts)
                    } else {
                        st1.first_ts
                    },
                    last_ts: Some(ts),
                    ..st1
                },
                None => st1,
            };
            if as_str_v(get_v(it, "type"@)) == Some("assistant"@) {
                match get_v(it, "message"@) {
                    Some(m) => {
                        let text = text_from_content_v(or_null(get_v(m, "content"@)));
                        let reason = match get_v(m, "stop_reason"@) {
                            Some(r) => r,
                            None => st2.stop_reason,
                        };
                        let key = usage_key_v(it, m, fallback);
                        let fresh = match key {
                            UsageKeyV::Fresh(_) => true,
                            UsageKeyV::Id(_) => !st2.seen.contains(key),
                        };
                        SummaryV {
                            texts: st2.texts.push(text),
                            stop_reason: reason,
                            usage: if fresh {
                                accumulate_usage_v(st2.usage, get_v(m, "usage"@))
                            } else {
                                st2.usage
                            },
                            seen: if fresh {
                                st2.seen.push(key)
                            } else {
                                st2.seen
                            },
                            ..st2
                        }
                    },
                    None => st2,
                }
            } else if is_tool_result_user_v(it) {
                SummaryV { num_turns: st2.num_turns + 1, ..st2 }
            } else {
                st2
            }
        },
    }
}

/// The summary of the records `items`, in order.
pub open spec fn summarize_v(stop_payload: JsonV, items: Seq<Option<JsonV>>, fallbacks: Seq<Seq<char>>) -> SummaryV
    decreases items.len(),
{
    if items.len() == 0 {
        summary_start_v(stop_payload)
    } else {
        summary_step_v(
            summarize_v(stop_payload, items.drop_last(), fallbacks.drop_last()),
            items.last(),
            fallbacks.last(),
        )
    }
}

pub open spec fn items_view(items: Seq<Option<Json>>) -> Seq<Option<JsonV>> {
    items.map_values(|o: Option<Json>| opt_json_v(o))
}

pub open spec fn opt_json_v(o: Option<Json>) -> Option<JsonV> {
    match o {
        Some(j) => Some(j@),
        None => None,
    }
}

/// Whether `k` is among `seen`.
fn seen_contains(seen: &Vec<UsageKey>, k: &UsageKey) -> (r: bool)
    ensures
        r == keys_view(seen@).contains(k@),
{
    let ghost sv = keys_view(seen@);
    let mut i: usize = 0;
    while i < seen.len()
        invariant
            i <= seen.len(),
            sv == keys_view(seen@),
            forall|j: int| 0 <= j < i ==> sv[j] != k@,
        decreases seen.len() - i,
    {
        let same = match (&seen[i], k) {
            (UsageKey::Id(a), UsageKey::Id(b)) => json_eq(a, b),
            (UsageKey::Fresh(a), UsageKey::Fresh(b)) => str_eq(a.as_str(), b.as_str()),
            _ => false,
        };
        if same {
            assert(sv[i as int] == k@);
            return true;
        }
        i = i + 1;
    }
    false
}

/// The summary before any record.
pub fn summary_start(stop_payload: &Json) -> (r: Summary)
    ensures
        r@ == summary_start_v(stop_payload@),
        usage_wf(r.usage@),
{
    let session_id = match stop_payload.get("session_id") {
        Some(x) => x.deep_clone(),
        None => Json::Null,
    };
    let r = Summary {
        assistant_text: Vec::new(),
        usage: empty_usage(),
        session_id,
        stop_reason: Json::Null,
        first_timestamp: None,
        last_timestamp: None,
        num_turns: 1,
        seen_usage: Vec::new(),
    };
    assert(r.assistant_text.deep_view() =~= Seq::<Seq<char>>::empty());
    assert(keys_view(r.seen_usage@) =~= Seq::<UsageKeyV>::empty());
    r
}

fn get_either_cloned(j: &Json, a: &str, b: &str) -> (r: Option<Json>)
    ensures
        opt_json_v(r) == get_either(j@, a@, b@),
{
    match j.get(a) {
        Some(x) => Some(x.deep_clone()),
        None => match j.get(b) {
            Some(x) => Some(x.deep_clone()),
            None => None,
        },
    }
}

/// One record read into the summary.
pub fn summary_step(st: Summary, item: &Json, fallback: &String) -> (r: Summary)
    requires
        usage_wf(st.usage@),
        st.num_turns < i64::MAX,
    ensures
        r@ == summary_step_v(st@, Some(item@), fallback@),
        usage_wf(r.usage@),
        r.num_turns <= st.num_turns + 1,
{
    let mut st = st;
    match get_either_cloned(item, "sessionId", "session_id") {
        Some(x) => {
            st.session_id = x;
        },
        None => {},
    }
    match item.get("timestamp") {
        Some(Json::Str(ts)) => {
            if st.first_timestamp.is_none() {
                st.first_timestamp = Some(ts.clone());
            }
            st.last_timestamp = Some(ts.clone());
        },
        _ => {},
    }
    let ghost st2 = st@;
    if str_member_is(item, "type", "assistant") {
        match item.get("message") {
            Some(m) => {
                let text = match m.get("content") {
                    Some(c) => text_from_content(c),
                    None => text_from_content(&Json::Null),
                };
                let ghost before = st.assistant_text.deep_view();
                st.assistant_text.push(text);
                assert(st.assistant_text.deep_view() =~= before.push(text@));
                match m.get("stop_reason") {
                    Some(reason) => {
                        st.stop_reason = reason.deep_clone();
                    },
                    None => {},
                }
                let key = match m.get("id") {
                    Some(x) => UsageKey::Id(x.deep_clone()),
                    None => match item.get("uuid") {
                        Some(x) => UsageKey::Id(x.deep_clone()),
                        None => UsageKey::Fresh(fallback.clone()),
                    },
                };
                assert(key@ == usage_key_v(item@, m@, fallback@));
                let fresh = match &key {
                    UsageKey::Fresh(_) => true,
                    UsageKey::Id(_) => !seen_contains(&st.seen_usage, &key),
                };
                if fresh {
                    let ghost kb = keys_view(st.seen_usage@);
                    let ghost kv = key@;
                    st.seen_usage.push(key);
                    assert(keys_view(st.seen_usage@) =~= kb.push(kv));
                    let mut u = Json::Null;
                    std::mem::swap(&mut u, &mut st.usage);
                    st.usage = accumulate_usage(u, m.get("usage"));
                }
                st
            },
            None => st,
        }
    } else if is_tool_result_user(item) {
        st.num_turns = st.num_turns + 1;
        st
    } else {
        st
    }
}

/// `summarize_v`, computed: the records in order, the `i`-th getting
/// `fallbacks[i]` if its usage has no id.
pub fn summarize(stop_payload: &Json, items: &Vec<Option<Json>>, fallbacks: &Vec<String>) -> (r: Summary)
    requires
        fallbacks.len() == items.len(),
        items.len() < i64::MAX,
    ensures
        r@ == summarize_v(stop_payload@, items_view(items@), fallbacks.deep_view()),
        usage_wf(r.usage@),
{
    let ghost iv = items_view(items@);
    let ghost fv = fallbacks.deep_view();
    let mut st = summary_start(stop_payload);
    let mut i: usize = 0;
    assert(iv.take(0) =~= Seq::<Option<JsonV>>::empty());
    while i < items.len()
        invariant
            i <= items.len() == fallbacks.len(),
            items.len() < i64::MAX,
            iv == items_view(items@),
            fv == fallbacks.deep_view(),
            st@ == summarize_v(stop_payload@, iv.take(i as int), fv.take(i as int)),
            usage_wf(st.usage@),
            st.num_turns <= i + 1,
        decreases items.len() - i,
    {
        assert(iv.take(i + 1).drop_last() =~= iv.take(i as int));
        assert(fv.take(i + 1).drop_last() =~= fv.take(i as int));
        assert(iv.take(i + 1).last() == opt_json_v(items@[i as int]));
        assert(fv.take(i + 1).last() == fallbacks@[i as int]@);
        match &items[i] {
            Some(item) => {
                st = summary_step(st, item, &fallbacks[i]);
            },
            None => {},
        }
        i = i + 1;
    }
    assert(iv.take(items.len() as int) =~= iv);
    assert(fv.take(items.len() as int) =~= fv);
    st
}

/// The run time in milliseconds: the span between the first and the last
/// timestamp (`span`), never below zero; zero without two timestamps or
/// where they do not parse.
pub open spec fn duration_ms_v(st: SummaryV, span: Option<i64>) -> i64 {
    if st.first_ts is Some && st.last_ts is Some {
        match span {
            Some(d) => if d > 0 {
                d
            } else {
                0
            },
            None => 0,
        }
    } else {
        0
    }
}

/// The span that `aggregate` asks `chrono` for.
pub open spec fn span_of(st: SummaryV) -> Option<i64> {
    match (st.first_ts, st.last_ts) {
        (Some(f), Some(l)) => rfc3339_span_ms(f, l),
        _ => None,
    }
}

/// The result text: the stop payload's last assistant message, else all
/// assistant texts run together.
pub open spec fn result_text_v(st: SummaryV, stop_payload: JsonV) -> Seq<char> {
    match as_str_v(get_v(stop_payload, "last_assistant_message"@)) {
        Some(t) => t,
        None => join_spec(st.texts, Seq::empty()),
    }
}

/// The final `result` record.
pub open spec fn result_record_v(st: SummaryV, stop_payload: JsonV, span: Option<i64>, uuid: Seq<char>) -> JsonV {
    let d = duration_ms_v(st, span);
    JsonV::Object(
        seq![
            ("api_error_status"@, JsonV::Null),
            ("duration_api_ms"@, int_v(d)),
            ("duration_ms"@, int_v(d)),
            ("fast_mode_state"@, JsonV::Str("off"@)),
            ("is_error"@, JsonV::Bool(false)),
            ("modelUsage"@, JsonV::Object(Seq::empty())),
            ("num_turns"@, int_v(st.num_turns as i64)),
            ("permission_denials"@, JsonV::Array(Seq::empty())),
            ("result"@, JsonV::Str(result_text_v(st, stop_payload))),
            ("session_id"@, st.session_id),
            ("stop_reason"@, st.stop_reason),
            ("subtype"@, JsonV::Str("success"@)),
            ("terminal_reason"@, JsonV::Str("completed"@)),
            ("total_cost_usd"@, int_v(0)),
            ("type"@, JsonV::Str("result"@)),
            ("usage"@, st.usage),
            ("uuid"@, JsonV::Str(uuid)),
        ],
    )
}

/// The final `result` record, from the summary of the transcript, the span
/// between its first and last timestamps as `chrono` measured it, and a
/// fresh identifier for the record.
pub fn finish_aggregate(st: Summary, stop_payload: &Json, span: Option<i64>, uuid: String) -> (r: Json)
    ensures
        r@ == result_record_v(st@, stop_payload@, span, uuid@),
{
    let ghost sv = st@;
    let d: i64 = if st.first_timestamp.is_some() && st.last_timestamp.is_some() {
        match span {
            Some(x) => if x > 0 {
                x
            } else {
                0
            },
            None => 0,
        }
    } else {
        0
    };
    let text = match stop_payload.get("last_assistant_message") {
        Some(Json::Str(t)) => t.clone(),
        _ => join(&st.assistant_text, ""),
    };
    proof {
        reveal_strlit("");
        assert(""@ =~= Seq::<char>::empty());
    }
    let mut es: Vec<(String, Json)> = Vec::new();
    assert(crate::json::jv_entries(es@) =~= Seq::empty());
    push_member(&mut es, "api_error_status", Json::Null);
    push_member(&mut es, "duration_api_ms", Json::from_i64(d));
    push_member(&mut es, "duration_ms", Json::from_i64(d));
    push_member(&mut es, "fast_mode_state", Json::string("off"));
    push_member(&mut es, "is_error", Json::Bool(false));
    push_member(&mut es, "modelUsage", Json::empty_object());
    push_member(&mut es, "num_turns", Json::from_i64(st.num_turns));
    push_member(&mut es, "permission_denials", Json::empty_array());
    push_member(&mut es, "result", Json::Str(text));
    push_member(&mut es, "session_id", st.session_id);
    push_member(&mut es, "stop_reason", st.stop_reason);
    push_member(&mut es, "subtype", Json::string("success"));
    push_member(&mut es, "terminal_reason", Json::string("completed"));
    push_member(&mut es, "total_cost_usd", Json::from_i64(0));
    push_member(&mut es, "type", Json::string("result"));
    push_member(&mut es, "usage", st.usage);
    push_member(&mut es, "uuid", Json::Str(uuid));
    assert(crate::json::jv_entries(es@) =~= result_record_v(sv, stop_payload@, span, uuid@)->Object_0);
    Json::Object(es)
}

/// The result record for the records `items`, with `fallbacks` the fresh
/// identifiers of the records and `uuid` that of the result.
pub open spec fn aggregate_v(
    stop_payload: JsonV,
    items: Seq<Option<JsonV>>,
    fallbacks: Seq<Seq<char>>,
    uuid: Seq<char>,
) -> JsonV {
    let st = summarize_v(stop_payload, items, fallbacks);
    result_record_v(st, stop_payload, span_of(st), uuid)
}

/// The final `result` record of a run (`aggregate`): `items` are the lines of
/// the transcript, each parsed as JSON or `None` where it is not JSON. Each
/// record without a usage id, and the result record itself, get a fresh
/// random identifier; the span between the first and last timestamps is
/// measured by `chrono`.
pub fn aggregate(stop_payload: &Json, items: &Vec<Option<Json>>) -> (r: Json)
    requires
        items.len() < i64::MAX,
    ensures
        exists|fallbacks: Seq<Seq<char>>, uuid: Seq<char>|
            fallbacks.len() == items.len() && (forall|k: int|
                0 <= k < fallbacks.len() ==> is_v4_uuid_text(#[trigger] fallbacks[k]))
                && is_v4_uuid_text(uuid) && r@ == #[trigger] aggregate_v(
                stop_payload@,
                items_view(items@),
                fallbacks,
                uuid,
            ),
{
    let mut fallbacks: Vec<String> = Vec::new();
    let mut i: usize = 0;
    while i < items.len()
        invariant
            i <= items.len(),
            fallbacks.len() == i,
            forall|k: int| 0 <= k < i ==> is_v4_uuid_text(#[trigger] fallbacks@[k]@),
        decreases items.len() - i,
    {
        fallbacks.push(new_uuid());
        i = i + 1;
    }
    let st = summarize(stop_payload, items, &fallbacks);
    let ghost sv = st@;
    let span = match (&st.first_timestamp, &st.last_timestamp) {
        (Some(f), Some(l)) => millis_between(f.as_str(), l.as_str()),
        _ => None,
    };
    assert(span == span_of(sv));
    let uuid = new_uuid();
    let ghost uv = uuid@;
    let r = finish_aggregate(st, stop_payload, span, uuid);
    assert(fallbacks.deep_view().len() == items.len());
    assert(forall|k: int| 0 <= k < fallbacks.len() ==> fallbacks.deep_view()[k] == fallbacks@[k]@);
    assert(r@ == aggregate_v(stop_payload@, items_view(items@), fallbacks.deep_view(), uv));
    r
}

/// The transcript path that a hook payload names, where it names one as a
/// string.
pub fn transcript_path(payload: &Json) -> (r: Option<String>)
    ensures
        match r {
            Some(p) => as_str_v(get_v(payload@, "transcript_path"@)) == Some(p@),
            None => as_str_v(get_v(payload@, "transcript_path"@)) is None,
        },
{
    match payload.get("transcript_path") {
        Some(Json::Str(p)) => Some(p.clone()),
        _ => None,
    }
}

// ---------------------------------------------------------------------------
// Streamed messages
// ---------------------------------------------------------------------------

/// The record's `uuid` where it is a string, else `fallback`.
pub open spec fn sdk_uuid_v(item: JsonV, fallback: Seq<char>) -> Seq<char> {
    match as_str_v(get_v(item, "uuid"@)) {
        Some(u) => u,
        None => fallback,
    }
}

/// `to_sdk_message`: an assistant record becomes an `assistant` message
/// (its stop reason cleared), a tool-result user record becomes a `user`
/// message (with its timestamp and tool result where present), and other
/// records give nothing. `fallback` is the identifier used where the
/// record has no string `uuid`.
pub open spec fn to_sdk_message_v(item: JsonV, fallback: Seq<char>) -> Option<JsonV> {
    let sid = or_null(get_either(item, "sessionId"@, "session_id"@));
    let uuid = JsonV::Str(sdk_uuid_v(item, fallback));
    if as_str_v(get_v(item, "type"@)) == Some("assistant"@) {
        match get_v(item, "message"@) {
            None => None,
            Some(m) => {
                let m2 = match m {
                    JsonV::Object(es) => JsonV::Object(crate::json::entries_set(es, "stop_reason"@, JsonV::Null)),
                    _ => m,
                };
                Some(
                    JsonV::Object(
                        seq![
                            ("message"@, m2),
                            ("parent_tool_use_id"@, JsonV::Null),
                            ("session_id"@, sid),
                            ("type"@, JsonV::Str("assistant"@)),
                            ("uuid"@, uuid),
                        ],
                    ),
                )
            },
        }
    } else if is_tool_result_user_v(item) {
        let base = seq![
            ("type"@, JsonV::Str("user"@)),
            ("message"@, or_null(get_v(item, "message"@))),
            ("parent_tool_use_id"@, JsonV::Null),
            ("session_id"@, sid),
            ("uuid"@, uuid),
        ];
        let with_ts = match get_v(item, "timestamp"@) {
            Some(t) => base.push(("timestamp"@, t)),
            None => base,
        };
        let with_result = match get_v(item, "toolUseResult"@) {
            Some(t) => with_ts.push(("tool_use_result"@, t)),
            None => with_ts,
        };
        Some(JsonV::Object(with_result))
    } else {
        None
    }
}

fn member_cloned(j: &Json, key: &str) -> (r: Option<Json>)
    ensures
        opt_json_v(r) == get_v(j@, key@),
{
    match j.get(key) {
        Some(x) => Some(x.deep_clone()),
        None => None,
    }
}

fn or_null_json(o: Option<Json>) -> (r: Json)
    ensures
        r@ == or_null(opt_json_v(o)),
{
    match o {
        Some(x) => x,
        None => Json::Null,
    }
}

/// `to_sdk_message_v`, computed.
pub fn to_sdk_message_with(item: &Json, fallback: &str) -> (r: Option<Json>)
    ensures
        opt_json_v(r) == to_sdk_message_v(item@, fallback@),
{
    let sid = or_null_json(get_either_cloned(item, "sessionId", "session_id"));
    let uuid = match item.get("uuid") {
        Some(Json::Str(u)) => Json::Str(u.clone()),
        _ => Json::string(fallback),
    };
    if str_member_is(item, "type", "assistant") {
        match item.get("message") {
            None => None,
            Some(m) => {
                let m2 = match m.deep_clone() {
                    Json::Object(es) => {
                        let mut es = es;
                        crate::json::set_entry(&mut es, owned("stop_reason"), Json::Null);
                        Json::Object(es)
                    },
                    other => other,
                };
                let mut es: Vec<(String, Json)> = Vec::new();
                assert(crate::json::jv_entries(es@) =~= Seq::empty());
                push_member(&mut es, "message", m2);
                push_member(&mut es, "parent_tool_use_id", Json::Null);
                push_member(&mut es, "session_id", sid);
                push_member(&mut es, "type", Json::string("assistant"));
                push_member(&mut es, "uuid", uuid);
                let r = Json::Object(es);
                assert(crate::json::jv_entries(es@) =~= to_sdk_message_v(item@, fallback@)->Some_0->Object_0);
                assert(Some(r@) == to_sdk_message_v(item@, fallback@));
                Some(r)
            },
        }
    } else if is_tool_result_user(item) {
        let mut es: Vec<(String, Json)> = Vec::new();
        assert(crate::json::jv_entries(es@) =~= Seq::empty());
        push_member(&mut es, "type", Json::string("user"));
        push_member(&mut es, "message", or_null_json(member_cloned(item, "message")));
        push_member(&mut es, "parent_tool_use_id", Json::Null);
        push_member(&mut es, "session_id", sid);
        push_member(&mut es, "uuid", uuid);
        match member_cloned(item, "timestamp") {
            Some(t) => {
                push_member(&mut es, "timestamp", t);
            },
            None => {},
        }
        match member_cloned(item, "toolUseResult") {
            Some(t) => {
                push_member(&mut es, "tool_use_result", t);
            },
            None => {},
        }
        let r = Json::Object(es);
        assert(crate::json::jv_entries(es@) =~= to_sdk_message_v(item@, fallback@)->Some_0->Object_0);
        assert(Some(r@) == to_sdk_message_v(item@, fallback@));
        Some(r)
    } else {
        None
    }
}

/// `to_sdk_message`: where the record has no string `uuid`, the message
/// gets a fresh random identifier.
pub fn to_sdk_message(item: &Json) -> (r: Option<Json>)
    ensures
        exists|fallback: Seq<char>|
            is_v4_uuid_text(fallback) && opt_json_v(r) == #[trigger] to_sdk_message_v(item@, fallback),
{
    let fallback = new_uuid();
    to_sdk_message_with(item, fallback.as_str())
}

/// What identifies a streamed message: its type, its uuid and its
/// message id, each `null` where absent.
pub open spec fn stream_key_v(msg: JsonV) -> JsonV {
    let id = match get_v(msg, "message"@) {
        Some(m) => get_v(m, "id"@),
        None => None,
    };
    JsonV::Array(seq![or_null(get_v(msg, "type"@)), or_null(get_v(msg, "uuid"@)), or_null(id)])
}

/// The lines of a finished chunk that are parsed: lines holding more than
/// whitespace, with their trailing carriage returns removed.
pub open spec fn stream_lines_v(done: Seq<Seq<char>>) -> Seq<Seq<char>>
    decreases done.len(),
{
    if done.len() == 0 {
        Seq::empty()
    } else {
        let rest = stream_lines_v(done.drop_last());
        if crate::text::is_blank_spec(done.last()) {
            rest
        } else {
            rest.push(crate::text::trim_end_char(done.last(), '\r'))
        }
    }
}

/// What streaming the record `item` sends, and the keys sent afterwards:
/// a message is sent once per key.
pub open spec fn stream_outcome(seen: Seq<JsonV>, item: JsonV, fallback: Seq<char>) -> (
    Option<JsonV>,
    Seq<JsonV>,
) {
    match to_sdk_message_v(item, fallback) {
        None => (None, seen),
        Some(m) => if seen.contains(stream_key_v(m)) {
            (None, seen)
        } else {
            (Some(m), seen.push(stream_key_v(m)))
        },
    }
}

/// The transcript as it is streamed: how many bytes of the file have been
/// read, the unfinished last line read so far, and the keys of the messages
/// already sent.
#[derive(Debug)]
pub struct StreamState {
    pub offset: u64,
    pub partial: String,
    pub seen: Vec<Json>,
}

/// Where the next read of a transcript of `len` bytes starts, if there is
/// anything to read, and the offset and unfinished line afterwards: a file
/// shorter than what was read was cut short and is read again from the
/// start, its unfinished line dropped.
pub open spec fn read_plan_v(offset: u64, partial: Seq<char>, len: u64) -> (Option<u64>, u64, Seq<char>) {
    let (o1, p1) = if len < offset {
        (0u64, Seq::<char>::empty())
    } else {
        (offset, partial)
    };
    if len > o1 {
        (Some(o1), len, p1)
    } else {
        (None, o1, p1)
    }
}

pub open spec fn json_seq_view(s: Seq<Json>) -> Seq<JsonV> {
    s.map_values(|j: Json| j@)
}

impl StreamState {
    /// Nothing read, nothing sent.
    pub fn new() -> (r: StreamState)
        ensures
            r.offset == 0,
            r.partial@ == Seq::<char>::empty(),
            json_seq_view(r.seen@) == Seq::<JsonV>::empty(),
    {
        let r = StreamState { offset: 0, partial: String::new(), seen: Vec::new() };
        assert(json_seq_view(r.seen@) =~= Seq::<JsonV>::empty());
        r
    }

    /// The transcript file now holds `len` bytes: returns the offset to read
    /// the new bytes from, if there are new bytes, and takes them as read.
    /// The messages sent stay sent.
    pub fn plan_read(&mut self, len: u64) -> (r: Option<u64>)
        ensures
            (r, final(self).offset, final(self).partial@) == read_plan_v(
                old(self).offset,
                old(self).partial@,
                len,
            ),
            final(self).seen@ == old(self).seen@,
    {
        if len < self.offset {
            self.offset = 0;
            self.partial = String::new();
        }
        if len > self.offset {
            let start = self.offset;
            self.offset = len;
            Some(start)
        } else {
            None
        }
    }

    /// Whether a transcript of `len` bytes holds bytes not read yet.
    pub fn has_unread(&self, len: u64) -> (r: bool)
        ensures
            r == (len > self.offset),
    {
        len > self.offset
    }

    /// Takes in the next `chunk` of the transcript: returns the finished
    /// lines to parse, and keeps the unfinished rest for the next chunk.
    pub fn take_chunk(&mut self, chunk: &str) -> (r: Vec<String>)
        ensures
            ({
                let (done, cur) = crate::text::split_newlines(old(self).partial@ + chunk@);
                &&& final(self).partial@ == cur
                &&& r.deep_view() == stream_lines_v(done)
            }),
            final(self).seen@ == old(self).seen@,
            final(self).offset == old(self).offset,
    {
        let mut combined = self.partial.clone();
        append_str(&mut combined, chunk);
        let cs = crate::text::chars_of(combined.as_str());
        let (done, cur) = crate::text::split_at_newlines(&cs, cs.len());
        assert(cs@.take(cs.len() as int) =~= cs@);
        self.partial = cur;
        let mut r: Vec<String> = Vec::new();
        let mut i: usize = 0;
        while i < done.len()
            invariant
                i <= done.len(),
                r.deep_view() == stream_lines_v(done.deep_view().take(i as int)),
            decreases done.len() - i,
        {
            assert(done.deep_view().take(i + 1).drop_last() =~= done.deep_view().take(i as int));
            assert(done.deep_view().take(i + 1).last() == done@[i as int]@);
            if !crate::text::is_blank(done[i].as_str()) {
                let line = crate::text::trim_end_matches(done[i].as_str(), '\r');
                let ghost b = r.deep_view();
                r.push(line);
                assert(r.deep_view() =~= b.push(line@));
            }
            i = i + 1;
        }
        assert(done.deep_view().take(done.len() as int) =~= done.deep_view());
        r
    }

    /// The message to send for the parsed record `item`, if any: none for
    /// records that make no message, and none for a message whose key was
    /// sent before. `fallback` is the identifier for a record without one.
    #[verifier::loop_isolation(false)]
    pub fn next_message_with(&mut self, item: &Json, fallback: &str) -> (r: Option<Json>)
        ensures
            (opt_json_v(r), json_seq_view(final(self).seen@)) == stream_outcome(
                json_seq_view(old(self).seen@),
                item@,
                fallback@,
            ),
            final(self).partial == old(self).partial,
            final(self).offset == old(self).offset,
    {
        match to_sdk_message_with(item, fallback) {
            None => None,
            Some(m) => {
                let key = stream_key(&m);
                let ghost sv = json_seq_view(self.seen@);
                let mut i: usize = 0;
                while i < self.seen.len()
                    invariant
                        i <= self.seen.len(),
                        sv == json_seq_view(self.seen@),
                        forall|j: int| 0 <= j < i ==> sv[j] != key@,
                    decreases self.seen.len() - i,
                {
                    if json_eq(&self.seen[i], &key) {
                        assert(sv[i as int] == key@);
                        assert(sv.contains(key@));
                        return None;
                    }
                    i = i + 1;
                }
                let ghost kv = key@;
                self.seen.push(key);
                assert(json_seq_view(self.seen@) =~= sv.push(kv));
                Some(m)
            },
        }
    }

    /// `next_message_with`, with a fresh random identifier as the fallback.
    pub fn next_message(&mut self, item: &Json) -> (r: Option<Json>)
        ensures
            final(self).partial == old(self).partial,
            final(self).offset == old(self).offset,
            exists|fallback: Seq<char>|
                is_v4_uuid_text(fallback) && (opt_json_v(r), json_seq_view(final(self).seen@))
                    == #[trigger] stream_outcome(
                    json_seq_view(old(self).seen@),
                    item@,
                    fallback,
                ),
    {
        let fallback = new_uuid();
        self.next_message_with(item, fallback.as_str())
    }
}

fn stream_key(msg: &Json) -> (r: Json)
    ensures
        r@ == stream_key_v(msg@),
{
    let t = or_null_json(member_cloned(msg, "type"));
    let u = or_null_json(member_cloned(msg, "uuid"));
    let id = match msg.get("message") {
        Some(m) => member_cloned(m, "id"),
        None => None,
    };
    let id = or_null_json(id);
    let mut v: Vec<Json> = Vec::new();
    v.push(t);
    v.push(u);
    v.push(id);
    proof {
        lemma_jv_seq(v@);
        assert(jv_seq(v@) =~= seq![v@[0]@, v@[1]@, v@[2]@]);
    }
    Json::Array(v)
}

// ---------------------------------------------------------------------------
// The initial system record
// ---------------------------------------------------------------------------

/// The tool names that an attachment announces, `Agent` reported as `Task`.
pub open spec fn announced_names_v(ns: Seq<JsonV>) -> Seq<Seq<char>>
    decreases ns.len(),
{
    if ns.len() == 0 {
        Seq::empty()
    } else {
        let rest = announced_names_v(ns.drop_last());
        match ns.last() {
            JsonV::Str(n) => rest.push(if n == "Agent"@ { "Task"@ } else { n }),
            _ => rest,
        }
    }
}

/// The names of the tools that the blocks `bs` use.
pub open spec fn used_names_v(bs: Seq<JsonV>) -> Seq<Seq<char>>
    decreases bs.len(),
{
    if bs.len() == 0 {
        Seq::empty()
    } else {
        let rest = used_names_v(bs.drop_last());
        let b = bs.last();
        if as_str_v(get_v(b, "type"@)) == Some("tool_use"@) {
            match as_str_v(get_v(b, "name"@)) {
                Some(n) => rest.push(n),
                None => rest,
            }
        } else {
            rest
        }
    }
}

/// The tool names that one record of the transcript shows.
pub open spec fn item_tools_v(it: JsonV) -> Seq<Seq<char>> {
    let announced = match get_v(or_null(get_v(it, "attachment"@)), "addedNames"@) {
        Some(JsonV::Array(ns)) => announced_names_v(ns),
        _ => Seq::empty(),
    };
    let used = if as_str_v(get_v(it, "type"@)) == Some("assistant"@) {
        match get_v(or_null(get_v(it, "message"@)), "content"@) {
            Some(JsonV::Array(bs)) => used_names_v(bs),
            _ => Seq::empty(),
        }
    } else {
        Seq::empty()
    };
    announced + used
}

/// All tool names that the records show, in order.
pub open spec fn tools_v(items: Seq<Option<JsonV>>) -> Seq<Seq<char>>
    decreases items.len(),
{
    if items.len() == 0 {
        Seq::empty()
    } else {
        tools_v(items.drop_last()) + match items.last() {
            Some(it) => item_tools_v(it),
            None => Seq::empty(),
        }
    }
}

/// The upstream version: that of the last record giving one, else `unknown`.
pub open spec fn version_v(items: Seq<Option<JsonV>>) -> Seq<char>
    decreases items.len(),
{
    if items.len() == 0 {
        "unknown"@
    } else {
        match items.last() {
            Some(it) => match as_str_v(get_v(it, "version"@)) {
                Some(v) => v,
                None => version_v(items.drop_last()),
            },
            None => version_v(items.drop_last()),
        }
    }
}

pub open spec fn str_or(o: Option<Seq<char>>, d: Seq<char>) -> Seq<char> {
    match o {
        Some(s) => s,
        None => d,
    }
}

/// The initial `system` record, with `tools` the tool list it reports.
pub open spec fn init_message_v(
    payload: JsonV,
    version: Seq<char>,
    tools: Seq<Seq<char>>,
    cwd_fallback: Seq<char>,
    model: Seq<char>,
    uuid: Seq<char>,
) -> JsonV {
    JsonV::Object(
        seq![
            ("agents"@, JsonV::Array(Seq::empty())),
            ("apiKeySource"@, JsonV::Str("none"@)),
            ("claude_code_version"@, JsonV::Str(version)),
            ("cwd"@, JsonV::Str(str_or(as_str_v(get_v(payload, "cwd"@)), cwd_fallback))),
            ("fast_mode_state"@, JsonV::Str("off"@)),
            ("mcp_servers"@, JsonV::Array(Seq::empty())),
            ("model"@, JsonV::Str(model)),
            ("output_style"@, JsonV::Str("default"@)),
            (
                "permissionMode"@,
                JsonV::Str(str_or(as_str_v(get_v(payload, "permission_mode"@)), "bypassPermissions"@)),
            ),
            ("plugins"@, JsonV::Array(Seq::empty())),
            ("session_id"@, or_null(get_v(payload, "session_id"@))),
            ("skills"@, JsonV::Array(Seq::empty())),
            ("slash_commands"@, JsonV::Array(Seq::empty())),
            ("subtype"@, JsonV::Str("init"@)),
            ("tools"@, JsonV::Array(tools.map_values(|t: Seq<char>| JsonV::Str(t)))),
            ("type"@, JsonV::Str("system"@)),
            ("uuid"@, JsonV::Str(uuid)),
        ],
    )
}

/// The tool names of one record, each put into the sorted list `tools`.
fn add_item_tools(tools: &mut Vec<String>, it: &Json)
    requires
        crate::text::sorted_strict(old(tools).deep_view()),
    ensures
        crate::text::sorted_strict(final(tools).deep_view()),
        final(tools).deep_view().to_set() == old(tools).deep_view().to_set() + item_tools_v(
            it@,
        ).to_set(),
{
    let ghost t0 = tools.deep_view().to_set();
    let ghost announced = match get_v(or_null(get_v(it@, "attachment"@)), "addedNames"@) {
        Some(JsonV::Array(ns)) => announced_names_v(ns),
        _ => Seq::empty(),
    };
    let att = match it.get("attachment") {
        Some(a) => a.get("addedNames"),
        None => None,
    };
    assert(opt_jv(att) == get_v(or_null(get_v(it@, "attachment"@)), "addedNames"@));
    match att {
        Some(Json::Array(ns)) => {
            proof {
                lemma_jv_seq(ns@);
            }
            let ghost nv = jv_seq(ns@);
            let mut i: usize = 0;
            while i < ns.len()
                invariant
                    i <= ns.len(),
                    nv == jv_seq(ns@),
                    nv.len() == ns.len(),
                    forall|k: int| 0 <= k < ns.len() ==> #[trigger] nv[k] == jv(ns@[k]),
                    crate::text::sorted_strict(tools.deep_view()),
                    tools.deep_view().to_set() == t0 + announced_names_v(nv.take(i as int)).to_set(),
                decreases ns.len() - i,
            {
                assert(nv.take(i + 1).drop_last() =~= nv.take(i as int));
                let ghost before = announced_names_v(nv.take(i as int));
                match &ns[i] {
                    Json::Str(n) => {
                        let name = if str_eq(n.as_str(), "Agent") {
                            owned("Task")
                        } else {
                            n.clone()
                        };
                        let ghost nm = name@;
                        crate::text::insert_sorted(tools, name);
                        proof {
                            before.lemma_push_to_set_commute(nm);
                        }
                    },
                    _ => {},
                }
                i = i + 1;
            }
            assert(nv.take(ns.len() as int) =~= nv);
        },
        _ => {
            assert(t0 + Seq::<Seq<char>>::empty().to_set() =~= t0);
        },
    }
    let ghost t1 = tools.deep_view().to_set();
    assert(t1 == t0 + announced.to_set());
    let ghost used = if as_str_v(get_v(it@, "type"@)) == Some("assistant"@) {
        match get_v(or_null(get_v(it@, "message"@)), "content"@) {
            Some(JsonV::Array(bs)) => used_names_v(bs),
            _ => Seq::empty(),
        }
    } else {
        Seq::empty()
    };
    let content = if str_member_is(it, "type", "assistant") {
        match it.get("message") {
            Some(m) => m.get("content"),
            None => None,
        }
    } else {
        None
    };
    match content {
        Some(Json::Array(bs)) => {
            proof {
                lemma_jv_seq(bs@);
            }
            let ghost bv = jv_seq(bs@);
            assert(used == used_names_v(bv));
            let mut i: usize = 0;
            while i < bs.len()
                invariant
                    i <= bs.len(),
                    bv == jv_seq(bs@),
                    bv.len() == bs.len(),
                    forall|k: int| 0 <= k < bs.len() ==> #[trigger] bv[k] == jv(bs@[k]),
                    crate::text::sorted_strict(tools.deep_view()),
                    tools.deep_view().to_set() == t1 + used_names_v(bv.take(i as int)).to_set(),
                decreases bs.len() - i,
            {
                assert(bv.take(i + 1).drop_last() =~= bv.take(i as int));
                let ghost before = used_names_v(bv.take(i as int));
                let b = &bs[i];
                if str_member_is(b, "type", "tool_use") {
                    match b.get("name") {
                        Some(Json::Str(n)) => {
                            let ghost nm = n@;
                            crate::text::insert_sorted(tools, n.clone());
                            proof {
                            before.lemma_push_to_set_commute(nm);
                        }
                        },
                        _ => {},
                    }
                }
                i = i + 1;
            }
            assert(bv.take(bs.len() as int) =~= bv);
        },
        _ => {
            assert(used =~= Seq::<Seq<char>>::empty());
            assert(t1 + Seq::<Seq<char>>::empty().to_set() =~= t1);
        },
    }
    proof {
        vstd::seq_lib::seq_to_set_distributes_over_add(announced, used);
    }
    assert(t0 + announced.to_set() + used.to_set() =~= t0 + (announced + used).to_set());
}

/// The tool names that the records show, sorted, each once.
pub fn collect_tools(items: &Vec<Option<Json>>) -> (r: Vec<String>)
    ensures
        crate::text::sorted_strict(r.deep_view()),
        r.deep_view().to_set() == tools_v(items_view(items@)).to_set(),
{
    let ghost iv = items_view(items@);
    let mut tools: Vec<String> = Vec::new();
    assert(tools.deep_view() =~= Seq::<Seq<char>>::empty());
    assert(tools_v(iv.take(0)).to_set() =~= Set::<Seq<char>>::empty());
    let mut i: usize = 0;
    while i < items.len()
        invariant
            i <= items.len(),
            iv == items_view(items@),
            crate::text::sorted_strict(tools.deep_view()),
            tools.deep_view().to_set() == tools_v(iv.take(i as int)).to_set(),
        decreases items.len() - i,
    {
        assert(iv.take(i + 1).drop_last() =~= iv.take(i as int));
        assert(iv.take(i + 1).last() == opt_json_v(items@[i as int]));
        let ghost prev = tools_v(iv.take(i as int));
        match &items[i] {
            Some(it) => {
                add_item_tools(&mut tools, it);
                proof {
                    vstd::seq_lib::seq_to_set_distributes_over_add(prev, item_tools_v(it@));
                }
            },
            None => {
                assert(prev + Seq::<Seq<char>>::empty() =~= prev);
            },
        }
        i = i + 1;
    }
    assert(iv.take(items.len() as int) =~= iv);
    tools
}

/// The upstream version the records give.
pub fn find_version(items: &Vec<Option<Json>>) -> (r: String)
    ensures
        r@ == version_v(items_view(items@)),
{
    let ghost iv = items_view(items@);
    let mut v = owned("unknown");
    let mut i: usize = 0;
    assert(iv.take(0) =~= Seq::<Option<JsonV>>::empty());
    while i < items.len()
        invariant
            i <= items.len(),
            iv == items_view(items@),
            v@ == version_v(iv.take(i as int)),
        decreases items.len() - i,
    {
        assert(iv.take(i + 1).drop_last() =~= iv.take(i as int));
        assert(iv.take(i + 1).last() == opt_json_v(items@[i as int]));
        match &items[i] {
            Some(it) => match it.get("version") {
                Some(Json::Str(s)) => {
                    v = s.clone();
                },
                _ => {},
            },
            None => {},
        }
        i = i + 1;
    }
    assert(iv.take(items.len() as int) =~= iv);
    v
}

fn str_member_or(j: &Json, key: &str, d: &str) -> (r: String)
    ensures
        r@ == str_or(as_str_v(get_v(j@, key@)), d@),
{
    match j.get(key) {
        Some(Json::Str(s)) => s.clone(),
        _ => owned(d),
    }
}

fn empty_array_json() -> (r: Json)
    ensures
        r@ == JsonV::Array(Seq::empty()),
{
    Json::empty_array()
}

/// The initial `system` record: `payload` is the hook payload of the turn's
/// start, `items` the parsed transcript lines, `cwd_fallback` the directory
/// reported where the payload gives none, `model` the model name to report.
pub fn init_message_with(
    payload: &Json,
    items: &Vec<Option<Json>>,
    cwd_fallback: &str,
    model: &str,
    uuid: &str,
) -> (r: Json)
    ensures
        exists|tools: Seq<Seq<char>>|
            crate::text::sorted_strict(tools) && tools.to_set() == tools_v(items_view(items@)).to_set()
                && r@ == #[trigger] init_message_v(
                payload@,
                version_v(items_view(items@)),
                tools,
                cwd_fallback@,
                model@,
                uuid@,
            ),
{
    let tools = collect_tools(items);
    let version = find_version(items);
    let mut tool_values: Vec<Json> = Vec::new();
    let mut i: usize = 0;
    while i < tools.len()
        invariant
            i <= tools.len(),
            jv_seq(tool_values@) == tools.deep_view().take(i as int).map_values(
                |t: Seq<char>| JsonV::Str(t),
            ),
        decreases tools.len() - i,
    {
        let ghost b = tool_values@;
        let item = Json::Str(tools[i].clone());
        let ghost iv2 = item@;
        tool_values.push(item);
        assert(tool_values@.drop_last() =~= b);
        assert(jv_seq(tool_values@) == jv_seq(b).push(iv2));
        assert(tools.deep_view().take(i + 1).map_values(|t: Seq<char>| JsonV::Str(t))
            =~= tools.deep_view().take(i as int).map_values(|t: Seq<char>| JsonV::Str(t)).push(
            JsonV::Str(tools@[i as int]@),
        ));
        i = i + 1;
    }
    assert(tools.deep_view().take(tools.len() as int) =~= tools.deep_view());
    let session_id = or_null_json(member_cloned(payload, "session_id"));
    let mut es: Vec<(String, Json)> = Vec::new();
    assert(crate::json::jv_entries(es@) =~= Seq::empty());
    push_member(&mut es, "agents", empty_array_json());
    push_member(&mut es, "apiKeySource", Json::string("none"));
    push_member(&mut es, "claude_code_version", Json::Str(version));
    push_member(&mut es, "cwd", Json::Str(str_member_or(payload, "cwd", cwd_fallback)));
    push_member(&mut es, "fast_mode_state", Json::string("off"));
    push_member(&mut es, "mcp_servers", empty_array_json());
    push_member(&mut es, "model", Json::string(model));
    push_member(&mut es, "output_style", Json::string("default"));
    push_member(
        &mut es,
        "permissionMode",
        Json::Str(str_member_or(payload, "permission_mode", "bypassPermissions")),
    );
    push_member(&mut es, "plugins", empty_array_json());
    push_member(&mut es, "session_id", session_id);
    push_member(&mut es, "skills", empty_array_json());
    push_member(&mut es, "slash_commands", empty_array_json());
    push_member(&mut es, "subtype", Json::string("init"));
    push_member(&mut es, "tools", Json::Array(tool_values));
    push_member(&mut es, "type", Json::string("system"));
    push_member(&mut es, "uuid", Json::string(uuid));
    let ghost tv = tools.deep_view();
    assert(crate::json::jv_entries(es@) =~= init_message_v(
        payload@,
        version_v(items_view(items@)),
        tv,
        cwd_fallback@,
        model@,
        uuid@,
    )->Object_0);
    Json::Object(es)
}

/// `build_init_message`: the initial record, with a fresh random identifier.
pub fn build_init_message(payload: &Json, items: &Vec<Option<Json>>, cwd_fallback: &str, model: &str) -> (r:
    Json)
    ensures
        exists|tools: Seq<Seq<char>>, uuid: Seq<char>|
            crate::text::sorted_strict(tools) && tools.to_set() == tools_v(items_view(items@)).to_set()
                && is_v4_uuid_text(uuid) && r@ == #[trigger] init_message_v(
                payload@,
                version_v(items_view(items@)),
                tools,
                cwd_fallback@,
                model@,
                uuid,
            ),
{
    let uuid = new_uuid();
    init_message_with(payload, items, cwd_fallback, model, uuid.as_str())
}

// ---------------------------------------------------------------------------
// Laws
// ---------------------------------------------------------------------------

/// The number of tool-result user records among `items`.
pub open spec fn tool_result_turns(items: Seq<Option<JsonV>>) -> int
    decreases items.len(),
{
    if items.len() == 0 {
        0
    } else {
        tool_result_turns(items.drop_last()) + match items.last() {
            Some(it) => if is_tool_result_user_v(it) {
                1int
            } else {
                0int
            },
            None => 0int,
        }
    }
}

/// The run takes one turn, and one more for each tool result the user
/// record sends back.
pub proof fn turns_count_tool_results(
    stop_payload: JsonV,
    items: Seq<Option<JsonV>>,
    fallbacks: Seq<Seq<char>>,
)
    ensures
        summarize_v(stop_payload, items, fallbacks).num_turns == 1 + tool_result_turns(items),
    decreases items.len(),
{
    if items.len() > 0 {
        turns_count_tool_results(stop_payload, items.drop_last(), fallbacks.drop_last());
        match items.last() {
            Some(it) => {
                if is_tool_result_user_v(it) {
                    reveal_strlit("user");
                    reveal_strlit("assistant");
                    assert("user"@.len() != "assistant"@.len());
                    assert(as_str_v(get_v(it, "type"@)) != Some("assistant"@));
                }
            },
            None => {},
        }
    }
}

/// The usage of each message id is counted once: no id is recorded twice.
pub proof fn usage_counted_once_per_key(
    stop_payload: JsonV,
    items: Seq<Option<JsonV>>,
    fallbacks: Seq<Seq<char>>,
)
    ensures
        ({
            let seen = summarize_v(stop_payload, items, fallbacks).seen;
            forall|i: int, j: int|
                0 <= i < j < seen.len() && (seen[i] is Id) ==> seen[i] != seen[j]
        }),
    decreases items.len(),
{
    if items.len() > 0 {
        usage_counted_once_per_key(stop_payload, items.drop_last(), fallbacks.drop_last());
        let st = summarize_v(stop_payload, items.drop_last(), fallbacks.drop_last());
        let r = summarize_v(stop_payload, items, fallbacks);
        if r.seen != st.seen {
            let key = r.seen.last();
            assert(r.seen == st.seen.push(key));
            assert(key is Id ==> !st.seen.contains(key));
            assert forall|i: int, j: int| 0 <= i < j < r.seen.len() && (r.seen[i] is Id)
                implies r.seen[i] != r.seen[j] by {
                assert(r.seen[i] == st.seen[i]);
                if j < st.seen.len() {
                    assert(r.seen[j] == st.seen[j]);
                } else if key is Id {
                    assert(st.seen[i] != key);
                }
            }
        }
    }
}

/// A streamed message is sent only where its key was not sent before; the
/// keys sent stay distinct.
pub proof fn stream_sends_each_key_once(seen: Seq<JsonV>, item: JsonV, fallback: Seq<char>)
    requires
        seen.no_duplicates(),
    ensures
        stream_outcome(seen, item, fallback).1.no_duplicates(),
        match stream_outcome(seen, item, fallback).0 {
            Some(m) => !seen.contains(stream_key_v(m)) && stream_outcome(seen, item, fallback).1
                == seen.push(stream_key_v(m)),
            None => stream_outcome(seen, item, fallback).1 == seen,
        },
{
    if let Some(m) = stream_outcome(seen, item, fallback).0 {
        let key = stream_key_v(m);
        let s2 = seen.push(key);
        assert forall|i: int, j: int| 0 <= i < s2.len() && 0 <= j < s2.len() && i != j
            implies s2[i] != s2[j] by {
            if i < seen.len() && j < seen.len() {
                assert(s2[i] == seen[i] && s2[j] == seen[j]);
            } else if i < seen.len() {
                assert(s2[i] == seen[i]);
            } else {
                assert(s2[j] == seen[j]);
            }
        }
    }
}

proof fn lemma_stream_lines_append(d1: Seq<Seq<char>>, d2: Seq<Seq<char>>)
    ensures
        stream_lines_v(d1 + d2) == stream_lines_v(d1) + stream_lines_v(d2),
    decreases d2.len(),
{
    if d2.len() == 0 {
        assert(d1 + d2 =~= d1);
        assert(stream_lines_v(d1) + Seq::<Seq<char>>::empty() =~= stream_lines_v(d1));
    } else {
        lemma_stream_lines_append(d1, d2.drop_last());
        assert((d1 + d2).drop_last() =~= d1 + d2.drop_last());
        assert((d1 + d2).last() == d2.last());
        let l1 = stream_lines_v(d1);
        let l2 = stream_lines_v(d2.drop_last());
        assert((l1 + l2).push(crate::text::trim_end_char(d2.last(), '\r')) =~= l1 + l2.push(
            crate::text::trim_end_char(d2.last(), '\r'),
        ));
    }
}

/// Reading the transcript in two chunks finds the same lines, and keeps the
/// same unfinished rest, as reading both chunks at once.
pub proof fn chunked_reading_sees_the_same_lines(partial: Seq<char>, a: Seq<char>, b: Seq<char>)
    ensures
        ({
            let (d1, c1) = crate::text::split_newlines(partial + a);
            let (d2, c2) = crate::text::split_newlines(c1 + b);
            let (d, c) = crate::text::split_newlines(partial + (a + b));
            &&& c == c2
            &&& stream_lines_v(d) == stream_lines_v(d1) + stream_lines_v(d2)
        }),
{
    assert(partial + (a + b) =~= (partial + a) + b);
    crate::text::lemma_split_newlines_append(partial + a, b);
    let (d1, c1) = crate::text::split_newlines(partial + a);
    let (d2, c2) = crate::text::split_newlines(c1 + b);
    lemma_stream_lines_append(d1, d2);
}

/// `es` has `k` at `i` and not before.
proof fn lemma_lookup(es: Seq<(Seq<char>, JsonV)>, k: Seq<char>, i: int)
    requires
        0 <= i < es.len(),
        es[i].0 == k,
        forall|j: int| 0 <= j < i ==> es[j].0 != k,
    ensures
        crate::json::entries_get(es, k) == Some(es[i].1),
{
    assert(crate::json::is_key_at(es, k, i));
    crate::json::lemma_key_index_is(es, k, i);
}

proof fn lemma_sdk_names_differ()
    ensures
        "message"@ != "parent_tool_use_id"@,
        "message"@ != "session_id"@,
        "message"@ != "type"@,
        "message"@ != "uuid"@,
        "parent_tool_use_id"@ != "session_id"@,
        "parent_tool_use_id"@ != "type"@,
        "parent_tool_use_id"@ != "uuid"@,
        "session_id"@ != "type"@,
        "session_id"@ != "uuid"@,
        "type"@ != "uuid"@,
{
    reveal_strlit("message");
    reveal_strlit("parent_tool_use_id");
    reveal_strlit("session_id");
    reveal_strlit("type");
    reveal_strlit("uuid");
    assert("message"@.len() == 7);
    assert("parent_tool_use_id"@.len() == 18);
    assert("session_id"@.len() == 10);
    assert("type"@.len() == 4);
    assert("uuid"@.len() == 4);
    assert("type"@[0] != "uuid"@[0]);
}

/// Every message streamed for a record carries the record's session id
/// (`sessionId`, else `session_id`, else null), the record's type, the
/// record's string `uuid` (else the fresh `fallback`), and no parent tool
/// use; assistant records with a message and tool-result user records make
/// one, other records none.
pub proof fn sdk_messages_keep_the_record_identity(item: JsonV, fallback: Seq<char>)
    ensures
        to_sdk_message_v(item, fallback) is Some <==> ((as_str_v(get_v(item, "type"@)) == Some("assistant"@)
            && get_v(item, "message"@) is Some) || is_tool_result_user_v(item)),
        to_sdk_message_v(item, fallback) matches Some(m) ==> {
            &&& get_v(m, "session_id"@) == Some(
                match get_v(item, "sessionId"@) {
                    Some(x) => x,
                    None => match get_v(item, "session_id"@) {
                        Some(y) => y,
                        None => JsonV::Null,
                    },
                },
            )
            &&& get_v(m, "type"@) == get_v(item, "type"@)
            &&& get_v(m, "uuid"@) == Some(
                JsonV::Str(
                    match get_v(item, "uuid"@) {
                        Some(JsonV::Str(u)) => u,
                        _ => fallback,
                    },
                ),
            )
            &&& get_v(m, "parent_tool_use_id"@) == Some(JsonV::Null)
        },
{
    lemma_sdk_names_differ();
    let sid = or_null(get_either(item, "sessionId"@, "session_id"@));
    let uuid = JsonV::Str(sdk_uuid_v(item, fallback));
    if as_str_v(get_v(item, "type"@)) == Some("assistant"@) {
        if let Some(m) = get_v(item, "message"@) {
            let m2 = match m {
                JsonV::Object(es) => JsonV::Object(crate::json::entries_set(es, "stop_reason"@, JsonV::Null)),
                _ => m,
            };
            let es = seq![
                ("message"@, m2),
                ("parent_tool_use_id"@, JsonV::Null),
                ("session_id"@, sid),
                ("type"@, JsonV::Str("assistant"@)),
                ("uuid"@, uuid),
            ];
            lemma_lookup(es, "parent_tool_use_id"@, 1);
            lemma_lookup(es, "session_id"@, 2);
            lemma_lookup(es, "type"@, 3);
            lemma_lookup(es, "uuid"@, 4);
        }
    } else if is_tool_result_user_v(item) {
        let base = seq![("type"@, JsonV::Str("user"@)), ("message"@, or_null(get_v(item, "message"@)))]
            + seq![("parent_tool_use_id"@, JsonV::Null), ("session_id"@, sid), ("uuid"@, uuid)];
        let spec_base = seq![("type"@, JsonV::Str("user"@)), ("message"@, or_null(get_v(item, "message"@))), ("parent_tool_use_id"@, JsonV::Null), ("session_id"@, sid), ("uuid"@, uuid)];
        assert(base =~= spec_base);
        let with_ts = match get_v(item, "timestamp"@) {
            Some(t) => base.push(("timestamp"@, t)),
            None => base,
        };
        let es = match get_v(item, "toolUseResult"@) {
            Some(t) => with_ts.push(("tool_use_result"@, t)),
            None => with_ts,
        };
        assert(forall|i: int| 0 <= i < 5 ==> es[i] == base[i]);
        lemma_lookup(es, "type"@, 0);
        lemma_lookup(es, "parent_tool_use_id"@, 2);
        lemma_lookup(es, "session_id"@, 3);
        lemma_lookup(es, "uuid"@, 4);
    }
}

proof fn lemma_sdk_more_names_differ()
    ensures
        "timestamp"@ != "type"@,
        "timestamp"@ != "message"@,
        "timestamp"@ != "parent_tool_use_id"@,
        "timestamp"@ != "session_id"@,
        "timestamp"@ != "uuid"@,
        "tool_use_result"@ != "type"@,
        "tool_use_result"@ != "message"@,
        "tool_use_result"@ != "parent_tool_use_id"@,
        "tool_use_result"@ != "session_id"@,
        "tool_use_result"@ != "uuid"@,
        "tool_use_result"@ != "timestamp"@,
{
    reveal_strlit("message");
    reveal_strlit("parent_tool_use_id");
    reveal_strlit("session_id");
    reveal_strlit("type");
    reveal_strlit("uuid");
    reveal_strlit("timestamp");
    reveal_strlit("tool_use_result");
    assert("message"@.len() == 7);
    assert("parent_tool_use_id"@.len() == 18);
    assert("session_id"@.len() == 10);
    assert("type"@.len() == 4);
    assert("uuid"@.len() == 4);
    assert("timestamp"@.len() == 9);
    assert("tool_use_result"@.len() == 15);
}

/// A streamed assistant message carries the record's message with its stop
/// reason cleared and every other member as it was; a streamed tool-result
/// message carries the record's message, timestamp and tool result as they
/// were.
pub proof fn sdk_messages_carry_the_record_content(item: JsonV, fallback: Seq<char>)
    ensures
        to_sdk_message_v(item, fallback) matches Some(out) ==> if as_str_v(get_v(item, "type"@)) == Some(
            "assistant"@,
        ) {
            let msg = get_v(item, "message"@)->Some_0;
            let sent = get_v(out, "message"@)->Some_0;
            &&& get_v(out, "message"@) is Some
            &&& msg is Object ==> get_v(sent, "stop_reason"@) == Some(JsonV::Null) && forall|k: Seq<char>|
                k != "stop_reason"@ ==> #[trigger] get_v(sent, k) == get_v(msg, k)
            &&& !(msg is Object) ==> sent == msg
        } else {
            &&& get_v(out, "message"@) == get_v(item, "message"@)
            &&& get_v(out, "timestamp"@) == get_v(item, "timestamp"@)
            &&& get_v(out, "tool_use_result"@) == get_v(item, "toolUseResult"@)
        },
{
    lemma_sdk_names_differ();
    lemma_sdk_more_names_differ();
    let sid = or_null(get_either(item, "sessionId"@, "session_id"@));
    let uuid = JsonV::Str(sdk_uuid_v(item, fallback));
    if as_str_v(get_v(item, "type"@)) == Some("assistant"@) {
        if let Some(m) = get_v(item, "message"@) {
            let m2 = match m {
                JsonV::Object(es) => JsonV::Object(crate::json::entries_set(es, "stop_reason"@, JsonV::Null)),
                _ => m,
            };
            let es = seq![("message"@, m2), ("parent_tool_use_id"@, JsonV::Null), ("session_id"@, sid), ("type"@, JsonV::Str("assistant"@)), ("uuid"@, uuid)];
            lemma_lookup(es, "message"@, 0);
            if let JsonV::Object(me) = m {
                crate::json::lemma_set_get_same(me, "stop_reason"@, JsonV::Null);
                assert forall|k: Seq<char>| k != "stop_reason"@ implies #[trigger] get_v(m2, k) == get_v(m, k) by {
                    crate::json::lemma_set_get_other(me, "stop_reason"@, JsonV::Null, k);
                }
            }
        }
    } else if is_tool_result_user_v(item) {
        let base = seq![("type"@, JsonV::Str("user"@)), ("message"@, or_null(get_v(item, "message"@))), ("parent_tool_use_id"@, JsonV::Null), ("session_id"@, sid), ("uuid"@, uuid)];
        let with_ts = match get_v(item, "timestamp"@) {
            Some(t) => base.push(("timestamp"@, t)),
            None => base,
        };
        let es = match get_v(item, "toolUseResult"@) {
            Some(t) => with_ts.push(("tool_use_result"@, t)),
            None => with_ts,
        };
        assert(forall|i: int| 0 <= i < 5 ==> es[i] == base[i]);
        lemma_lookup(es, "message"@, 1);
        assert(forall|i: int| 0 <= i < with_ts.len() ==> es[i] == with_ts[i]);
        match get_v(item, "timestamp"@) {
            Some(t) => {
                lemma_lookup(es, "timestamp"@, 5);
            },
            None => {
                if get_v(item, "toolUseResult"@) is Some {
                    assert(es[5].0 == "tool_use_result"@);
                }
                crate::json::lemma_get_absent(es, "timestamp"@);
            },
        }
        match get_v(item, "toolUseResult"@) {
            Some(t) => {
                lemma_lookup(es, "tool_use_result"@, with_ts.len() as int);
            },
            None => {
                crate::json::lemma_get_absent(es, "tool_use_result"@);
            },
        }
    }
}

} // verus!

//! Token usage totals, summed over the assistant messages of a transcript.

use vstd::prelude::*;
use vstd::wrapping::i64_specs::wrapping_add;

use crate::json::{
    find_key, as_i64_v, as_str_v, entries_get, entries_set, get_v, int_v, jv_entries, jv_seq,
    lemma_jv_entries, lemma_set_get_other, lemma_set_get_same, object_of_one, opt_jv,
    push_member, set_entry, Json, JsonV,
};
use crate::hooks::extend_cloned;
use crate::text::owned;

verus! {

// ---------------------------------------------------------------------------
// Specification
// ---------------------------------------------------------------------------

/// `t[key] = v` on an object; other values are left alone.
pub open spec fn set_member_v(t: JsonV, key: Seq<char>, v: JsonV) -> JsonV {
    match t {
        JsonV::Object(es) => JsonV::Object(entries_set(es, key, v)),
        _ => t,
    }
}

pub open spec fn or_zero(x: Option<i64>) -> i64 {
    match x {
        Some(v) => v,
        None => 0,
    }
}

/// `add_number`: adds an integer `value` to the integer under `key`
/// (absent counts as zero); a value that is not an integer changes nothing.
/// The sum wraps around on overflow.
pub open spec fn add_number_v(t: JsonV, key: Seq<char>, value: Option<JsonV>) -> JsonV {
    match as_i64_v(value) {
        Some(v) => set_member_v(t, key, int_v(wrapping_add(or_zero(as_i64_v(get_v(t, key))), v))),
        None => t,
    }
}

/// `add_nested_number`: the same inside the object under `parent`.
pub open spec fn add_nested_v(t: JsonV, parent: Seq<char>, key: Seq<char>, value: Option<JsonV>) -> JsonV {
    match as_i64_v(value) {
        Some(v) => match get_v(t, parent) {
            Some(JsonV::Object(pe)) => {
                let cur = or_zero(as_i64_v(entries_get(pe, key)));
                set_member_v(
                    t,
                    parent,
                    JsonV::Object(entries_set(pe, key, int_v(wrapping_add(cur, v)))),
                )
            },
            _ => set_member_v(t, parent, JsonV::Object(seq![(key, int_v(v))])),
        },
        None => t,
    }
}

/// Every entry of `es` added under `parent`, in order.
pub open spec fn add_nested_all_v(t: JsonV, parent: Seq<char>, es: Seq<(Seq<char>, JsonV)>) -> JsonV
    decreases es.len(),
{
    if es.len() == 0 {
        t
    } else {
        add_nested_v(add_nested_all_v(t, parent, es.drop_last()), parent, es.last().0, Some(es.last().1))
    }
}

/// The members of the object `parent` of `usage`, added under `parent`.
pub open spec fn add_section_v(t: JsonV, usage: JsonV, parent: Seq<char>) -> JsonV {
    match get_v(usage, parent) {
        Some(JsonV::Object(es)) => add_nested_all_v(t, parent, es),
        _ => t,
    }
}

/// The string under `key` in `usage`, if any, copied to the totals.
pub open spec fn copy_string_v(t: JsonV, usage: JsonV, key: Seq<char>) -> JsonV {
    match as_str_v(get_v(usage, key)) {
        Some(s) => set_member_v(t, key, JsonV::Str(s)),
        None => t,
    }
}

/// The items of `usage.iterations` appended to the totals' `iterations`,
/// where both are arrays.
pub open spec fn extend_iterations_v(t: JsonV, usage: JsonV) -> JsonV {
    match get_v(usage, "iterations"@) {
        Some(JsonV::Array(more)) => match get_v(t, "iterations"@) {
            Some(JsonV::Array(cur)) => set_member_v(t, "iterations"@, JsonV::Array(cur + more)),
            _ => t,
        },
        _ => t,
    }
}

/// `accumulate_usage(total, usage)`: where `usage` is an object, its token
/// counts are added to the totals, the counts of its two sections are added
/// key by key, its service tier, inference region and speed replace the
/// totals', and its iterations are appended.
pub open spec fn accumulate_usage_v(t: JsonV, usage: Option<JsonV>) -> JsonV {
    match usage {
        Some(JsonV::Object(ue)) => {
            let u = JsonV::Object(ue);
            let t1 = add_number_v(t, "input_tokens"@, get_v(u, "input_tokens"@));
            let t2 = add_number_v(t1, "cache_creation_input_tokens"@, get_v(u, "cache_creation_input_tokens"@));
            let t3 = add_number_v(t2, "cache_read_input_tokens"@, get_v(u, "cache_read_input_tokens"@));
            let t4 = add_number_v(t3, "output_tokens"@, get_v(u, "output_tokens"@));
            let t5 = add_section_v(t4, u, "server_tool_use"@);
            let t6 = add_section_v(t5, u, "cache_creation"@);
            let t7 = copy_string_v(t6, u, "service_tier"@);
            let t8 = copy_string_v(t7, u, "inference_geo"@);
            let t9 = copy_string_v(t8, u, "speed"@);
            extend_iterations_v(t9, u)
        },
        _ => t,
    }
}

/// The totals are an object whose two sections are objects.
pub open spec fn usage_wf(t: JsonV) -> bool {
    &&& t is Object
    &&& get_v(t, "server_tool_use"@) matches Some(JsonV::Object(_))
    &&& get_v(t, "cache_creation"@) matches Some(JsonV::Object(_))
}

/// The totals before any message: every count zero.
pub open spec fn empty_usage_v() -> JsonV {
    JsonV::Object(
        seq![
            ("cache_creation"@, JsonV::Object(
                seq![
                    ("ephemeral_1h_input_tokens"@, int_v(0)),
                    ("ephemeral_5m_input_tokens"@, int_v(0)),
                ],
            )),
            ("cache_creation_input_tokens"@, int_v(0)),
            ("cache_read_input_tokens"@, int_v(0)),
            ("inference_geo"@, JsonV::Str(Seq::empty())),
            ("input_tokens"@, int_v(0)),
            ("iterations"@, JsonV::Array(Seq::empty())),
            ("output_tokens"@, int_v(0)),
            ("server_tool_use"@, JsonV::Object(
                seq![("web_fetch_requests"@, int_v(0)), ("web_search_requests"@, int_v(0))],
            )),
            ("service_tier"@, JsonV::Str("standard"@)),
        ],
    )
}

// ---------------------------------------------------------------------------
// Keeping the shape
// ---------------------------------------------------------------------------

/// Setting a key other than the two sections keeps the shape.
proof fn lemma_set_keeps_wf(t: JsonV, key: Seq<char>, v: JsonV)
    requires
        usage_wf(t),
        key != "server_tool_use"@,
        key != "cache_creation"@,
    ensures
        usage_wf(set_member_v(t, key, v)),
{
    lemma_set_get_other(t->Object_0, key, v, "server_tool_use"@);
    lemma_set_get_other(t->Object_0, key, v, "cache_creation"@);
}

/// Setting one section to an object keeps the shape.
proof fn lemma_set_section_keeps_wf(t: JsonV, parent: Seq<char>, v: JsonV)
    requires
        usage_wf(t),
        parent == "server_tool_use"@ || parent == "cache_creation"@,
        v is Object,
    ensures
        usage_wf(set_member_v(t, parent, v)),
{
    reveal_strlit("server_tool_use");
    reveal_strlit("cache_creation");
    let es = t->Object_0;
    lemma_set_get_same(es, parent, v);
    if parent == "server_tool_use"@ {
        assert("cache_creation"@ != "server_tool_use"@) by {
            assert("cache_creation"@.len() != "server_tool_use"@.len());
        }
        lemma_set_get_other(es, parent, v, "cache_creation"@);
    } else {
        assert("cache_creation"@ != "server_tool_use"@) by {
            assert("cache_creation"@.len() != "server_tool_use"@.len());
        }
        lemma_set_get_other(es, parent, v, "server_tool_use"@);
    }
}

// ---------------------------------------------------------------------------
// Implementation
// ---------------------------------------------------------------------------

/// `t[key] = v`.
fn set_member(t: Json, key: &str, v: Json) -> (r: Json)
    ensures
        r@ == set_member_v(t@, key@, v@),
{
    match t {
        Json::Object(es) => {
            let mut es = es;
            set_entry(&mut es, owned(key), v);
            Json::Object(es)
        },
        other => other,
    }
}

/// The totals before any message.
pub fn empty_usage() -> (r: Json)
    ensures
        r@ == empty_usage_v(),
        usage_wf(r@),
{
    let mut cc: Vec<(String, Json)> = Vec::new();
    assert(jv_entries(cc@) =~= Seq::empty());
    push_member(&mut cc, "ephemeral_1h_input_tokens", Json::from_i64(0));
    push_member(&mut cc, "ephemeral_5m_input_tokens", Json::from_i64(0));
    assert(jv_entries(cc@) =~= seq![
        ("ephemeral_1h_input_tokens"@, int_v(0)),
        ("ephemeral_5m_input_tokens"@, int_v(0)),
    ]);
    let mut stu: Vec<(String, Json)> = Vec::new();
    assert(jv_entries(stu@) =~= Seq::empty());
    push_member(&mut stu, "web_fetch_requests", Json::from_i64(0));
    push_member(&mut stu, "web_search_requests", Json::from_i64(0));
    assert(jv_entries(stu@) =~= seq![("web_fetch_requests"@, int_v(0)), ("web_search_requests"@, int_v(0))]);
    let e = Json::empty_array();
    let g = Json::string("");
    proof {
        reveal_strlit("");
        assert(""@ =~= Seq::<char>::empty());
        assert(g@ == JsonV::Str(Seq::empty()));
    }
    let mut es: Vec<(String, Json)> = Vec::new();
    assert(jv_entries(es@) =~= Seq::empty());
    push_member(&mut es, "cache_creation", Json::Object(cc));
    push_member(&mut es, "cache_creation_input_tokens", Json::from_i64(0));
    push_member(&mut es, "cache_read_input_tokens", Json::from_i64(0));
    push_member(&mut es, "inference_geo", g);
    push_member(&mut es, "input_tokens", Json::from_i64(0));
    push_member(&mut es, "iterations", e);
    push_member(&mut es, "output_tokens", Json::from_i64(0));
    push_member(&mut es, "server_tool_use", Json::Object(stu));
    push_member(&mut es, "service_tier", Json::string("standard"));
    let r = Json::Object(es);
    proof {
        assert(jv_entries(es@) =~= empty_usage_v()->Object_0);
        assert(r@ == empty_usage_v());
        lemma_empty_usage_wf();
    }
    r
}

proof fn lemma_empty_usage_wf()
    ensures
        usage_wf(empty_usage_v()),
{
    let es = empty_usage_v()->Object_0;
    reveal_strlit("server_tool_use");
    reveal_strlit("cache_creation");
    reveal_strlit("cache_creation_input_tokens");
    reveal_strlit("cache_read_input_tokens");
    reveal_strlit("inference_geo");
    reveal_strlit("input_tokens");
    reveal_strlit("iterations");
    reveal_strlit("output_tokens");
    reveal_strlit("service_tier");
    let names = seq![
        "cache_creation"@,
        "cache_creation_input_tokens"@,
        "cache_read_input_tokens"@,
        "inference_geo"@,
        "input_tokens"@,
        "iterations"@,
        "output_tokens"@,
    ];
    assert(forall|j: int| 0 <= j < 7 ==> es[j].0 == #[trigger] names[j]);
    assert(names[0].len() == 14);
    assert(es[0].0 != "server_tool_use"@);
    assert(es[1].0 != "server_tool_use"@);
    assert(es[2].0 != "server_tool_use"@);
    assert(es[3].0 != "server_tool_use"@);
    assert(es[4].0 != "server_tool_use"@);
    assert(es[5].0 != "server_tool_use"@);
    assert(es[6].0 != "server_tool_use"@);
    assert(crate::json::is_key_at(es, "server_tool_use"@, 7));
    assert(crate::json::is_key_at(es, "cache_creation"@, 0));
}

/// The names of the counted and copied members differ from the two sections.
proof fn lemma_names_differ()
    ensures
        "input_tokens"@ != "server_tool_use"@,
        "input_tokens"@ != "cache_creation"@,
        "cache_creation_input_tokens"@ != "server_tool_use"@,
        "cache_creation_input_tokens"@ != "cache_creation"@,
        "cache_read_input_tokens"@ != "server_tool_use"@,
        "cache_read_input_tokens"@ != "cache_creation"@,
        "output_tokens"@ != "server_tool_use"@,
        "output_tokens"@ != "cache_creation"@,
        "service_tier"@ != "server_tool_use"@,
        "service_tier"@ != "cache_creation"@,
        "inference_geo"@ != "server_tool_use"@,
        "inference_geo"@ != "cache_creation"@,
        "speed"@ != "server_tool_use"@,
        "speed"@ != "cache_creation"@,
        "iterations"@ != "server_tool_use"@,
        "iterations"@ != "cache_creation"@,
        "server_tool_use"@ != "cache_creation"@,
{
    reveal_strlit("server_tool_use");
    reveal_strlit("cache_creation");
    reveal_strlit("input_tokens");
    reveal_strlit("cache_creation_input_tokens");
    reveal_strlit("cache_read_input_tokens");
    reveal_strlit("output_tokens");
    reveal_strlit("service_tier");
    reveal_strlit("inference_geo");
    reveal_strlit("speed");
    reveal_strlit("iterations");
    assert("server_tool_use"@.len() == 15);
    assert("cache_creation"@.len() == 14);
    assert("input_tokens"@.len() == 12);
    assert("cache_creation_input_tokens"@.len() == 27);
    assert("cache_read_input_tokens"@.len() == 23);
    assert("output_tokens"@.len() == 13);
    assert("service_tier"@.len() == 12);
    assert("inference_geo"@.len() == 13);
    assert("speed"@.len() == 5);
    assert("iterations"@.len() == 10);
}

/// `add_number(total, key, value)`.
fn add_number(t: Json, key: &str, value: Option<&Json>) -> (r: Json)
    requires
        usage_wf(t@),
        key@ != "server_tool_use"@,
        key@ != "cache_creation"@,
    ensures
        r@ == add_number_v(t@, key@, opt_jv(value)),
        usage_wf(r@),
{
    let v = match value {
        Some(x) => x.as_i64(),
        None => None,
    };
    match v {
        Some(v) => {
            let cur = match t.get(key) {
                Some(c) => match c.as_i64() {
                    Some(c) => c,
                    None => 0,
                },
                None => 0,
            };
            proof {
                lemma_set_keeps_wf(t@, key@, int_v(wrapping_add(cur, v)));
            }
            set_member(t, key, Json::from_i64(cur.wrapping_add(v)))
        },
        None => t,
    }
}

/// `add_nested_number(total, parent, key, value)`.
fn add_nested(t: Json, parent: &str, key: &str, value: &Json) -> (r: Json)
    requires
        usage_wf(t@),
        parent@ == "server_tool_use"@ || parent@ == "cache_creation"@,
    ensures
        r@ == add_nested_v(t@, parent@, key@, Some(value@)),
        usage_wf(r@),
{
    match value.as_i64() {
        Some(v) => {
            let section = match t.get(parent) {
                Some(p) => p.deep_clone(),
                None => Json::Null,
            };
            match section {
                Json::Object(pe) => {
                    proof {
                        lemma_jv_entries(pe@);
                    }
                    let cur = match find_key(&pe, key) {
                        Some(i) => match pe[i].1.as_i64() {
                            Some(c) => c,
                            None => 0,
                        },
                        None => 0,
                    };
                    let mut pe = pe;
                    set_entry(&mut pe, owned(key), Json::from_i64(cur.wrapping_add(v)));
                    let p2 = Json::Object(pe);
                    proof {
                        lemma_set_section_keeps_wf(t@, parent@, p2@);
                    }
                    set_member(t, parent, p2)
                },
                _ => {
                    let p2 = object_of_one(key, Json::from_i64(v));
                    proof {
                        lemma_set_section_keeps_wf(t@, parent@, p2@);
                    }
                    set_member(t, parent, p2)
                },
            }
        },
        None => t,
    }
}

/// Adds every member of the section `parent` of `usage`.
fn add_section(t: Json, usage: &Json, parent: &str) -> (r: Json)
    requires
        usage_wf(t@),
        parent@ == "server_tool_use"@ || parent@ == "cache_creation"@,
    ensures
        r@ == add_section_v(t@, usage@, parent@),
        usage_wf(r@),
{
    match usage.get(parent) {
        Some(Json::Object(es)) => {
            proof {
                lemma_jv_entries(es@);
            }
            let ghost ev = jv_entries(es@);
            let ghost t0 = t@;
            let mut t = t;
            let mut i: usize = 0;
            assert(ev.take(0) =~= Seq::<(Seq<char>, JsonV)>::empty());
            while i < es.len()
                invariant
                    i <= es.len(),
                    parent@ == "server_tool_use"@ || parent@ == "cache_creation"@,
                    ev == jv_entries(es@),
                    ev.len() == es.len(),
                    forall|k: int| 0 <= k < es.len() ==> #[trigger] ev[k] == (es@[k].0@, crate::json::jv(es@[k].1)),
                    usage_wf(t@),
                    t@ == add_nested_all_v(t0, parent@, ev.take(i as int)),
                decreases es.len() - i,
            {
                assert(ev.take(i + 1).drop_last() =~= ev.take(i as int));
                t = add_nested(t, parent, es[i].0.as_str(), &es[i].1);
                i = i + 1;
            }
            assert(ev.take(es.len() as int) =~= ev);
            t
        },
        _ => t,
    }
}

/// Copies the string under `key` in `usage` to the totals.
fn copy_string(t: Json, usage: &Json, key: &str) -> (r: Json)
    requires
        usage_wf(t@),
        key@ != "server_tool_use"@,
        key@ != "cache_creation"@,
    ensures
        r@ == copy_string_v(t@, usage@, key@),
        usage_wf(r@),
{
    match usage.get(key) {
        Some(v) => match v.as_string() {
            Some(s) => {
                proof {
                    lemma_set_keeps_wf(t@, key@, JsonV::Str(s@));
                }
                set_member(t, key, Json::Str(s))
            },
            None => t,
        },
        None => t,
    }
}

/// Appends `usage.iterations` to the totals' `iterations`.
fn extend_iterations(t: Json, usage: &Json) -> (r: Json)
    requires
        usage_wf(t@),
    ensures
        r@ == extend_iterations_v(t@, usage@),
        usage_wf(r@),
{
    proof {
        lemma_names_differ();
    }
    match usage.get("iterations") {
        Some(Json::Array(more)) => {
            let cur = match t.get("iterations") {
                Some(Json::Array(cur)) => {
                    let mut items: Vec<Json> = Vec::new();
                    assert(jv_seq(items@) =~= Seq::empty());
                    extend_cloned(&mut items, cur);
                    assert(jv_seq(items@) =~= jv_seq(cur@));
                    Some(items)
                },
                _ => None,
            };
            match cur {
                Some(items) => {
                    let mut items = items;
                    extend_cloned(&mut items, more);
                    let a = Json::Array(items);
                    proof {
                        lemma_set_keeps_wf(t@, "iterations"@, a@);
                    }
                    set_member(t, "iterations", a)
                },
                None => t,
            }
        },
        _ => t,
    }
}

/// `accumulate_usage(total, usage)`.
pub(crate) fn accumulate_usage(total: Json, usage: Option<&Json>) -> (r: Json)
    requires
        usage_wf(total@),
    ensures
        r@ == accumulate_usage_v(total@, opt_jv(usage)),
        usage_wf(r@),
{
    proof {
        lemma_names_differ();
    }
    match usage {
        Some(u) => match u {
            Json::Object(_) => {
                let t = add_number(total, "input_tokens", u.get("input_tokens"));
                let t = add_number(t, "cache_creation_input_tokens", u.get("cache_creation_input_tokens"));
                let t = add_number(t, "cache_read_input_tokens", u.get("cache_read_input_tokens"));
                let t = add_number(t, "output_tokens", u.get("output_tokens"));
                let t = add_section(t, u, "server_tool_use");
                let t = add_section(t, u, "cache_creation");
                let t = copy_string(t, u, "service_tier");
                let t = copy_string(t, u, "inference_geo");
                let t = copy_string(t, u, "speed");
                extend_iterations(t, u)
            },
            _ => total,
        },
        None => total,
    }
}

// ---------------------------------------------------------------------------
// Laws
// ---------------------------------------------------------------------------

/// The four token counts of the totals.
pub open spec fn is_token_key(k: Seq<char>) -> bool {
    ||| k == "input_tokens"@
    ||| k == "cache_creation_input_tokens"@
    ||| k == "cache_read_input_tokens"@
    ||| k == "output_tokens"@
}

proof fn lemma_token_names_differ(k: Seq<char>)
    requires
        is_token_key(k),
    ensures
        k != "server_tool_use"@,
        k != "cache_creation"@,
        k != "service_tier"@,
        k != "inference_geo"@,
        k != "speed"@,
        k != "iterations"@,
        k == "input_tokens"@ ==> k != "cache_creation_input_tokens"@ && k != "cache_read_input_tokens"@
            && k != "output_tokens"@,
        k == "cache_creation_input_tokens"@ ==> k != "input_tokens"@ && k != "cache_read_input_tokens"@
            && k != "output_tokens"@,
        k == "cache_read_input_tokens"@ ==> k != "input_tokens"@ && k != "cache_creation_input_tokens"@
            && k != "output_tokens"@,
        k == "output_tokens"@ ==> k != "input_tokens"@ && k != "cache_creation_input_tokens"@
            && k != "cache_read_input_tokens"@,
{
    reveal_strlit("input_tokens");
    reveal_strlit("cache_creation_input_tokens");
    reveal_strlit("cache_read_input_tokens");
    reveal_strlit("output_tokens");
    reveal_strlit("server_tool_use");
    reveal_strlit("cache_creation");
    reveal_strlit("service_tier");
    reveal_strlit("inference_geo");
    reveal_strlit("speed");
    reveal_strlit("iterations");
    assert("input_tokens"@.len() == 12);
    assert("cache_creation_input_tokens"@.len() == 27);
    assert("cache_read_input_tokens"@.len() == 23);
    assert("output_tokens"@.len() == 13);
    assert("server_tool_use"@.len() == 15);
    assert("cache_creation"@.len() == 14);
    assert("service_tier"@.len() == 12);
    assert("inference_geo"@.len() == 13);
    assert("speed"@.len() == 5);
    assert("iterations"@.len() == 10);
    assert("input_tokens"@[0] != "service_tier"@[0]);
    assert("output_tokens"@[0] != "inference_geo"@[0]);
}

/// Reading a member after setting one.
proof fn lemma_get_after_set(t: JsonV, key: Seq<char>, v: JsonV, k: Seq<char>)
    ensures
        get_v(set_member_v(t, key, v), k) == (if key == k && t is Object {
            Some(v)
        } else {
            get_v(t, k)
        }),
        t is Object ==> set_member_v(t, key, v) is Object,
{
    if let JsonV::Object(es) = t {
        if key == k {
            lemma_set_get_same(es, key, v);
        } else {
            lemma_set_get_other(es, key, v, k);
        }
    }
}

/// Adding the counts of a section leaves every member but the section alone.
proof fn lemma_nested_all_keeps(t: JsonV, parent: Seq<char>, es: Seq<(Seq<char>, JsonV)>, k: Seq<char>)
    requires
        k != parent,
    ensures
        get_v(add_nested_all_v(t, parent, es), k) == get_v(t, k),
    decreases es.len(),
{
    if es.len() > 0 {
        let prev = add_nested_all_v(t, parent, es.drop_last());
        lemma_nested_all_keeps(t, parent, es.drop_last(), k);
        let key = es.last().0;
        let value = Some(es.last().1);
        if let Some(v) = as_i64_v(value) {
            match get_v(prev, parent) {
                Some(JsonV::Object(pe)) => {
                    let cur = or_zero(as_i64_v(entries_get(pe, key)));
                    lemma_get_after_set(
                        prev,
                        parent,
                        JsonV::Object(entries_set(pe, key, int_v(wrapping_add(cur, v)))),
                        k,
                    );
                },
                _ => {
                    lemma_get_after_set(prev, parent, JsonV::Object(seq![(key, int_v(v))]), k);
                },
            }
        }
    }
}

/// Adding a count sets only the member of its own name, on an object.
proof fn lemma_add_number_get(x: JsonV, key: Seq<char>, val: Option<JsonV>, k: Seq<char>)
    requires
        x is Object,
    ensures
        add_number_v(x, key, val) is Object,
        get_v(add_number_v(x, key, val), k) == (if key == k {
            match as_i64_v(val) {
                Some(v) => Some(int_v(wrapping_add(or_zero(as_i64_v(get_v(x, k))), v))),
                None => get_v(x, k),
            }
        } else {
            get_v(x, k)
        }),
{
    if let Some(v) = as_i64_v(val) {
        lemma_get_after_set(x, key, int_v(wrapping_add(or_zero(as_i64_v(get_v(x, key))), v)), k);
    }
}

/// What follows the token counts leaves them as they are.
proof fn lemma_after_counts_keep(t4: JsonV, uu: JsonV, k: Seq<char>)
    requires
        is_token_key(k),
    ensures
        ({
            let t5 = add_section_v(t4, uu, "server_tool_use"@);
            let t6 = add_section_v(t5, uu, "cache_creation"@);
            let t7 = copy_string_v(t6, uu, "service_tier"@);
            let t8 = copy_string_v(t7, uu, "inference_geo"@);
            let t9 = copy_string_v(t8, uu, "speed"@);
            get_v(extend_iterations_v(t9, uu), k) == get_v(t4, k)
        }),
{
    lemma_token_names_differ(k);
    let t5 = add_section_v(t4, uu, "server_tool_use"@);
    let t6 = add_section_v(t5, uu, "cache_creation"@);
    if let Some(JsonV::Object(es)) = get_v(uu, "server_tool_use"@) {
        lemma_nested_all_keeps(t4, "server_tool_use"@, es, k);
    }
    if let Some(JsonV::Object(es)) = get_v(uu, "cache_creation"@) {
        lemma_nested_all_keeps(t5, "cache_creation"@, es, k);
    }
    let t7 = copy_string_v(t6, uu, "service_tier"@);
    let t8 = copy_string_v(t7, uu, "inference_geo"@);
    let t9 = copy_string_v(t8, uu, "speed"@);
    if let Some(x) = as_str_v(get_v(uu, "service_tier"@)) {
        lemma_get_after_set(t6, "service_tier"@, JsonV::Str(x), k);
    }
    if let Some(x) = as_str_v(get_v(uu, "inference_geo"@)) {
        lemma_get_after_set(t7, "inference_geo"@, JsonV::Str(x), k);
    }
    if let Some(x) = as_str_v(get_v(uu, "speed"@)) {
        lemma_get_after_set(t8, "speed"@, JsonV::Str(x), k);
    }
    if let Some(JsonV::Array(more)) = get_v(uu, "iterations"@) {
        if let Some(JsonV::Array(cur)) = get_v(t9, "iterations"@) {
            lemma_get_after_set(t9, "iterations"@, JsonV::Array(cur + more), k);
        }
    }
}

/// Adding one message's usage to the totals: each token count grows by the
/// message's integer count under the same name (wrapping around on
/// overflow) and by nothing else; a count that the message does not give
/// as an integer stays as it was, and usage that is not an object, or
/// missing, changes nothing at all.
pub proof fn token_counts_add_up(t: JsonV, u: Option<JsonV>, k: Seq<char>)
    requires
        usage_wf(t),
        is_token_key(k),
    ensures
        get_v(accumulate_usage_v(t, u), k) == match u {
            Some(JsonV::Object(ue)) => match as_i64_v(get_v(JsonV::Object(ue), k)) {
                Some(v) => Some(int_v(wrapping_add(or_zero(as_i64_v(get_v(t, k))), v))),
                None => get_v(t, k),
            },
            _ => get_v(t, k),
        },
        !(u matches Some(JsonV::Object(_))) ==> accumulate_usage_v(t, u) == t,
{
    lemma_token_names_differ(k);
    if let Some(JsonV::Object(ue)) = u {
        let uu = JsonV::Object(ue);
        let keys = seq![
            "input_tokens"@,
            "cache_creation_input_tokens"@,
            "cache_read_input_tokens"@,
            "output_tokens"@,
        ];
        let t1 = add_number_v(t, keys[0], get_v(uu, keys[0]));
        let t2 = add_number_v(t1, keys[1], get_v(uu, keys[1]));
        let t3 = add_number_v(t2, keys[2], get_v(uu, keys[2]));
        let t4 = add_number_v(t3, keys[3], get_v(uu, keys[3]));
        lemma_add_number_get(t, keys[0], get_v(uu, keys[0]), k);
        lemma_add_number_get(t1, keys[1], get_v(uu, keys[1]), k);
        lemma_add_number_get(t2, keys[2], get_v(uu, keys[2]), k);
        lemma_add_number_get(t3, keys[3], get_v(uu, keys[3]), k);
        assert(t1 is Object && t2 is Object && t3 is Object && t4 is Object);
        lemma_after_counts_keep(t4, uu, k);
    }
}

} // verus!

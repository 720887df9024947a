//! A JSON value that the library reads and builds, with a mathematical view.
//!
//! An object is a list of entries whose keys the library keeps distinct;
//! looking a key up finds its first entry. Reading JSON text and writing it
//! back out is done outside the library.

use vstd::prelude::*;

use crate::text::{owned, str_eq};

verus! {

/// A JSON number as the parser gives it.
#[derive(Debug)]
pub enum JsonNumber {
    /// A non-negative integer.
    PosInt(u64),
    /// A negative integer.
    NegInt(i64),
    /// Any other number, as its shortest decimal text.
    Float(String),
}

/// A JSON value.
#[derive(Debug)]
pub enum Json {
    Null,
    Bool(bool),
    Number(JsonNumber),
    Str(String),
    Array(Vec<Json>),
    Object(Vec<(String, Json)>),
}

/// The mathematical view of a [`JsonNumber`].
pub enum NumberV {
    PosInt(u64),
    NegInt(i64),
    Float(Seq<char>),
}

/// The mathematical view of a [`Json`] value.
pub enum JsonV {
    Null,
    Bool(bool),
    Number(NumberV),
    Str(Seq<char>),
    Array(Seq<JsonV>),
    Object(Seq<(Seq<char>, JsonV)>),
}

pub open spec fn number_v(n: JsonNumber) -> NumberV {
    match n {
        JsonNumber::PosInt(u) => NumberV::PosInt(u),
        JsonNumber::NegInt(i) => NumberV::NegInt(i),
        JsonNumber::Float(t) => NumberV::Float(t@),
    }
}

/// The view of a JSON value.
pub open spec fn jv(j: Json) -> JsonV
    decreases j,
{
    match j {
        Json::Null => JsonV::Null,
        Json::Bool(b) => JsonV::Bool(b),
        Json::Number(n) => JsonV::Number(number_v(n)),
        Json::Str(s) => JsonV::Str(s@),
        Json::Array(v) => JsonV::Array(jv_seq(v@)),
        Json::Object(e) => JsonV::Object(jv_entries(e@)),
    }
}

/// The views of the items of an array.
pub open spec fn jv_seq(s: Seq<Json>) -> Seq<JsonV>
    decreases s,
{
    if s.len() == 0 {
        Seq::empty()
    } else {
        jv_seq(s.drop_last()).push(jv(s.last()))
    }
}

/// The views of the entries of an object.
pub open spec fn jv_entries(s: Seq<(String, Json)>) -> Seq<(Seq<char>, JsonV)>
    decreases s,
{
    if s.len() == 0 {
        Seq::empty()
    } else {
        jv_entries(s.drop_last()).push((s.last().0@, jv(s.last().1)))
    }
}

impl View for Json {
    type V = JsonV;

    open spec fn view(&self) -> JsonV {
        jv(*self)
    }
}

pub proof fn lemma_jv_seq(s: Seq<Json>)
    ensures
        jv_seq(s).len() == s.len(),
        forall|i: int| 0 <= i < s.len() ==> #[trigger] jv_seq(s)[i] == jv(s[i]),
    decreases s.len(),
{
    if s.len() > 0 {
        lemma_jv_seq(s.drop_last());
    }
}

pub proof fn lemma_jv_entries(s: Seq<(String, Json)>)
    ensures
        jv_entries(s).len() == s.len(),
        forall|i: int|
            0 <= i < s.len() ==> #[trigger] jv_entries(s)[i] == (s[i].0@, jv(s[i].1)),
    decreases s.len(),
{
    if s.len() > 0 {
        lemma_jv_entries(s.drop_last());
    }
}

// ---------------------------------------------------------------------------
// Objects as maps
// ---------------------------------------------------------------------------

pub open spec fn is_key_at(es: Seq<(Seq<char>, JsonV)>, k: Seq<char>, i: int) -> bool {
    &&& 0 <= i < es.len()
    &&& es[i].0 == k
    &&& forall|j: int| 0 <= j < i ==> es[j].0 != k
}

/// The position of the first entry with key `k`.
pub open spec fn key_index(es: Seq<(Seq<char>, JsonV)>, k: Seq<char>) -> Option<int> {
    if exists|i: int| is_key_at(es, k, i) {
        Some(choose|i: int| is_key_at(es, k, i))
    } else {
        None
    }
}

/// The value under `k` among the entries `es`.
pub open spec fn entries_get(es: Seq<(Seq<char>, JsonV)>, k: Seq<char>) -> Option<JsonV> {
    match key_index(es, k) {
        Some(i) => Some(es[i].1),
        None => None,
    }
}

/// `value.get(key)`: the member `k` of an object; nothing for other values.
pub open spec fn get_v(j: JsonV, k: Seq<char>) -> Option<JsonV> {
    match j {
        JsonV::Object(es) => entries_get(es, k),
        _ => None,
    }
}

/// The entries with `k` set to `v`: the first entry with that key is
/// replaced, or a new one comes last.
pub open spec fn entries_set(es: Seq<(Seq<char>, JsonV)>, k: Seq<char>, v: JsonV) -> Seq<
    (Seq<char>, JsonV),
> {
    match key_index(es, k) {
        Some(i) => es.update(i, (k, v)),
        None => es.push((k, v)),
    }
}

/// No two entries share a key.
pub open spec fn keys_distinct(es: Seq<(Seq<char>, JsonV)>) -> bool {
    forall|i: int, j: int| 0 <= i < j < es.len() ==> es[i].0 != es[j].0
}

/// Every object in `j`, at any depth, holds each key once, as an object
/// that a JSON parser builds does.
pub open spec fn keys_distinct_deep(j: JsonV) -> bool
    decreases j,
{
    match j {
        JsonV::Object(es) => keys_distinct(es) && forall|i: int|
            0 <= i < es.len() ==> keys_distinct_deep(#[trigger] es[i].1),
        JsonV::Array(items) => forall|i: int|
            0 <= i < items.len() ==> keys_distinct_deep(#[trigger] items[i]),
        _ => true,
    }
}

/// `value.as_str()`.
pub open spec fn as_str_v(j: Option<JsonV>) -> Option<Seq<char>> {
    match j {
        Some(JsonV::Str(s)) => Some(s),
        _ => None,
    }
}

/// `value.as_i64()`.
pub open spec fn as_i64_v(j: Option<JsonV>) -> Option<i64> {
    match j {
        Some(JsonV::Number(NumberV::PosInt(u))) => if u <= i64::MAX {
            Some(u as i64)
        } else {
            None
        },
        Some(JsonV::Number(NumberV::NegInt(i))) => Some(i),
        _ => None,
    }
}

/// The JSON number that `json!(n)` makes of an `i64`.
pub open spec fn int_v(n: i64) -> JsonV {
    if n >= 0 {
        JsonV::Number(NumberV::PosInt(n as u64))
    } else {
        JsonV::Number(NumberV::NegInt(n))
    }
}

pub open spec fn str_v(s: Seq<char>) -> JsonV {
    JsonV::Str(s)
}

pub(crate) proof fn lemma_key_index_is(es: Seq<(Seq<char>, JsonV)>, k: Seq<char>, i: int)
    requires
        is_key_at(es, k, i),
    ensures
        key_index(es, k) == Some(i),
{
    let c = choose|i: int| is_key_at(es, k, i);
    assert(is_key_at(es, k, c));
    if c < i {
        assert(es[c].0 != k);
    } else if c > i {
        assert(es[i].0 != k);
    }
}

// ---------------------------------------------------------------------------
// Executable operations
// ---------------------------------------------------------------------------

impl JsonNumber {
    /// A copy with the same view.
    pub fn copy(&self) -> (r: JsonNumber)
        ensures
            number_v(r) == number_v(*self),
    {
        match self {
            JsonNumber::PosInt(u) => JsonNumber::PosInt(*u),
            JsonNumber::NegInt(i) => JsonNumber::NegInt(*i),
            JsonNumber::Float(t) => JsonNumber::Float(t.clone()),
        }
    }
}

impl Json {
    /// A copy with the same view.
    #[verifier::loop_isolation(false)]
    pub fn deep_clone(&self) -> (r: Json)
        ensures
            r@ == self@,
        decreases self,
    {
        match self {
            Json::Null => Json::Null,
            Json::Bool(b) => Json::Bool(*b),
            Json::Number(n) => Json::Number(n.copy()),
            Json::Str(s) => Json::Str(s.clone()),
            Json::Array(v) => {
                let mut out: Vec<Json> = Vec::new();
                let mut i: usize = 0;
                while i < v.len()
                    invariant
                        i <= v.len(),
                        jv_seq(out@) == jv_seq(v@.take(i as int)),
                    decreases v.len() - i,
                {
                    assert(decreases_to!(*self => self->Array_0));
                    assert(decreases_to!(*v => v@));
                    assert(decreases_to!(v@ => v@[i as int]));
                    let c = v[i].deep_clone();
                    let ghost before = out@;
                    out.push(c);
                    assert(out@.drop_last() =~= before);
                    assert(v@.take(i + 1).drop_last() =~= v@.take(i as int));
                    i = i + 1;
                }
                assert(v@.take(v.len() as int) =~= v@);
                Json::Array(out)
            },
            Json::Object(e) => {
                let mut out: Vec<(String, Json)> = Vec::new();
                let mut i: usize = 0;
                while i < e.len()
                    invariant
                        i <= e.len(),
                        jv_entries(out@) == jv_entries(e@.take(i as int)),
                    decreases e.len() - i,
                {
                    assert(decreases_to!(*self => self->Object_0));
                    assert(decreases_to!(*e => e@));
                    assert(decreases_to!(e@ => e@[i as int]));
                    assert(decreases_to!(e@[i as int] => e@[i as int].1));
                    let c = e[i].1.deep_clone();
                    let ghost before = out@;
                    out.push((e[i].0.clone(), c));
                    assert(out@.drop_last() =~= before);
                    assert(e@.take(i + 1).drop_last() =~= e@.take(i as int));
                    i = i + 1;
                }
                assert(e@.take(e.len() as int) =~= e@);
                Json::Object(out)
            },
        }
    }
}


pub open spec fn opt_jv(r: Option<&Json>) -> Option<JsonV> {
    match r {
        Some(j) => Some(j@),
        None => None,
    }
}

/// The position of the first entry of `es` with key `key`.
pub fn find_key(es: &Vec<(String, Json)>, key: &str) -> (r: Option<usize>)
    ensures
        match r {
            Some(i) => key_index(jv_entries(es@), key@) == Some(i as int) && i < es.len(),
            None => key_index(jv_entries(es@), key@) is None,
        },
{
    proof {
        lemma_jv_entries(es@);
    }
    let ghost ev = jv_entries(es@);
    let mut i: usize = 0;
    while i < es.len()
        invariant
            i <= es.len(),
            ev == jv_entries(es@),
            ev.len() == es.len(),
            forall|j: int| 0 <= j < es.len() ==> #[trigger] ev[j] == (es@[j].0@, jv(es@[j].1)),
            forall|j: int| 0 <= j < i ==> ev[j].0 != key@,
        decreases es.len() - i,
    {
        assert(ev[i as int] == (es@[i as int].0@, jv(es@[i as int].1)));
        if str_eq(es[i].0.as_str(), key) {
            proof {
                lemma_key_index_is(ev, key@, i as int);
            }
            return Some(i);
        }
        i = i + 1;
    }
    None
}

/// Sets `key` to `value` among the entries `es`.
pub fn set_entry(es: &mut Vec<(String, Json)>, key: String, value: Json)
    ensures
        jv_entries(final(es)@) == entries_set(jv_entries(old(es)@), key@, value@),
{
    proof {
        lemma_jv_entries(es@);
    }
    let ghost ev = jv_entries(es@);
    let ghost kv = key@;
    let ghost vv = value@;
    match find_key(es, key.as_str()) {
        Some(i) => {
            es.set(i, (key, value));
            proof {
                lemma_jv_entries(es@);
                assert(jv_entries(es@) =~= ev.update(i as int, (kv, vv)));
            }
        },
        None => {
            let ghost before = es@;
            es.push((key, value));
            assert(es@.drop_last() =~= before);
        },
    }
}

impl Json {
    /// `self.get(key)`: the member `key` of an object.
    pub fn get(&self, key: &str) -> (r: Option<&Json>)
        ensures
            opt_jv(r) == get_v(self@, key@),
    {
        match self {
            Json::Object(es) => {
                proof {
                    lemma_jv_entries(es@);
                }
                assert(self@ == JsonV::Object(jv_entries(es@)));
                match find_key(es, key) {
                    Some(i) => {
                        assert(jv_entries(es@)[i as int].1 == jv(es@[i as int].1));
                        let r = Some(&es[i].1);
                        assert(get_v(self@, key@) == Some(jv(es@[i as int].1)));
                        assert(opt_jv(r) == Some(jv(es@[i as int].1)));
                        r
                    },
                    None => {
                        assert(get_v(self@, key@) is None);
                        None
                    },
                }
            },
            _ => None,
        }
    }

    /// `self.as_str()`, copied.
    pub fn as_string(&self) -> (r: Option<String>)
        ensures
            match r {
                Some(s) => self@ == JsonV::Str(s@),
                None => !(self@ is Str),
            },
    {
        match self {
            Json::Str(s) => Some(s.clone()),
            _ => None,
        }
    }

    /// `self.as_i64()`.
    pub fn as_i64(&self) -> (r: Option<i64>)
        ensures
            r == as_i64_v(Some(self@)),
    {
        match self {
            Json::Number(JsonNumber::PosInt(u)) => if *u <= 0x7fff_ffff_ffff_ffffu64 {
                Some(*u as i64)
            } else {
                None
            },
            Json::Number(JsonNumber::NegInt(i)) => Some(*i),
            _ => None,
        }
    }

    /// `json!(n)` for an `i64`.
    pub fn from_i64(n: i64) -> (r: Json)
        ensures
            r@ == int_v(n),
    {
        if n >= 0 {
            Json::Number(JsonNumber::PosInt(n as u64))
        } else {
            Json::Number(JsonNumber::NegInt(n))
        }
    }

    /// A JSON string holding `s`.
    pub fn string(s: &str) -> (r: Json)
        ensures
            r@ == JsonV::Str(s@),
    {
        Json::Str(owned(s))
    }

    /// An object with no entries.
    pub fn empty_object() -> (r: Json)
        ensures
            r@ == JsonV::Object(Seq::empty()),
    {
        let es: Vec<(String, Json)> = Vec::new();
        assert(jv_entries(es@) =~= Seq::empty());
        Json::Object(es)
    }

    /// An array with no items.
    pub fn empty_array() -> (r: Json)
        ensures
            r@ == JsonV::Array(Seq::empty()),
    {
        let v: Vec<Json> = Vec::new();
        assert(jv_seq(v@) =~= Seq::empty());
        Json::Array(v)
    }
}

/// Whether two JSON values are the same value.
pub fn json_eq(a: &Json, b: &Json) -> (r: bool)
    ensures
        r == (a@ == b@),
    decreases a,
{
    match (a, b) {
        (Json::Null, Json::Null) => true,
        (Json::Bool(x), Json::Bool(y)) => *x == *y,
        (Json::Number(x), Json::Number(y)) => match (x, y) {
            (JsonNumber::PosInt(p), JsonNumber::PosInt(q)) => *p == *q,
            (JsonNumber::NegInt(p), JsonNumber::NegInt(q)) => *p == *q,
            (JsonNumber::Float(p), JsonNumber::Float(q)) => str_eq(p.as_str(), q.as_str()),
            _ => false,
        },
        (Json::Str(x), Json::Str(y)) => str_eq(x.as_str(), y.as_str()),
        (Json::Array(x), Json::Array(y)) => {
            proof {
                lemma_jv_seq(x@);
                lemma_jv_seq(y@);
            }
            if x.len() != y.len() {
                return false;
            }
            let mut i: usize = 0;
            while i < x.len()
                invariant
                    i <= x.len() == y.len(),
                    *a == Json::Array(*x),
                    *b == Json::Array(*y),
                    jv_seq(x@).len() == x.len(),
                    jv_seq(y@).len() == y.len(),
                    forall|k: int| 0 <= k < x.len() ==> #[trigger] jv_seq(x@)[k] == jv(x@[k]),
                    forall|k: int| 0 <= k < y.len() ==> #[trigger] jv_seq(y@)[k] == jv(y@[k]),
                    forall|k: int| 0 <= k < i ==> jv(x@[k]) == jv(y@[k]),
                decreases x.len() - i,
            {
                assert(decreases_to!(*a => a->Array_0));
                assert(decreases_to!(*x => x@));
                assert(decreases_to!(x@ => x@[i as int]));
                if !json_eq(&x[i], &y[i]) {
                    assert(jv_seq(x@)[i as int] != jv_seq(y@)[i as int]);
                    return false;
                }
                i = i + 1;
            }
            assert(jv_seq(x@) =~= jv_seq(y@));
            true
        },
        (Json::Object(x), Json::Object(y)) => {
            proof {
                lemma_jv_entries(x@);
                lemma_jv_entries(y@);
            }
            if x.len() != y.len() {
                return false;
            }
            let mut i: usize = 0;
            while i < x.len()
                invariant
                    i <= x.len() == y.len(),
                    *a == Json::Object(*x),
                    *b == Json::Object(*y),
                    jv_entries(x@).len() == x.len(),
                    jv_entries(y@).len() == y.len(),
                    forall|k: int|
                        0 <= k < x.len() ==> #[trigger] jv_entries(x@)[k] == (x@[k].0@, jv(x@[k].1)),
                    forall|k: int|
                        0 <= k < y.len() ==> #[trigger] jv_entries(y@)[k] == (y@[k].0@, jv(y@[k].1)),
                    forall|k: int| 0 <= k < i ==> jv_entries(x@)[k] == jv_entries(y@)[k],
                decreases x.len() - i,
            {
                assert(decreases_to!(*a => a->Object_0));
                assert(decreases_to!(*x => x@));
                assert(decreases_to!(x@ => x@[i as int]));
                assert(decreases_to!(x@[i as int] => x@[i as int].1));
                if !str_eq(x[i].0.as_str(), y[i].0.as_str()) {
                    assert(jv_entries(x@)[i as int] != jv_entries(y@)[i as int]);
                    return false;
                }
                if !json_eq(&x[i].1, &y[i].1) {
                    assert(jv_entries(x@)[i as int] != jv_entries(y@)[i as int]);
                    return false;
                }
                i = i + 1;
            }
            assert(jv_entries(x@) =~= jv_entries(y@));
            true
        },
        _ => false,
    }
}

/// Adds the member `k: v` at the end of `obj`, whose keys the caller keeps distinct.
pub fn push_member(obj: &mut Vec<(String, Json)>, k: &str, v: Json)
    ensures
        jv_entries(final(obj)@) == jv_entries(old(obj)@).push((k@, v@)),
{
    let ghost before = obj@;
    obj.push((owned(k), v));
    assert(obj@.drop_last() =~= before);
}

/// The array holding just `v`.
pub fn array_of_one(v: Json) -> (r: Json)
    ensures
        r@ == JsonV::Array(seq![v@]),
{
    let mut items: Vec<Json> = Vec::new();
    let ghost vv = v@;
    items.push(v);
    assert(items@.drop_last() =~= Seq::<Json>::empty());
    assert(jv_seq(items@.drop_last()) =~= Seq::<JsonV>::empty());
    assert(jv(items@.last()) == vv);
    assert(jv_seq(items@) =~= seq![vv]);
    Json::Array(items)
}

/// The object holding just `k: v`.
pub fn object_of_one(k: &str, v: Json) -> (r: Json)
    ensures
        r@ == JsonV::Object(seq![(k@, v@)]),
{
    let mut es: Vec<(String, Json)> = Vec::new();
    assert(jv_entries(es@) =~= Seq::empty());
    push_member(&mut es, k, v);
    assert(jv_entries(es@) =~= seq![(k@, v@)]);
    Json::Object(es)
}

/// Reading back a key just set gives the value set.
pub proof fn lemma_set_get_same(es: Seq<(Seq<char>, JsonV)>, k: Seq<char>, v: JsonV)
    ensures
        entries_get(entries_set(es, k, v), k) == Some(v),
{
    let es2 = entries_set(es, k, v);
    match key_index(es, k) {
        Some(i) => {
            assert(is_key_at(es, k, i));
            assert(is_key_at(es2, k, i));
            lemma_key_index_is(es2, k, i);
        },
        None => {
            lemma_no_key(es, k);
            assert(is_key_at(es2, k, es.len() as int));
            lemma_key_index_is(es2, k, es.len() as int);
        },
    }
}

proof fn lemma_no_key(es: Seq<(Seq<char>, JsonV)>, k: Seq<char>)
    requires
        key_index(es, k) is None,
    ensures
        forall|j: int| 0 <= j < es.len() ==> es[j].0 != k,
{
    assert forall|j: int| 0 <= j < es.len() implies es[j].0 != k by {
        if es[j].0 == k {
            lemma_first_of(es, k, j);
        }
    }
}

/// Where some entry has key `k`, there is a first one.
proof fn lemma_first_of(es: Seq<(Seq<char>, JsonV)>, k: Seq<char>, j: int)
    requires
        0 <= j < es.len(),
        es[j].0 == k,
    ensures
        exists|i: int| is_key_at(es, k, i),
    decreases j,
{
    if exists|m: int| 0 <= m < j && es[m].0 == k {
        let m = choose|m: int| 0 <= m < j && es[m].0 == k;
        lemma_first_of(es, k, m);
    } else {
        assert(is_key_at(es, k, j));
    }
}

/// Setting one key leaves every other key as it was.
pub proof fn lemma_set_get_other(es: Seq<(Seq<char>, JsonV)>, k: Seq<char>, v: JsonV, k2: Seq<char>)
    requires
        k2 != k,
    ensures
        entries_get(entries_set(es, k, v), k2) == entries_get(es, k2),
{
    let es2 = entries_set(es, k, v);
    match key_index(es, k2) {
        Some(i) => {
            assert(is_key_at(es, k2, i));
            assert(is_key_at(es2, k2, i));
            lemma_key_index_is(es2, k2, i);
        },
        None => {
            lemma_no_key(es, k2);
            assert forall|j: int| 0 <= j < es2.len() implies es2[j].0 != k2 by {}
            if exists|i: int| is_key_at(es2, k2, i) {
                let i = choose|i: int| is_key_at(es2, k2, i);
                assert(es2[i].0 != k2);
            }
        },
    }
}

/// Looking up a key in a list of entries: the first entry answers for its
/// own key, and the rest answer for any other.
pub proof fn lemma_get_front(es: Seq<(Seq<char>, JsonV)>, k: Seq<char>)
    requires
        es.len() > 0,
    ensures
        es[0].0 == k ==> entries_get(es, k) == Some(es[0].1),
        es[0].0 != k ==> entries_get(es, k) == entries_get(es.drop_first(), k),
{
    if es[0].0 == k {
        assert(is_key_at(es, k, 0));
        lemma_key_index_is(es, k, 0);
    } else {
        let rest = es.drop_first();
        match key_index(rest, k) {
            Some(i) => {
                assert(is_key_at(rest, k, i));
                assert forall|j: int| 0 <= j < i + 1 implies es[j].0 != k by {
                    if j > 0 {
                        assert(es[j] == rest[j - 1]);
                    }
                }
                assert(is_key_at(es, k, i + 1));
                lemma_key_index_is(es, k, i + 1);
            },
            None => {
                lemma_no_key(rest, k);
                assert forall|j: int| 0 <= j < es.len() implies es[j].0 != k by {
                    if j > 0 {
                        assert(es[j] == rest[j - 1]);
                    }
                }
                if exists|i: int| is_key_at(es, k, i) {
                    let i = choose|i: int| is_key_at(es, k, i);
                    assert(es[i].0 != k);
                }
            },
        }
    }
}

/// A key absent from the entries is not found.
pub proof fn lemma_get_absent(es: Seq<(Seq<char>, JsonV)>, k: Seq<char>)
    requires
        forall|j: int| 0 <= j < es.len() ==> es[j].0 != k,
    ensures
        entries_get(es, k) is None,
{
    if exists|i: int| is_key_at(es, k, i) {
        let i = choose|i: int| is_key_at(es, k, i);
        assert(es[i].0 != k);
    }
}

/// Setting a key keeps the keys distinct.
pub proof fn lemma_set_keeps_distinct(es: Seq<(Seq<char>, JsonV)>, k: Seq<char>, v: JsonV)
    requires
        keys_distinct(es),
    ensures
        keys_distinct(entries_set(es, k, v)),
{
    match key_index(es, k) {
        Some(i) => {
            assert(is_key_at(es, k, i));
            let e2 = es.update(i, (k, v));
            assert forall|a: int, b: int| 0 <= a < b < e2.len() implies e2[a].0 != e2[b].0 by {
                if a == i {
                    assert(es[i].0 == k);
                } else if b == i {
                    assert(es[i].0 == k);
                }
            }
        },
        None => {
            lemma_no_key(es, k);
        },
    }
}

} // verus!

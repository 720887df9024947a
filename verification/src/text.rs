//! Character-level string helpers with exact specifications.
//!
//! Every helper here works on the `char` view of a string (`Seq<char>`), so its
//! contract can be read without knowing how the string is stored.

use vstd::prelude::*;
use vstd::std_specs::iter::IteratorSpec;

verus! {

// ---------------------------------------------------------------------------
// Specifications
// ---------------------------------------------------------------------------

/// Unicode `White_Space`, the set `char::is_whitespace` tests (and so `str::trim`).
pub open spec fn is_ws(c: char) -> bool {
    let u = c as u32;
    ||| 0x09 <= u <= 0x0D
    ||| u == 0x20
    ||| u == 0x85
    ||| u == 0xA0
    ||| u == 0x1680
    ||| 0x2000 <= u <= 0x200A
    ||| u == 0x2028
    ||| u == 0x2029
    ||| u == 0x202F
    ||| u == 0x205F
    ||| u == 0x3000
}

/// `s.trim().is_empty()`: every character is whitespace.
pub open spec fn is_blank_spec(s: Seq<char>) -> bool {
    forall|i: int| 0 <= i < s.len() ==> is_ws(#[trigger] s[i])
}

/// `s` with every trailing `c` removed (`str::trim_end_matches(c)`).
pub open spec fn trim_end_char(s: Seq<char>, c: char) -> Seq<char>
    decreases s.len(),
{
    if s.len() > 0 && s.last() == c {
        trim_end_char(s.drop_last(), c)
    } else {
        s
    }
}

/// The pieces of `parts` joined with `sep` between neighbours (`[String]::join`).
pub open spec fn join_spec(parts: Seq<Seq<char>>, sep: Seq<char>) -> Seq<char>
    decreases parts.len(),
{
    if parts.len() == 0 {
        Seq::empty()
    } else if parts.len() == 1 {
        parts[0]
    } else {
        join_spec(parts.drop_last(), sep) + sep + parts.last()
    }
}

/// Splits `t` at every `'\n'`: the pieces that a newline ended, and the
/// piece after the last newline (`str::split('\n')` with its last piece apart).
pub open spec fn split_newlines(t: Seq<char>) -> (Seq<Seq<char>>, Seq<char>)
    decreases t.len(),
{
    if t.len() == 0 {
        (Seq::empty(), Seq::empty())
    } else {
        let (done, cur) = split_newlines(t.drop_last());
        if t.last() == '\n' {
            (done.push(cur), Seq::empty())
        } else {
            (done, cur.push(t.last()))
        }
    }
}

/// One `'\r'` removed from the end of `s`, if it ends with one.
pub open spec fn strip_one_cr(s: Seq<char>) -> Seq<char> {
    if s.len() > 0 && s.last() == '\r' {
        s.drop_last()
    } else {
        s
    }
}

/// `str::lines`: lines ended by `"\n"` or `"\r\n"`; a last line without a
/// newline keeps its characters, and a final newline adds no empty line.
pub open spec fn lines_spec(t: Seq<char>) -> Seq<Seq<char>> {
    let (done, cur) = split_newlines(t);
    let ended = done.map_values(|l: Seq<char>| strip_one_cr(l));
    if cur.len() > 0 {
        ended.push(cur)
    } else {
        ended
    }
}

/// Splits `t` at `','` and at whitespace and drops empty pieces: the
/// pieces finished so far and the piece being read.
pub open spec fn split_words(t: Seq<char>) -> (Seq<Seq<char>>, Seq<char>)
    decreases t.len(),
{
    if t.len() == 0 {
        (Seq::empty(), Seq::empty())
    } else {
        let (done, cur) = split_words(t.drop_last());
        let c = t.last();
        if c == ',' || is_ws(c) {
            if cur.len() > 0 {
                (done.push(cur), Seq::empty())
            } else {
                (done, Seq::empty())
            }
        } else {
            (done, cur.push(c))
        }
    }
}

/// The non-empty pieces of `t` between commas and whitespace, in order.
pub open spec fn words_spec(t: Seq<char>) -> Seq<Seq<char>> {
    let (done, cur) = split_words(t);
    if cur.len() > 0 {
        done.push(cur)
    } else {
        done
    }
}

// ---------------------------------------------------------------------------
// Trusted std calls
// ---------------------------------------------------------------------------

/// `String::push`: the string afterwards is the old one with `c` added at the end.
#[verifier::external_body]
pub(crate) fn push_char(s: &mut String, c: char)
    ensures
        final(s)@ == old(s)@.push(c),
{
    s.push(c);
}

// ---------------------------------------------------------------------------
// Verified helpers
// ---------------------------------------------------------------------------

/// The characters of `s`, in order.
pub fn chars_of(s: &str) -> (v: Vec<char>)
    ensures
        v@ == s@,
{
    let mut v: Vec<char> = Vec::new();
    for c in iter: s.chars()
        invariant
            v@ == iter.seq().take(iter.index() as int),
    {
        v.push(c);
    }
    v
}

/// The string made of `cs[lo..hi]`.
pub fn string_from_range(cs: &Vec<char>, lo: usize, hi: usize) -> (s: String)
    requires
        lo <= hi <= cs.len(),
    ensures
        s@ == cs@.subrange(lo as int, hi as int),
{
    let mut s = String::new();
    let mut i = lo;
    while i < hi
        invariant
            lo <= i <= hi <= cs.len(),
            s@ == cs@.subrange(lo as int, i as int),
        decreases hi - i,
    {
        push_char(&mut s, cs[i]);
        i = i + 1;
    }
    s
}

/// The string made of all of `cs`.
pub fn string_of(cs: &Vec<char>) -> (s: String)
    ensures
        s@ == cs@,
{
    let s = string_from_range(cs, 0, cs.len());
    assert(cs@.subrange(0, cs@.len() as int) =~= cs@);
    s
}

/// An owned copy of `s`.
pub fn owned(s: &str) -> (r: String)
    ensures
        r@ == s@,
{
    s.to_owned()
}

/// Whether two strings hold the same characters.
pub fn str_eq(a: &str, b: &str) -> (r: bool)
    ensures
        r == (a@ == b@),
{
    let x = a.to_owned();
    let y = b.to_owned();
    x == y
}

/// Appends `t` to `s`.
pub fn append_str(s: &mut String, t: &str)
    ensures
        final(s)@ == old(s)@ + t@,
{
    let cs = chars_of(t);
    let ghost s0 = s@;
    let mut i: usize = 0;
    while i < cs.len()
        invariant
            i <= cs.len(),
            cs@ == t@,
            s@ == s0 + cs@.take(i as int),
        decreases cs.len() - i,
    {
        push_char(s, cs[i]);
        i = i + 1;
        assert(cs@.take(i as int) =~= cs@.take((i - 1) as int).push(cs@[i - 1]));
    }
    assert(cs@.take(cs.len() as int) =~= cs@);
}

/// `s.strip_prefix(prefix)`: the rest of `s` when it begins with `prefix`.
pub fn strip_prefix(s: &str, prefix: &str) -> (r: Option<String>)
    ensures
        r matches Some(rest) ==> prefix@.is_prefix_of(s@) && rest@ == s@.skip(prefix@.len() as int),
        r is None ==> !prefix@.is_prefix_of(s@),
{
    let sc = chars_of(s);
    let pc = chars_of(prefix);
    if pc.len() > sc.len() {
        return None;
    }
    let mut i: usize = 0;
    while i < pc.len()
        invariant
            i <= pc.len() <= sc.len(),
            sc@ == s@,
            pc@ == prefix@,
            forall|j: int| 0 <= j < i ==> pc@[j] == sc@[j],
        decreases pc.len() - i,
    {
        if pc[i] != sc[i] {
            return None;
        }
        i = i + 1;
    }
    let rest = string_from_range(&sc, pc.len(), sc.len());
    assert(rest@ =~= s@.skip(prefix@.len() as int));
    Some(rest)
}

/// `s.trim().is_empty()`.
pub fn is_blank(s: &str) -> (r: bool)
    ensures
        r == is_blank_spec(s@),
{
    let cs = chars_of(s);
    let mut i: usize = 0;
    while i < cs.len()
        invariant
            i <= cs.len(),
            cs@ == s@,
            forall|j: int| 0 <= j < i ==> is_ws(#[trigger] cs@[j]),
        decreases cs.len() - i,
    {
        if !is_whitespace(cs[i]) {
            return false;
        }
        i = i + 1;
    }
    true
}

/// `char::is_whitespace`.
pub fn is_whitespace(c: char) -> (r: bool)
    ensures
        r == is_ws(c),
{
    let u = c as u32;
    (0x09 <= u && u <= 0x0D) || u == 0x20 || u == 0x85 || u == 0xA0 || u == 0x1680 || (0x2000
        <= u && u <= 0x200A) || u == 0x2028 || u == 0x2029 || u == 0x202F || u == 0x205F || u
        == 0x3000
}

/// `s.trim_end_matches(c)`.
pub fn trim_end_matches(s: &str, c: char) -> (r: String)
    ensures
        r@ == trim_end_char(s@, c),
{
    let cs = chars_of(s);
    let mut n = cs.len();
    assert(cs@.take(n as int) =~= s@);
    while n > 0 && cs[n - 1] == c
        invariant
            n <= cs.len(),
            cs@ == s@,
            trim_end_char(cs@.take(n as int), c) == trim_end_char(s@, c),
        decreases n,
    {
        assert(cs@.take(n as int).drop_last() =~= cs@.take(n - 1));
        n = n - 1;
    }
    string_from_range(&cs, 0, n)
}

/// `parts.join(sep)`.
pub fn join(parts: &Vec<String>, sep: &str) -> (r: String)
    ensures
        r@ == join_spec(parts.deep_view(), sep@),
{
    let mut r = String::new();
    let mut i: usize = 0;
    while i < parts.len()
        invariant
            i <= parts.len(),
            r@ == join_spec(parts.deep_view().take(i as int), sep@),
        decreases parts.len() - i,
    {
        proof {
            let p = parts.deep_view();
            assert(p.take(i + 1).drop_last() =~= p.take(i as int));
            assert(p.take(i + 1).last() == p[i as int]);
        }
        if i > 0 {
            append_str(&mut r, sep);
        }
        append_str(&mut r, parts[i].as_str());
        i = i + 1;
    }
    assert(parts.deep_view().take(parts.len() as int) =~= parts.deep_view());
    r
}

/// `text.lines()`, collected.
pub fn lines(text: &str) -> (r: Vec<String>)
    ensures
        r.deep_view() == lines_spec(text@),
{
    let cs = chars_of(text);
    let (done, cur) = split_at_newlines(&cs, cs.len());
    assert(cs@.take(cs.len() as int) =~= text@);
    let mut r: Vec<String> = Vec::new();
    let mut i: usize = 0;
    while i < done.len()
        invariant
            i <= done.len(),
            r.deep_view() =~= done.deep_view().take(i as int).map_values(
                |l: Seq<char>| strip_one_cr(l),
            ),
        decreases done.len() - i,
    {
        let line = strip_trailing_cr(done[i].as_str());
        let ghost before = r.deep_view();
        r.push(line);
        assert(r.deep_view() =~= before.push(line@));
        i = i + 1;
        proof {
            assert(done.deep_view().take(i as int) =~= done.deep_view().take(i - 1).push(
                done.deep_view()[i - 1],
            ));
        }
    }
    assert(done.deep_view().take(done.len() as int) =~= done.deep_view());
    if !cur.as_str().is_empty() {
        r.push(cur);
    }
    r
}

fn strip_trailing_cr(s: &str) -> (r: String)
    ensures
        r@ == strip_one_cr(s@),
{
    let cs = chars_of(s);
    if cs.len() > 0 && cs[cs.len() - 1] == '\r' {
        string_from_range(&cs, 0, cs.len() - 1)
    } else {
        let r = string_of(&cs);
        r
    }
}

/// The pieces of `cs[..n]` split at newlines: the ended ones and the rest.
pub fn split_at_newlines(cs: &Vec<char>, n: usize) -> (r: (Vec<String>, String))
    requires
        n <= cs.len(),
    ensures
        (r.0.deep_view(), r.1@) == split_newlines(cs@.take(n as int)),
{
    let mut done: Vec<String> = Vec::new();
    let mut start: usize = 0;
    let mut i: usize = 0;
    while i < n
        invariant
            start <= i <= n <= cs.len(),
            (done.deep_view(), cs@.subrange(start as int, i as int)) == split_newlines(
                cs@.take(i as int),
            ),
        decreases n - i,
    {
        assert(cs@.take(i + 1).drop_last() =~= cs@.take(i as int));
        if cs[i] == '\n' {
            let piece = string_from_range(cs, start, i);
            done.push(piece);
            start = i + 1;
            assert(cs@.subrange(start as int, i + 1) =~= Seq::<char>::empty());
        } else {
            assert(cs@.subrange(start as int, i + 1) =~= cs@.subrange(start as int, i as int).push(
                cs@[i as int],
            ));
        }
        i = i + 1;
    }
    let cur = string_from_range(cs, start, n);
    (done, cur)
}

/// The non-empty pieces of `text` between commas and whitespace.
pub fn words(text: &str) -> (r: Vec<String>)
    ensures
        r.deep_view() == words_spec(text@),
{
    let cs = chars_of(text);
    let mut done: Vec<String> = Vec::new();
    let mut cur = String::new();
    let mut i: usize = 0;
    while i < cs.len()
        invariant
            i <= cs.len(),
            cs@ == text@,
            (done.deep_view(), cur@) == split_words(cs@.take(i as int)),
        decreases cs.len() - i,
    {
        assert(cs@.take(i + 1).drop_last() =~= cs@.take(i as int));
        let c = cs[i];
        if c == ',' || is_whitespace(c) {
            if !cur.as_str().is_empty() {
                done.push(cur);
            }
            cur = String::new();
        } else {
            push_char(&mut cur, c);
        }
        i = i + 1;
    }
    assert(cs@.take(cs.len() as int) =~= text@);
    if !cur.as_str().is_empty() {
        done.push(cur);
    }
    done
}

// ---------------------------------------------------------------------------
// Order
// ---------------------------------------------------------------------------

/// `a < b` for strings: the order of `String::cmp`, by code point, a proper
/// prefix first.
pub open spec fn str_lt(a: Seq<char>, b: Seq<char>) -> bool
    decreases a.len(),
{
    if a.len() == 0 {
        b.len() > 0
    } else if b.len() == 0 {
        false
    } else if a[0] != b[0] {
        (a[0] as int) < (b[0] as int)
    } else {
        str_lt(a.drop_first(), b.drop_first())
    }
}

/// Every string of `s` is below the ones after it.
pub open spec fn sorted_strict(s: Seq<Seq<char>>) -> bool {
    forall|i: int, j: int| 0 <= i < j < s.len() ==> str_lt(#[trigger] s[i], #[trigger] s[j])
}

pub proof fn lemma_str_lt_irreflexive(a: Seq<char>)
    ensures
        !str_lt(a, a),
    decreases a.len(),
{
    if a.len() > 0 {
        lemma_str_lt_irreflexive(a.drop_first());
    }
}

pub proof fn lemma_str_lt_transitive(a: Seq<char>, b: Seq<char>, c: Seq<char>)
    requires
        str_lt(a, b),
        str_lt(b, c),
    ensures
        str_lt(a, c),
    decreases a.len(),
{
    if a.len() > 0 && b.len() > 0 && c.len() > 0 && a[0] == b[0] && b[0] == c[0] {
        lemma_str_lt_transitive(a.drop_first(), b.drop_first(), c.drop_first());
    }
}

pub proof fn lemma_str_lt_total(a: Seq<char>, b: Seq<char>)
    requires
        a != b,
    ensures
        str_lt(a, b) || str_lt(b, a),
    decreases a.len(),
{
    if a.len() > 0 && b.len() > 0 && a[0] == b[0] {
        if a.drop_first() == b.drop_first() {
            assert(a =~= seq![a[0]] + a.drop_first());
            assert(b =~= seq![b[0]] + b.drop_first());
        }
        lemma_str_lt_total(a.drop_first(), b.drop_first());
    } else if a.len() == 0 && b.len() == 0 {
        assert(a =~= b);
    } else if a.len() > 0 && b.len() > 0 {
        assert((a[0] as int) != (b[0] as int));
    }
}

/// Whether `a` comes before `b`.
pub fn str_less(a: &str, b: &str) -> (r: bool)
    ensures
        r == str_lt(a@, b@),
{
    let x = chars_of(a);
    let y = chars_of(b);
    let mut i: usize = 0;
    assert(x@.skip(0) =~= x@);
    assert(y@.skip(0) =~= y@);
    while i < x.len() && i < y.len() && x[i] == y[i]
        invariant
            i <= x.len(),
            i <= y.len(),
            x@ == a@,
            y@ == b@,
            str_lt(x@.skip(i as int), y@.skip(i as int)) == str_lt(a@, b@),
        decreases x.len() - i,
    {
        assert(x@.skip(i as int).drop_first() =~= x@.skip(i + 1));
        assert(y@.skip(i as int).drop_first() =~= y@.skip(i + 1));
        i = i + 1;
    }
    if i == x.len() {
        i < y.len()
    } else if i == y.len() {
        false
    } else {
        x[i] < y[i]
    }
}

/// Puts `s` into the sorted list `v` of distinct strings, where it is not
/// there yet.
pub fn insert_sorted(v: &mut Vec<String>, s: String)
    requires
        sorted_strict(old(v).deep_view()),
    ensures
        sorted_strict(final(v).deep_view()),
        final(v).deep_view().to_set() == old(v).deep_view().to_set().insert(s@),
{
    let ghost d = v.deep_view();
    let mut p: usize = 0;
    while p < v.len() && str_less(v[p].as_str(), s.as_str())
        invariant
            p <= v.len(),
            d == v.deep_view(),
            forall|k: int| 0 <= k < p ==> str_lt(#[trigger] d[k], s@),
        decreases v.len() - p,
    {
        p = p + 1;
    }
    if p < v.len() && str_eq(v[p].as_str(), s.as_str()) {
        assert(d.to_set().insert(s@) =~= d.to_set()) by {
            assert(d.contains(d[p as int]));
        }
        return;
    }
    proof {
        if p < d.len() {
            lemma_str_lt_total(d[p as int], s@);
        }
    }
    let ghost sv = s@;
    v.insert(p, s);
    let ghost e = v.deep_view();
    assert(e =~= d.insert(p as int, sv));
    assert forall|i: int, j: int| 0 <= i < j < e.len() implies str_lt(#[trigger] e[i], #[trigger] e[j]) by {
        if j < p {
        } else if j == p {
        } else if i < p {
            assert(e[j] == d[j - 1]);
            if j - 1 > p {
                lemma_str_lt_transitive(sv, d[p as int], d[j - 1]);
            }
            lemma_str_lt_transitive(d[i], sv, d[j - 1]);
        } else if i == p {
            if j - 1 > p {
                lemma_str_lt_transitive(sv, d[p as int], d[j - 1]);
            }
        } else {
            assert(e[i] == d[i - 1]);
            assert(e[j] == d[j - 1]);
        }
    }
    assert(e.to_set() =~= d.to_set().insert(sv)) by {
        assert forall|x: Seq<char>| e.contains(x) <==> d.contains(x) || x == sv by {
            if e.contains(x) {
                let k = choose|k: int| 0 <= k < e.len() && e[k] == x;
                if k < p {
                    assert(d[k] == x);
                } else if k > p {
                    assert(d[k - 1] == x);
                }
            }
            if d.contains(x) {
                let k = choose|k: int| 0 <= k < d.len() && d[k] == x;
                if k < p {
                    assert(e[k] == x);
                } else {
                    assert(e[k + 1] == x);
                }
            }
            if x == sv {
                assert(e[p as int] == x);
            }
        }
    }
}

/// `s` without leading whitespace.
pub open spec fn trim_start_spec(s: Seq<char>) -> Seq<char>
    decreases s.len(),
{
    if s.len() > 0 && is_ws(s[0]) {
        trim_start_spec(s.drop_first())
    } else {
        s
    }
}

/// `s` without trailing whitespace.
pub open spec fn trim_end_spec(s: Seq<char>) -> Seq<char>
    decreases s.len(),
{
    if s.len() > 0 && is_ws(s.last()) {
        trim_end_spec(s.drop_last())
    } else {
        s
    }
}

/// `str::trim`: `s` without leading and trailing whitespace.
pub open spec fn trim_spec(s: Seq<char>) -> Seq<char> {
    trim_end_spec(trim_start_spec(s))
}

/// `s.trim()`.
pub fn trim(s: &str) -> (r: String)
    ensures
        r@ == trim_spec(s@),
{
    let cs = chars_of(s);
    let mut lo: usize = 0;
    assert(cs@.skip(0) =~= cs@);
    while lo < cs.len() && is_whitespace(cs[lo])
        invariant
            lo <= cs.len(),
            cs@ == s@,
            trim_start_spec(cs@.skip(lo as int)) == trim_start_spec(s@),
        decreases cs.len() - lo,
    {
        assert(cs@.skip(lo as int).drop_first() =~= cs@.skip(lo + 1));
        lo = lo + 1;
    }
    let ghost t = cs@.skip(lo as int);
    assert(trim_start_spec(s@) == t);
    let mut hi: usize = cs.len();
    assert(cs@.subrange(lo as int, hi as int) =~= t);
    while hi > lo && is_whitespace(cs[hi - 1])
        invariant
            lo <= hi <= cs.len(),
            t == cs@.skip(lo as int),
            trim_end_spec(cs@.subrange(lo as int, hi as int)) == trim_end_spec(t),
        decreases hi,
    {
        assert(cs@.subrange(lo as int, hi as int).drop_last() =~= cs@.subrange(lo as int, hi - 1));
        hi = hi - 1;
    }
    string_from_range(&cs, lo, hi)
}

/// The lines `done`, each followed by a newline, run together.
pub open spec fn with_newlines(done: Seq<Seq<char>>) -> Seq<char>
    decreases done.len(),
{
    if done.len() == 0 {
        Seq::empty()
    } else {
        with_newlines(done.drop_last()) + done.last() + seq!['\n']
    }
}

/// Splitting at newlines loses nothing and adds nothing: the ended lines,
/// each with its newline, followed by the rest, give back the text; and no
/// piece holds a newline.
pub proof fn split_newlines_loses_nothing(t: Seq<char>)
    ensures
        with_newlines(split_newlines(t).0) + split_newlines(t).1 == t,
        forall|i: int|
            0 <= i < split_newlines(t).0.len() ==> !(#[trigger] split_newlines(t).0[i]).contains('\n'),
        !split_newlines(t).1.contains('\n'),
    decreases t.len(),
{
    if t.len() == 0 {
        assert(Seq::<char>::empty() + Seq::<char>::empty() =~= t);
    } else {
        split_newlines_loses_nothing(t.drop_last());
        let (done, cur) = split_newlines(t.drop_last());
        if t.last() == '\n' {
            assert(done.push(cur).drop_last() =~= done);
            assert(with_newlines(done) + cur + seq!['\n'] + Seq::<char>::empty() =~= t);
            assert forall|i: int| 0 <= i < done.push(cur).len() implies !(#[trigger] done.push(cur)[i]).contains('\n') by {
                if i < done.len() {
                    assert(done.push(cur)[i] == done[i]);
                }
            }
        } else {
            assert(with_newlines(done) + cur == t.drop_last());
            assert(t =~= t.drop_last().push(t.last()));
            assert(with_newlines(done) + cur.push(t.last()) =~= (with_newlines(done) + cur).push(t.last()));
            assert(!cur.push(t.last()).contains('\n')) by {
                if cur.push(t.last()).contains('\n') {
                    let j = choose|j: int| 0 <= j < cur.push(t.last()).len() && cur.push(t.last())[j] == '\n';
                    if j < cur.len() {
                        assert(cur[j] == '\n');
                    }
                }
            }
        }
    }
}

/// Text without a newline is one unfinished piece.
proof fn lemma_split_without_newline(s: Seq<char>)
    requires
        !s.contains('\n'),
    ensures
        split_newlines(s) == (Seq::<Seq<char>>::empty(), s),
    decreases s.len(),
{
    if s.len() > 0 {
        assert(!s.drop_last().contains('\n')) by {
            if s.drop_last().contains('\n') {
                let j = choose|j: int| 0 <= j < s.drop_last().len() && s.drop_last()[j] == '\n';
                assert(s[j] == '\n');
            }
        }
        lemma_split_without_newline(s.drop_last());
        assert(s.last() != '\n') by {
            assert(s[s.len() - 1] == s.last());
        }
        assert(s.drop_last().push(s.last()) =~= s);
    }
}

/// Splitting `t + b` is splitting `t`, then splitting its unfinished piece
/// followed by `b`.
pub proof fn lemma_split_newlines_append(t: Seq<char>, b: Seq<char>)
    ensures
        ({
            let (d, c) = split_newlines(t);
            let (d2, c2) = split_newlines(c + b);
            split_newlines(t + b) == (d + d2, c2)
        }),
    decreases b.len(),
{
    let (d, c) = split_newlines(t);
    if b.len() == 0 {
        assert(t + b =~= t);
        assert(c + b =~= c);
        split_newlines_loses_nothing(t);
        lemma_split_without_newline(c);
        assert(d + Seq::<Seq<char>>::empty() =~= d);
    } else {
        let b2 = b.drop_last();
        lemma_split_newlines_append(t, b2);
        assert((t + b).drop_last() =~= t + b2);
        assert((t + b).last() == b.last());
        assert((c + b).drop_last() =~= c + b2);
        assert((c + b).last() == b.last());
        let (d3, c3) = split_newlines(c + b2);
        assert((d + d3).push(c3) =~= d + d3.push(c3));
    }
}

} // verus!
